use vstd::prelude::*;

use crate::error::ErrorType;
use crate::mount::{MountConfig, SYSTEM_MOUNT_PATH};
use crate::text::{starts_with, str_starts_with};

verus! {

/// The backend a request is handed to.
#[derive(Debug, Clone, Copy, PartialEq, Eq, Structural)]
pub enum RouteTarget {
    /// The system backend, mounted at `sys/`.
    System,
    /// The mount of the request's namespace whose path is the longest prefix
    /// of the request path.
    Mount,
}

/// Why a request cannot be routed.
#[derive(Debug, Clone, PartialEq, Eq)]
pub enum RouteError {
    /// Only the system backend answers before the storage is unsealed.
    Unauthorized,
    /// No mount of the namespace is a prefix of `path`.
    MountNotFound { path: String },
    /// The backend of the mount is not loaded.
    Internal,
}

impl RouteError {
    /// The kind of server error this is reported as.
    pub fn kind(&self) -> (r: ErrorType)
        ensures
            r == match self {
                RouteError::Unauthorized => ErrorType::Unauthorized,
                RouteError::MountNotFound { .. } => ErrorType::MountNotFound,
                RouteError::Internal => ErrorType::InternalError,
            },
    {
        match self {
            RouteError::Unauthorized => ErrorType::Unauthorized,
            RouteError::MountNotFound { .. } => ErrorType::MountNotFound,
            RouteError::Internal => ErrorType::InternalError,
        }
    }
}

/// Picks the backend of a request for `path`: paths under `sys/` go to the
/// system backend; the others go to a mount of the request's namespace, and
/// are refused when there is no namespace yet (the storage is not unsealed).
pub fn route_target(has_namespace: bool, path: &str) -> (r: Result<RouteTarget, RouteError>)
    ensures
        starts_with(path@, "sys/"@) ==> r == Ok::<RouteTarget, RouteError>(RouteTarget::System),
        !starts_with(path@, "sys/"@) && has_namespace ==> r == Ok::<RouteTarget, RouteError>(
            RouteTarget::Mount,
        ),
        !starts_with(path@, "sys/"@) && !has_namespace ==> r == Err::<RouteTarget, RouteError>(
            RouteError::Unauthorized,
        ),
{
    proof {
        reveal_strlit("sys/");
    }
    if str_starts_with(path, SYSTEM_MOUNT_PATH) {
        Ok(RouteTarget::System)
    } else if has_namespace {
        Ok(RouteTarget::Mount)
    } else {
        Err(RouteError::Unauthorized)
    }
}

/// Where a routed request is served: the path of the mount it goes to and
/// the mount configuration it is handled with (and its response is
/// registered with).
#[derive(Debug, Clone, PartialEq, Eq)]
pub struct RouteChoice {
    pub mount_path: String,
    pub config: MountConfig,
}

/// Where a request for `path` with the target `target` is served: the
/// system backend under `sys/` with `system_config` (the default mount
/// configuration), or the mount found for a mount target, `mount` (its path
/// and configuration), with that mount's own configuration. A mount target
/// without a mount fails with `MountNotFound`; a backend that is not loaded
/// fails with `Internal`.
pub fn choose_route(
    target: RouteTarget,
    path: &str,
    mount: Option<(String, MountConfig)>,
    backend_found: bool,
    system_config: MountConfig,
) -> (r: Result<RouteChoice, RouteError>)
    ensures
        target == RouteTarget::System ==> (if backend_found {
            r matches Ok(c) && c.mount_path@ == "sys/"@ && c.config == system_config
        } else {
            r == Err::<RouteChoice, RouteError>(RouteError::Internal)
        }),
        target == RouteTarget::Mount ==> match mount {
            None => r matches Err(RouteError::MountNotFound { path: p }) && p@ == path@,
            Some((m, config)) => if backend_found {
                r matches Ok(c) && c.mount_path == m && c.config == config
            } else {
                r == Err::<RouteChoice, RouteError>(RouteError::Internal)
            },
        },
{
    match target {
        RouteTarget::System => {
            if backend_found {
                Ok(RouteChoice { mount_path: SYSTEM_MOUNT_PATH.to_owned(), config: system_config })
            } else {
                Err(RouteError::Internal)
            }
        },
        RouteTarget::Mount => {
            match mount {
                None => Err(RouteError::MountNotFound { path: path.to_owned() }),
                Some((m, config)) => {
                    if backend_found {
                        Ok(RouteChoice { mount_path: m, config })
                    } else {
                        Err(RouteError::Internal)
                    }
                },
            }
        },
    }
}

} // verus!
