use vstd::prelude::*;

verus! {

/// The kinds of server error, without their payloads.
#[derive(Debug, Clone, Copy, PartialEq, Eq, Structural)]
pub enum ErrorType {
    Storage,
    InternalError,
    BadData,
    BadResponseData,
    BadHttpResponseData,
    Unauthorized,
    NotFound,
    RenewLease,
    RevokeLease,
    BadRequest,
    Migration,
    BackendMigration,
    MountNotFound,
    MountPathConflict,
    InvalidMountPath,
    InvalidMountType,
    InvalidInitializeParams,
    StateTransition,
    MasterKeyRecovery,
    UniqueConstraintViolation,
    ForeignKeyViolation,
    SealInNonRootNamespace,
    Recovery,
}

/// The HTTP status an error of kind `e` is answered with.
pub open spec fn spec_status_code(e: ErrorType) -> u16 {
    match e {
        ErrorType::Storage | ErrorType::InternalError | ErrorType::BadData
        | ErrorType::BadResponseData | ErrorType::BadHttpResponseData | ErrorType::RenewLease
        | ErrorType::RevokeLease | ErrorType::Migration | ErrorType::StateTransition
        | ErrorType::BackendMigration | ErrorType::Recovery => 500,
        ErrorType::Unauthorized | ErrorType::MasterKeyRecovery => 401,
        ErrorType::NotFound | ErrorType::MountNotFound => 404,
        ErrorType::BadRequest | ErrorType::InvalidMountPath | ErrorType::InvalidInitializeParams
        | ErrorType::InvalidMountType => 400,
        ErrorType::MountPathConflict | ErrorType::UniqueConstraintViolation => 409,
        ErrorType::ForeignKeyViolation => 422,
        ErrorType::SealInNonRootNamespace => 403,
    }
}

impl ErrorType {
    /// The HTTP status code of the API error this error becomes.
    pub fn status_code(self) -> (r: u16)
        ensures
            r == spec_status_code(self),
    {
        match self {
            ErrorType::Storage | ErrorType::InternalError | ErrorType::BadData
            | ErrorType::BadResponseData | ErrorType::BadHttpResponseData | ErrorType::RenewLease
            | ErrorType::RevokeLease | ErrorType::Migration | ErrorType::StateTransition
            | ErrorType::BackendMigration | ErrorType::Recovery => 500,
            ErrorType::Unauthorized | ErrorType::MasterKeyRecovery => 401,
            ErrorType::NotFound | ErrorType::MountNotFound => 404,
            ErrorType::BadRequest | ErrorType::InvalidMountPath
            | ErrorType::InvalidInitializeParams | ErrorType::InvalidMountType => 400,
            ErrorType::MountPathConflict | ErrorType::UniqueConstraintViolation => 409,
            ErrorType::ForeignKeyViolation => 422,
            ErrorType::SealInNonRootNamespace => 403,
        }
    }
}

/// The kind of a storage error reported with the SQLite extended result
/// code `code`: foreign key (787) and unique (1555) constraint violations
/// are told apart, any other error is a storage error.
pub fn classify_storage_error(code: Option<&str>) -> (r: ErrorType)
    ensures
        r == match code {
            Some(c) => if c@ == "787"@ {
                ErrorType::ForeignKeyViolation
            } else if c@ == "1555"@ {
                ErrorType::UniqueConstraintViolation
            } else {
                ErrorType::Storage
            },
            None => ErrorType::Storage,
        },
{
    match code {
        Some(c) => {
            if crate::text::str_equal(c, "787") {
                ErrorType::ForeignKeyViolation
            } else if crate::text::str_equal(c, "1555") {
                ErrorType::UniqueConstraintViolation
            } else {
                ErrorType::Storage
            }
        },
        None => ErrorType::Storage,
    }
}

} // verus!
