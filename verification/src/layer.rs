use vstd::prelude::*;

verus! {

/// The service that turns HTTP requests into logical requests for `inner`
/// and its answers back into HTTP responses.
#[derive(Debug, Clone)]
pub struct LogicalRequestResponseService<S> {
    inner: S,
}

impl<S> LogicalRequestResponseService<S> {
    /// The wrapped service.
    pub closed spec fn wrapped(&self) -> S {
        self.inner
    }

    /// Wraps `inner`.
    pub fn new(inner: S) -> (r: Self)
        ensures
            r.wrapped() == inner,
    {
        Self { inner }
    }

    /// The wrapped service.
    pub fn inner(&self) -> (r: &S)
        ensures
            *r == self.wrapped(),
    {
        &self.inner
    }
}

/// Builds a [`LogicalRequestResponseService`] around a service.
#[derive(Debug, Clone, Copy)]
pub struct LogicalRequestResponseLayer {}

impl LogicalRequestResponseLayer {
    pub fn new() -> (r: Self) {
        Self {  }
    }

    /// The service wrapping `inner`.
    pub fn layer<S>(&self, inner: S) -> (r: LogicalRequestResponseService<S>)
        ensures
            r.wrapped() == inner,
    {
        LogicalRequestResponseService::new(inner)
    }
}

} // verus!
