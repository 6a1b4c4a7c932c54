use crate::chain::Chain;
use crate::error_tree::ErrorTree;
use crate::model::TreeView;
use crate::string_tree::StringErrorTree;
use vstd::prelude::*;

verus! {

/// Wraps a chain-shaped error so that it stands as an error tree. The
/// wrapper delegates message, shape and snapshot unchanged, so wrapping
/// never changes the observable shape.
pub struct ErrorWrapper<E>(E);

impl<E: ErrorTree> ErrorWrapper<E> {
    /// The wrapped error.
    pub closed spec fn inner(&self) -> E {
        self.0
    }

    /// Create a new error wrapper.
    pub fn new(error: E) -> (r: Self)
        ensures
            r.inner() == error,
    {
        ErrorWrapper(error)
    }

    /// Get the wrapped error.
    pub fn into_inner(self) -> (r: E)
        ensures
            r == self.inner(),
    {
        self.0
    }

    /// Access the wrapped error.
    pub fn as_inner(&self) -> (r: &E)
        ensures
            *r == self.inner(),
    {
        &self.0
    }
}

impl<E: ErrorTree> ErrorTree for ErrorWrapper<E> {
    open spec fn canon(&self) -> TreeView {
        self.inner().canon()
    }

    fn display(&self) -> (r: String) {
        self.0.display()
    }

    fn canonical(&self) -> (r: StringErrorTree) {
        self.0.canonical()
    }
}

/// Wraps an error tree so that it stands where a plain chained error is
/// expected.
pub struct ErrorTreeWrapper<E> {
    inner: E,
}

impl<E: ErrorTree> ErrorTreeWrapper<E> {
    /// Create a new error tree wrapper.
    pub fn new(inner: E) -> (r: Self)
        ensures
            r.inner() == inner,
    {
        ErrorTreeWrapper { inner }
    }

    /// The wrapped error tree.
    pub closed spec fn inner(&self) -> E {
        self.inner
    }
}

impl<E: ErrorTree> ErrorTree for ErrorTreeWrapper<E> {
    open spec fn canon(&self) -> TreeView {
        self.inner().canon()
    }

    fn display(&self) -> (r: String) {
        self.inner.display()
    }

    fn canonical(&self) -> (r: StringErrorTree) {
        self.inner.canonical()
    }
}

} // verus!
