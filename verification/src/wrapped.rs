use crate::chain::{chain_views, Chain};
use crate::error_tree::ErrorTree;
use crate::mishap::Mishap;
use crate::model::TreeView;
use vstd::prelude::*;

verus! {

/// Implemented by the result types that the wrapping traits extend.
pub trait Sealed {

}

impl<T, E> Sealed for Result<T, E> {

}

impl Sealed for Mishap {

}

/// Extension trait for wrapping individual errors with ad-hoc messages.
pub trait WrapError<T, E: ErrorTree>: Sealed + Sized {
    /// The wrapped result.
    spec fn as_result(self) -> Result<T, E>;

    /// Wrap the error value with a new ad-hoc message.
    fn wrap_error(self, msg: String) -> (r: Result<T, Mishap>)
        ensures
            match self.as_result() {
                Result::Ok(v) => r == Result::<T, Mishap>::Ok(v),
                Result::Err(e) => r matches Result::Err(m) && m@ == (TreeView {
                    msg: msg@,
                    sources: seq![e.canon()],
                }),
            },
    ;

    /// Wrap the error value with a new ad-hoc message that is evaluated
    /// lazily only once an error does occur.
    fn wrap_error_with<D: FnOnce() -> String>(self, f: D) -> (r: Result<T, Mishap>)
        requires
            self.as_result() is Err ==> f.requires(()),
        ensures
            match self.as_result() {
                Result::Ok(v) => r == Result::<T, Mishap>::Ok(v),
                Result::Err(e) => r matches Result::Err(m) && exists|s: String|
                    f.ensures((), s) && m@ == (TreeView { msg: s@, sources: seq![e.canon()] }),
            },
    ;

    /// Convert the error value into a [`Mishap`] without attaching another
    /// message.
    fn wrap_error_relay(self) -> (r: Result<T, Mishap>)
        ensures
            match self.as_result() {
                Result::Ok(v) => r == Result::<T, Mishap>::Ok(v),
                Result::Err(e) => r matches Result::Err(m) && m@ == e.canon(),
            },
    ;
}

impl<T> WrapError<T, Chain> for Result<T, Chain> {
    open spec fn as_result(self) -> Result<T, Chain> {
        self
    }

    fn wrap_error(self, msg: String) -> (r: Result<T, Mishap>) {
        match self {
            Result::Ok(v) => Ok(v),
            Result::Err(e) => Err(Mishap::from_error_and_msg(msg, e)),
        }
    }

    fn wrap_error_with<D: FnOnce() -> String>(self, f: D) -> (r: Result<T, Mishap>) {
        match self {
            Result::Ok(v) => Ok(v),
            Result::Err(e) => Err(Mishap::from_error_and_msg(f(), e)),
        }
    }

    fn wrap_error_relay(self) -> (r: Result<T, Mishap>) {
        match self {
            Result::Ok(v) => Ok(v),
            Result::Err(e) => Err(Mishap::from_error(e)),
        }
    }
}

/// Extension trait for wrapping lists of errors with ad-hoc messages.
pub trait WrapErrors<T, E: ErrorTree>: Sealed + Sized {
    /// The wrapped result.
    spec fn as_result(self) -> Result<T, Vec<E>>;

    /// Wrap the error list with a new ad-hoc message.
    fn wrap_errors(self, msg: String) -> (r: Result<T, Mishap>)
        ensures
            match self.as_result() {
                Result::Ok(v) => r == Result::<T, Mishap>::Ok(v),
                Result::Err(es) => r matches Result::Err(m) && m@ == (TreeView {
                    msg: msg@,
                    sources: es@.map_values(|e: E| e.canon()),
                }),
            },
    ;

    /// Wrap the error list with a new ad-hoc message that is evaluated lazily
    /// only once an error does occur.
    fn wrap_errors_with<D: FnOnce() -> String>(self, f: D) -> (r: Result<T, Mishap>)
        requires
            self.as_result() is Err ==> f.requires(()),
        ensures
            match self.as_result() {
                Result::Ok(v) => r == Result::<T, Mishap>::Ok(v),
                Result::Err(es) => r matches Result::Err(m) && exists|s: String|
                    f.ensures((), s) && m@ == (TreeView {
                        msg: s@,
                        sources: es@.map_values(|e: E| e.canon()),
                    }),
            },
    ;
}

impl<T> WrapErrors<T, Chain> for Result<T, Vec<Chain>> {
    open spec fn as_result(self) -> Result<T, Vec<Chain>> {
        self
    }

    fn wrap_errors(self, msg: String) -> (r: Result<T, Mishap>) {
        match self {
            Result::Ok(v) => Ok(v),
            Result::Err(es) => {
                let m = Mishap::from_errors_and_msg(msg, es);
                proof {
                    lemma_chain_views_as_canon(es@);
                }
                Err(m)
            },
        }
    }

    fn wrap_errors_with<D: FnOnce() -> String>(self, f: D) -> (r: Result<T, Mishap>) {
        match self {
            Result::Ok(v) => Ok(v),
            Result::Err(es) => {
                let m = Mishap::from_errors_and_msg(f(), es);
                proof {
                    lemma_chain_views_as_canon(es@);
                }
                Err(m)
            },
        }
    }
}

/// The shapes of a list of chains are their shapes as error trees.
proof fn lemma_chain_views_as_canon(es: Seq<Chain>)
    ensures
        chain_views(es) == es.map_values(|e: Chain| e.canon()),
{
    assert(chain_views(es) =~= es.map_values(|e: Chain| e.canon()));
}

/// Extension trait for wrapping error trees with ad-hoc messages.
pub trait WrapErrorTree<T, ET: ErrorTree>: Sealed + Sized {
    /// The wrapped result.
    spec fn as_result(self) -> Result<T, ET>;

    /// Wrap the error tree with a new ad-hoc message.
    fn wrap_error_tree(self, msg: String) -> (r: Result<T, Mishap>)
        ensures
            match self.as_result() {
                Result::Ok(v) => r == Result::<T, Mishap>::Ok(v),
                Result::Err(e) => r matches Result::Err(m) && m@ == (TreeView {
                    msg: msg@,
                    sources: seq![e.canon()],
                }),
            },
    ;

    /// Wrap the error tree with a new ad-hoc message that is evaluated lazily
    /// only once an error does occur.
    fn wrap_error_tree_with<D: FnOnce() -> String>(self, f: D) -> (r: Result<T, Mishap>)
        requires
            self.as_result() is Err ==> f.requires(()),
        ensures
            match self.as_result() {
                Result::Ok(v) => r == Result::<T, Mishap>::Ok(v),
                Result::Err(e) => r matches Result::Err(m) && exists|s: String|
                    f.ensures((), s) && m@ == (TreeView { msg: s@, sources: seq![e.canon()] }),
            },
    ;

    /// Convert the error tree into a [`Mishap`] without attaching another
    /// message.
    fn wrap_error_tree_relay(self) -> (r: Result<T, Mishap>)
        ensures
            match self.as_result() {
                Result::Ok(v) => r == Result::<T, Mishap>::Ok(v),
                Result::Err(e) => r matches Result::Err(m) && m@ == e.canon(),
            },
    ;
}

impl<T, ET: ErrorTree> WrapErrorTree<T, ET> for Result<T, ET> {
    open spec fn as_result(self) -> Result<T, ET> {
        self
    }

    fn wrap_error_tree(self, msg: String) -> (r: Result<T, Mishap>) {
        match self {
            Result::Ok(v) => Ok(v),
            Result::Err(e) => Err(Mishap::from_error_tree_and_msg(msg, e)),
        }
    }

    fn wrap_error_tree_with<D: FnOnce() -> String>(self, f: D) -> (r: Result<T, Mishap>) {
        match self {
            Result::Ok(v) => Ok(v),
            Result::Err(e) => Err(Mishap::from_error_tree_and_msg(f(), e)),
        }
    }

    fn wrap_error_tree_relay(self) -> (r: Result<T, Mishap>) {
        match self {
            Result::Ok(v) => Ok(v),
            Result::Err(e) => Err(Mishap::from_error_tree(e)),
        }
    }
}

/// Extension trait for wrapping lists of error trees with ad-hoc messages.
pub trait WrapErrorTrees<T, ET: ErrorTree>: Sealed + Sized {
    /// The wrapped result.
    spec fn as_result(self) -> Result<T, Vec<ET>>;

    /// Wrap the error tree list with a new ad-hoc message.
    fn wrap_error_trees(self, msg: String) -> (r: Result<T, Mishap>)
        ensures
            match self.as_result() {
                Result::Ok(v) => r == Result::<T, Mishap>::Ok(v),
                Result::Err(es) => r matches Result::Err(m) && m@ == (TreeView {
                    msg: msg@,
                    sources: es@.map_values(|e: ET| e.canon()),
                }),
            },
    ;

    /// Wrap the error tree list with a new ad-hoc message that is evaluated
    /// lazily only once an error does occur.
    fn wrap_error_trees_with<D: FnOnce() -> String>(self, f: D) -> (r: Result<T, Mishap>)
        requires
            self.as_result() is Err ==> f.requires(()),
        ensures
            match self.as_result() {
                Result::Ok(v) => r == Result::<T, Mishap>::Ok(v),
                Result::Err(es) => r matches Result::Err(m) && exists|s: String|
                    f.ensures((), s) && m@ == (TreeView {
                        msg: s@,
                        sources: es@.map_values(|e: ET| e.canon()),
                    }),
            },
    ;
}

impl<T, ET: ErrorTree> WrapErrorTrees<T, ET> for Result<T, Vec<ET>> {
    open spec fn as_result(self) -> Result<T, Vec<ET>> {
        self
    }

    fn wrap_error_trees(self, msg: String) -> (r: Result<T, Mishap>) {
        match self {
            Result::Ok(v) => Ok(v),
            Result::Err(es) => Err(Mishap::from_error_trees_and_msg(msg, es)),
        }
    }

    fn wrap_error_trees_with<D: FnOnce() -> String>(self, f: D) -> (r: Result<T, Mishap>) {
        match self {
            Result::Ok(v) => Ok(v),
            Result::Err(es) => Err(Mishap::from_error_trees_and_msg(f(), es)),
        }
    }
}

/// Extension trait for wrapping a chain-shaped error result.
pub trait WrapAnyhow<T>: Sealed + Sized {
    /// The wrapped result.
    spec fn as_result(self) -> Result<T, Chain>;

    /// Wrap the error value with a new ad-hoc message.
    fn wrap_anyhow(self, msg: String) -> (r: Result<T, Mishap>)
        ensures
            match self.as_result() {
                Result::Ok(v) => r == Result::<T, Mishap>::Ok(v),
                Result::Err(e) => r matches Result::Err(m) && m@ == (TreeView {
                    msg: msg@,
                    sources: seq![e@],
                }),
            },
    ;

    /// Wrap the error value with a new ad-hoc message that is evaluated
    /// lazily only once an error does occur.
    fn wrap_anyhow_with<D: FnOnce() -> String>(self, f: D) -> (r: Result<T, Mishap>)
        requires
            self.as_result() is Err ==> f.requires(()),
        ensures
            match self.as_result() {
                Result::Ok(v) => r == Result::<T, Mishap>::Ok(v),
                Result::Err(e) => r matches Result::Err(m) && exists|s: String|
                    f.ensures((), s) && m@ == (TreeView { msg: s@, sources: seq![e@] }),
            },
    ;
}

impl<T> WrapAnyhow<T> for Result<T, Chain> {
    open spec fn as_result(self) -> Result<T, Chain> {
        self
    }

    fn wrap_anyhow(self, msg: String) -> (r: Result<T, Mishap>) {
        match self {
            Result::Ok(v) => Ok(v),
            Result::Err(e) => Err(Mishap::from_anyhow_and_msg(msg, e)),
        }
    }

    fn wrap_anyhow_with<D: FnOnce() -> String>(self, f: D) -> (r: Result<T, Mishap>) {
        match self {
            Result::Ok(v) => Ok(v),
            Result::Err(e) => Err(Mishap::from_anyhow_and_msg(f(), e)),
        }
    }
}

/// Extension trait for wrapping a list of chain-shaped errors.
pub trait WrapAnyhows<T>: Sealed + Sized {
    /// The wrapped result.
    spec fn as_result(self) -> Result<T, Vec<Chain>>;

    /// Wrap the list with a new ad-hoc message.
    fn wrap_anyhows(self, msg: String) -> (r: Result<T, Mishap>)
        ensures
            match self.as_result() {
                Result::Ok(v) => r == Result::<T, Mishap>::Ok(v),
                Result::Err(es) => r matches Result::Err(m) && m@ == (TreeView {
                    msg: msg@,
                    sources: chain_views(es@),
                }),
            },
    ;

    /// Wrap the list with a new ad-hoc message that is evaluated lazily only
    /// once an error does occur.
    fn wrap_anyhows_with<D: FnOnce() -> String>(self, f: D) -> (r: Result<T, Mishap>)
        requires
            self.as_result() is Err ==> f.requires(()),
        ensures
            match self.as_result() {
                Result::Ok(v) => r == Result::<T, Mishap>::Ok(v),
                Result::Err(es) => r matches Result::Err(m) && exists|s: String|
                    f.ensures((), s) && m@ == (TreeView { msg: s@, sources: chain_views(es@) }),
            },
    ;
}

impl<T> WrapAnyhows<T> for Result<T, Vec<Chain>> {
    open spec fn as_result(self) -> Result<T, Vec<Chain>> {
        self
    }

    fn wrap_anyhows(self, msg: String) -> (r: Result<T, Mishap>) {
        match self {
            Result::Ok(v) => Ok(v),
            Result::Err(es) => Err(Mishap::from_anyhows_and_msg(msg, es)),
        }
    }

    fn wrap_anyhows_with<D: FnOnce() -> String>(self, f: D) -> (r: Result<T, Mishap>) {
        match self {
            Result::Ok(v) => Ok(v),
            Result::Err(es) => Err(Mishap::from_anyhows_and_msg(f(), es)),
        }
    }
}

} // verus!
