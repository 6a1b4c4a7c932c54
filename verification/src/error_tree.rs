use crate::chain::{chain_view, Chain};
use crate::mishap::{mishap_view, Mishap};
use crate::model::TreeView;
use crate::string_tree::StringErrorTree;
use vstd::prelude::*;

verus! {

/// An error tree: a node with a display message and an ordered list of
/// sources, each source either a linear chain of errors or another tree.
///
/// Every implementor exposes its canonical shape (`canon`), its message
/// (`display`), and a deep canonical snapshot of itself (`canonical`).
/// Ownership wrappers delegate all three unchanged, so that wrapping never
/// changes the observable shape.
pub trait ErrorTree {
    /// The canonical shape of this tree.
    spec fn canon(&self) -> TreeView;

    /// The display message of this node.
    fn display(&self) -> (r: String)
        ensures
            r@ == self.canon().msg,
    ;

    /// A deep, display-string-only snapshot of this tree.
    fn canonical(&self) -> (r: StringErrorTree)
        ensures
            r@ == self.canon(),
    ;
}

impl<T: ErrorTree> ErrorTree for Box<T> {
    open spec fn canon(&self) -> TreeView {
        (**self).canon()
    }

    fn display(&self) -> (r: String) {
        (**self).display()
    }

    fn canonical(&self) -> (r: StringErrorTree) {
        (**self).canonical()
    }
}

impl<T: ErrorTree> ErrorTree for std::sync::Arc<T> {
    open spec fn canon(&self) -> TreeView {
        (**self).canon()
    }

    fn display(&self) -> (r: String) {
        (**self).display()
    }

    fn canonical(&self) -> (r: StringErrorTree) {
        (**self).canonical()
    }
}

impl<'a, T: ErrorTree> ErrorTree for &'a T {
    open spec fn canon(&self) -> TreeView {
        (**self).canon()
    }

    fn display(&self) -> (r: String) {
        (**self).display()
    }

    fn canonical(&self) -> (r: StringErrorTree) {
        (**self).canonical()
    }
}

/// The source of an error in an error tree: either a chain of errors or a
/// nested tree.
#[derive(Clone, Copy)]
pub enum ErrorTreeSource<'a> {
    /// A linear chain of errors.
    Error(&'a Chain),
    /// A nested error tree.
    Tree(&'a Mishap),
}

/// The canonical shape of a source, whichever variant it wraps.
pub open spec fn source_view(s: ErrorTreeSource<'_>) -> TreeView {
    match s {
        ErrorTreeSource::Error(c) => chain_view(*c),
        ErrorTreeSource::Tree(m) => mishap_view(*m),
    }
}

impl<'a> ErrorTreeSource<'a> {
    /// The sources one level below this source: the chain's next link, or the
    /// tree's own sources.
    pub fn sources(self) -> (r: Vec<ErrorTreeSource<'a>>)
        ensures
            r@.len() == source_view(self).sources.len(),
            forall|i: int|
                0 <= i < r@.len() ==> source_view(r@[i]) == source_view(self).sources[i],
    {
        match self {
            ErrorTreeSource::Error(error) => match error.cause() {
                Option::Some(c) => {
                    let mut v: Vec<ErrorTreeSource<'a>> = Vec::new();
                    v.push(ErrorTreeSource::Error(c));
                    v
                },
                Option::None => Vec::new(),
            },
            ErrorTreeSource::Tree(tree) => tree.sources(),
        }
    }

    /// Displays the error source in a tree-like format.
    pub fn display_tree(self) -> (r: crate::display::ErrorTreeSourceDisplay<'a>)
        ensures
            r.src() == self,
    {
        crate::display::ErrorTreeSourceDisplay::new(self)
    }
}

} // verus!
