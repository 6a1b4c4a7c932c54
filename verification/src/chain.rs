use crate::error_tree::ErrorTree;
use crate::model::TreeView;
use crate::string_tree::StringErrorTree;
use vstd::prelude::*;

verus! {

/// A conventional linear chain of errors: a display message and at most one
/// direct cause, itself a chain. This is the crate's model of the leaf-chain
/// capability (a display string plus an optional next cause); the surrounding
/// application converts its own chained error values into this type.
#[derive(Debug)]
pub struct Chain {
    pub(crate) display: String,
    pub(crate) cause: Option<Box<Chain>>,
}

/// The canonical shape of a chain: one node per link, each with exactly
/// one child (the next link), the terminal link with none.
pub open(crate) spec fn chain_view(c: Chain) -> TreeView
    decreases c,
{
    TreeView {
        msg: c.display@,
        sources: match c.cause {
            Option::None => Seq::empty(),
            Option::Some(b) => seq![chain_view(*b)],
        },
    }
}

impl View for Chain {
    type V = TreeView;

    open(crate) spec fn view(&self) -> TreeView {
        chain_view(*self)
    }
}

impl Chain {
    /// A root cause: a single link with no further cause.
    pub fn new(msg: String) -> (r: Chain)
        ensures
            r@ == (TreeView { msg: msg@, sources: Seq::<TreeView>::empty() }),
    {
        Chain { display: msg, cause: None }
    }

    /// Wraps this chain in a new outermost link carrying `msg`.
    pub fn context(self, msg: String) -> (r: Chain)
        ensures
            r@ == (TreeView { msg: msg@, sources: seq![self@] }),
    {
        Chain { display: msg, cause: Some(Box::new(self)) }
    }

    /// The display message of the outermost link.
    pub fn display(&self) -> (r: String)
        ensures
            r@ == self@.msg,
    {
        self.display.clone()
    }

    /// The direct cause of the outermost link, if any.
    pub fn cause(&self) -> (r: Option<&Chain>)
        ensures
            match r {
                Option::Some(c) => self@.sources == seq![c@],
                Option::None => self@.sources.len() == 0,
            },
    {
        match &self.cause {
            Option::Some(c) => Some(&**c),
            Option::None => None,
        }
    }

    /// A deep copy of this chain, same shape.
    pub fn deep_clone(&self) -> (r: Chain)
        ensures
            r@ == self@,
        decreases *self,
    {
        Chain {
            display: self.display.clone(),
            cause: match &self.cause {
                Option::Some(b) => Some(Box::new((**b).deep_clone())),
                Option::None => None,
            },
        }
    }
}

/// The shapes of a list of chains, in order.
pub open spec fn chain_views(cs: Seq<Chain>) -> Seq<TreeView> {
    cs.map_values(|c: Chain| chain_view(c))
}

impl ErrorTree for Chain {
    open spec fn canon(&self) -> TreeView {
        chain_view(*self)
    }

    fn display(&self) -> (r: String) {
        self.display.clone()
    }

    fn canonical(&self) -> (r: StringErrorTree) {
        StringErrorTree::from_error(self)
    }
}

pub proof fn lemma_chain_linear(c: Chain)
    ensures
        c@.is_linear(),
    decreases c,
{
    match c.cause {
        Option::Some(b) => {
            lemma_chain_linear(*b);
        },
        Option::None => {},
    }
}

} // verus!
