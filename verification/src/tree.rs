use crate::chain::{chain_view, Chain};
use crate::codec::{decode_tree, encode_tree, json_of, json_parse, DecodeError};
use crate::error_tree::ErrorTree;
use crate::model::TreeView;
use crate::string_tree::{lemma_tree_views_index, tree_view, tree_views, StringErrorTree};
use vstd::prelude::*;

verus! {

/// An error tree that can be encoded to and decoded from its wire text.
///
/// The wire shape of a node is an object with the message under `msg` and the
/// ordered children under `sources`; a chain of errors appears flattened as
/// nested single-child nodes.
#[derive(Debug)]
pub struct SerdeErrorTree {
    /// The message for this node in the error tree.
    pub msg: String,
    /// The sources of this node.
    pub sources: Vec<SerdeErrorTree>,
}

/// The canonical shape of a `SerdeErrorTree`: the tree itself, message by
/// message, child by child.
pub open spec fn serde_tree_view(t: SerdeErrorTree) -> TreeView
    decreases t, 1int,
{
    TreeView { msg: t.msg@, sources: serde_tree_views(t.sources@) }
}

pub open spec fn serde_tree_views(ts: Seq<SerdeErrorTree>) -> Seq<TreeView>
    decreases ts, 0int,
{
    if ts.len() == 0 {
        Seq::empty()
    } else {
        seq![serde_tree_view(ts[0])] + serde_tree_views(ts.drop_first())
    }
}

impl View for SerdeErrorTree {
    type V = TreeView;

    open spec fn view(&self) -> TreeView {
        serde_tree_view(*self)
    }
}

/// Index-wise reading of `serde_tree_views`: one shape per tree, in order.
pub proof fn lemma_serde_tree_views_index(ts: Seq<SerdeErrorTree>)
    ensures
        serde_tree_views(ts).len() == ts.len(),
        forall|i: int| 0 <= i < ts.len() ==> serde_tree_views(ts)[i] == serde_tree_view(ts[i]),
    decreases ts,
{
    if ts.len() > 0 {
        lemma_serde_tree_views_index(ts.drop_first());
    }
}

/// A tree of this module's type with the given canonical shape.
fn of_canonical(t: &StringErrorTree) -> (r: SerdeErrorTree)
    ensures
        r@ == t@,
    decreases *t,
{
    let mut sources: Vec<SerdeErrorTree> = Vec::new();
    let n = t.sources.len();
    proof {
        lemma_tree_views_index(t.sources@);
    }
    for i in 0..n
        invariant
            n == t.sources.len(),
            sources@.len() == i,
            forall|j: int| 0 <= j < i ==> serde_tree_view(sources@[j]) == tree_view(t.sources@[j]),
            tree_views(t.sources@).len() == n,
            forall|j: int| 0 <= j < n ==> tree_views(t.sources@)[j] == tree_view(t.sources@[j]),
        decreases n - i,
    {
        sources.push(of_canonical(&t.sources[i]));
    }
    let r = SerdeErrorTree { msg: t.msg.clone(), sources };
    proof {
        lemma_serde_tree_views_index(r.sources@);
        lemma_tree_views_index(t.sources@);
        assert(r@.sources =~= t@.sources);
        assert(r@ =~= t@);
    }
    r
}

/// The canonical snapshot of a tree of this module's type.
fn to_canonical(t: &SerdeErrorTree) -> (r: StringErrorTree)
    ensures
        r@ == t@,
    decreases *t,
{
    let mut sources: Vec<StringErrorTree> = Vec::new();
    let n = t.sources.len();
    proof {
        lemma_serde_tree_views_index(t.sources@);
    }
    for i in 0..n
        invariant
            n == t.sources.len(),
            sources@.len() == i,
            forall|j: int| 0 <= j < i ==> tree_view(sources@[j]) == serde_tree_view(t.sources@[j]),
            serde_tree_views(t.sources@).len() == n,
            forall|j: int|
                0 <= j < n ==> serde_tree_views(t.sources@)[j] == serde_tree_view(t.sources@[j]),
        decreases n - i,
    {
        sources.push(to_canonical(&t.sources[i]));
    }
    let r = StringErrorTree { msg: t.msg.clone(), sources };
    proof {
        lemma_tree_views_index(r.sources@);
        assert(r@.sources =~= t@.sources);
        assert(r@ =~= t@);
    }
    r
}

impl SerdeErrorTree {
    /// Creates a new tree as the canonical snapshot of an arbitrary error
    /// tree.
    pub fn new<ET: ErrorTree>(tree: &ET) -> (r: Self)
        ensures
            r@ == tree.canon(),
    {
        of_canonical(&tree.canonical())
    }

    /// Creates a new error tree with the given message and sources.
    pub fn from_msg_and_sources(msg: String, sources: Vec<SerdeErrorTree>) -> (r: Self)
        ensures
            r@ == (TreeView { msg: msg@, sources: serde_tree_views(sources@) }),
    {
        SerdeErrorTree { msg, sources }
    }

    /// Creates a new tree from a chain of errors, flattening the chain into
    /// nested single-child nodes, one node per link.
    pub fn from_error(error: &Chain) -> (r: Self)
        ensures
            r@ == error@,
    {
        let r = of_canonical(&StringErrorTree::from_error(error));
        proof {
            assert(r@ =~= chain_view(*error));
        }
        r
    }

    /// Encodes this tree to its wire text.
    pub fn to_json(&self) -> (r: String)
        ensures
            r@ == json_of(self@),
    {
        encode_tree(&to_canonical(self))
    }

    /// Decodes a wire text into a tree. The text must be exactly one
    /// well-formed encoded tree.
    pub fn from_json(s: &str) -> (r: Result<Self, DecodeError>)
        ensures
            match r {
                Ok(t) => json_parse(s@) == Some(t@),
                Err(_) => json_parse(s@) is None,
            },
    {
        match decode_tree(s) {
            Result::Ok(t) => Ok(of_canonical(&t)),
            Result::Err(e) => Err(e),
        }
    }
}

/// Whether two trees have the same messages and the same shape.
fn eq_serde_tree(a: &SerdeErrorTree, b: &SerdeErrorTree) -> (r: bool)
    ensures
        r == (a@ == b@),
    decreases *a,
{
    proof {
        lemma_serde_tree_views_index(a.sources@);
        lemma_serde_tree_views_index(b.sources@);
    }
    if !(a.msg == b.msg) {
        proof {
            assert(a@.msg != b@.msg);
        }
        return false;
    }
    let n = a.sources.len();
    if n != b.sources.len() {
        proof {
            assert(a@.sources.len() != b@.sources.len());
        }
        return false;
    }
    for i in 0..n
        invariant
            n == a.sources.len() == b.sources.len(),
            a@.msg == b@.msg,
            serde_tree_views(a.sources@).len() == n,
            serde_tree_views(b.sources@).len() == n,
            forall|j: int|
                0 <= j < n ==> serde_tree_views(a.sources@)[j] == serde_tree_view(a.sources@[j]),
            forall|j: int|
                0 <= j < n ==> serde_tree_views(b.sources@)[j] == serde_tree_view(b.sources@[j]),
            forall|j: int|
                0 <= j < i ==> serde_tree_view(a.sources@[j]) == serde_tree_view(b.sources@[j]),
        decreases n - i,
    {
        if !eq_serde_tree(&a.sources[i], &b.sources[i]) {
            proof {
                assert(a@.sources[i as int] != b@.sources[i as int]);
            }
            return false;
        }
    }
    proof {
        assert(a@.sources =~= b@.sources);
        assert(a@ =~= b@);
    }
    true
}

impl PartialEq for SerdeErrorTree {
    fn eq(&self, other: &Self) -> (r: bool) {
        eq_serde_tree(self, other)
    }
}

impl Eq for SerdeErrorTree {

}

impl vstd::std_specs::cmp::PartialEqSpecImpl for SerdeErrorTree {
    open spec fn obeys_eq_spec() -> bool {
        true
    }

    open spec fn eq_spec(&self, other: &Self) -> bool {
        self@ == other@
    }
}

impl ErrorTree for SerdeErrorTree {
    open spec fn canon(&self) -> TreeView {
        serde_tree_view(*self)
    }

    fn display(&self) -> (r: String) {
        self.msg.clone()
    }

    fn canonical(&self) -> (r: StringErrorTree) {
        to_canonical(self)
    }
}

} // verus!
