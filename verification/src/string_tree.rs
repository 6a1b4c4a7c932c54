use crate::chain::{chain_view, Chain};
use crate::error_tree::ErrorTree;
use crate::model::TreeView;
use vstd::prelude::*;

verus! {

/// An error tree where all elements are strings: an owned, display-string-only
/// snapshot of an error tree's shape. A chain of errors appears as nested
/// single-child nodes, one per link.
#[derive(Debug)]
pub struct StringErrorTree {
    /// The message for this node in the error tree.
    pub msg: String,
    /// The sources of this node.
    pub sources: Vec<StringErrorTree>,
}

/// The canonical shape of a `StringErrorTree`: the tree itself, message by
/// message, child by child.
pub open spec fn tree_view(t: StringErrorTree) -> TreeView
    decreases t, 1int,
{
    TreeView { msg: t.msg@, sources: tree_views(t.sources@) }
}

pub open spec fn tree_views(ts: Seq<StringErrorTree>) -> Seq<TreeView>
    decreases ts, 0int,
{
    if ts.len() == 0 {
        Seq::empty()
    } else {
        seq![tree_view(ts[0])] + tree_views(ts.drop_first())
    }
}

impl View for StringErrorTree {
    type V = TreeView;

    open spec fn view(&self) -> TreeView {
        tree_view(*self)
    }
}

/// Index-wise reading of `tree_views`: one shape per tree, in order.
pub proof fn lemma_tree_views_index(ts: Seq<StringErrorTree>)
    ensures
        tree_views(ts).len() == ts.len(),
        forall|i: int| 0 <= i < ts.len() ==> tree_views(ts)[i] == tree_view(ts[i]),
    decreases ts,
{
    if ts.len() > 0 {
        lemma_tree_views_index(ts.drop_first());
    }
}

impl StringErrorTree {
    /// Creates a new string error tree as the canonical snapshot of an
    /// arbitrary error tree.
    pub fn new<ET: ErrorTree>(tree: &ET) -> (r: Self)
        ensures
            r@ == tree.canon(),
    {
        tree.canonical()
    }

    /// Creates a new error tree with the given message and sources.
    pub fn from_msg_and_sources(msg: String, sources: Vec<StringErrorTree>) -> (r: Self)
        ensures
            r@ == (TreeView { msg: msg@, sources: tree_views(sources@) }),
    {
        StringErrorTree { msg, sources }
    }

    /// Creates a new string error tree from a chain of errors, flattening the
    /// chain into nested single-child nodes, one node per link.
    pub fn from_error(error: &Chain) -> (r: Self)
        ensures
            r@ == error@,
        decreases *error,
    {
        let msg = error.display();
        let sources: Vec<StringErrorTree> = match &error.cause {
            Option::None => Vec::new(),
            Option::Some(b) => {
                let mut v: Vec<StringErrorTree> = Vec::new();
                v.push(Self::from_error(&**b));
                v
            },
        };
        let r = StringErrorTree { msg, sources };
        proof {
            lemma_tree_views_index(r.sources@);
            assert(r@.sources =~= chain_view(*error).sources);
            assert(r@ =~= chain_view(*error));
        }
        r
    }
}

impl ErrorTree for StringErrorTree {
    open spec fn canon(&self) -> TreeView {
        tree_view(*self)
    }

    fn display(&self) -> (r: String) {
        self.msg.clone()
    }

    fn canonical(&self) -> (r: StringErrorTree) {
        copy_tree(self)
    }
}

/// Whether two canonical trees have the same messages and the same shape.
fn eq_tree(a: &StringErrorTree, b: &StringErrorTree) -> (r: bool)
    ensures
        r == (a@ == b@),
    decreases *a,
{
    proof {
        lemma_tree_views_index(a.sources@);
        lemma_tree_views_index(b.sources@);
    }
    if !(a.msg == b.msg) {
        proof {
            assert(a@.msg != b@.msg);
        }
        return false;
    }
    let n = a.sources.len();
    if n != b.sources.len() {
        proof {
            assert(a@.sources.len() != b@.sources.len());
        }
        return false;
    }
    for i in 0..n
        invariant
            n == a.sources.len() == b.sources.len(),
            a@.msg == b@.msg,
            tree_views(a.sources@).len() == n,
            tree_views(b.sources@).len() == n,
            forall|j: int| 0 <= j < n ==> tree_views(a.sources@)[j] == tree_view(a.sources@[j]),
            forall|j: int| 0 <= j < n ==> tree_views(b.sources@)[j] == tree_view(b.sources@[j]),
            forall|j: int| 0 <= j < i ==> tree_view(a.sources@[j]) == tree_view(b.sources@[j]),
        decreases n - i,
    {
        if !eq_tree(&a.sources[i], &b.sources[i]) {
            proof {
                assert(a@.sources[i as int] != b@.sources[i as int]);
            }
            return false;
        }
    }
    proof {
        assert(a@.sources =~= b@.sources);
        assert(a@ =~= b@);
    }
    true
}

impl PartialEq for StringErrorTree {
    fn eq(&self, other: &Self) -> (r: bool) {
        eq_tree(self, other)
    }
}

impl Eq for StringErrorTree {

}

impl vstd::std_specs::cmp::PartialEqSpecImpl for StringErrorTree {
    open spec fn obeys_eq_spec() -> bool {
        true
    }

    open spec fn eq_spec(&self, other: &Self) -> bool {
        self@ == other@
    }
}

/// A deep copy of a canonical tree, same shape.
fn copy_tree(t: &StringErrorTree) -> (r: StringErrorTree)
    ensures
        r@ == t@,
    decreases *t,
{
    let mut sources: Vec<StringErrorTree> = Vec::new();
    let n = t.sources.len();
    for i in 0..n
        invariant
            n == t.sources.len(),
            sources@.len() == i,
            forall|j: int| 0 <= j < i ==> tree_view(sources@[j]) == tree_view(t.sources@[j]),
        decreases n - i,
    {
        sources.push(copy_tree(&t.sources[i]));
    }
    proof {
        assert(sources@.len() == n);
        assert(forall|j: int| 0 <= j < n ==> tree_view(sources@[j]) == tree_view(t.sources@[j]));
    }
    let r = StringErrorTree { msg: t.msg.clone(), sources };
    proof {
        lemma_tree_views_index(r.sources@);
        lemma_tree_views_index(t.sources@);
        assert(r@.sources.len() == t@.sources.len());
        assert forall|k: int| 0 <= k < r@.sources.len() implies r@.sources[k] == t@.sources[k] by {
            assert(tree_views(r.sources@)[k] == tree_view(r.sources@[k]));
            assert(tree_views(t.sources@)[k] == tree_view(t.sources@[k]));
        }
        assert(r@.sources =~= t@.sources);
        assert(r@ =~= t@);
    }
    r
}

} // verus!
