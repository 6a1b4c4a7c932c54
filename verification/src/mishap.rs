use crate::chain::{chain_view, chain_views, Chain};
use crate::error_tree::{source_view, ErrorTree, ErrorTreeSource};
use crate::model::{chain_of_msgs, TreeView};
use crate::string_tree::{lemma_tree_views_index, tree_view, tree_views, StringErrorTree};
use vstd::prelude::*;

verus! {

/// A generic tree of errors, where each error can have any number of sources.
///
/// A chain of errors is the degenerate case with exactly one source at every
/// level; a branching node carries a message and a non-empty list of child
/// trees.
#[must_use]
pub struct Mishap {
    pub(crate) kind: Box<TreeImpl>,
}

pub(crate) enum TreeImpl {
    /// A linear chain of errors.
    Error(Chain),
    /// A branching tree of errors.
    Tree(WrappedTree),
}

/// A message wrapping an ordered list of source trees.
pub(crate) struct WrappedTree {
    pub(crate) msg: String,
    pub(crate) sources: Vec<Mishap>,
}

/// The canonical shape of a tree of errors: a chain contributes one node per
/// link, a branching node contributes its message over the shapes of its
/// sources in order.
pub open(crate) spec fn mishap_view(m: Mishap) -> TreeView
    decreases m, 1int,
{
    match *m.kind {
        TreeImpl::Error(c) => chain_view(c),
        TreeImpl::Tree(w) => TreeView { msg: w.msg@, sources: mishap_views(w.sources@) },
    }
}

pub open(crate) spec fn mishap_views(ms: Seq<Mishap>) -> Seq<TreeView>
    decreases ms, 0int,
{
    if ms.len() == 0 {
        Seq::empty()
    } else {
        seq![mishap_view(ms[0])] + mishap_views(ms.drop_first())
    }
}

impl View for Mishap {
    type V = TreeView;

    open(crate) spec fn view(&self) -> TreeView {
        mishap_view(*self)
    }
}

impl Mishap {
    /// A tree holding only the given message.
    pub fn from_msg(msg: String) -> (r: Self)
        ensures
            r@ == (TreeView { msg: msg@, sources: Seq::<TreeView>::empty() }),
    {
        Mishap { kind: TreeImpl::new_chain(Chain::new(msg)) }
    }

    /// A tree that is exactly the given chain of errors.
    pub fn from_anyhow(error: Chain) -> (r: Self)
        ensures
            r@ == error@,
    {
        Mishap { kind: TreeImpl::new_chain(error) }
    }

    /// A chain-backed tree: the message wraps the chain as its one source.
    pub fn from_anyhow_and_msg(msg: String, error: Chain) -> (r: Self)
        ensures
            r@ == (TreeView { msg: msg@, sources: seq![error@] }),
    {
        let r = Mishap { kind: TreeImpl::new_chain(error.context(msg)) };
        r
    }

    /// A tree wrapping any number of chains under one message.
    pub fn from_anyhows_and_msg(msg: String, sources: Vec<Chain>) -> (r: Self)
        ensures
            r@ == (TreeView { msg: msg@, sources: chain_views(sources@) }),
    {
        let ghost orig = sources@;
        let mut sources = sources;
        let mut trees: Vec<Mishap> = Vec::new();
        let n = sources.len();
        for i in 0..n
            invariant
                n == orig.len(),
                sources@ == orig.skip(i as int),
                trees@.len() == i,
                forall|j: int| 0 <= j < i ==> mishap_view(trees@[j]) == chain_view(orig[j]),
            decreases n - i,
        {
            proof {
                assert(orig.skip(i as int).drop_first() =~= orig.skip(i + 1));
            }
            let c = sources.remove(0);
            trees.push(Mishap::from_anyhow(c));
        }
        let r = Mishap { kind: TreeImpl::new_wrapped_tree(msg, trees) };
        proof {
            lemma_mishap_views_index(trees@);
            assert(r@.sources =~= chain_views(orig));
            assert(r@ =~= (TreeView { msg: msg@, sources: chain_views(orig) }));
        }
        r
    }

    /// A tree that is exactly the given chain of errors.
    pub fn from_error(error: Chain) -> (r: Self)
        ensures
            r@ == error@,
    {
        Mishap { kind: TreeImpl::new_chain(error) }
    }

    /// A chain-backed tree: the message wraps the chain as its one source.
    pub fn from_error_and_msg(msg: String, error: Chain) -> (r: Self)
        ensures
            r@ == (TreeView { msg: msg@, sources: seq![error@] }),
    {
        Mishap { kind: TreeImpl::new_chain(error.context(msg)) }
    }

    /// A tree wrapping any number of error chains under one message.
    pub fn from_errors_and_msg(msg: String, sources: Vec<Chain>) -> (r: Self)
        ensures
            r@ == (TreeView { msg: msg@, sources: chain_views(sources@) }),
    {
        Mishap::from_anyhows_and_msg(msg, sources)
    }

    /// A tree that is the canonical shape of the given error tree.
    pub fn from_error_tree<ET: ErrorTree>(tree: ET) -> (r: Self)
        ensures
            r@ == tree.canon(),
    {
        let snap = tree.canonical();
        mishap_of_canonical(&snap)
    }

    /// A tree wrapping one error tree under a message.
    pub fn from_error_tree_and_msg<ET: ErrorTree>(msg: String, tree: ET) -> (r: Self)
        ensures
            r@ == (TreeView { msg: msg@, sources: seq![tree.canon()] }),
    {
        let m = Mishap::from_error_tree(tree);
        let mut v: Vec<Mishap> = Vec::new();
        v.push(m);
        let r = Mishap { kind: TreeImpl::new_wrapped_tree(msg, v) };
        proof {
            lemma_mishap_views_index(v@);
            assert(r@.sources =~= seq![mishap_view(v@[0])]);
        }
        r
    }

    /// A tree wrapping any number of error trees under one message.
    pub fn from_error_trees_and_msg<ET: ErrorTree>(msg: String, sources: Vec<ET>) -> (r: Self)
        ensures
            r@ == (TreeView {
                msg: msg@,
                sources: sources@.map_values(|t: ET| t.canon()),
            }),
    {
        let ghost orig = sources@;
        let mut sources = sources;
        let mut trees: Vec<Mishap> = Vec::new();
        let n = sources.len();
        for i in 0..n
            invariant
                n == orig.len(),
                sources@ == orig.skip(i as int),
                trees@.len() == i,
                forall|j: int| 0 <= j < i ==> mishap_view(trees@[j]) == orig[j].canon(),
            decreases n - i,
        {
            proof {
                assert(orig.skip(i as int).drop_first() =~= orig.skip(i + 1));
            }
            let t = sources.remove(0);
            trees.push(Mishap::from_error_tree(t));
        }
        let r = Mishap { kind: TreeImpl::new_wrapped_tree(msg, trees) };
        proof {
            lemma_mishap_views_index(trees@);
            assert(r@.sources =~= orig.map_values(|t: ET| t.canon()));
            assert(r@ =~= (TreeView { msg: msg@, sources: orig.map_values(|t: ET| t.canon()) }));
        }
        r
    }

    /// A deep copy of a borrowed chain of errors, as a tree.
    pub fn from_borrowed_error(error: &Chain) -> (r: Self)
        ensures
            r@ == error@,
    {
        Mishap { kind: TreeImpl::new_chain(error.deep_clone()) }
    }

    /// A deep, display-string-only copy of a borrowed error tree.
    pub fn from_borrowed_tree<ET: ErrorTree>(tree: &ET) -> (r: Self)
        ensures
            r@ == tree.canon(),
    {
        let snap = tree.canonical();
        mishap_of_canonical(&snap)
    }

    /// A chain-backed tree from a message and its chain of causes: the
    /// message is the outermost link, the causes follow in order.
    pub fn from_msg_and_cause_chain(msg: String, cause_chain: Vec<String>) -> (r: Self)
        ensures
            r@ == chain_of_msgs(seq![msg@] + cause_chain@.map_values(|s: String| s@)),
    {
        let ghost all = seq![msg@] + cause_chain@.map_values(|s: String| s@);
        let mut causes = cause_chain;
        let mut inner: Option<Chain> = None;
        while causes.len() > 0
            invariant
                causes@.len() + 1 <= all.len(),
                forall|j: int| 0 <= j < causes@.len() ==> all[j + 1] == causes@[j]@,
                all[0] == msg@,
                match inner {
                    Option::Some(c) => causes@.len() + 2 <= all.len() && chain_view(c)
                        == chain_of_msgs(all.skip(causes@.len() + 1int)),
                    Option::None => causes@.len() + 1 == all.len(),
                },
            decreases causes.len(),
        {
            let ghost k = causes@.len() as int;
            let s = causes.pop().unwrap();
            let link = match inner {
                Option::Some(c) => c.context(s),
                Option::None => Chain::new(s),
            };
            proof {
                assert(all.skip(k)[0] == all[k]);
                assert(all.skip(k).drop_first() =~= all.skip(k + 1));
                assert(chain_view(link) =~= chain_of_msgs(all.skip(k)));
            }
            inner = Some(link);
        }
        let chain = match inner {
            Option::Some(c) => c.context(msg),
            Option::None => Chain::new(msg),
        };
        proof {
            assert(all.skip(0) =~= all);
            assert(all.drop_first() =~= all.skip(1));
            assert(chain_view(chain) =~= chain_of_msgs(all));
        }
        Mishap { kind: TreeImpl::new_chain(chain) }
    }

    /// Wraps this tree under a new message as its single source.
    pub fn wrap_single(self, msg: String) -> (r: Self)
        ensures
            r@ == (TreeView { msg: msg@, sources: seq![self@] }),
    {
        let ghost sv = self@;
        let mut v: Vec<Mishap> = Vec::new();
        v.push(self);
        let r = Mishap { kind: TreeImpl::new_wrapped_tree(msg, v) };
        proof {
            lemma_mishap_views_index(v@);
            assert(r@.sources =~= seq![sv]);
        }
        r
    }

    /// The sources of this tree: the chain's next link if this tree is a
    /// chain, or the wrapped trees of a branching node, in order.
    pub fn sources(&self) -> (r: Vec<ErrorTreeSource<'_>>)
        ensures
            r@.len() == self@.sources.len(),
            forall|i: int| 0 <= i < r@.len() ==> source_view(r@[i]) == self@.sources[i],
    {
        match &*self.kind {
            TreeImpl::Error(c) => match &c.cause {
                Option::Some(b) => {
                    let mut v: Vec<ErrorTreeSource<'_>> = Vec::new();
                    v.push(ErrorTreeSource::Error(&**b));
                    v
                },
                Option::None => Vec::new(),
            },
            TreeImpl::Tree(w) => {
                let mut v: Vec<ErrorTreeSource<'_>> = Vec::new();
                let n = w.sources.len();
                proof {
                    lemma_mishap_views_index(w.sources@);
                }
                for i in 0..n
                    invariant
                        n == w.sources.len(),
                        v@.len() == i,
                        forall|j: int|
                            0 <= j < i ==> source_view(v@[j]) == mishap_views(w.sources@)[j],
                        mishap_views(w.sources@).len() == n,
                        forall|j: int|
                            0 <= j < n ==> mishap_views(w.sources@)[j] == mishap_view(
                                w.sources@[j],
                            ),
                    decreases n - i,
                {
                    v.push(ErrorTreeSource::Tree(&w.sources[i]));
                }
                v
            },
        }
    }
}

impl ErrorTree for Mishap {
    open spec fn canon(&self) -> TreeView {
        mishap_view(*self)
    }

    fn display(&self) -> (r: String) {
        match &*self.kind {
            TreeImpl::Error(c) => c.display(),
            TreeImpl::Tree(w) => w.msg.clone(),
        }
    }

    fn canonical(&self) -> (r: StringErrorTree) {
        canon_of_mishap(self)
    }
}

impl TreeImpl {
    pub(crate) fn new_chain(error: Chain) -> (r: Box<TreeImpl>)
        ensures
            *r == TreeImpl::Error(error),
    {
        Box::new(TreeImpl::Error(error))
    }

    pub(crate) fn new_tree<ET: ErrorTree>(tree: ET) -> (r: Box<TreeImpl>)
        ensures
            mishap_view(Mishap { kind: r }) == tree.canon(),
    {
        let m = Mishap::from_error_tree(tree);
        m.kind
    }

    /// Zero sources collapse to a plain chain holding only the message, so an
    /// empty branch node is never representable.
    pub(crate) fn new_wrapped_tree(msg: String, sources: Vec<Mishap>) -> (r: Box<TreeImpl>)
        ensures
            mishap_view(Mishap { kind: r }) == (TreeView {
                msg: msg@,
                sources: mishap_views(sources@),
            }),
    {
        if sources.len() == 0 {
            proof {
                assert(mishap_views(sources@) =~= Seq::<TreeView>::empty());
            }
            TreeImpl::new_chain(Chain::new(msg))
        } else {
            Box::new(TreeImpl::Tree(WrappedTree::new(msg, sources)))
        }
    }
}

impl WrappedTree {
    pub(crate) fn new(msg: String, sources: Vec<Mishap>) -> (r: WrappedTree)
        ensures
            r.msg == msg,
            r.sources == sources,
    {
        WrappedTree { msg, sources }
    }
}

/// A tree of errors with the given canonical shape: nodes without sources
/// become single-link chains, nodes with sources become branching nodes.
fn mishap_of_canonical(t: &StringErrorTree) -> (r: Mishap)
    ensures
        r@ == t@,
    decreases *t,
{
    proof {
        lemma_tree_views_index(t.sources@);
    }
    if t.sources.len() == 0 {
        let r = Mishap { kind: TreeImpl::new_chain(Chain::new(t.msg.clone())) };
        proof {
            assert(r@ =~= t@);
        }
        r
    } else {
        let mut v: Vec<Mishap> = Vec::new();
        let n = t.sources.len();
        for i in 0..n
            invariant
                n == t.sources.len(),
                v@.len() == i,
                forall|j: int| 0 <= j < i ==> mishap_view(v@[j]) == tree_view(t.sources@[j]),
                tree_views(t.sources@).len() == n,
                forall|j: int|
                    0 <= j < n ==> tree_views(t.sources@)[j] == tree_view(t.sources@[j]),
            decreases n - i,
        {
            v.push(mishap_of_canonical(&t.sources[i]));
        }
        let r = Mishap { kind: TreeImpl::new_wrapped_tree(t.msg.clone(), v) };
        proof {
            lemma_mishap_views_index(v@);
            assert(r@.sources =~= t@.sources);
            assert(r@ =~= t@);
        }
        r
    }
}

/// The canonical snapshot of a tree of errors: chains flattened link by link,
/// branching nodes copied child by child.
fn canon_of_mishap(m: &Mishap) -> (r: StringErrorTree)
    ensures
        r@ == m@,
    decreases *m,
{
    match &*m.kind {
        TreeImpl::Error(c) => StringErrorTree::from_error(c),
        TreeImpl::Tree(w) => {
            let mut sources: Vec<StringErrorTree> = Vec::new();
            let n = w.sources.len();
            proof {
                lemma_mishap_views_index(w.sources@);
            }
            for i in 0..n
                invariant
                    *m.kind == TreeImpl::Tree(*w),
                    n == w.sources.len(),
                    sources@.len() == i,
                    forall|j: int|
                        0 <= j < i ==> tree_view(sources@[j]) == mishap_views(w.sources@)[j],
                    mishap_views(w.sources@).len() == n,
                    forall|j: int|
                        0 <= j < n ==> mishap_views(w.sources@)[j] == mishap_view(w.sources@[j]),
                decreases n - i,
            {
                proof {
                    assert(decreases_to!(*m => (*m.kind)->Tree_0.sources@[i as int]));
                }
                sources.push(canon_of_mishap(&w.sources[i]));
            }
            proof {
                assert(sources@.len() == n);
            }
            let r = StringErrorTree { msg: w.msg.clone(), sources };
            proof {
                lemma_tree_views_index(r.sources@);
                assert(r@.sources.len() == m@.sources.len());
                assert forall|k: int| 0 <= k < r@.sources.len() implies r@.sources[k]
                    == m@.sources[k] by {
                    assert(tree_views(r.sources@)[k] == tree_view(r.sources@[k]));
                }
                assert(r@.sources =~= m@.sources);
                assert(r@ =~= m@);
            }
            r
        },
    }
}

/// Index-wise reading of `mishap_views`: one shape per tree, in order.
pub(crate) proof fn lemma_mishap_views_index(ms: Seq<Mishap>)
    ensures
        mishap_views(ms).len() == ms.len(),
        forall|i: int| 0 <= i < ms.len() ==> mishap_views(ms)[i] == mishap_view(ms[i]),
    decreases ms,
{
    if ms.len() > 0 {
        lemma_mishap_views_index(ms.drop_first());
    }
}

} // verus!
