use vstd::prelude::*;

verus! {

/// The canonical shape of an error tree: a message and an ordered sequence of
/// child shapes. Every node type of this crate maps onto this shape, and the
/// renderer and the serializer are specified against it.
#[verifier::ext_equal]
pub ghost struct TreeView {
    pub msg: Seq<char>,
    pub sources: Seq<TreeView>,
}

impl TreeView {
    /// A linear shape: at most one child at every level. This is the shape of
    /// a conventional chain of errors.
    pub open spec fn is_linear(self) -> bool
        decreases self,
    {
        self.sources.len() <= 1 && (self.sources.len() == 1 ==> self.sources[0].is_linear())
    }
}

/// The linear shape holding the given messages, first message outermost.
pub open spec fn chain_of_msgs(msgs: Seq<Seq<char>>) -> TreeView
    recommends
        msgs.len() >= 1,
    decreases msgs.len(),
{
    TreeView {
        msg: msgs[0],
        sources: if msgs.len() <= 1 {
            Seq::empty()
        } else {
            seq![chain_of_msgs(msgs.drop_first())]
        },
    }
}

pub proof fn lemma_chain_of_msgs_linear(msgs: Seq<Seq<char>>)
    requires
        msgs.len() >= 1,
    ensures
        chain_of_msgs(msgs).is_linear(),
    decreases msgs.len(),
{
    if msgs.len() > 1 {
        lemma_chain_of_msgs_linear(msgs.drop_first());
    }
}

} // verus!
