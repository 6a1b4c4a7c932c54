use crate::codec::{encode_tree, json_of};
use crate::error_tree::ErrorTree;
use vstd::prelude::*;

verus! {

/// A wrapper type which encodes arbitrary error trees to their wire text.
pub struct Ser<ET> {
    et: ET,
}

impl<ET> Ser<ET> {
    /// The wrapped tree.
    pub closed spec fn inner(&self) -> ET {
        self.et
    }

    pub fn new(et: ET) -> (r: Self)
        ensures
            r.inner() == et,
    {
        Ser { et }
    }

    pub fn into_inner(self) -> (r: ET)
        ensures
            r == self.inner(),
    {
        self.et
    }
}

impl<ET> From<ET> for Ser<ET> {
    fn from(et: ET) -> (r: Self) {
        Ser::new(et)
    }
}

impl<ET> vstd::std_specs::convert::FromSpecImpl<ET> for Ser<ET> {
    open spec fn obeys_from_spec() -> bool {
        true
    }

    closed spec fn from_spec(et: ET) -> Self {
        Ser { et }
    }
}

/// Converting into the adapter wraps the tree unchanged.
pub proof fn lemma_ser_from_inner<ET>(et: ET)
    ensures
        (<Ser<ET> as vstd::std_specs::convert::FromSpec<ET>>::from_spec(et)).inner() == et,
{
}

impl<ET: ErrorTree> Ser<ET> {
    /// The wire text of the wrapped tree: the same text as encoding its
    /// canonical snapshot.
    pub fn to_json(&self) -> (r: String)
        ensures
            r@ == json_of(self.inner().canon()),
    {
        encode_tree(&self.et.canonical())
    }
}

} // verus!
