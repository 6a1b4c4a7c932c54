use crate::chain::Chain;
use crate::error_tree::ErrorTree;
use crate::mishap::Mishap;
use crate::model::TreeView;
use vstd::prelude::*;

verus! {

/// The shape of a leaf node.
pub open spec fn leaf(msg: Seq<char>) -> TreeView {
    TreeView { msg, sources: Seq::empty() }
}

/// The shape of the tree that `complex` builds.
pub open spec fn complex_view() -> TreeView {
    TreeView {
        msg: "top-level line1\ntop-level line2"@,
        sources: seq![
            TreeView {
                msg: "mishap5 line1\nmishap5 line2"@,
                sources: seq![
                    TreeView {
                        msg: "mishap4"@,
                        sources: seq![
                            TreeView {
                                msg: "mishap2 line1\n\nmishap2 line 2"@,
                                sources: seq![
                                    TreeView {
                                        msg: "mishap1 line1\nmishap1 line2"@,
                                        sources: seq![
                                            TreeView {
                                                msg: "anyhow error2"@,
                                                sources: seq![leaf("anyhow error"@)],
                                            },
                                        ],
                                    },
                                ],
                            },
                            leaf("mishap3 line1\nmishap3 line2"@),
                        ],
                    },
                ],
            },
            TreeView {
                msg: "mishap7 line1\nmishap7 line2"@,
                sources: seq![leaf("mishap6 line1\nmishap6 line2"@)],
            },
            TreeView {
                msg: "mishap8 line1\nmishap8 line2"@,
                sources: seq![leaf("anyhow error3"@), leaf("anyhow error4"@)],
            },
        ],
    }
}

/// A tree exercising every shape at once: multi-line messages, a chain
/// wrapped under trees, a branching node of two trees, and a node wrapping
/// two bare chains.
pub fn complex() -> (r: Mishap)
    ensures
        r@ == complex_view(),
{
    let error = Chain::new(String::from_str("anyhow error"));
    let error2 = error.context(String::from_str("anyhow error2"));
    let mishap1 = Mishap::from_anyhow_and_msg(String::from_str("mishap1 line1\nmishap1 line2"), error2);
    let mishap2 = Mishap::from_error_tree_and_msg(
        String::from_str("mishap2 line1\n\nmishap2 line 2"),
        mishap1,
    );
    let ghost m2v = mishap2@;
    proof {
        assert(m2v =~~= complex_view().sources[0].sources[0].sources[0]);
    }

    let mishap3 = Mishap::from_msg(String::from_str("mishap3 line1\nmishap3 line2"));
    let ghost m3v = mishap3@;
    let mut v4: Vec<Mishap> = Vec::new();
    v4.push(mishap2);
    v4.push(mishap3);
    let ghost v4s = v4@;
    let mishap4 = Mishap::from_error_trees_and_msg(String::from_str("mishap4"), v4);
    proof {
        assert(v4s.map_values(|t: Mishap| t.canon()).len() == 2);
        assert(v4s[0]@ == m2v);
        assert(v4s[1]@ == m3v);
        assert(mishap4@.sources[0] == v4s[0]@);
        assert(mishap4@.sources[1] == v4s[1]@);
        let ghost target4 = complex_view().sources[0].sources[0];
        assert(mishap4@.msg == target4.msg);
        assert(mishap4@.sources.len() == 2);
        assert(mishap4@.sources[0] == target4.sources[0]);
        assert(mishap4@.sources[1] == target4.sources[1]);
        assert(mishap4@.sources =~= target4.sources);
        assert(mishap4@ =~= target4);
    }
    let mishap5 = Mishap::from_error_tree_and_msg(
        String::from_str("mishap5 line1\nmishap5 line2"),
        mishap4,
    );

    let mishap6 = Mishap::from_msg(String::from_str("mishap6 line1\nmishap6 line2"));
    let mishap7 = Mishap::from_error_tree_and_msg(
        String::from_str("mishap7 line1\nmishap7 line2"),
        mishap6,
    );

    let error3 = Chain::new(String::from_str("anyhow error3"));
    let ghost e3v = error3@;
    let error4 = Chain::new(String::from_str("anyhow error4"));
    let ghost e4v = error4@;
    let mut v8: Vec<Chain> = Vec::new();
    v8.push(error3);
    v8.push(error4);
    let ghost v8s = v8@;
    let mishap8 = Mishap::from_anyhows_and_msg(String::from_str("mishap8 line1\nmishap8 line2"), v8);
    proof {
        assert(crate::chain::chain_views(v8s).len() == 2);
        assert(v8s[0]@ == e3v);
        assert(v8s[1]@ == e4v);
        assert(mishap8@.sources[0] == v8s[0]@);
        assert(mishap8@.sources[1] == v8s[1]@);
        let ghost target8 = complex_view().sources[2];
        assert(mishap8@.msg == target8.msg);
        assert(mishap8@.sources.len() == 2);
        assert(mishap8@.sources[0] == target8.sources[0]);
        assert(mishap8@.sources[1] == target8.sources[1]);
        assert(mishap8@.sources =~= target8.sources);
        assert(mishap8@ =~= target8);
    }

    let mut top: Vec<Mishap> = Vec::new();
    top.push(mishap5);
    top.push(mishap7);
    top.push(mishap8);
    let ghost m5 = top@[0]@;
    let ghost m7 = top@[1]@;
    let ghost m8 = top@[2]@;
    let r = Mishap::from_error_trees_and_msg(
        String::from_str("top-level line1\ntop-level line2"),
        top,
    );
    proof {
        assert(m5 =~~= complex_view().sources[0]);
        assert(m7 =~~= complex_view().sources[1]);
        assert(m8 =~~= complex_view().sources[2]);
        assert(r@.sources =~~= complex_view().sources);
        assert(r@ =~~= complex_view());
    }
    r
}

/// The shape of the tree that `single_source` builds.
pub open spec fn single_source_view() -> TreeView {
    TreeView {
        msg: "mishap2 line1\nmishap2 line2"@,
        sources: seq![
            TreeView {
                msg: "mishap1 line1\nmishap1 line2"@,
                sources: seq![
                    TreeView {
                        msg: "anyhow error3"@,
                        sources: seq![
                            TreeView {
                                msg: "anyhow error2"@,
                                sources: seq![leaf("anyhow error"@)],
                            },
                        ],
                    },
                ],
            },
        ],
    }
}

/// A tree with exactly one source at every level: a chain wrapped under two
/// tree nodes.
pub fn single_source() -> (r: Mishap)
    ensures
        r@ == single_source_view(),
{
    let error = Chain::new(String::from_str("anyhow error"));
    let error2 = error.context(String::from_str("anyhow error2"));
    let error3 = error2.context(String::from_str("anyhow error3"));
    let mishap1 = Mishap::from_anyhow_and_msg(String::from_str("mishap1 line1\nmishap1 line2"), error3);
    let r = Mishap::from_error_tree_and_msg(
        String::from_str("mishap2 line1\nmishap2 line2"),
        mishap1,
    );
    proof {
        assert(r@ =~~= single_source_view());
    }
    r
}

} // verus!
