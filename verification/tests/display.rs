use mishap::testdata::{complex, single_source};
use mishap::{Chain, ErrorTree, ErrorTreeExt, Mishap};

#[test]
fn display_test_complex() {
    let error = Chain::new(String::from("anyhow error"));
    let error2 = error.context(String::from("anyhow error2"));
    let mishap1 =
        Mishap::from_anyhow_and_msg(String::from("mishap1 line1\nmishap1 line2"), error2);
    let mishap2 = Mishap::from_error_tree_and_msg(
        String::from("mishap2 line1\n\nmishap2 line 2"),
        mishap1,
    );

    let mishap3 = Mishap::from_msg(String::from("mishap3 line1\nmishap3 line2"));
    let mishap4 =
        Mishap::from_error_trees_and_msg(String::from("parent"), vec![mishap2, mishap3]);
    let mishap5 =
        Mishap::from_error_tree_and_msg(String::from("mishap5 line1\nmishap5 line2"), mishap4);

    let mishap6 = Mishap::from_msg(String::from("mishap6 line1\nmishap6 line2"));
    let mishap7 =
        Mishap::from_error_tree_and_msg(String::from("mishap7 line1\nmishap7 line2"), mishap6);

    let error3 = Chain::new(String::from("anyhow error3"));
    let error4 = Chain::new(String::from("anyhow error4"));

    let mishap8 = Mishap::from_anyhows_and_msg(
        String::from("mishap8 line1\nmishap8 line2"),
        vec![error3, error4],
    );

    let top_level = Mishap::from_error_trees_and_msg(
        String::from("top-level line1\ntop-level line2"),
        vec![mishap5, mishap7, mishap8],
    );

    assert_eq!(top_level.display(), "top-level line1\ntop-level line2");
    let rendered = top_level.display_tree().to_string();
    let expected = "top-level line1\ntop-level line2\n\nCaused by:\n\n  + mishap5 line1\n    mishap5 line2\n    - parent\n      + mishap2 line1\n\n        mishap2 line 2\n        - mishap1 line1\n          mishap1 line2\n        - anyhow error2\n        - anyhow error\n      + mishap3 line1\n        mishap3 line2\n  + mishap7 line1\n    mishap7 line2\n    - mishap6 line1\n      mishap6 line2\n  + mishap8 line1\n    mishap8 line2\n    + anyhow error3\n    + anyhow error4\n";
    assert_eq!(rendered, expected);
}

#[test]
fn display_test_single_source() {
    let error = Chain::new(String::from("anyhow error"));
    let error2 = error.context(String::from("anyhow error2"));
    let error3 = error2.context(String::from("anyhow error3"));
    println!("error2: {:#?}", error3);
    let mishap1 =
        Mishap::from_anyhow_and_msg(String::from("mishap1 line1\nmishap1 line2"), error3);
    let mishap2 =
        Mishap::from_error_tree_and_msg(String::from("mishap2 line1\nmishap2 line2"), mishap1);

    assert_eq!(mishap2.display(), "mishap2 line1\nmishap2 line2");
    let rendered = mishap2.display_tree().to_string();
    let expected = "mishap2 line1\nmishap2 line2\n\nCaused by:\n\n  - mishap1 line1\n    mishap1 line2\n  - anyhow error3\n  - anyhow error2\n  - anyhow error\n";
    assert_eq!(rendered, expected);
}

#[test]
fn display_testdata_complex() {
    // The fixture names its branching node differently; everything else
    // matches the hand-built tree above.
    let rendered = complex().display_tree().to_string();
    let expected = "top-level line1\ntop-level line2\n\nCaused by:\n\n  + mishap5 line1\n    mishap5 line2\n    - mishap4\n      + mishap2 line1\n\n        mishap2 line 2\n        - mishap1 line1\n          mishap1 line2\n        - anyhow error2\n        - anyhow error\n      + mishap3 line1\n        mishap3 line2\n  + mishap7 line1\n    mishap7 line2\n    - mishap6 line1\n      mishap6 line2\n  + mishap8 line1\n    mishap8 line2\n    + anyhow error3\n    + anyhow error4\n";
    assert_eq!(rendered, expected);
}

#[test]
fn display_testdata_single_source() {
    let rendered = single_source().display_tree().to_string();
    let expected = "mishap2 line1\nmishap2 line2\n\nCaused by:\n\n  - mishap1 line1\n    mishap1 line2\n  - anyhow error3\n  - anyhow error2\n  - anyhow error\n";
    assert_eq!(rendered, expected);
}

#[test]
fn zero_source_renders_message_only() {
    let m = Mishap::from_msg(String::from("just one message"));
    assert_eq!(m.display_tree().to_string(), "just one message");
    assert!(!m.display_tree().to_string().contains("Caused by"));
}

#[test]
fn single_chain_stays_flat() {
    let m = Mishap::from_msg_and_cause_chain(
        String::from("a"),
        vec![String::from("b"), String::from("c")],
    );
    let rendered = m.display_tree().to_string();
    assert_eq!(rendered, "a\n\nCaused by:\n\n  - b\n  - c\n");
}

#[test]
fn branch_scenario_renders_plus_bullets() {
    let chain = Chain::new(String::from("a2")).context(String::from("a1"));
    let a = Mishap::from_anyhow_and_msg(String::from("a"), chain);
    let b = Mishap::from_msg(String::from("b"));
    let top = Mishap::from_error_trees_and_msg(String::from("top"), vec![a, b]);
    let rendered = top.display_tree().to_string();
    assert_eq!(rendered, "top\n\nCaused by:\n\n  + a\n    - a1\n    - a2\n  + b\n");
}

#[test]
fn single_branch_renders_dash_and_flat_child() {
    let chain = Chain::new(String::from("a1"));
    let a = Mishap::from_anyhow_and_msg(String::from("a"), chain);
    let top = Mishap::from_error_trees_and_msg(String::from("top"), vec![a]);
    let rendered = top.display_tree().to_string();
    assert_eq!(rendered, "top\n\nCaused by:\n\n  - a\n  - a1\n");
}

#[test]
fn bare_chain_banner_has_no_blank_line() {
    let chain = Chain::new(String::from("c"))
        .context(String::from("b"))
        .context(String::from("a"));
    let trees = Mishap::from_anyhow(chain);
    let sources = trees.sources();
    assert_eq!(sources.len(), 1);
    let rendered = sources[0].display_tree().to_string();
    assert_eq!(rendered, "b\n\nCaused by:\n- c\n");
}
