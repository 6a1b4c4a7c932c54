use mishap::testdata::{complex, single_source};
use mishap::{ErrorTree, Mishap, Ser, SerdeErrorTree, StringErrorTree};

fn node(msg: &str, sources: Vec<serde_json::Value>) -> serde_json::Value {
    let mut map = serde_json::Map::new();
    map.insert(
        String::from("msg"),
        serde_json::Value::String(String::from(msg)),
    );
    map.insert(String::from("sources"), serde_json::Value::Array(sources));
    serde_json::Value::Object(map)
}

fn test_impl(mishap: Mishap) -> String {
    let ser = Ser::new(&mishap);
    let json = ser.to_json();

    // Roundtrip through `StringErrorTree` and back.
    let tree: StringErrorTree = StringErrorTree::from_json(&json).unwrap();
    let string_json = tree.to_json();
    assert_eq!(json, string_json);

    let tree2: StringErrorTree = StringErrorTree::from_json(&string_json).unwrap();
    assert_eq!(tree, tree2, "trees match after roundtrip");

    // Construct a string error tree directly from the mishap.
    let tree3 = StringErrorTree::new(&mishap);
    assert_eq!(tree, tree3, "trees match when constructed directly");

    json
}

#[test]
fn serde_tests_test_complex() {
    test_impl(complex());
}

#[test]
fn serde_tests_test_single_source() {
    test_impl(single_source());
}

#[test]
fn test_serialize_complex() {
    let mishap = complex();
    let ser = Ser::new(mishap);
    let json = ser.to_json();
    let expected = "{\"msg\":\"top-level line1\\ntop-level line2\",\"sources\":[{\"msg\":\"mishap5 line1\\nmishap5 line2\",\"sources\":[{\"msg\":\"mishap4\",\"sources\":[{\"msg\":\"mishap2 line1\\n\\nmishap2 line 2\",\"sources\":[{\"msg\":\"mishap1 line1\\nmishap1 line2\",\"sources\":[{\"msg\":\"anyhow error2\",\"sources\":[{\"msg\":\"anyhow error\",\"sources\":[]}]}]}]},{\"msg\":\"mishap3 line1\\nmishap3 line2\",\"sources\":[]}]}]},{\"msg\":\"mishap7 line1\\nmishap7 line2\",\"sources\":[{\"msg\":\"mishap6 line1\\nmishap6 line2\",\"sources\":[]}]},{\"msg\":\"mishap8 line1\\nmishap8 line2\",\"sources\":[{\"msg\":\"anyhow error3\",\"sources\":[]},{\"msg\":\"anyhow error4\",\"sources\":[]}]}]}";
    assert_eq!(json, expected);
}

#[test]
fn serde_tree_roundtrip() {
    let m = single_source();
    let tree = SerdeErrorTree::new(&m);
    let json = tree.to_json();
    let back = SerdeErrorTree::from_json(&json).unwrap();
    assert_eq!(tree, back);
    assert_eq!(back.to_json(), json);
}

#[test]
fn serialization_shape_for_branch_scenario() {
    let chain = mishap::Chain::new(String::from("a2")).context(String::from("a1"));
    let a = Mishap::from_anyhow_and_msg(String::from("a"), chain);
    let b = Mishap::from_msg(String::from("b"));
    let top = Mishap::from_error_trees_and_msg(String::from("top"), vec![a, b]);
    let json = Ser::new(&top).to_json();
    assert_eq!(
        json,
        "{\"msg\":\"top\",\"sources\":[{\"msg\":\"a\",\"sources\":[{\"msg\":\"a1\",\"sources\":[{\"msg\":\"a2\",\"sources\":[]}]}]},{\"msg\":\"b\",\"sources\":[]}]}"
    );
}

#[test]
fn encoder_matches_reference_encoder() {
    // Build the branch scenario as a serde_json value by hand and check that
    // the crate's encoder produces the very same compact text.
    let chain = mishap::Chain::new(String::from("a2")).context(String::from("a1"));
    let a = Mishap::from_anyhow_and_msg(String::from("a"), chain);
    let b = Mishap::from_msg(String::from("b"));
    let top = Mishap::from_error_trees_and_msg(String::from("top"), vec![a, b]);
    let json = Ser::new(&top).to_json();

    let reference = node(
        "top",
        vec![
            node("a", vec![node("a1", vec![node("a2", vec![])])]),
            node("b", vec![]),
        ],
    );
    assert_eq!(json, serde_json::to_string(&reference).unwrap());
}

#[test]
fn escaping_matches_reference_encoder() {
    let m = Mishap::from_msg(String::from("quote \" slash \\ nl \n tab \t bell \u{7} end"));
    let json = Ser::new(&m).to_json();

    let mut map = serde_json::Map::new();
    map.insert(
        String::from("msg"),
        serde_json::Value::String(String::from("quote \" slash \\ nl \n tab \t bell \u{7} end")),
    );
    map.insert(String::from("sources"), serde_json::Value::Array(vec![]));
    let reference = serde_json::Value::Object(map);
    assert_eq!(json, serde_json::to_string(&reference).unwrap());

    let back = StringErrorTree::from_json(&json).unwrap();
    assert_eq!(back.msg, "quote \" slash \\ nl \n tab \t bell \u{7} end");
    assert!(back.sources.is_empty());
}

#[test]
fn decode_rejects_malformed_texts() {
    assert!(StringErrorTree::from_json("").is_err());
    assert!(StringErrorTree::from_json("{}").is_err());
    assert!(StringErrorTree::from_json("{\"msg\":\"a\"}").is_err());
    assert!(StringErrorTree::from_json("{\"sources\":[]}").is_err());
    assert!(StringErrorTree::from_json("{\"msg\":\"a\",\"sources\":[]").is_err());
    assert!(StringErrorTree::from_json("{\"msg\":\"a\",\"sources\":[]} ").is_err());
    assert!(StringErrorTree::from_json("{\"msg\":\"a\\x\",\"sources\":[]}").is_err());
    assert!(StringErrorTree::from_json("{\"msg\":\"a\\udefg\",\"sources\":[]}").is_err());
    assert!(StringErrorTree::from_json("{\"msg\":\"a\",\"sources\":[,]}").is_err());
}

#[test]
fn decode_accepts_escapes() {
    let t = StringErrorTree::from_json("{\"msg\":\"a\\u0041\\n\\t\\\"\\\\\\/\",\"sources\":[]}")
        .unwrap();
    assert_eq!(t.msg, "aA\n\t\"\\/");
}

#[test]
fn string_tree_constructors() {
    let chain = mishap::Chain::new(String::from("inner")).context(String::from("outer"));
    let flat = StringErrorTree::from_error(&chain);
    assert_eq!(flat.msg, "outer");
    assert_eq!(flat.sources.len(), 1);
    assert_eq!(flat.sources[0].msg, "inner");
    assert!(flat.sources[0].sources.is_empty());

    let built = StringErrorTree::from_msg_and_sources(
        String::from("outer"),
        vec![StringErrorTree::from_msg_and_sources(String::from("inner"), vec![])],
    );
    assert_eq!(flat, built);

    let serde_flat = SerdeErrorTree::from_error(&chain);
    let serde_built = SerdeErrorTree::from_msg_and_sources(
        String::from("outer"),
        vec![SerdeErrorTree::from_msg_and_sources(String::from("inner"), vec![])],
    );
    assert_eq!(serde_flat, serde_built);
    assert_eq!(serde_flat.to_json(), flat.to_json());
}

#[test]
fn ser_accessors() {
    let m = Mishap::from_msg(String::from("x"));
    let ser = Ser::new(m);
    let m = ser.into_inner();
    assert_eq!(m.display(), "x");
}
