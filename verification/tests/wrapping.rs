use mishap::{
    Chain, ErrorTree, ErrorTreeExt, ErrorWrapper, Mishap, StringErrorTree, WrapAnyhow,
    WrapAnyhows, WrapError, WrapErrorTree, WrapErrorTrees, WrapErrors,
};

fn failing_chain() -> Result<u32, Chain> {
    Err(Chain::new(String::from("inner")).context(String::from("outer")))
}

#[test]
fn wrap_error_attaches_message() {
    let r = failing_chain().wrap_error(String::from("ctx"));
    let m = r.unwrap_err();
    let rendered = m.display_tree().to_string();
    assert_eq!(rendered, "ctx\n\nCaused by:\n\n  - outer\n  - inner\n");

    let ok: Result<u32, Chain> = Ok(7);
    assert_eq!(ok.wrap_error(String::from("ctx")).ok().unwrap(), 7);
}

#[test]
fn wrap_error_with_is_lazy_on_ok() {
    let ok: Result<u32, Chain> = Ok(3);
    assert_eq!(ok.wrap_error_with(|| String::from("never")).ok().unwrap(), 3);
    let m = failing_chain()
        .wrap_error_with(|| String::from("lazy ctx"))
        .unwrap_err();
    assert_eq!(m.display(), "lazy ctx");
}

#[test]
fn wrap_error_relay_keeps_chain() {
    let m = failing_chain().wrap_error_relay().unwrap_err();
    assert_eq!(m.display(), "outer");
    assert_eq!(
        m.display_tree().to_string(),
        "outer\n\nCaused by:\n\n  - inner\n"
    );
}

#[test]
fn wrap_errors_gathers_list() {
    let r: Result<u32, Vec<Chain>> = Err(vec![
        Chain::new(String::from("one")),
        Chain::new(String::from("two")),
    ]);
    let m = r.wrap_errors(String::from("both failed")).unwrap_err();
    assert_eq!(
        m.display_tree().to_string(),
        "both failed\n\nCaused by:\n\n  + one\n  + two\n"
    );

    let r: Result<u32, Vec<Chain>> = Err(vec![Chain::new(String::from("solo"))]);
    let m = r.wrap_errors_with(|| String::from("one failed")).unwrap_err();
    assert_eq!(
        m.display_tree().to_string(),
        "one failed\n\nCaused by:\n\n  - solo\n"
    );
}

#[test]
fn wrap_error_tree_variants() {
    let r: Result<u32, Mishap> = Err(Mishap::from_msg(String::from("deep")));
    let m = r.wrap_error_tree(String::from("shallow")).unwrap_err();
    assert_eq!(
        m.display_tree().to_string(),
        "shallow\n\nCaused by:\n\n  - deep\n"
    );

    let r: Result<u32, Mishap> = Err(Mishap::from_msg(String::from("deep")));
    let m = r.wrap_error_tree_with(|| String::from("late")).unwrap_err();
    assert_eq!(m.display(), "late");

    let r: Result<u32, Mishap> = Err(Mishap::from_msg(String::from("deep")));
    let m = r.wrap_error_tree_relay().unwrap_err();
    assert_eq!(m.display(), "deep");
}

#[test]
fn wrap_error_trees_gathers_list() {
    let r: Result<u32, Vec<Mishap>> = Err(vec![
        Mishap::from_msg(String::from("one")),
        Mishap::from_msg(String::from("two")),
    ]);
    let m = r.wrap_error_trees(String::from("jobs failed")).unwrap_err();
    assert_eq!(
        m.display_tree().to_string(),
        "jobs failed\n\nCaused by:\n\n  + one\n  + two\n"
    );

    let r: Result<u32, Vec<Mishap>> = Err(vec![Mishap::from_msg(String::from("one"))]);
    let m = r
        .wrap_error_trees_with(|| String::from("job failed"))
        .unwrap_err();
    assert_eq!(m.display(), "job failed");
}

#[test]
fn wrap_anyhow_variants() {
    let m = failing_chain().wrap_anyhow(String::from("ctx")).unwrap_err();
    assert_eq!(m.display(), "ctx");
    let m = failing_chain()
        .wrap_anyhow_with(|| String::from("lazy"))
        .unwrap_err();
    assert_eq!(m.display(), "lazy");

    let r: Result<u32, Vec<Chain>> = Err(vec![Chain::new(String::from("a"))]);
    let m = r.wrap_anyhows(String::from("all")).unwrap_err();
    assert_eq!(m.display(), "all");
    let r: Result<u32, Vec<Chain>> = Err(vec![Chain::new(String::from("a"))]);
    let m = r.wrap_anyhows_with(|| String::from("all lazy")).unwrap_err();
    assert_eq!(m.display(), "all lazy");
}

#[test]
fn wrap_single_nests_one_level() {
    let m = Mishap::from_msg(String::from("inner"));
    let m = m.wrap_single(String::from("outer"));
    assert_eq!(
        m.display_tree().to_string(),
        "outer\n\nCaused by:\n\n  - inner\n"
    );
}

#[test]
fn from_msg_and_cause_chain_orders_links() {
    let m = Mishap::from_msg_and_cause_chain(
        String::from("top"),
        vec![String::from("mid"), String::from("deep")],
    );
    let tree = StringErrorTree::new(&m);
    assert_eq!(tree.msg, "top");
    assert_eq!(tree.sources[0].msg, "mid");
    assert_eq!(tree.sources[0].sources[0].msg, "deep");
    assert!(tree.sources[0].sources[0].sources.is_empty());
}

#[test]
fn from_borrowed_values_deep_copy() {
    let chain = Chain::new(String::from("root cause")).context(String::from("outer"));
    let copy = Mishap::from_borrowed_error(&chain);
    assert_eq!(copy.display(), chain.display());
    assert_eq!(
        copy.display_tree().to_string(),
        "outer\n\nCaused by:\n\n  - root cause\n"
    );

    let original = Mishap::from_error_trees_and_msg(
        String::from("top"),
        vec![
            Mishap::from_msg(String::from("a")),
            Mishap::from_msg(String::from("b")),
        ],
    );
    let copy = Mishap::from_borrowed_tree(&original);
    assert_eq!(
        copy.display_tree().to_string(),
        original.display_tree().to_string()
    );
    assert_eq!(StringErrorTree::new(&copy), StringErrorTree::new(&original));
}

#[test]
fn error_wrapper_delegates_shape() {
    let chain = Chain::new(String::from("deep")).context(String::from("shallow"));
    let wrapped = ErrorWrapper::new(chain);
    assert_eq!(wrapped.display(), "shallow");
    assert_eq!(wrapped.as_inner().display(), "shallow");
    let snap = StringErrorTree::new(&wrapped);
    assert_eq!(snap.msg, "shallow");
    assert_eq!(snap.sources[0].msg, "deep");
    let chain = wrapped.into_inner();
    assert_eq!(chain.display(), "shallow");
}

#[test]
fn sources_enumerate_in_order() {
    let top = Mishap::from_error_trees_and_msg(
        String::from("top"),
        vec![
            Mishap::from_msg(String::from("first")),
            Mishap::from_msg(String::from("second")),
        ],
    );
    let sources = top.sources();
    assert_eq!(sources.len(), 2);
    assert_eq!(sources[0].display_tree().to_string(), "first");
    assert_eq!(sources[1].display_tree().to_string(), "second");
    assert!(sources[0].sources().is_empty());

    let chained = Mishap::from_anyhow(
        Chain::new(String::from("deep")).context(String::from("shallow")),
    );
    let sources = chained.sources();
    assert_eq!(sources.len(), 1);
    let deeper = sources[0].sources();
    assert_eq!(deeper.len(), 0);
}

#[test]
fn from_error_tree_snapshots() {
    let inner = Mishap::from_error_trees_and_msg(
        String::from("inner"),
        vec![Mishap::from_msg(String::from("leaf"))],
    );
    let m = Mishap::from_error_tree(inner);
    assert_eq!(
        m.display_tree().to_string(),
        "inner\n\nCaused by:\n\n  - leaf\n"
    );

    let tree = StringErrorTree::from_msg_and_sources(String::from("solo"), vec![]);
    let m = Mishap::from_error_tree(tree);
    assert_eq!(m.display_tree().to_string(), "solo");
}

#[test]
fn empty_source_list_collapses_to_plain_node() {
    let m = Mishap::from_error_trees_and_msg(String::from("alone"), Vec::<Mishap>::new());
    assert_eq!(m.display_tree().to_string(), "alone");
    assert!(m.sources().is_empty());

    let m = Mishap::from_anyhows_and_msg(String::from("alone"), Vec::<Chain>::new());
    assert_eq!(m.display_tree().to_string(), "alone");
    assert!(m.sources().is_empty());
}
