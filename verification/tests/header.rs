use imag::header::{delete, insert, read, same_value, HeaderErrorKind, Node};

fn table(fields: Vec<(&str, Node)>) -> Node {
    Node::Table(fields.into_iter().map(|(k, v)| (k.to_string(), v)).collect())
}

fn text(s: &str) -> Node {
    Node::String(s.to_string())
}

fn sample() -> Node {
    table(vec![
        ("imag", table(vec![("version", text("0.1.0"))])),
        ("tags", Node::Array(vec![text("a"), text("b")])),
        ("count", Node::Integer(3)),
    ])
}

#[test]
fn read_finds_nested_values() {
    let h = sample();
    assert_eq!(read(&h, "imag.version").unwrap(), Some(&text("0.1.0")));
    assert_eq!(read(&h, "count").unwrap(), Some(&Node::Integer(3)));
    assert_eq!(read(&h, "tags.1").unwrap(), Some(&text("b")));
    assert_eq!(read(&h, "tags.01").unwrap(), Some(&text("b")));
}

#[test]
fn read_of_a_missing_segment_is_none() {
    let h = sample();
    assert_eq!(read(&h, "imag.links").unwrap(), None);
    assert_eq!(read(&h, "nothing.at.all").unwrap(), None);
    assert_eq!(read(&h, "tags.2").unwrap(), None);
    assert_eq!(read(&h, "tags.99999999999999999999999999").unwrap(), None);
    assert_eq!(read(&h, "").unwrap(), None);
}

#[test]
fn read_through_a_scalar_is_a_type_error() {
    let h = sample();
    let e = read(&h, "count.x").unwrap_err();
    assert_eq!(e.kind, HeaderErrorKind::TypeError);
    assert_eq!(e.path, "count.x");
    let e = read(&h, "tags.first").unwrap_err();
    assert_eq!(e.kind, HeaderErrorKind::TypeError);
    let e = read(&h, "imag.version.major").unwrap_err();
    assert_eq!(e.kind, HeaderErrorKind::TypeError);
}

#[test]
fn insert_creates_the_tables_on_the_way() {
    let mut h = sample();
    insert(&mut h, "note.meta.name", text("n")).unwrap();
    assert_eq!(read(&h, "note.meta.name").unwrap(), Some(&text("n")));
    assert_eq!(
        read(&h, "note").unwrap(),
        Some(&table(vec![("meta", table(vec![("name", text("n"))]))]))
    );
    assert_eq!(read(&h, "count").unwrap(), Some(&Node::Integer(3)));
}

#[test]
fn insert_overwrites_a_leaf_of_another_kind() {
    let mut h = sample();
    insert(&mut h, "count", text("three")).unwrap();
    assert_eq!(read(&h, "count").unwrap(), Some(&text("three")));
    insert(&mut h, "imag", Node::Boolean(true)).unwrap();
    assert_eq!(read(&h, "imag").unwrap(), Some(&Node::Boolean(true)));
}

#[test]
fn insert_into_an_array_replaces_or_appends() {
    let mut h = sample();
    insert(&mut h, "tags.0", text("z")).unwrap();
    insert(&mut h, "tags.2", text("c")).unwrap();
    assert_eq!(
        read(&h, "tags").unwrap(),
        Some(&Node::Array(vec![text("z"), text("b"), text("c")]))
    );
    let before = h.clone();
    let e = insert(&mut h, "tags.7", text("far")).unwrap_err();
    assert_eq!(e.kind, HeaderErrorKind::WriteError);
    assert_eq!(e.path, "tags.7");
    assert_eq!(h, before);
}

#[test]
fn insert_through_a_scalar_fails_and_changes_nothing() {
    let mut h = sample();
    let before = h.clone();
    let e = insert(&mut h, "count.x.y", text("v")).unwrap_err();
    assert_eq!(e.kind, HeaderErrorKind::WriteError);
    assert_eq!(h, before);
}

#[test]
fn of_two_inserts_at_one_path_the_second_counts() {
    for path in ["count", "new.deep.path", "tags.2", "tags.0", "imag.version"] {
        let mut twice = sample();
        insert(&mut twice, path, text("first")).unwrap();
        insert(&mut twice, path, Node::Integer(2)).unwrap();
        let mut once = sample();
        insert(&mut once, path, Node::Integer(2)).unwrap();
        assert_eq!(twice, once, "at {}", path);
        assert_eq!(read(&twice, path).unwrap(), Some(&Node::Integer(2)));
    }
}

#[test]
fn insert_leaves_the_other_keys_alone() {
    let mut h = sample();
    insert(&mut h, "imag.links", Node::Array(vec![])).unwrap();
    insert(&mut h, "other.a.b", text("x")).unwrap();
    assert_eq!(read(&h, "count").unwrap(), read(&sample(), "count").unwrap());
    assert_eq!(read(&h, "tags").unwrap(), read(&sample(), "tags").unwrap());
    assert_eq!(read(&h, "imag.version").unwrap(), Some(&text("0.1.0")));
}

#[test]
fn set_needs_the_path_to_exist() {
    let mut h = sample();
    let prev = imag::header::set(&mut h, "imag.version", text("0.2.0")).unwrap();
    assert_eq!(prev, text("0.1.0"));
    assert_eq!(read(&h, "imag.version").unwrap(), Some(&text("0.2.0")));
    let before = h.clone();
    let e = imag::header::set(&mut h, "imag.links", Node::Array(vec![])).unwrap_err();
    assert_eq!(e.kind, HeaderErrorKind::WriteError);
    assert_eq!(e.path, "imag.links");
    assert_eq!(h, before);
}

#[test]
fn delete_hands_back_what_it_takes_out() {
    let mut h = sample();
    assert_eq!(delete(&mut h, "tags.0").unwrap(), Some(text("a")));
    assert_eq!(read(&h, "tags").unwrap(), Some(&Node::Array(vec![text("b")])));
    assert_eq!(delete(&mut h, "count").unwrap(), Some(Node::Integer(3)));
    assert_eq!(read(&h, "count").unwrap(), None);
    assert_eq!(delete(&mut h, "count").unwrap(), None);
    let e = delete(&mut h, "imag.version.x").unwrap_err();
    assert_eq!(e.kind, HeaderErrorKind::TypeError);
}

#[test]
fn a_doubled_key_is_found_at_its_first_place() {
    let mut h = table(vec![("k", Node::Integer(1)), ("k", Node::Integer(2))]);
    assert_eq!(read(&h, "k").unwrap(), Some(&Node::Integer(1)));
    insert(&mut h, "k", Node::Integer(9)).unwrap();
    assert_eq!(h, table(vec![("k", Node::Integer(9)), ("k", Node::Integer(2))]));
}

#[test]
fn delete_takes_a_key_out_for_good() {
    let mut h = table(vec![
        ("a", Node::Integer(0)),
        ("k", Node::Integer(1)),
        ("b", Node::Integer(0)),
        ("k", Node::Integer(2)),
        ("k", Node::Integer(3)),
    ]);
    assert_eq!(delete(&mut h, "k").unwrap(), Some(Node::Integer(1)));
    assert_eq!(read(&h, "k").unwrap(), None);
    assert_eq!(h, table(vec![("a", Node::Integer(0)), ("b", Node::Integer(0))]));
    assert_eq!(delete(&mut h, "k").unwrap(), None);
}

#[test]
fn clone_copies_the_whole_tree() {
    let mut h = sample();
    insert(&mut h, "when", Node::Datetime("1979-05-27T07:32:00Z".parse().unwrap())).unwrap();
    insert(&mut h, "ratio", Node::Float("0.5".to_string())).unwrap();
    let copy = h.clone();
    assert_eq!(copy, h);
    assert_eq!(format!("{:?}", copy), format!("{:?}", h));
}

#[test]
fn tables_are_equal_whatever_the_order_of_their_fields() {
    let a = table(vec![
        ("x", Node::Integer(1)),
        ("y", table(vec![("p", text("1")), ("q", Node::Boolean(true))])),
    ]);
    let b = table(vec![
        ("y", table(vec![("q", Node::Boolean(true)), ("p", text("1"))])),
        ("x", Node::Integer(1)),
    ]);
    assert_eq!(a, b);
    assert!(same_value(&a, &b));
    let doubled = table(vec![
        ("x", Node::Integer(1)),
        ("y", table(vec![("p", text("1")), ("q", Node::Boolean(true))])),
        ("x", Node::Integer(2)),
    ]);
    assert_eq!(a, doubled);
    assert_eq!(doubled, a);
}

#[test]
fn nodes_that_differ_are_not_equal() {
    let a = table(vec![("x", Node::Integer(1)), ("y", Node::Array(vec![text("a"), text("b")]))]);
    let others = vec![
        table(vec![("x", Node::Integer(1))]),
        table(vec![("x", Node::Integer(1)), ("y", Node::Array(vec![text("b"), text("a")]))]),
        table(vec![("x", Node::Integer(1)), ("y", Node::Array(vec![text("a")]))]),
        table(vec![("x", Node::Integer(2)), ("y", Node::Array(vec![text("a"), text("b")]))]),
        table(vec![("x", text("1")), ("y", Node::Array(vec![text("a"), text("b")]))]),
        table(vec![
            ("x", Node::Integer(1)),
            ("y", Node::Array(vec![text("a"), text("b")])),
            ("z", Node::Boolean(false)),
        ]),
        Node::Array(vec![]),
    ];
    for other in &others {
        assert_ne!(&a, other);
        assert_ne!(other, &a);
    }
    assert_ne!(Node::Float("1".to_string()), Node::Integer(1));
    assert_ne!(Node::Float("1".to_string()), Node::Float("1.0".to_string()));
    assert_ne!(
        Node::Datetime("1979-05-27".parse().unwrap()),
        Node::Datetime("1979-05-28".parse().unwrap())
    );
    assert_eq!(
        Node::Datetime("1979-05-27".parse().unwrap()),
        Node::Datetime("1979-05-27".parse().unwrap())
    );
}
