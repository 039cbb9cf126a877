use imag::config::into_value;
use imag::diary::diary_names;
use imag::entry::Entry;
use imag::error::StoreError;
use imag::header::{is_tidy, read, same_value, tidied, Node};
use imag::log::diaries_to_show;
use imag::notes::{
    grep_filter, has_tag, hash_filter, link_is_external, passes_edit, passes_links,
    passes_listing, passes_remove, tags_filter,
};
use imag::storeid::StoreId;
use imag::todo::{find_text, on_add, on_modify, task_field, task_id, HookAction};

fn id(path: &str) -> StoreId {
    StoreId::new_baseless(path).unwrap()
}

fn table(fields: Vec<(&str, Node)>) -> Node {
    Node::Table(fields.into_iter().map(|(k, v)| (k.to_string(), v)).collect())
}

fn text(s: &str) -> Node {
    Node::String(s.to_string())
}

fn strings(p: &[&str]) -> Vec<String> {
    p.iter().map(|s| s.to_string()).collect()
}

fn stamped_with(extra: Vec<(&str, Node)>) -> Node {
    let mut header = Entry::new(id("m/a")).get_header().clone();
    if let Node::Table(fields) = &mut header {
        for (k, v) in extra {
            fields.push((k.to_string(), v));
        }
    }
    header
}

#[test]
fn a_shadowed_field_does_not_decide_whether_the_header_is_printed() {
    let plain = stamped_with(vec![("k", Node::Integer(1))]);
    let shadowed = stamped_with(vec![
        ("k", Node::Integer(1)),
        ("k", Node::Float("garbage".to_string())),
    ]);
    assert_eq!(plain, shadowed);
    let a = Entry::from_parts(id("m/a"), plain, "c".to_string()).unwrap();
    let b = Entry::from_parts(id("m/a"), shadowed, "c".to_string()).unwrap();
    assert_eq!(a.to_text().unwrap(), b.to_text().unwrap());
    assert_eq!(
        b.to_text().unwrap(),
        "k = 1\n\n[imag]\nmodule = \"m\"\nversion = \"0.1.0\"\n---\nc"
    );
}

#[test]
fn a_shadowed_field_deep_inside_is_not_printed_either() {
    let inner = table(vec![("x", text("first")), ("x", Node::Float("no number".to_string()))]);
    let header = stamped_with(vec![(
        "list",
        Node::Array(vec![table(vec![("t", inner.clone()), ("t", Node::Integer(0))])]),
    )]);
    let e = Entry::from_parts(id("m/a"), header, String::new()).unwrap();
    let back = Entry::from_text(id("m/a"), &e.to_text().unwrap()).unwrap();
    assert_eq!(back.read("list.0.t.x").unwrap(), Some(&text("first")));
    assert_eq!(back.get_header(), e.get_header());
}

#[test]
fn a_float_that_counts_and_is_no_number_is_still_refused() {
    let header = stamped_with(vec![
        ("k", Node::Float("garbage".to_string())),
        ("k", Node::Integer(1)),
    ]);
    let e = Entry::from_parts(id("m/a"), header, String::new()).unwrap();
    assert!(matches!(e.to_text(), Err(StoreError::WriteError(_))));
}

#[test]
fn tidying_drops_what_is_not_seen() {
    let node = table(vec![
        ("a", Node::Integer(1)),
        ("b", table(vec![("x", text("1")), ("y", text("2")), ("x", text("3"))])),
        ("a", Node::Integer(2)),
        ("c", Node::Array(vec![table(vec![("k", Node::Boolean(true)), ("k", Node::Boolean(false))])])),
        ("b", Node::Integer(3)),
    ]);
    assert!(!is_tidy(&node));
    let tidy = tidied(&node);
    assert!(is_tidy(&tidy));
    assert!(same_value(&tidy, &node));
    match &tidy {
        Node::Table(fields) => {
            let keys: Vec<&str> = fields.iter().map(|f| f.0.as_str()).collect();
            assert_eq!(keys, vec!["a", "b", "c"]);
        }
        other => panic!("expected a table, got {:?}", other),
    }
    assert_eq!(read(&tidy, "b.x").unwrap(), Some(&text("1")));
    assert_eq!(read(&tidy, "c.0.k").unwrap(), Some(&Node::Boolean(true)));
    assert!(is_tidy(&Node::Integer(1)));
    assert!(is_tidy(&table(vec![])));
    assert!(!is_tidy(&Node::Array(vec![table(vec![("k", text("")), ("k", text(""))])])));
    assert!(!is_tidy(&table(vec![("t", table(vec![("k", text("")), ("k", text(""))]))])));
}

fn kind(n: &Node) -> u8 {
    match n {
        Node::String(_) => 0,
        Node::Integer(_) => 1,
        Node::Float(_) => 2,
        Node::Boolean(_) => 3,
        Node::Datetime(_) => 4,
        Node::Array(_) => 5,
        Node::Table(_) => 6,
    }
}

#[test]
fn what_replaces_a_node_is_of_its_kind() {
    let nodes = vec![
        text("t"),
        Node::Integer(1),
        Node::Float("1.5".to_string()),
        Node::Boolean(true),
        Node::Datetime("1979-05-27".parse().unwrap()),
        Node::Array(vec![]),
        table(vec![]),
    ];
    let texts = ["1", "1.5", "true", "1979-05-27", "07:32:00", "inf", "nan", "x", "", "-3", "1e5"];
    for node in &nodes {
        for t in texts {
            match into_value(node, t.to_string()) {
                Some(new) => {
                    assert_eq!(kind(&new), kind(node), "{:?} for {:?}", t, node);
                    assert!(kind(node) < 5);
                }
                None => {}
            }
        }
    }
    assert_eq!(
        into_value(&Node::Float("0".to_string()), "1".to_string()),
        Some(Node::Float("1".to_string()))
    );
    assert!(into_value(&Node::Float("0".to_string()), "inf".to_string()).is_some());
    assert_eq!(into_value(&Node::Array(vec![]), "1".to_string()), None);
    assert_eq!(into_value(&table(vec![]), "1".to_string()), None);
}

#[test]
fn filters_combine_as_the_commands_ask() {
    for bits in 0..16u8 {
        let (hash, head, text, tags) = (bits & 1 != 0, bits & 2 != 0, bits & 4 != 0, bits & 8 != 0);
        assert_eq!(passes_listing(hash, head, text, tags), (hash || head) && text && tags);
        assert_eq!(passes_edit(hash, head, text, tags), hash || head || text || tags);
        assert_eq!(passes_links(hash, head, tags), hash || head || tags);
        assert_eq!(passes_remove(hash, head, tags), hash || head || tags);
    }
    assert!(passes_listing(true, true, true, true));
    assert!(!passes_edit(false, false, false, false));
}

#[test]
fn single_filters() {
    assert!(hash_filter(Some("af63"), "af63dc4c8601ec8c", false));
    assert!(!hash_filter(Some("f63"), "af63dc4c8601ec8c", true));
    assert!(hash_filter(Some(""), "af63", false));
    assert!(hash_filter(None, "af63", true));
    assert!(!hash_filter(None, "af63", false));

    let tags = strings(&["a", "b"]);
    assert!(tags_filter(Some(&strings(&["x", "b"])), &tags, false));
    assert!(!tags_filter(Some(&strings(&["x", "y"])), &tags, true));
    assert!(!tags_filter(Some(&Vec::new()), &tags, true));
    assert!(tags_filter(None, &tags, true));
    assert!(!tags_filter(None, &tags, false));
    assert!(has_tag(&tags, &"a".to_string()));
    assert!(!has_tag(&tags, &"c".to_string()));

    assert!(grep_filter(Some("o+ b"), "foo bar", false));
    assert!(!grep_filter(Some("^bar"), "foo bar", true));
    assert!(!grep_filter(Some("(unclosed"), "(unclosed", true));
    assert!(grep_filter(None, "foo", true));
    assert!(!grep_filter(None, "foo", false));
    assert!(grep_filter(Some("^[a-zA-Z]([a-zA-Z0-9_-]*)$"), "a_b-1", false));
    assert!(!grep_filter(Some("^[a-zA-Z]([a-zA-Z0-9_-]*)$"), "1a", false));
    assert!(!grep_filter(Some("^[a-zA-Z]([a-zA-Z0-9_-]*)$"), "ab\n", false));
    assert!(!grep_filter(Some("^[a-zA-Z]([a-zA-Z0-9_-]*)$"), "", false));
}

#[test]
fn links_with_a_scheme_leave_the_store() {
    assert!(link_is_external("http://example.org"));
    assert!(link_is_external("ftp://x"));
    assert!(link_is_external("://"));
    assert!(link_is_external("a b://"));
    assert!(!link_is_external("notes/a"));
    assert!(!link_is_external("a:/b"));
    assert!(!link_is_external("a:b//c"));
    assert!(!link_is_external(":/"));
    assert!(!link_is_external(""));
}

#[test]
fn diaries_that_are_shown() {
    let named = strings(&["work", "home"]);
    let all = strings(&["a", "b", "c"]);
    let default = "private".to_string();
    assert_eq!(diaries_to_show(Some(&named), false, &all, &default), named);
    assert_eq!(diaries_to_show(Some(&named), true, &all, &default), named);
    assert_eq!(diaries_to_show(Some(&Vec::new()), true, &all, &default), Vec::<String>::new());
    assert_eq!(diaries_to_show(None, true, &all, &default), all);
    assert_eq!(diaries_to_show(None, false, &all, &default), vec!["private"]);
}

#[test]
fn diaries_of_the_store_are_named_once() {
    let ids: Vec<StoreId> = [
        "diary/work/2016/04/01/13:05",
        "notes/a",
        "diary/home/2016/04/01/13:05",
        "diary/work/2016/04/02/08:00",
        "diary/broken/2016/04",
        "diary/home/2017/01/01/00:00",
        "diary/late/2017/01/01/00:00",
    ]
    .iter()
    .map(|p| id(p))
    .collect();
    assert_eq!(diary_names(&ids), vec!["work", "home", "late"]);
    assert!(diary_names(&Vec::new()).is_empty());
}

#[test]
fn fields_of_a_task_line() {
    let line = r#"{"description":"buy \"milk","status":"pending","uuid":"a1b2-c3","x":""}"#;
    assert_eq!(task_field(line, "uuid"), Some("a1b2-c3".to_string()));
    assert_eq!(task_field(line, "status"), Some("pending".to_string()));
    assert_eq!(task_field(line, "x"), Some(String::new()));
    assert_eq!(task_field(line, "id"), None);
    assert_eq!(task_field(line, "description"), Some("buy \\".to_string()));
    assert_eq!(task_field(r#"{"uuid":"open"#, "uuid"), None);
    assert_eq!(task_field(r#"{"uuid": "spaced"}"#, "uuid"), None);
    assert_eq!(task_field(r#"{"uuid":"one","uuid":"two"}"#, "uuid"), Some("one".to_string()));
    assert_eq!(task_field("", "uuid"), None);
}

#[test]
fn text_is_found_at_its_first_place() {
    let hay: Vec<char> = "abcabc".chars().collect();
    let find = |needle: &str, from: usize| find_text(&hay, &needle.chars().collect(), from);
    assert_eq!(find("bc", 0), Some(1));
    assert_eq!(find("bc", 1), Some(1));
    assert_eq!(find("bc", 2), Some(4));
    assert_eq!(find("bc", 5), None);
    assert_eq!(find("", 3), Some(3));
    assert_eq!(find("", 6), Some(6));
    assert_eq!(find("", 7), None);
    assert_eq!(find("abcabc", 0), Some(0));
    assert_eq!(find("abcabcd", 0), None);
    assert_eq!(find("x", 0), None);
}

#[test]
fn hooks_of_the_task_manager() {
    let pending = r#"{"description":"d","status":"pending","uuid":"u-1"}"#;
    let deleted = r#"{"description":"d","status":"deleted","uuid":"u-1"}"#;
    assert_eq!(on_add(pending), HookAction::Store("u-1".to_string()));
    assert_eq!(on_add("{}"), HookAction::Nothing);
    assert_eq!(on_modify(pending), HookAction::Nothing);
    assert_eq!(on_modify(deleted), HookAction::Delete("u-1".to_string()));
    assert_eq!(on_modify(r#"{"status":"deleted"}"#), HookAction::Nothing);
    assert_eq!(on_modify(r#"{"uuid":"u-1"}"#), HookAction::Nothing);
    assert_eq!(task_id("u-1").unwrap().local(), "todo/taskwarrior/u-1");
    assert!(matches!(task_id(""), Err(StoreError::InvalidPath(_))));
    assert!(matches!(task_id("../x"), Err(StoreError::InvalidPath(_))));
}
