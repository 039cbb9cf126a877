use imag::entry::{frame_entry, is_stamped, split_entry, store_format_version, Entry};
use imag::error::StoreError;
use imag::header::{read, HeaderErrorKind, Node};
use imag::storeid::StoreId;

fn id(path: &str) -> StoreId {
    StoreId::new_baseless(path).unwrap()
}

fn text(s: &str) -> Node {
    Node::String(s.to_string())
}

#[test]
fn new_entry_is_stamped_and_empty() {
    let e = Entry::new(id("diary/2020/01/01"));
    assert_eq!(e.get_location().local(), "diary/2020/01/01");
    assert_eq!(e.get_content(), "");
    assert!(is_stamped(e.get_header()));
    assert_eq!(store_format_version(), "0.1.0");
    assert_eq!(read(e.get_header(), "imag.version").unwrap(), Some(&text("0.1.0")));
    assert_eq!(read(e.get_header(), "imag.module").unwrap(), Some(&text("diary")));
}

#[test]
fn module_of_a_one_component_path_is_the_path() {
    let e = Entry::new(id("single"));
    assert_eq!(read(e.get_header(), "imag.module").unwrap(), Some(&text("single")));
}

#[test]
fn text_of_a_new_entry() {
    let e = Entry::new(id("notes/a"));
    assert_eq!(
        e.to_text().unwrap(),
        "[imag]\nmodule = \"notes\"\nversion = \"0.1.0\"\n---\n"
    );
}

#[test]
fn frame_puts_the_delimiter_line_behind_the_header() {
    assert_eq!(frame_entry("a = 1\n", "body").unwrap(), "a = 1\n---\nbody");
    assert_eq!(frame_entry("", "").unwrap(), "---\n");
    assert_eq!(frame_entry("", "---\n").unwrap(), "---\n---\n");
}

#[test]
fn frame_refuses_a_header_that_would_not_be_cut_again() {
    assert_eq!(frame_entry("a = 1", "body"), None);
    assert_eq!(frame_entry("---\n", "body"), None);
    assert_eq!(frame_entry("a = 1\n---\nb = 2\n", "body"), None);
}

#[test]
fn frame_accepts_dashes_that_are_no_line() {
    assert!(frame_entry("a = \"---\"\n", "").is_some());
    assert!(frame_entry("----\n", "").is_some());
    assert!(frame_entry("x---\n", "").is_some());
    assert!(frame_entry("--\n", "").is_some());
}

#[test]
fn split_cuts_at_the_first_delimiter_line() {
    assert_eq!(
        split_entry("a = 1\n---\nbody\n---\nmore"),
        Some(("a = 1\n".to_string(), "body\n---\nmore".to_string()))
    );
    assert_eq!(split_entry("---\n"), Some((String::new(), String::new())));
    assert_eq!(split_entry("---\n---\n"), Some((String::new(), "---\n".to_string())));
}

#[test]
fn split_needs_the_delimiter_line() {
    assert_eq!(split_entry(""), None);
    assert_eq!(split_entry("a = 1\nbody"), None);
    assert_eq!(split_entry("a = 1\n---"), None);
    assert_eq!(split_entry("a = 1\n ---\nbody"), None);
    assert_eq!(split_entry("a = 1\n----\nbody"), None);
    assert_eq!(split_entry("a = 1 ---\nbody"), None);
}

#[test]
fn content_with_delimiter_lines_round_trips() {
    let content = "---\nfirst\n---\n---\nlast without newline";
    let framed = frame_entry("k = \"v\"\n", content).unwrap();
    assert_eq!(split_entry(&framed), Some(("k = \"v\"\n".to_string(), content.to_string())));
}

#[test]
fn header_and_content_round_trip_through_the_text() {
    let mut e = Entry::new(id("notes/round"));
    e.insert("note.name", text("a name")).unwrap();
    e.insert("note.rank", Node::Integer(-7)).unwrap();
    e.insert("note.done", Node::Boolean(true)).unwrap();
    e.insert("note.ratio", Node::Float("0.25".to_string())).unwrap();
    e.insert("note.tags",
        Node::Array(vec![text("x"), text("y\nz")]),
    )
    .unwrap();
    e.set_content("line one\n---\nline three\u{00e9}".to_string());
    let written = e.to_text().unwrap();
    let back = Entry::from_text(id("notes/round"), &written).unwrap();
    assert_eq!(back.get_content(), e.get_content());
    assert_eq!(back.get_header(), e.get_header());
    for path in ["note.name", "note.rank", "note.done", "note.ratio", "note.tags", "imag.version", "imag.module"] {
        assert_eq!(
            read(back.get_header(), path).unwrap(),
            read(e.get_header(), path).unwrap(),
            "at {}",
            path
        );
    }
}

#[test]
fn a_file_without_the_stamp_is_no_entry() {
    let r = Entry::from_text(id("notes/a"), "[imag]\nversion = \"0.1.0\"\n---\nbody");
    assert!(matches!(r, Err(StoreError::ParseError(_, _))));
    let r = Entry::from_text(id("notes/a"), "[imag]\nversion = 1\nmodule = \"notes\"\n---\n");
    assert!(matches!(r, Err(StoreError::ParseError(_, _))));
}

#[test]
fn a_file_with_a_broken_header_is_no_entry() {
    match Entry::from_text(id("notes/a"), "[imag\n---\nbody") {
        Err(StoreError::ParseError(at, cause)) => {
            assert_eq!(at.local(), "notes/a");
            assert!(!cause.is_empty());
        }
        other => panic!("expected ParseError, got {:?}", other),
    }
    assert!(matches!(
        Entry::from_text(id("notes/a"), "no delimiter"),
        Err(StoreError::ParseError(_, _))
    ));
}

#[test]
fn a_stamped_file_is_read() {
    let e = Entry::from_text(
        id("notes/a"),
        "[imag]\nversion = \"0.3.0\"\nmodule = \"notes\"\n[note]\nwhen = 1979-05-27T07:32:00Z\n---\nbody\n",
    )
    .unwrap();
    assert_eq!(e.get_content(), "body\n");
    assert_eq!(read(e.get_header(), "imag.version").unwrap(), Some(&text("0.3.0")));
    match read(e.get_header(), "note.when").unwrap() {
        Some(Node::Datetime(d)) => assert_eq!(d.to_string(), "1979-05-27T07:32:00Z"),
        other => panic!("expected a date and time, got {:?}", other),
    }
}

#[test]
fn an_entry_never_loses_its_stamp() {
    let mut e = Entry::new(id("notes/a"));
    let before = e.get_header().clone();
    for path in ["imag.module", "imag.version", "imag"] {
        let err = e.delete(path).unwrap_err();
        assert_eq!(err.kind, HeaderErrorKind::WriteError);
        assert_eq!(err.path, path);
    }
    assert_eq!(e.insert("imag", Node::Integer(1)).unwrap_err().kind, HeaderErrorKind::WriteError);
    assert_eq!(
        e.insert("imag.version", Node::Integer(1)).unwrap_err().kind,
        HeaderErrorKind::WriteError
    );
    assert_eq!(
        e.set("imag.module", Node::Boolean(true)).unwrap_err().kind,
        HeaderErrorKind::WriteError
    );
    assert_eq!(e.get_header(), &before);
    assert!(e.replace_header(Node::Table(vec![])).is_err());
    assert_eq!(e.get_header(), &before);
    assert!(is_stamped(e.get_header()));
}

#[test]
fn the_stamp_can_be_changed_for_another() {
    let mut e = Entry::new(id("notes/a"));
    assert_eq!(e.set("imag.version", text("0.2.0")).unwrap(), text("0.1.0"));
    e.insert("imag.links", Node::Array(vec![])).unwrap();
    assert_eq!(e.delete("imag.links").unwrap(), Some(Node::Array(vec![])));
    assert_eq!(e.delete("imag.links").unwrap(), None);
    assert_eq!(e.read("imag.version").unwrap(), Some(&text("0.2.0")));
    let other = Entry::new(id("mail/b")).get_header().clone();
    let old = e.replace_header(other).unwrap();
    assert_eq!(read(&old, "imag.module").unwrap(), Some(&text("notes")));
    assert_eq!(e.read("imag.module").unwrap(), Some(&text("mail")));
}

#[test]
fn entry_access_fails_as_the_header_access_does() {
    let mut e = Entry::new(id("notes/a"));
    e.insert("a.b", Node::Integer(1)).unwrap();
    assert_eq!(e.read("a.b").unwrap(), Some(&Node::Integer(1)));
    assert_eq!(e.read("a.c").unwrap(), None);
    assert_eq!(e.read("a.b.c").unwrap_err().kind, HeaderErrorKind::TypeError);
    assert_eq!(e.delete("a.b.c").unwrap_err().kind, HeaderErrorKind::TypeError);
    assert_eq!(e.insert("a.b.c", Node::Integer(1)).unwrap_err().kind, HeaderErrorKind::WriteError);
    assert_eq!(e.set("a.c", Node::Integer(1)).unwrap_err().kind, HeaderErrorKind::WriteError);
    assert_eq!(e.set("a.b", Node::Integer(2)).unwrap(), Node::Integer(1));
}

#[test]
fn a_float_that_is_no_number_cannot_be_written() {
    let mut e = Entry::new(id("notes/a"));
    e.insert("x", Node::Float("not a number at all".to_string())).unwrap();
    assert!(matches!(e.to_text(), Err(StoreError::WriteError(_))));
}

#[test]
fn of_a_doubled_key_the_first_field_is_written() {
    let mut header = Entry::new(id("m/a")).get_header().clone();
    if let Node::Table(fields) = &mut header {
        fields.push(("k".to_string(), Node::Integer(1)));
        fields.push(("k".to_string(), Node::Integer(2)));
    }
    let e = Entry::from_parts(id("m/a"), header, String::new()).unwrap();
    let back = Entry::from_text(id("m/a"), &e.to_text().unwrap()).unwrap();
    assert_eq!(back.read("k").unwrap(), Some(&Node::Integer(1)));
}

#[test]
fn a_header_text_with_a_line_of_dashes_round_trips() {
    let mut e = Entry::new(id("a/b"));
    e.insert("x", text("one\n---\ntwo")).unwrap();
    e.insert("---", text("---")).unwrap();
    let written = e.to_text().unwrap();
    let back = Entry::from_text(id("a/b"), &written).unwrap();
    assert_eq!(back.get_header(), e.get_header());
    assert_eq!(back.read("x").unwrap(), Some(&text("one\n---\ntwo")));
}

#[test]
fn from_parts_checks_the_stamp() {
    let stamped = Entry::new(id("m/a"));
    let header = stamped.get_header().clone();
    let e = Entry::from_parts(id("m/b"), header, "c".to_string()).unwrap();
    assert_eq!(e.get_location().local(), "m/b");
    assert_eq!(e.get_content(), "c");
    let r = Entry::from_parts(id("m/b"), Node::Table(vec![]), "c".to_string());
    assert!(matches!(r, Err(StoreError::ParseError(_, _))));
}
