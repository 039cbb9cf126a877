use imag::entry::Entry;
use imag::error::StoreError;
use imag::hash::content_hash;
use imag::header::{read, Node};
use imag::store::Store;
use imag::storeid::StoreId;

fn id(path: &str) -> StoreId {
    StoreId::new_baseless(path).unwrap()
}

fn store() -> Store {
    Store::new("/tmp/store".to_string())
}

#[test]
fn create_checks_the_entry_out() {
    let mut s = store();
    assert!(!s.is_locked(&id("notes/a")));
    let g = s.create(id("notes/a"), false).unwrap();
    assert!(s.is_locked(&id("notes/a")));
    assert_eq!(g.get_location().local(), "notes/a");
    assert_eq!(g.entry().get_content(), "");
    assert_eq!(
        read(g.entry().get_header(), "imag.module").unwrap(),
        Some(&Node::String("notes".to_string()))
    );
    assert_eq!(s.path(), "/tmp/store");
}

#[test]
fn create_on_an_occupied_id_fails() {
    let mut s = store();
    match s.create(id("notes/a"), true) {
        Err(StoreError::AlreadyExists(at)) => assert_eq!(at.local(), "notes/a"),
        other => panic!("expected AlreadyExists, got {:?}", other),
    }
    assert!(!s.is_locked(&id("notes/a")));
}

#[test]
fn second_checkout_fails_with_locked_whoever_made_the_first() {
    let file = Entry::new(id("notes/a")).to_text().unwrap();
    for first in 0..3 {
        let mut s = store();
        let _guard = match first {
            0 => s.create(id("notes/a"), false).unwrap(),
            1 => s.retrieve(id("notes/a"), Some(&file)).unwrap(),
            _ => s.get(id("notes/a"), Some(&file)).unwrap().unwrap(),
        };
        for on_disk in [false, true] {
            match s.create(id("notes/a"), on_disk) {
                Err(StoreError::Locked(at)) => assert_eq!(at.local(), "notes/a"),
                other => panic!("expected Locked, got {:?}", other),
            }
        }
        for f in [None, Some(file.as_str()), Some("garbage")] {
            assert!(matches!(s.retrieve(id("notes/a"), f), Err(StoreError::Locked(_))));
            assert!(matches!(s.get(id("notes/a"), f), Err(StoreError::Locked(_))));
        }
        assert!(s.create(id("notes/b"), false).is_ok());
    }
}

#[test]
fn retrieve_of_a_missing_file_is_not_found_and_get_is_none() {
    let mut s = store();
    match s.retrieve(id("notes/a"), None) {
        Err(StoreError::NotFound(at)) => assert_eq!(at.local(), "notes/a"),
        other => panic!("expected NotFound, got {:?}", other),
    }
    assert!(matches!(s.get(id("notes/a"), None), Ok(None)));
    assert!(!s.is_locked(&id("notes/a")));
}

#[test]
fn retrieve_of_a_broken_file_is_a_parse_error() {
    let mut s = store();
    assert!(matches!(
        s.retrieve(id("notes/a"), Some("not toml\n---\n")),
        Err(StoreError::ParseError(_, _))
    ));
    assert!(matches!(
        s.get(id("notes/a"), Some("no delimiters")),
        Err(StoreError::ParseError(_, _))
    ));
    assert!(!s.is_locked(&id("notes/a")));
}

#[test]
fn release_checks_in_and_says_what_to_write() {
    let mut s = store();
    let mut g = s.create(id("notes/a"), false).unwrap();
    g.entry_mut().set_content("hello".to_string());
    let plan = s.release(g).unwrap();
    assert!(!s.is_locked(&id("notes/a")));
    assert_eq!(plan.target, "/tmp/store/notes/a");
    assert_eq!(plan.temp, "/tmp/store/notes/a~");
    assert_eq!(
        plan.text,
        "[imag]\nmodule = \"notes\"\nversion = \"0.1.0\"\n---\nhello"
    );
}

#[test]
fn what_is_released_is_retrieved_again() {
    let mut s = store();
    let mut g = s.create(id("notes/a"), false).unwrap();
    g.entry_mut().insert("note.name",
        Node::String("n".to_string()),
    )
    .unwrap();
    g.entry_mut().set_content("some\n---\ntext".to_string());
    let header = g.entry().get_header().clone();
    let plan = s.release(g).unwrap();
    let g = s.retrieve(id("notes/a"), Some(&plan.text)).unwrap();
    assert_eq!(g.entry().get_content(), "some\n---\ntext");
    assert_eq!(g.entry().get_header(), &header);
    assert_eq!(read(g.entry().get_header(), "note.name").unwrap(), read(&header, "note.name").unwrap());
}

#[test]
fn release_of_what_cannot_be_written_fails_but_checks_in() {
    let mut s = store();
    let mut g = s.create(id("notes/a"), false).unwrap();
    g.entry_mut().insert("x", Node::Float("no number".to_string())).unwrap();
    match s.release(g) {
        Err(StoreError::WriteError(at)) => assert_eq!(at.local(), "notes/a"),
        other => panic!("expected WriteError, got {:?}", other),
    }
    assert!(!s.is_locked(&id("notes/a")));
}

#[test]
fn update_keeps_the_entry_checked_out() {
    let mut s = store();
    let g = s.create(id("notes/a"), false).unwrap();
    let plan = s.update(&g).unwrap();
    assert_eq!(plan.target, "/tmp/store/notes/a");
    assert!(s.is_locked(&id("notes/a")));
}

#[test]
fn the_guard_keeps_its_identifier() {
    let mut s = store();
    let mut g = s.create(id("notes/a"), false).unwrap();
    *g.entry_mut() = Entry::new(id("other/b"));
    assert_eq!(g.get_location().local(), "notes/a");
    let plan = s.release(g).unwrap();
    assert_eq!(plan.target, "/tmp/store/notes/a");
    assert!(!s.is_locked(&id("notes/a")));
}

#[test]
fn delete_of_a_locked_entry_is_refused() {
    let mut s = store();
    let g = s.create(id("notes/a"), false).unwrap();
    match s.delete(&id("notes/a"), true) {
        Err(StoreError::Locked(at)) => assert_eq!(at.local(), "notes/a"),
        other => panic!("expected Locked, got {:?}", other),
    }
    s.release(g).unwrap();
    assert!(s.delete(&id("notes/a"), true).is_ok());
    assert!(matches!(s.delete(&id("notes/a"), false), Err(StoreError::NotFound(_))));
}

#[test]
fn entries_of_a_module_come_in_listing_order() {
    let s = store();
    let listing: Vec<String> = [
        "notes/b", "diary/2020/01/01", "notes/a/deep", "notes", "notesx/c", "/notes/abs",
        "notes/../x", "notes/tmp~", "notes/z",
    ]
    .iter()
    .map(|p| p.to_string())
    .collect();
    let ids = s.retrieve_for_module("notes", &listing);
    let paths: Vec<&str> = ids.iter().map(|i| i.local().as_str()).collect();
    assert_eq!(paths, vec!["notes/b", "notes/a/deep", "notes/z"]);
    assert!(s.retrieve_for_module("mail", &listing).is_empty());
    let deep = s.retrieve_for_module("notes/a", &listing);
    assert_eq!(deep.len(), 1);
    assert_eq!(deep[0].local(), "notes/a/deep");
    assert_eq!(s.retrieve_for_module("", &listing).len(), 0);
}

fn files_with_a_shared_first_digit() -> (Vec<(StoreId, String)>, String) {
    // Two texts whose hashes share the first digit and differ in the second,
    // and a third whose hash begins otherwise.
    let texts: Vec<String> = (0..200).map(|n| format!("text number {}", n)).collect();
    for a in 0..texts.len() {
        for b in (a + 1)..texts.len() {
            let (ha, hb) = (content_hash(&texts[a]), content_hash(&texts[b]));
            if ha[..1] == hb[..1] && ha[1..2] != hb[1..2] {
                let c = texts.iter().find(|t| content_hash(t)[..1] != ha[..1]).unwrap();
                let files = vec![
                    (id("ref/first"), texts[a].clone()),
                    (id("ref/other"), c.clone()),
                    (id("ref/second"), texts[b].clone()),
                ];
                return (files, ha[..1].to_string());
            }
        }
    }
    panic!("no such texts");
}

#[test]
fn shared_prefix_is_ambiguous_and_one_more_digit_resolves() {
    let s = store();
    let (files, prefix) = files_with_a_shared_first_digit();
    match s.find_storeid_by_partial_hash(&prefix, &files) {
        Err(StoreError::AmbiguousHash(ids)) => {
            let paths: Vec<&str> = ids.iter().map(|i| i.local().as_str()).collect();
            assert_eq!(paths, vec!["ref/first", "ref/second"]);
        }
        other => panic!("expected AmbiguousHash, got {:?}", other),
    }
    let longer = content_hash(&files[0].1)[..2].to_string();
    let found = s.find_storeid_by_partial_hash(&longer, &files).unwrap().unwrap();
    assert_eq!(found.local(), "ref/first");
    let longer = content_hash(&files[2].1)[..2].to_string();
    let found = s.find_storeid_by_partial_hash(&longer, &files).unwrap().unwrap();
    assert_eq!(found.local(), "ref/second");
}

#[test]
fn hash_lookup_edge_cases() {
    let s = store();
    let files = vec![(id("ref/a"), "a".to_string()), (id("ref/b"), "foobar".to_string())];
    assert!(matches!(s.find_storeid_by_partial_hash("zz", &files), Ok(None)));
    assert!(matches!(s.find_storeid_by_partial_hash("AF63", &files), Ok(None)));
    let found = s.find_storeid_by_partial_hash("af63", &files).unwrap().unwrap();
    assert_eq!(found.local(), "ref/a");
    let found = s.find_storeid_by_partial_hash("85944171f73967e8", &files).unwrap().unwrap();
    assert_eq!(found.local(), "ref/b");
    assert!(matches!(
        s.find_storeid_by_partial_hash("85944171f73967e80", &files),
        Ok(None)
    ));
    match s.find_storeid_by_partial_hash("", &files) {
        Err(StoreError::AmbiguousHash(ids)) => assert_eq!(ids.len(), 2),
        other => panic!("expected AmbiguousHash, got {:?}", other),
    }
    assert!(matches!(s.find_storeid_by_partial_hash("", &Vec::new()), Ok(None)));
}
