use imag::error::StoreError;
use imag::order::{compare_texts, Order};
use imag::storeid::StoreId;

#[test]
fn path_that_steps_up_is_refused() {
    match StoreId::new("/home/me/store", "../../etc/passwd") {
        Err(StoreError::InvalidPath(p)) => assert_eq!(p, "../../etc/passwd"),
        other => panic!("expected InvalidPath, got {:?}", other),
    }
}

#[test]
fn relative_path_round_trips_through_into_path() {
    let root = "/home/me/store";
    let id = StoreId::new(root, "diary/2020/01/01").unwrap();
    assert_eq!(id.local(), "diary/2020/01/01");
    let full = id.into_path(root);
    assert_eq!(full, "/home/me/store/diary/2020/01/01");
    let back = StoreId::new(root, &full).unwrap();
    assert!(back == id);
}

#[test]
fn root_with_trailing_slash_gets_no_second_one() {
    let id = StoreId::new_baseless("notes/a").unwrap();
    assert_eq!(id.into_path("/srv/"), "/srv/notes/a");
    assert_eq!(id.into_path("/srv"), "/srv/notes/a");
    assert_eq!(id.into_path(""), "/notes/a");
}

#[test]
fn absolute_path_outside_the_root_is_refused() {
    assert!(matches!(
        StoreId::new("/home/me/store", "/etc/passwd"),
        Err(StoreError::InvalidPath(_))
    ));
}

#[test]
fn full_path_is_only_stripped_below_an_absolute_root() {
    let id = StoreId::new("store", "store/a").unwrap();
    assert_eq!(id.local(), "store/a");
    let id = StoreId::new("/store", "/store/a").unwrap();
    assert_eq!(id.local(), "a");
}

#[test]
fn malformed_paths_are_refused() {
    for bad in [
        "", "/", "a/", "/a", "a//b", ".", "..", "a/./b", "a/../b", "a/..", "a\0b", "a~", "a/b~",
    ] {
        assert!(
            matches!(StoreId::new_baseless(bad), Err(StoreError::InvalidPath(_))),
            "{:?} was accepted",
            bad
        );
    }
}

#[test]
fn unusual_but_valid_paths_are_accepted() {
    for good in ["a", "...", ".hidden", "a/..b", "a/b.c", "~a", "a~b", "diary/2016/04/01T13:00"] {
        let id = StoreId::new_baseless(good).unwrap();
        assert_eq!(id.local(), good);
    }
}

#[test]
fn identifiers_are_ordered_as_their_paths_are() {
    let paths = [
        "a", "a/b", "a/b/c", "a0", "ab", "b", "B", "a/\u{00e9}", "a/z", "\u{4e2d}", "\u{1f600}",
        "a/b~c", "aa",
    ];
    for x in paths {
        for y in paths {
            let (ix, iy) = (StoreId::new_baseless(x).unwrap(), StoreId::new_baseless(y).unwrap());
            assert_eq!(ix.partial_cmp(&iy), Some(x.cmp(y)), "{:?} and {:?}", x, y);
            assert_eq!(ix.cmp(&iy), x.cmp(y), "{:?} and {:?}", x, y);
            assert_eq!(ix < iy, x < y);
            assert_eq!(ix == iy, x == y);
        }
    }
}

#[test]
fn texts_are_ordered_by_the_place_where_they_part() {
    let cmp = |a: &str, b: &str| compare_texts(&a.chars().collect(), &b.chars().collect());
    assert_eq!(cmp("", ""), Order::Equal);
    assert_eq!(cmp("", "a"), Order::Less);
    assert_eq!(cmp("a", ""), Order::Greater);
    assert_eq!(cmp("abc", "abd"), Order::Less);
    assert_eq!(cmp("abd", "abc"), Order::Greater);
    assert_eq!(cmp("ab", "abc"), Order::Less);
    assert_eq!(cmp("b", "abc"), Order::Greater);
    assert_eq!(cmp("abc", "abc"), Order::Equal);
}

#[test]
fn identifiers_compare_by_their_relative_path() {
    let a = StoreId::new("/one", "x/y").unwrap();
    let b = StoreId::new("/two", "x/y").unwrap();
    let c = StoreId::new("/one", "x/z").unwrap();
    assert!(a == b);
    assert!(a != c);
    assert!(a < c);
    assert!(a.clone() == a);
}
