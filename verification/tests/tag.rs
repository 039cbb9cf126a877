use imag::tag::{is_tag, is_tag_str};

#[test]
fn lowercase_words_are_tags() {
    for t in ["a", "abc", "tag", "zzzzzzzzzz"] {
        assert_eq!(is_tag(t.to_string()), Ok(()), "for {:?}", t);
        assert_eq!(is_tag_str(&t.to_string()), Ok(()), "for {:?}", t);
    }
}

#[test]
fn other_strings_are_no_tags() {
    for t in [
        "", "Abc", "aBc", "a b", " a", "a\n", "a1", "1a", "a_b", "a-b", "\u{00e9}t\u{00e9}",
        "a.b", "foo!",
    ] {
        assert_eq!(
            is_tag(t.to_string()),
            Err(format!("The string '{}' is not a valid tag", t)),
            "for {:?}",
            t
        );
    }
}
