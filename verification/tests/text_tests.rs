use search_indexing::text::{
    append_texts, clone_opt_text, clone_texts, contains_text, first_token, text_eq, text_lt,
};

#[test]
fn order_is_that_of_str() {
    let words = ["", " ", "a", "A", "ab", "abc", "b", "fabric", "forge", "Forge", "é", "z", "日本"];
    for a in words {
        for b in words {
            assert_eq!(text_lt(a, b), a < b, "{:?} before {:?}", a, b);
            assert_eq!(text_eq(a, b), a == b, "{:?} equals {:?}", a, b);
        }
    }
}

#[test]
fn prefix_sorts_first() {
    assert!(text_lt("quilt", "quilted"));
    assert!(!text_lt("quilted", "quilt"));
    assert!(!text_lt("quilt", "quilt"));
}

#[test]
fn first_token_ends_at_first_space() {
    assert_eq!(first_token("LGPL-3.0-only WITH exception"), "LGPL-3.0-only");
    assert_eq!(first_token("MIT"), "MIT");
    assert_eq!(first_token(""), "");
    assert_eq!(first_token(" MIT"), "");
    assert_eq!(first_token("MIT "), "MIT");
    assert_eq!(first_token("Lizenz-ä frei"), "Lizenz-ä");
}

#[test]
fn first_token_splits_on_spaces_only() {
    assert_eq!(first_token("MIT\tOR Apache-2.0"), "MIT\tOR");
}

#[test]
fn contains_text_finds_equal_strings() {
    let list = vec!["approved".to_string(), "archived".to_string()];
    assert!(contains_text(&list, "archived"));
    assert!(!contains_text(&list, "draft"));
    assert!(!contains_text(&Vec::new(), "draft"));
}

#[test]
fn copies_are_equal() {
    let list = vec!["a".to_string(), "b".to_string()];
    assert_eq!(clone_texts(&list), list);
    assert_eq!(clone_opt_text(&Some("x".to_string())), Some("x".to_string()));
    assert_eq!(clone_opt_text(&None), None);
    let mut target = vec!["0".to_string()];
    append_texts(&mut target, &list);
    assert_eq!(target, vec!["0".to_string(), "a".to_string(), "b".to_string()]);
}
