use search_indexing::license::{classify_lookup, is_open_source};
use search_indexing::text::first_token;

#[test]
fn mit_is_open_source() {
    assert!(is_open_source("MIT"));
}

#[test]
fn compound_license_is_cut_to_its_first_operand() {
    let token = first_token("MIT OR Apache-2.0");
    assert_eq!(token, "MIT");
    assert!(is_open_source(&token));
}

#[test]
fn proprietary_license_is_not_open_source() {
    let token = first_token("Proprietary No Redistribution");
    assert_eq!(token, "Proprietary");
    assert!(!is_open_source(&token));
}

#[test]
fn empty_token_is_not_open_source() {
    assert!(!is_open_source(""));
    assert!(!is_open_source(&first_token("")));
}

#[test]
fn lookup_result_decides() {
    assert!(classify_lookup(Some(true)));
    assert!(!classify_lookup(Some(false)));
    assert!(!classify_lookup(None));
}
