use search_indexing::ids::{render_id, render_ids};

#[test]
fn small_ids() {
    assert_eq!(render_id(1), "1");
    assert_eq!(render_id(9), "9");
    assert_eq!(render_id(10), "A");
    assert_eq!(render_id(35), "Z");
    assert_eq!(render_id(36), "a");
    assert_eq!(render_id(61), "z");
}

#[test]
fn zero_is_the_empty_string() {
    assert_eq!(render_id(0), "");
}

#[test]
fn ids_of_several_digits() {
    assert_eq!(render_id(62), "10");
    assert_eq!(render_id(3843), "zz");
    assert_eq!(render_id(3844), "100");
    assert_eq!(render_id(1_000_000), "4C92");
    assert_eq!(render_id(12_345_678_901_234), "3VLrOWLi");
}

#[test]
fn largest_ids() {
    assert_eq!(render_id(1 << 63), "AzL8n0Y58m8");
    assert_eq!(render_id(u64::MAX), "LygHa16AHYF");
}

#[test]
fn lists_keep_their_order() {
    assert_eq!(render_ids(&vec![62, 1, 62]), vec!["10".to_string(), "1".to_string(), "10".to_string()]);
    assert_eq!(render_ids(&Vec::new()), Vec::<String>::new());
}

#[test]
fn different_ids_render_differently() {
    let ids: Vec<u64> = vec![0, 1, 61, 62, 63, 3843, 3844, 238_328, u64::MAX - 1, u64::MAX];
    let rendered = render_ids(&ids);
    for i in 0..ids.len() {
        for j in 0..ids.len() {
            assert_eq!(rendered[i] == rendered[j], i == j);
        }
    }
}
