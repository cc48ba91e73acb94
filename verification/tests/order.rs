use git_productivity_analyzer::order::{compare_bytes, compare_text, Place};
use git_productivity_analyzer::table::TextMap;

#[test]
fn text_order_is_byte_order() {
    assert_eq!(compare_text("a", "b"), Place::Before);
    assert_eq!(compare_text("b", "a"), Place::After);
    assert_eq!(compare_text("abc", "abc"), Place::Same);
    assert_eq!(compare_text("ab", "abc"), Place::Before);
    assert_eq!(compare_text("", ""), Place::Same);
    assert_eq!(compare_text("Z", "a"), Place::Before);
    assert_eq!(compare_text("é", "z"), Place::After);
    for (a, b) in [("x", "y"), ("src/a", "src/b"), ("Bob", "alice"), ("", "a")] {
        let expect = match a.cmp(b) {
            std::cmp::Ordering::Less => Place::Before,
            std::cmp::Ordering::Equal => Place::Same,
            std::cmp::Ordering::Greater => Place::After,
        };
        assert_eq!(compare_text(a, b), expect);
    }
    assert_eq!(compare_bytes(&[1, 2], &[1, 3]), Place::Before);
}

#[test]
fn text_map_keeps_keys_ascending() {
    let mut map: TextMap<u32> = TextMap::new();
    map.put("pear".to_string(), 1);
    map.put("apple".to_string(), 2);
    map.put("zebra".to_string(), 3);
    map.put("apple".to_string(), 4);
    assert_eq!(map.len(), 3);
    assert_eq!(map.key_at(0), "apple");
    assert_eq!(map.key_at(1), "pear");
    assert_eq!(map.key_at(2), "zebra");
    assert_eq!(map.get("apple"), Some(&4));
    assert_eq!(map.get("pear"), Some(&1));
    assert_eq!(map.get("kiwi"), None);
    assert_eq!(map.locate("kiwi"), (1, false));
    assert_eq!(map.locate("pear"), (1, true));
}
