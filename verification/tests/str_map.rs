use devkit::str_map::StrMap;

#[test]
fn insert_keeps_keys_sorted_and_replaces() {
    let mut m: StrMap<u32> = StrMap::new();
    m.insert("b".to_string(), 2);
    m.insert("a".to_string(), 1);
    m.insert("c".to_string(), 3);
    m.insert("b".to_string(), 20);
    assert_eq!(m.len(), 3);
    let keys: Vec<&str> = (0..m.len()).map(|i| m.key_at(i).as_str()).collect();
    assert_eq!(keys, vec!["a", "b", "c"]);
    assert_eq!(m.get("b"), Some(&20));
    assert_eq!(m.get("z"), None);
    assert_eq!(m.index_of("c"), Some(2));
    assert!(m.contains_key("a"));
    assert!(!m.contains_key("A"));
}

#[test]
fn set_value_at_returns_previous() {
    let mut m: StrMap<u32> = StrMap::new();
    m.insert("k".to_string(), 7);
    assert_eq!(m.set_value_at(0, 8), 7);
    assert_eq!(m.value_at(0), &8);
    m.clear();
    assert_eq!(m.len(), 0);
}

#[test]
fn copy_of_string_map() {
    let mut m: StrMap<String> = StrMap::new();
    m.insert("x".to_string(), "1".to_string());
    let c = m.copy();
    assert_eq!(c.get("x").map(|s| s.as_str()), Some("1"));
    assert_eq!(c.len(), 1);
}
