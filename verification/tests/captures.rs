use yew_router::captures::CaptureMap;

#[test]
fn new_map_holds_nothing() {
    let map = CaptureMap::new();
    assert_eq!(map.get("a"), None);
    assert!(!map.contains_key("a"));
}

#[test]
fn inserted_value_is_found() {
    let mut map = CaptureMap::new();
    map.insert("a".to_string(), "1".to_string());
    map.insert("b".to_string(), "2".to_string());
    assert_eq!(map.get("a"), Some(&"1".to_string()));
    assert_eq!(map.get("b"), Some(&"2".to_string()));
    assert_eq!(map.get("c"), None);
    assert!(map.contains_key("b"));
}

#[test]
fn inserting_again_replaces_the_value() {
    let mut map = CaptureMap::new();
    map.insert("a".to_string(), "1".to_string());
    map.insert("a".to_string(), "2".to_string());
    assert_eq!(map.get("a"), Some(&"2".to_string()));
    assert_eq!(map.remove("a"), Some("2".to_string()));
    assert_eq!(map.get("a"), None);
}

#[test]
fn removed_value_is_gone() {
    let mut map = CaptureMap::new();
    map.insert("a".to_string(), "1".to_string());
    map.insert("b".to_string(), "2".to_string());
    assert_eq!(map.remove("a"), Some("1".to_string()));
    assert_eq!(map.remove("a"), None);
    assert_eq!(map.get("a"), None);
    assert_eq!(map.get("b"), Some(&"2".to_string()));
    assert_eq!(map.remove("c"), None);
}
