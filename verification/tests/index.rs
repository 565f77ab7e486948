use log_aggregator::index::GroupIndex;

#[test]
fn index_holds_a_position_for_each_key() {
    let mut index = GroupIndex::new();
    assert_eq!(index.get("GET", "/a"), None);
    index.insert("GET", "/a".to_string(), 0);
    index.insert("POST", "/a".to_string(), 1);
    index.insert("GET", "/b".to_string(), 2);
    assert_eq!(index.get("GET", "/a"), Some(0));
    assert_eq!(index.get("POST", "/a"), Some(1));
    assert_eq!(index.get("GET", "/b"), Some(2));
    assert_eq!(index.get("POST", "/b"), None);
    assert_eq!(index.get("PUT", "/a"), None);
    assert_eq!(index.get("", ""), None);
}

#[test]
fn index_tells_method_and_uri_apart() {
    let mut index = GroupIndex::new();
    index.insert("GET/", "a".to_string(), 7);
    assert_eq!(index.get("GET", "/a"), None);
    assert_eq!(index.get("GET/", "a"), Some(7));
    index.insert("", "GET/a".to_string(), 8);
    assert_eq!(index.get("", "GET/a"), Some(8));
    assert_eq!(index.get("GET/a", ""), None);
}

#[test]
fn index_keeps_the_last_position_given_for_a_key() {
    let mut index = GroupIndex::new();
    index.insert("GET", "/a".to_string(), 3);
    index.insert("GET", "/a".to_string(), 5);
    assert_eq!(index.get("GET", "/a"), Some(5));
}
