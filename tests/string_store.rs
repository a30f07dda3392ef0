use kilodb::string_store::StringStore;

#[test]
fn test_string_store_new() {
    let store = StringStore::new("test_value".to_string());
    assert_eq!(store.get_value(), "test_value");
}

#[test]
fn test_string_store_empty() {
    let store = StringStore::new("".to_string());
    assert_eq!(store.get_value(), "");
}

#[test]
fn test_string_store_unicode() {
    let store = StringStore::new("hello 世界".to_string());
    assert_eq!(store.get_value(), "hello 世界");
}
