use kilodb::hash_store::HashStore;

fn field_of<'a>(all: &'a [(String, String)], name: &str) -> Option<&'a String> {
    all.iter().find(|p| p.0 == name).map(|p| &p.1)
}

#[test]
fn test_hash_store_new() {
    let store = HashStore::new();
    assert_eq!(store.len(), 0);
}

#[test]
fn test_set_and_get_field() {
    let mut store = HashStore::new();

    assert!(store.set_field("name", "John"));
    assert_eq!(store.get_field("name"), Some(&"John".to_string()));
    assert_eq!(store.len(), 1);

    assert!(!store.set_field("name", "Jane"));
    assert_eq!(store.get_field("name"), Some(&"Jane".to_string()));
    assert_eq!(store.len(), 1);
}

#[test]
fn test_multiple_fields() {
    let mut store = HashStore::new();

    store.set_field("name", "John");
    store.set_field("age", "30");
    store.set_field("city", "New York");

    assert_eq!(store.len(), 3);
    assert_eq!(store.get_field("name"), Some(&"John".to_string()));
    assert_eq!(store.get_field("age"), Some(&"30".to_string()));
    assert_eq!(store.get_field("city"), Some(&"New York".to_string()));
}

#[test]
fn test_field_exists() {
    let mut store = HashStore::new();

    assert!(!store.exists_field("name"));
    store.set_field("name", "John");
    assert!(store.exists_field("name"));
    assert!(!store.exists_field("age"));
}

#[test]
fn test_delete_field() {
    let mut store = HashStore::new();

    store.set_field("name", "John");
    store.set_field("age", "30");

    assert!(store.delete_field("name"));
    assert!(!store.exists_field("name"));
    assert_eq!(store.len(), 1);

    assert!(!store.delete_field("nonexistent"));
}

#[test]
fn test_get_keys() {
    let mut store = HashStore::new();

    store.set_field("name", "John");
    store.set_field("age", "30");

    let mut keys = store.get_keys();
    keys.sort();
    assert_eq!(keys, vec!["age", "name"]);
}

#[test]
fn test_get_values() {
    let mut store = HashStore::new();

    store.set_field("name", "John");
    store.set_field("age", "30");

    let mut values = store.get_values();
    values.sort();
    assert_eq!(values, vec!["30", "John"]);
}

#[test]
fn test_get_all_fields() {
    let mut store = HashStore::new();

    store.set_field("name", "John");
    store.set_field("age", "30");

    let all_fields = store.get_all_fields();
    assert_eq!(all_fields.len(), 2);
    assert_eq!(field_of(&all_fields, "name"), Some(&"John".to_string()));
    assert_eq!(field_of(&all_fields, "age"), Some(&"30".to_string()));
}

#[test]
fn fields_keep_their_first_place() {
    let mut store = HashStore::new();
    store.set_field("b", "1");
    store.set_field("a", "2");
    store.set_field("b", "3");
    assert_eq!(store.get_keys(), vec!["b", "a"]);
    assert_eq!(store.get_values(), vec!["3", "2"]);
}
