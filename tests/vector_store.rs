use kilodb::vector_store::VectorStore;

#[test]
fn test_vector_store_new() {
    let store = VectorStore::new();
    assert_eq!(store.len(), 0);
}

#[test]
fn test_push_left() {
    let mut store = VectorStore::new();

    assert_eq!(store.push_left("first"), 1);
    assert_eq!(store.push_left("second"), 2);
    assert_eq!(store.push_left("third"), 3);

    assert_eq!(store.get_range(0, -1), vec!["third", "second", "first"]);
}

#[test]
fn test_push_right() {
    let mut store = VectorStore::new();

    assert_eq!(store.push_right("first"), 1);
    assert_eq!(store.push_right("second"), 2);
    assert_eq!(store.push_right("third"), 3);

    assert_eq!(store.get_range(0, -1), vec!["first", "second", "third"]);
}

#[test]
fn test_pop_left() {
    let mut store = VectorStore::new();

    store.push_right("first");
    store.push_right("second");
    store.push_right("third");

    assert_eq!(store.pop_left(), Some("first".to_string()));
    assert_eq!(store.pop_left(), Some("second".to_string()));
    assert_eq!(store.len(), 1);

    assert_eq!(store.pop_left(), Some("third".to_string()));
    assert_eq!(store.pop_left(), None);
}

#[test]
fn test_pop_right() {
    let mut store = VectorStore::new();

    store.push_right("first");
    store.push_right("second");
    store.push_right("third");

    assert_eq!(store.pop_right(), Some("third".to_string()));
    assert_eq!(store.pop_right(), Some("second".to_string()));
    assert_eq!(store.len(), 1);

    assert_eq!(store.pop_right(), Some("first".to_string()));
    assert_eq!(store.pop_right(), None);
}

#[test]
fn test_get_range() {
    let mut store = VectorStore::new();

    for i in 0..5 {
        store.push_right(&format!("item{}", i));
    }

    assert_eq!(store.get_range(0, 2), vec!["item0", "item1", "item2"]);
    assert_eq!(store.get_range(1, 3), vec!["item1", "item2", "item3"]);

    assert_eq!(store.get_range(-2, -1), vec!["item3", "item4"]);
    assert_eq!(store.get_range(0, -1), vec!["item0", "item1", "item2", "item3", "item4"]);

    assert_eq!(store.get_range(10, 20), vec![] as Vec<String>);
    assert_eq!(store.get_range(-10, 2), vec!["item0", "item1", "item2"]);
}

#[test]
fn test_get_index() {
    let mut store = VectorStore::new();

    store.push_right("first");
    store.push_right("second");
    store.push_right("third");

    assert_eq!(store.get_index(0), Some(&"first".to_string()));
    assert_eq!(store.get_index(1), Some(&"second".to_string()));
    assert_eq!(store.get_index(2), Some(&"third".to_string()));

    assert_eq!(store.get_index(-1), Some(&"third".to_string()));
    assert_eq!(store.get_index(-2), Some(&"second".to_string()));
    assert_eq!(store.get_index(-3), Some(&"first".to_string()));

    assert_eq!(store.get_index(3), None);
    assert_eq!(store.get_index(-4), None);
}

#[test]
fn test_mixed_operations() {
    let mut store = VectorStore::new();

    store.push_right("middle");
    store.push_left("left");
    store.push_right("right");

    assert_eq!(store.get_range(0, -1), vec!["left", "middle", "right"]);

    assert_eq!(store.pop_left(), Some("left".to_string()));
    assert_eq!(store.pop_right(), Some("right".to_string()));
    assert_eq!(store.get_range(0, -1), vec!["middle"]);
}

#[test]
fn range_with_start_after_stop_is_empty() {
    let mut store = VectorStore::new();
    store.push_right("a");
    store.push_right("b");
    store.push_right("c");
    assert_eq!(store.get_range(2, 1), vec![] as Vec<String>);
    assert_eq!(store.get_range(-1, -1), vec!["c"]);
    assert_eq!(store.get_range(3, -1), vec![] as Vec<String>);
}
