use turso_mysql::mvcc::bwtree::BwTree;

#[test]
fn test_basic_insert_and_get() {
    let mut tree = BwTree::new();

    // Test single insert and get
    assert!(tree.insert(1, "one".to_string()));
    let values = tree.get(&1);
    assert_eq!(values, vec!["one".to_string()]);

    // Test non-existent key
    let empty = tree.get(&999);
    assert!(empty.is_empty());
}

#[test]
fn test_multiple_values_per_key() {
    let mut tree = BwTree::new();

    // Insert multiple values for same key
    assert!(tree.insert(1, "one".to_string()));
    assert!(tree.insert(1, "uno".to_string()));
    assert!(tree.insert(1, "eins".to_string()));

    let values = tree.get(&1);
    assert_eq!(values.len(), 3);
    assert!(values.contains(&"one".to_string()));
    assert!(values.contains(&"uno".to_string()));
    assert!(values.contains(&"eins".to_string()));
}

#[test]
fn test_delete_operations() {
    let mut tree = BwTree::new();

    // Setup test data
    tree.insert(1, "one".to_string());
    tree.insert(1, "uno".to_string());
    tree.insert(2, "two".to_string());

    // Delete specific value
    assert!(tree.delete(&1, &"uno".to_string()));
    let values = tree.get(&1);
    assert_eq!(values, vec!["one".to_string()]);

    // Try to delete non-existent value
    assert!(!tree.delete(&1, &"missing".to_string()));

    // Delete remaining value
    assert!(tree.delete(&1, &"one".to_string()));
    let values = tree.get(&1);
    assert!(values.is_empty());
}

#[test]
fn test_tree_operations() {
    let mut tree = BwTree::new();
    assert_eq!(tree.len(), 0);
    assert!(tree.is_empty());

    // Add some data
    tree.insert(3, "three".to_string());
    tree.insert(1, "one".to_string());
    tree.insert(2, "two".to_string());

    assert_eq!(tree.len(), 3);
    assert!(!tree.is_empty());

    let keys = tree.keys();
    assert_eq!(keys.len(), 3);
    assert!(keys.contains(&1));
    assert!(keys.contains(&2));
    assert!(keys.contains(&3));
}
