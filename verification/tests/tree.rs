use turso_mysql::mvcc::bwtree::{BwTree, KeyBound};
use turso_mysql::mvcc::page::{DeleteDelta, InsertDelta, LeafBase, Node};
use turso_mysql::mvcc::pool::DeltaPool;

fn s(text: &str) -> String {
    text.to_string()
}

fn leaf() -> Box<Node> {
    Box::new(Node::LeafBase(LeafBase { entries: vec![], high_key: None, right_sibling: 0 }))
}

fn inserted(key: i64) -> Box<Node> {
    Box::new(Node::InsertDelta(InsertDelta { key, value: s("v"), next: leaf() }))
}

fn deleted(key: i64) -> Box<Node> {
    Box::new(Node::DeleteDelta(DeleteDelta { key, value: s("v"), next: leaf() }))
}

#[test]
fn long_chains_are_consolidated_without_loss() {
    let mut tree = BwTree::new();
    for round in 0..5i64 {
        for key in 0..20i64 {
            assert!(tree.insert(key, format!("v{round}")));
        }
    }
    for key in 0..20i64 {
        let mut values = tree.get(&key);
        values.sort();
        assert_eq!(values, ["v0", "v1", "v2", "v3", "v4"]);
    }
    assert_eq!(tree.keys(), (0..20i64).collect::<Vec<_>>());
    assert_eq!(tree.len(), 100);
    for key in (0..20i64).step_by(2) {
        assert!(tree.remove(&key));
        assert!(!tree.remove(&key));
    }
    assert_eq!(tree.keys(), (1..20i64).step_by(2).collect::<Vec<_>>());
    assert_eq!(tree.get(&4), Vec::<String>::new());
}

#[test]
fn a_value_can_be_deleted_and_inserted_again() {
    let mut tree = BwTree::new();
    assert!(tree.insert(1, s("a")));
    assert!(tree.delete(&1, &s("a")));
    assert!(!tree.delete(&1, &s("a")));
    assert!(tree.insert(1, s("a")));
    assert_eq!(tree.get(&1), ["a"]);
    assert!(tree.delete(&1, &s("a")));
    assert!(tree.is_empty());
}

#[test]
fn a_value_that_occurs_twice_is_deleted_at_once() {
    let mut tree = BwTree::new();
    tree.insert(1, s("a"));
    tree.insert(1, s("a"));
    tree.insert(1, s("b"));
    assert_eq!(tree.get(&1), ["a", "a", "b"]);
    assert!(tree.delete(&1, &s("a")));
    assert_eq!(tree.get(&1), ["b"]);
    tree.insert(2, s("c"));
    tree.insert(2, s("c"));
    // The second copy is gone when its turn comes.
    assert!(!tree.remove(&2));
    assert_eq!(tree.get(&2), Vec::<String>::new());
}

#[test]
fn pairs_are_given_in_order() {
    let mut tree = BwTree::new();
    for (key, value) in [(3, "c"), (1, "a"), (2, "b"), (1, "a2")] {
        tree.insert(key, s(value));
    }
    let mut iterator = tree.iter();
    let mut pairs = vec![];
    while let Some(pair) = iterator.next() {
        pairs.push(pair);
    }
    assert_eq!(pairs, [(1, s("a")), (1, s("a2")), (2, s("b")), (3, s("c"))]);
    assert!(iterator.next().is_none());
}

#[test]
fn ranges_respect_their_bounds() {
    let mut tree = BwTree::new();
    for key in [10, 20, 30, 40] {
        tree.insert(key, s("v"));
    }
    let keys = |start, end| {
        let mut range = tree.range(start, end);
        let mut keys = vec![];
        while let Some((key, _)) = range.next() {
            keys.push(key);
        }
        keys
    };
    assert_eq!(keys(KeyBound::Included(20), KeyBound::Excluded(40)), [20, 30]);
    assert_eq!(keys(KeyBound::Excluded(20), KeyBound::Included(40)), [30, 40]);
    assert_eq!(keys(KeyBound::Unbounded, KeyBound::Included(10)), [10]);
    assert_eq!(keys(KeyBound::Unbounded, KeyBound::Unbounded), [10, 20, 30, 40]);
    assert_eq!(keys(KeyBound::Included(50), KeyBound::Unbounded), Vec::<i64>::new());
    assert_eq!(tree.lower_bound(&20), Some(20));
    assert_eq!(tree.lower_bound(&21), Some(30));
    assert_eq!(tree.lower_bound(&41), None);
    assert_eq!(tree.upper_bound(&20), Some(30));
    assert_eq!(tree.upper_bound(&40), None);
}

#[test]
fn chains_are_measured() {
    let base = leaf();
    assert_eq!(base.delta_chain_depth(), 0);
    assert!(!base.needs_consolidation(1));
    let one = inserted(1);
    assert_eq!(one.delta_chain_depth(), 1);
    assert_eq!(one.values(1), ["v"]);
    assert_eq!(one.values(2), Vec::<String>::new());
    let two = Node::DeleteDelta(DeleteDelta { key: 1, value: s("v"), next: one });
    assert_eq!(two.delta_chain_depth(), 2);
    assert!(two.needs_consolidation(2));
    assert!(!two.needs_consolidation(3));
    assert_eq!(two.values(1), Vec::<String>::new());
    assert_eq!(two.apply_deltas().len(), 0);
}

#[test]
fn the_pool_keeps_records_by_kind() {
    let mut pool = DeltaPool::new();
    assert!(pool.get_insert_node().is_none());
    pool.return_node(inserted(1));
    pool.return_node(inserted(2));
    pool.return_node(deleted(3));
    pool.return_node(leaf());
    assert!(matches!(*pool.get_insert_node().unwrap(), Node::InsertDelta(d) if d.key == 2));
    assert!(matches!(*pool.get_delete_node().unwrap(), Node::DeleteDelta(d) if d.key == 3));
    assert!(pool.get_delete_node().is_none());
    assert!(matches!(*pool.get_insert_node().unwrap(), Node::InsertDelta(d) if d.key == 1));
    for key in 0..100 {
        pool.return_node(inserted(key));
        pool.return_node(deleted(key));
    }
    let mut inserts = 0;
    while pool.get_insert_node().is_some() {
        inserts += 1;
    }
    let mut deletes = 0;
    while pool.get_delete_node().is_some() {
        deletes += 1;
    }
    assert_eq!((inserts, deletes), (64, 32));
}

#[test]
fn removing_a_key_leaves_the_others_alone() {
    let mut tree = BwTree::new();
    tree.insert(2, s("v"));
    for key in 10..17 {
        tree.insert(key, s("w"));
    }
    // The page was consolidated; from here on the chain grows again.
    tree.delete(&2, &s("v"));
    tree.insert(2, s("v"));
    tree.insert(1, s("x"));
    for key in 20..24 {
        tree.insert(key, s("w"));
    }
    assert_eq!(tree.get(&2), ["v"]);
    assert!(tree.remove(&1));
    assert_eq!(tree.get(&2), ["v"]);
    assert_eq!(tree.get(&1), Vec::<String>::new());
    assert!(!tree.keys().contains(&1));
    assert!(!tree.remove(&1));
}

#[test]
fn consolidation_keeps_a_repeated_insertion_once() {
    let mut tree = BwTree::new();
    for value in ["b", "a", "b", "c", "a", "d"] {
        tree.insert(1, s(value));
    }
    tree.delete(&1, &s("a"));
    assert_eq!(tree.get(&1), ["b", "b", "c", "d"]);
    // The eighth record has the page consolidated.
    tree.insert(1, s("a"));
    assert_eq!(tree.get(&1), ["b", "c", "d", "a"]);
    // A value of the base page can get another copy.
    tree.insert(1, s("c"));
    assert_eq!(tree.get(&1), ["b", "c", "d", "a", "c"]);

    let mut tree = BwTree::new();
    for _ in 0..7 {
        tree.insert(1, s("v"));
    }
    assert_eq!(tree.get(&1).len(), 7);
    assert_eq!(tree.len(), 7);
    // Iterating is over the consolidated page.
    let mut iterator = tree.iter();
    assert_eq!(iterator.next(), Some((1, s("v"))));
    assert_eq!(iterator.next(), None);
    tree.insert(1, s("v"));
    assert_eq!(tree.get(&1), ["v"]);
}

#[test]
fn removing_a_key_leaves_repeated_values_of_others() {
    let mut tree = BwTree::new();
    tree.insert(2, s("v"));
    tree.insert(2, s("v"));
    for value in ["a", "b", "c", "d", "e"] {
        tree.insert(1, s(value));
    }
    assert!(tree.remove(&1));
    assert_eq!(tree.get(&2), ["v", "v"]);
    assert_eq!(tree.get(&1), Vec::<String>::new());
    assert_eq!(tree.keys(), [2]);
    // The next insertion has the page consolidated.
    tree.insert(3, s("x"));
    assert_eq!(tree.get(&2), ["v"]);
}
