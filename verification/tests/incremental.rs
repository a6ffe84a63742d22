use turso_mysql::incremental::dbsp::{Stream, ZSet};
use turso_mysql::incremental::events::{apply_event, TableChangeEvent, TableEventStream};
use turso_mysql::incremental::registry::{
    create_view_to_str, translate_create_view, TableEventRegistry,
};
use turso_mysql::incremental::view::{
    extract_base_table_name, Expr, ImmutableRecord, IncrementalView, Operator, Select, SelectCore,
    SelectTable, ViewCommand, WherePredicate,
};

fn sorted(mut v: Vec<i64>) -> Vec<i64> {
    v.sort();
    v
}

fn entries(z: &ZSet<i64>) -> Vec<(i64, i32)> {
    let mut v: Vec<(i64, i32)> = z.iter().into_iter().map(|(k, w)| (*k, w)).collect();
    v.sort();
    v
}

fn record(x: u8) -> ImmutableRecord {
    ImmutableRecord { payload: vec![2, 1, x] }
}

fn insert(table: &str, row_key: i64, x: u8) -> TableChangeEvent {
    TableChangeEvent::Insert { table_name: table.to_string(), row_key, record: record(x) }
}

fn delete(table: &str, row_key: i64) -> TableChangeEvent {
    TableChangeEvent::Delete { table_name: table.to_string(), row_key }
}

fn condition(column: &str, op: Operator, number: &str) -> Select {
    Select {
        core: Some(SelectCore {
            from: Some(SelectTable::Table("t".to_string())),
            where_clause: Some(Expr::Binary(
                Box::new(Expr::Id(column.to_string())),
                op,
                Box::new(Expr::Numeric(number.to_string())),
            )),
        }),
    }
}

fn data(view: &IncrementalView) -> Vec<(i64, u8)> {
    let mut v: Vec<(i64, u8)> =
        view.current_data().into_iter().map(|(k, r)| (k, r.get_payload()[2])).collect();
    v.sort();
    v
}

#[test]
fn weights_are_added() {
    let mut z = ZSet::new();
    z.insert(5i64, 2);
    z.insert(5, -1);
    z.insert(7, -3);
    assert_eq!(entries(&z), [(5, 1), (7, -3)]);
    assert_eq!(z.weight_of(&7), -3);
    assert_eq!(z.weight_of(&8), 0);
    // A weight of zero is no entry.
    z.insert(5, -1);
    assert_eq!(entries(&z), [(7, -3)]);
    assert_eq!(z.to_vec(), Vec::<i64>::new());
}

#[test]
fn items_are_counted() {
    let z = ZSet::from_items(vec![1i64, 2, 1, 1]);
    assert_eq!(entries(&z), [(1, 3), (2, 1)]);
    assert_eq!(sorted(z.to_vec()), [1, 2]);
    assert!(z.same(&ZSet::from_items(vec![2, 1, 1, 1])));
    assert!(!z.same(&ZSet::from_items(vec![2, 1, 1])));
    assert!(!z.same(&ZSet::new()));
}

#[test]
fn changes_commute_and_are_undone() {
    let start = ZSet::from_items(vec![1i64, 2]);
    let mut a = ZSet::new();
    a.insert(1, -1);
    a.insert(3, 2);
    let mut b = ZSet::new();
    b.insert(3, -2);
    b.insert(2, 5);
    let mut ab = start.clone();
    ab.merge(&a);
    ab.merge(&b);
    let mut ba = start.clone();
    ba.merge(&b);
    ba.merge(&a);
    assert_eq!(entries(&ab), [(2, 6)]);
    assert!(ab.same(&ba));
    let mut minus_a = ZSet::new();
    minus_a.insert(1, 1);
    minus_a.insert(3, -2);
    let mut back = start.clone();
    back.merge(&a);
    back.merge(&minus_a);
    assert!(back.same(&start));
}

#[test]
fn streams_are_composed() {
    let mut s: Stream<i64> = Stream::new();
    for n in [1i64, 2, 3, 4, 4] {
        s.push(n);
    }
    assert_eq!(sorted(s.to_vec()), [1, 2, 3, 4]);
    assert_eq!(s.weight_of(&4), 2);
    let even = s.filter(|n| n % 2 == 0);
    assert_eq!(sorted(even.to_vec()), [2, 4]);
    assert_eq!(even.weight_of(&4), 2);
    // Images that come together are added up.
    let parity = s.map(|n| n % 2);
    assert_eq!(parity.weight_of(&0), 3);
    assert_eq!(parity.weight_of(&1), 2);
    let signed = s.filter_map(|n| if *n > 2 { Some((n % 2, -1)) } else { None });
    assert_eq!(signed.weight_of(&0), -2);
    assert_eq!(signed.weight_of(&1), -1);
    assert!(signed.to_vec().is_empty());
    let mut t = Stream::from_zset(ZSet::from_items(vec![9i64]));
    let mut delta = ZSet::new();
    delta.insert(9, -1);
    delta.insert(8, 1);
    t.apply_delta(&delta);
    assert_eq!(t.to_vec(), [8]);
}

#[test]
fn filtering_follows_changes() {
    let mut change = ZSet::new();
    change.insert(1i64, -1);
    change.insert(4, 2);
    change.insert(6, 1);
    let even = |n: &i64| n % 2 == 0;
    let mut whole = Stream::from_zset(ZSet::from_items(vec![1i64, 2, 4]));
    let mut followed = whole.filter(even);
    whole.apply_delta(&change);
    let filtered_change = Stream::from_zset(change).filter(even);
    for n in [1i64, 2, 4, 6] {
        for _ in 0..filtered_change.weight_of(&n) {
            followed.push(n);
        }
    }
    let filtered = whole.filter(even);
    for n in [1i64, 2, 4, 6] {
        assert_eq!(followed.weight_of(&n), filtered.weight_of(&n));
    }
    assert_eq!(filtered.weight_of(&4), 3);
}

#[test]
fn conditions_are_read() {
    let view = |select: &Select| IncrementalView::from_stmt("v".to_string(), select).where_predicate;
    assert_eq!(
        view(&condition("x", Operator::Greater, "2")),
        WherePredicate::GreaterThan { column: "x".to_string(), value: 2 }
    );
    assert_eq!(
        view(&condition("y", Operator::Less, "-3")),
        WherePredicate::LessThan { column: "y".to_string(), value: -3 }
    );
    assert_eq!(
        view(&condition("x", Operator::Equals, "5")),
        WherePredicate::Equals { column: "x".to_string(), value: 5 }
    );
    assert_eq!(view(&condition("x", Operator::Other, "5")), WherePredicate::Always);
    assert_eq!(view(&condition("x", Operator::Equals, "5.0")), WherePredicate::Always);
    assert_eq!(view(&Select { core: None }), WherePredicate::Always);
}

#[test]
fn rows_are_tested() {
    let over = |op, n: &str| IncrementalView::from_stmt("v".to_string(), &condition("x", op, n));
    assert!(over(Operator::Greater, "2").evaluate_predicate(&record(3)));
    assert!(!over(Operator::Greater, "3").evaluate_predicate(&record(3)));
    assert!(over(Operator::Less, "4").evaluate_predicate(&record(3)));
    assert!(over(Operator::Equals, "3").evaluate_predicate(&record(3)));
    let short = ImmutableRecord { payload: vec![1, 2] };
    assert!(!over(Operator::Equals, "3").evaluate_predicate(&short));
    // Only column `x` is known.
    let y = IncrementalView::from_stmt("v".to_string(), &condition("y", Operator::Greater, "0"));
    assert!(!y.evaluate_predicate(&record(3)));
    let all = IncrementalView::new("v".to_string(), vec![]);
    assert!(all.evaluate_predicate(&short));
}

#[test]
fn a_view_has_its_first_rows() {
    let view = IncrementalView::new(
        "v".to_string(),
        vec![(1, record(10)), (2, record(20)), (1, record(11))],
    );
    assert_eq!(view.name(), "v");
    assert_eq!(data(&view), [(1, 11), (2, 20)]);
    assert_eq!(view.weight_of(1), 2);
    assert!(view.has_record(2));
    assert!(!view.has_record(3));
}

#[test]
fn only_a_create_view_makes_a_view() {
    let view = IncrementalView::from_sql(
        "CREATE VIEW v AS SELECT 1",
        ViewCommand::CreateView { name: "v".to_string(), select: Select { core: None } },
    )
    .unwrap();
    assert_eq!(view.name(), "v");
    assert_eq!(
        IncrementalView::from_sql("SELECT 1", ViewCommand::Other).unwrap_err(),
        "View is not a CREATE VIEW statement: SELECT 1"
    );
}

#[test]
fn a_view_follows_its_table() {
    let mut view =
        IncrementalView::from_stmt("big".to_string(), &condition("x", Operator::Greater, "4"));
    let mut table: Vec<(i64, u8)> = vec![];
    let history = [
        (1i64, Some(5u8)), (2, Some(4)), (3, Some(9)), (1, None), (2, None), (1, Some(3)),
        (2, Some(7)), (3, None), (4, Some(200)),
    ];
    for (key, x) in history {
        let event = match x {
            Some(x) => {
                table.push((key, x));
                insert("t", key, x)
            }
            None => {
                table.retain(|(k, _)| *k != key);
                delete("t", key)
            }
        };
        let concerned = match x {
            Some(x) => x > 4,
            None => view.has_record(key),
        };
        assert_eq!(apply_event(&mut view, &event).is_some(), concerned);
        let mut expected: Vec<(i64, u8)> = table.iter().cloned().filter(|(_, x)| *x > 4).collect();
        expected.sort();
        assert_eq!(data(&view), expected);
    }
    assert_eq!(data(&view), [(2, 7), (4, 200)]);
}

#[test]
fn events_are_reported() {
    let mut view = IncrementalView::new("v".to_string(), vec![]);
    assert_eq!(
        apply_event(&mut view, &insert("t", -7, 1)),
        Some("INSERT to view 'v': row_key=-7".to_string())
    );
    assert_eq!(
        apply_event(&mut view, &delete("t", -7)),
        Some("DELETE from view 'v': row_key=-7".to_string())
    );
    assert_eq!(apply_event(&mut view, &delete("t", -7)), None);
    assert_eq!(view.weight_of(-7), 0);
}

#[test]
fn a_stream_serves_every_connection() {
    let mut stream = TableEventStream::new("t".to_string());
    assert_eq!(stream.view_count(), 0);
    stream.connect_view(1);
    stream.connect_view(0);
    stream.connect_view(1);
    assert_eq!(stream.view_count(), 3);
    let mut views = vec![
        IncrementalView::new("a".to_string(), vec![]),
        IncrementalView::new("b".to_string(), vec![]),
    ];
    assert!(stream.can_emit(&views, &insert("t", 1, 1)));
    assert_eq!(
        stream.emit_change(&mut views, &insert("t", 1, 1)),
        [
            "INSERT to view 'b': row_key=1",
            "INSERT to view 'a': row_key=1",
            "INSERT to view 'b': row_key=1",
        ]
    );
    assert_eq!(views[1].weight_of(1), 2);
    // A deleted row is gone after the first connection.
    assert_eq!(
        stream.emit_change(&mut views, &delete("t", 1)),
        ["DELETE from view 'b': row_key=1", "DELETE from view 'a': row_key=1"]
    );
    assert_eq!(views[1].weight_of(1), 1);
    assert_eq!(data(&views[1]), []);
}

#[test]
fn the_registry_passes_events_on() {
    let mut registry = TableEventRegistry::new();
    assert_eq!(registry.create_stream("t"), 0);
    assert_eq!(registry.create_stream("u"), 1);
    assert_eq!(registry.create_stream("t"), 0);
    assert_eq!(registry.get_stream("u"), 1);
    assert!(!registry.knows_table("w"));
    let first = registry.register_view("t", IncrementalView::new("v1".to_string(), vec![]));
    let second = registry.register_view("u", IncrementalView::new("v2".to_string(), vec![]));
    let third = registry.register_view("t", IncrementalView::new("v3".to_string(), vec![]));
    assert_eq!((first, second, third), (0, 1, 2));
    assert_eq!(registry.find_view("t_view"), Some(2));
    assert_eq!(registry.find_view("u_view"), Some(1));
    assert_eq!(registry.find_view("w_view"), None);
    assert!(registry.can_emit(&insert("t", 3, 8)));
    assert!(!registry.can_emit(&insert("w", 3, 8)));
    assert_eq!(
        registry.emit_change(&insert("t", 3, 8)),
        ["INSERT to view 'v1': row_key=3", "INSERT to view 'v3': row_key=3"]
    );
    assert_eq!(data(registry.view(0)), [(3, 8)]);
    assert_eq!(data(registry.view(1)), []);
    let empty = TableEventRegistry::default();
    assert!(!empty.knows_table("t"));
}

#[test]
fn create_view_is_planned() {
    let select = condition("x", Operator::Less, "9");
    assert_eq!(extract_base_table_name(&select), Some("t".to_string()));
    let plan =
        translate_create_view(false, "\"V\"", "v", &select, "SELECT * FROM t WHERE x < 9").unwrap();
    assert_eq!(plan.entry_name, "v");
    assert_eq!(plan.sql, "CREATE VIEW \"V\" AS SELECT * FROM t WHERE x < 9");
    assert_eq!(plan.where_clause, "name = 'v'");
    assert_eq!(plan.base_table, "t");
    assert_eq!(plan.view.name(), "v");
    assert_eq!(
        plan.view.where_predicate,
        WherePredicate::LessThan { column: "x".to_string(), value: 9 }
    );
    let odd = Select {
        core: Some(SelectCore { from: Some(SelectTable::Other), where_clause: None }),
    };
    let plan = translate_create_view(false, "v", "v", &odd, "SELECT 1").unwrap();
    assert_eq!(plan.base_table, "t");
    assert_eq!(
        translate_create_view(true, "V", "v", &odd, "SELECT 1").unwrap_err(),
        "View v already exists"
    );
    assert_eq!(create_view_to_str("v", "SELECT 1"), "CREATE VIEW v AS SELECT 1");
}

#[test]
fn mapping_twice_is_mapping_once() {
    let mut s: Stream<i64> = Stream::new();
    for n in [1i64, 2, 3, 4, 5, 6, 6] {
        s.push(n);
    }
    let twice = s.map(|n| n % 4).map(|n| n % 2);
    let once = s.map(|n| n % 4 % 2);
    for n in [0, 1] {
        assert_eq!(twice.weight_of(&n), once.weight_of(&n));
    }
    assert_eq!(once.weight_of(&0), 4);
    assert_eq!(sorted(twice.to_vec()), sorted(once.to_vec()));
    let weighted = s.filter_map(|n| Some((n % 4, 1)));
    let mapped = s.map(|n| n % 4);
    for n in [0, 1, 2, 3] {
        assert_eq!(weighted.weight_of(&n), mapped.weight_of(&n));
    }
    assert_eq!(mapped.weight_of(&2), 3);
}

#[test]
fn a_view_can_listen_to_two_tables() {
    let mut registry = TableEventRegistry::new();
    registry.create_stream("t");
    registry.create_stream("u");
    let id = registry.register_view("t", IncrementalView::new("v".to_string(), vec![]));
    registry.connect_view("u", id);
    assert_eq!(registry.emit_change(&insert("t", 1, 8)), ["INSERT to view 'v': row_key=1"]);
    assert_eq!(registry.emit_change(&insert("u", 2, 9)), ["INSERT to view 'v': row_key=2"]);
    assert_eq!(data(registry.view(id)), [(1, 8), (2, 9)]);
    assert_eq!(registry.emit_change(&delete("u", 1)), ["DELETE from view 'v': row_key=1"]);
    assert_eq!(data(registry.view(id)), [(2, 9)]);
    assert_eq!(registry.find_view("t_view"), Some(id));
}
