use turso_mysql::throughput::{row_fits, row_id, row_text};
use turso_mysql::transaction::{
    Begin, Commit, ReleaseSavepoint, Rollback, RollbackTo, Savepoint,
};

#[test]
fn transaction_statements_have_their_text() {
    assert_eq!(Begin::Deferred.to_sql(), "BEGIN ");
    assert_eq!(Begin::Immediate.to_sql(), "BEGIN IMMEDIATE");
    assert_eq!(Begin::Concurrent.to_sql(), "BEGIN CONCURRENT");
    assert_eq!(Commit.to_sql(), "COMMIT");
    assert_eq!(Rollback.to_sql(), "ROLLBACK");
    assert_eq!(Savepoint("sp".to_string()).to_sql(), "SAVEPOINT sp");
    assert_eq!(RollbackTo("sp".to_string()).to_sql(), "ROLLBACK TO sp");
    assert_eq!(ReleaseSavepoint("sp".to_string()).to_sql(), "RELEASE SAVEPOINT sp");
}

#[test]
fn benchmark_rows_have_distinct_ids() {
    let (threads, iterations, batch) = (3usize, 4usize, 5usize);
    let mut ids = vec![];
    for thread in 0..threads {
        for iteration in 0..iterations {
            for i in 0..batch {
                assert!(row_fits(thread, iterations, batch, iteration, i));
                ids.push(row_id(thread, iterations, batch, iteration, i));
            }
        }
    }
    assert_eq!(ids, (0..threads * iterations * batch).collect::<Vec<_>>());
    assert_eq!(row_id(2, 4, 5, 3, 1), 56);
    assert!(!row_fits(usize::MAX, 2, 1, 0, 0));
    assert_eq!(row_text(56), "data_56");
}
