//! Views over a table that follow its changes, one event at a time.

use std::collections::HashMap;

use vstd::prelude::*;

use crate::incremental::dbsp;
use crate::incremental::dbsp::{Stream, ZSet};
use crate::numeric;
use crate::protocol::packet;
use crate::text;

verus! {

broadcast use vstd::std_specs::hash::group_hash_axioms;

// ---------------------------------------------------------------------------
// Records and predicates
// ---------------------------------------------------------------------------
/// A row in the form in which it is stored.
#[derive(Debug, PartialEq, Eq)]
pub struct ImmutableRecord {
    pub payload: Vec<u8>,
}

impl View for ImmutableRecord {
    type V = Seq<u8>;

    open spec fn view(&self) -> Seq<u8> {
        self.payload@
    }
}

impl Clone for ImmutableRecord {
    fn clone(&self) -> (r: Self)
        ensures
            r@ == self@,
    {
        ImmutableRecord { payload: packet::copy_bytes(self.payload.as_slice()) }
    }
}

impl ImmutableRecord {
    /// The bytes of the row.
    pub fn get_payload(&self) -> (r: &[u8])
        ensures
            r@ == self@,
    {
        self.payload.as_slice()
    }
}

/// The condition of a view, as far as it is understood.
#[derive(Debug, Clone, PartialEq, Eq)]
pub enum WherePredicate {
    GreaterThan { column: String, value: i64 },
    LessThan { column: String, value: i64 },
    Equals { column: String, value: i64 },
    /// Every row belongs to the view.
    Always,
}

/// The model of a [`WherePredicate`].
pub enum PredicateView {
    GreaterThan { column: Seq<char>, value: i64 },
    LessThan { column: Seq<char>, value: i64 },
    Equals { column: Seq<char>, value: i64 },
    Always,
}

impl View for WherePredicate {
    type V = PredicateView;

    open spec fn view(&self) -> PredicateView {
        match *self {
            WherePredicate::GreaterThan { column, value } => PredicateView::GreaterThan {
                column: column@,
                value,
            },
            WherePredicate::LessThan { column, value } => PredicateView::LessThan {
                column: column@,
                value,
            },
            WherePredicate::Equals { column, value } => PredicateView::Equals {
                column: column@,
                value,
            },
            WherePredicate::Always => PredicateView::Always,
        }
    }
}

/// The value of the column of a row. Rows are taken to hold a single small integer
/// in column `x`.
pub open spec fn column_value(column: Seq<char>, record: Seq<u8>) -> Option<int> {
    if column == "x"@ && record.len() >= 3 {
        Some(record[2] as int)
    } else {
        None
    }
}

/// A row meets the condition. A row without the column does not.
pub open spec fn accepts(predicate: PredicateView, record: Seq<u8>) -> bool {
    match predicate {
        PredicateView::Always => true,
        PredicateView::GreaterThan { column, value } => column_value(column, record) matches Some(
            v,
        ) && v > value,
        PredicateView::LessThan { column, value } => column_value(column, record) matches Some(v)
            && v < value,
        PredicateView::Equals { column, value } => column_value(column, record) matches Some(v)
            && v == value,
    }
}

// ---------------------------------------------------------------------------
// The statement that makes a view
// ---------------------------------------------------------------------------
/// An operator of a condition.
#[derive(Debug, Clone, Copy, PartialEq, Eq, Structural)]
pub enum Operator {
    Greater,
    Less,
    Equals,
    Other,
}

/// An expression of a condition, as far as it is understood.
#[derive(Debug, PartialEq, Eq)]
pub enum Expr {
    Binary(Box<Expr>, Operator, Box<Expr>),
    /// A column.
    Id(String),
    /// A number, as it was written.
    Numeric(String),
    Other,
}

/// The model of an [`Expr`].
pub enum ExprView {
    Binary(Box<ExprView>, Operator, Box<ExprView>),
    Id(Seq<char>),
    Numeric(Seq<char>),
    Other,
}

impl Expr {
    /// The model of the expression.
    pub open spec fn model(self) -> ExprView
        decreases self,
    {
        match self {
            Expr::Binary(lhs, op, rhs) => ExprView::Binary(
                Box::new(lhs.model()),
                op,
                Box::new(rhs.model()),
            ),
            Expr::Id(name) => ExprView::Id(name@),
            Expr::Numeric(text) => ExprView::Numeric(text@),
            Expr::Other => ExprView::Other,
        }
    }
}

/// What stands in a `FROM`.
#[derive(Debug, PartialEq, Eq)]
pub enum SelectTable {
    Table(String),
    Other,
}

/// A plain `SELECT`.
#[derive(Debug, PartialEq, Eq)]
pub struct SelectCore {
    /// The first table of the `FROM`, if there is one.
    pub from: Option<SelectTable>,
    pub where_clause: Option<Expr>,
}

/// The query of a view.
#[derive(Debug, PartialEq, Eq)]
pub struct Select {
    /// `None` if the query is not a plain `SELECT`.
    pub core: Option<SelectCore>,
}

impl Select {
    /// The condition of the query.
    pub open spec fn condition(self) -> Option<ExprView> {
        match self.core {
            Some(core) => match core.where_clause {
                Some(e) => Some(e.model()),
                None => None,
            },
            None => None,
        }
    }

    /// The table that the query is over.
    pub open spec fn base_table(self) -> Option<Seq<char>> {
        match self.core {
            Some(core) => match core.from {
                Some(SelectTable::Table(name)) => Some(name@),
                _ => None,
            },
            None => None,
        }
    }
}

/// The condition that an expression states, where it compares a column with an
/// integer; otherwise none.
pub open spec fn predicate_of(e: ExprView) -> PredicateView {
    match e {
        ExprView::Binary(lhs, op, rhs) => match (*lhs, *rhs) {
            (ExprView::Id(column), ExprView::Numeric(number)) => match numeric::parsed_signed(
                number,
            ) {
                Some(value) => match op {
                    Operator::Greater => PredicateView::GreaterThan { column, value: value as i64 },
                    Operator::Less => PredicateView::LessThan { column, value: value as i64 },
                    Operator::Equals => PredicateView::Equals { column, value: value as i64 },
                    Operator::Other => PredicateView::Always,
                },
                None => PredicateView::Always,
            },
            _ => PredicateView::Always,
        },
        _ => PredicateView::Always,
    }
}

/// Reads the condition that an expression states.
fn parse_expr_predicate(expr: &Expr) -> (r: WherePredicate)
    ensures
        r@ == predicate_of(expr.model()),
{
    proof {
        reveal_with_fuel(Expr::model, 2);
    }
    if let Expr::Binary(lhs, op, rhs) = expr {
        if let Expr::Id(column) = &**lhs {
            if let Expr::Numeric(number) = &**rhs {
                if let Some(value) = numeric::parse_signed(&text::chars_of(number.as_str())) {
                    match *op {
                        Operator::Greater => {
                            return WherePredicate::GreaterThan { column: column.clone(), value };
                        },
                        Operator::Less => {
                            return WherePredicate::LessThan { column: column.clone(), value };
                        },
                        Operator::Equals => {
                            return WherePredicate::Equals { column: column.clone(), value };
                        },
                        Operator::Other => {},
                    }
                }
            }
        }
    }
    WherePredicate::Always
}

/// The condition of a query, as far as it is understood.
pub open spec fn where_of(select: Select) -> PredicateView {
    match select.condition() {
        Some(e) => predicate_of(e),
        None => PredicateView::Always,
    }
}

/// Reads the condition of a query.
fn parse_where_clause(select: &Select) -> (r: WherePredicate)
    ensures
        r@ == where_of(*select),
{
    if let Some(core) = &select.core {
        if let Some(e) = &core.where_clause {
            return parse_expr_predicate(e);
        }
    }
    WherePredicate::Always
}

/// The table that a query is over, if it is over one.
pub fn extract_base_table_name(select: &Select) -> (r: Option<String>)
    ensures
        r.deep_view() == select.base_table(),
{
    if let Some(core) = &select.core {
        if let Some(SelectTable::Table(name)) = &core.from {
            return Some(name.clone());
        }
    }
    None
}

/// A parsed command, as far as it matters to a view.
#[derive(Debug, PartialEq, Eq)]
pub enum ViewCommand {
    CreateView { name: String, select: Select },
    Other,
}

// ---------------------------------------------------------------------------
// Views
// ---------------------------------------------------------------------------
/// A view: the keys of its rows with their weights, and the rows themselves.
#[derive(Debug)]
pub struct IncrementalView {
    /// The keys of the rows, with their weights.
    pub stream: Stream<i64>,
    /// The name of the view.
    pub name: String,
    /// The rows by their keys.
    pub records: HashMap<i64, ImmutableRecord>,
    /// The condition of the view.
    pub where_predicate: WherePredicate,
}

/// The model of an [`IncrementalView`].
pub struct ViewState {
    pub name: Seq<char>,
    pub weights: Map<i64, i32>,
    pub records: Map<i64, Seq<u8>>,
    pub predicate: PredicateView,
}

impl View for IncrementalView {
    type V = ViewState;

    open spec fn view(&self) -> ViewState {
        ViewState {
            name: self.name@,
            weights: self.stream@,
            records: record_views(self.records@),
            predicate: self.where_predicate@,
        }
    }
}

/// The model of rows by their keys.
pub open spec fn record_views(m: Map<i64, ImmutableRecord>) -> Map<i64, Seq<u8>> {
    Map::new(|key: i64| m.contains_key(key), |key: i64| m[key]@)
}

/// The keys of rows.
pub open spec fn keys_of(data: Seq<(i64, ImmutableRecord)>) -> Seq<i64> {
    Seq::new(data.len(), |i: int| data[i].0)
}

/// The rows by their keys; of rows with one key the last counts.
pub open spec fn rows_by_key(data: Seq<(i64, ImmutableRecord)>) -> Map<i64, Seq<u8>>
    decreases data.len(),
{
    if data.len() == 0 {
        Map::empty()
    } else {
        rows_by_key(data.drop_last()).insert(data.last().0, data.last().1@)
    }
}

proof fn keys_are_lawful()
    ensures
        dbsp::lawful::<i64>(),
{
}

/// The weights of a view over the given rows.
pub open spec fn counts_keys(weights: Map<i64, i32>, data: Seq<(i64, ImmutableRecord)>) -> bool {
    forall|key: i64|
        #![trigger dbsp::weight(weights, key)]
        dbsp::weight(weights, key) == dbsp::occurrences(keys_of(data), key)
}

impl IncrementalView {
    /// No key has the weight zero.
    pub open spec fn valid(&self) -> bool {
        dbsp::no_zeros(self@.weights)
    }

    /// The view that a parsed command makes. Only `CREATE VIEW` makes one; for any
    /// other command the error says so.
    pub fn from_sql(sql: &str, command: ViewCommand) -> (r: Result<Self, String>)
        ensures
            match command {
                ViewCommand::CreateView { name, select } => r matches Ok(view) && view.valid()
                    && view@ == empty_view(name@, where_of(select)),
                ViewCommand::Other => r matches Err(message) && message@
                    == "View is not a CREATE VIEW statement: "@ + sql@,
            },
    {
        match command {
            ViewCommand::CreateView { name, select } => Ok(Self::from_stmt(name, &select)),
            ViewCommand::Other => {
                let mut message = text::chars_of("View is not a CREATE VIEW statement: ");
                text::push_text(&mut message, sql);
                Err(text::string_of(&message))
            },
        }
    }

    /// The view that a `CREATE VIEW` makes. It is empty at first.
    pub fn from_stmt(name: String, select: &Select) -> (r: Self)
        ensures
            r.valid(),
            r@ == empty_view(name@, where_of(*select)),
    {
        let r = Self::new_with_predicate(name, Vec::new(), parse_where_clause(select));
        proof {
            let none: Seq<(i64, ImmutableRecord)> = seq![];
            assert forall|key: i64| !r@.weights.contains_key(key) by {
                assert(dbsp::weight(r@.weights, key) == dbsp::occurrences(keys_of(none), key));
                assert(keys_of(none) =~= Seq::<i64>::empty());
            }
            assert(r@.weights =~= Map::<i64, i32>::empty());
            assert(r@.records =~= Map::<i64, Seq<u8>>::empty());
        }
        r
    }

    /// A view of the given rows, without a condition.
    pub fn new(name: String, initial_data: Vec<(i64, ImmutableRecord)>) -> (r: Self)
        requires
            forall|key: i64| #[trigger]
                dbsp::occurrences(keys_of(initial_data@), key) <= i32::MAX,
        ensures
            r.valid(),
            r@.name == name@,
            r@.predicate == PredicateView::Always,
            r@.records == rows_by_key(initial_data@),
            counts_keys(r@.weights, initial_data@),
    {
        Self::new_with_predicate(name, initial_data, WherePredicate::Always)
    }

    /// A view of the given rows, with a condition for those to come.
    pub fn new_with_predicate(
        name: String,
        initial_data: Vec<(i64, ImmutableRecord)>,
        where_predicate: WherePredicate,
    ) -> (r: Self)
        requires
            forall|key: i64| #[trigger]
                dbsp::occurrences(keys_of(initial_data@), key) <= i32::MAX,
        ensures
            r.valid(),
            r@.name == name@,
            r@.predicate == where_predicate@,
            r@.records == rows_by_key(initial_data@),
            counts_keys(r@.weights, initial_data@),
    {
        let mut records: HashMap<i64, ImmutableRecord> = HashMap::new();
        let mut row_keys: Vec<i64> = Vec::new();
        assert(record_views(records@) =~= rows_by_key(initial_data@.take(0)));
        for i in 0..initial_data.len()
            invariant
                row_keys@ == keys_of(initial_data@.take(i as int)),
                record_views(records@) == rows_by_key(initial_data@.take(i as int)),
        {
            let ghost before = records@;
            let key: i64 = initial_data[i].0;
            let record = initial_data[i].1.clone();
            records.insert(key, record);
            row_keys.push(key);
            proof {
                let head = initial_data@.take(i + 1);
                assert(head.drop_last() =~= initial_data@.take(i as int));
                assert(record_views(records@) =~= record_views(before).insert(key, record@));
                assert(row_keys@ =~= keys_of(head));
            }
        }
        proof {
            assert(initial_data@.take(initial_data@.len() as int) =~= initial_data@);
            keys_are_lawful();
        }
        let zset = ZSet::from_items(row_keys);
        IncrementalView { stream: Stream::from_zset(zset), name, records, where_predicate }
    }

    /// The name of the view.
    pub fn name(&self) -> (r: &str)
        ensures
            r@ == self@.name,
    {
        self.name.as_str()
    }

    /// Whether the view has a row under the given key.
    pub fn has_record(&self, key: i64) -> (r: bool)
        ensures
            r == self@.records.contains_key(key),
    {
        self.records.contains_key(&key)
    }

    /// The weight of the row under the given key.
    pub fn weight_of(&self, key: i64) -> (r: i32)
        ensures
            r == dbsp::weight(self@.weights, key),
    {
        self.stream.weight_of(&key)
    }

    /// The rows of the view with their keys, each of them once, in no particular
    /// order: those with a positive weight, as far as their contents are known.
    pub fn current_data(&self) -> (r: Vec<(i64, ImmutableRecord)>)
        ensures
            forall|i: int, j: int|
                0 <= i < j < r@.len() ==> (#[trigger] r@[i]).0 != (#[trigger] r@[j]).0,
            forall|i: int|
                0 <= i < r@.len() ==> {
                    let (key, record) = #[trigger] r@[i];
                    &&& dbsp::weight(self@.weights, key) > 0
                    &&& self@.records.contains_key(key)
                    &&& record@ == self@.records[key]
                },
            forall|key: i64|
                dbsp::weight(self@.weights, key) > 0 && #[trigger] self@.records.contains_key(key)
                    ==> exists|i: int| 0 <= i < r@.len() && (#[trigger] r@[i]).0 == key,
    {
        proof {
            keys_are_lawful();
        }
        let keys = self.stream.to_vec();
        let mut data: Vec<(i64, ImmutableRecord)> = Vec::new();
        for n in 0..keys.len()
            invariant
                keys@.no_duplicates(),
                forall|key: i64| #[trigger]
                    keys@.contains(key) <==> dbsp::weight(self.stream@, key) > 0,
                forall|i: int, j: int|
                    0 <= i < j < data@.len() ==> (#[trigger] data@[i]).0 != (
                    #[trigger] data@[j]).0,
                forall|i: int|
                    0 <= i < data@.len() ==> {
                        let (key, record) = #[trigger] data@[i];
                        &&& dbsp::weight(self@.weights, key) > 0
                        &&& self@.records.contains_key(key)
                        &&& record@ == self@.records[key]
                        &&& exists|k: int| 0 <= k < n && #[trigger] keys@[k] == key
                    },
                forall|k: int|
                    0 <= k < n && self@.records.contains_key(#[trigger] keys@[k])
                        ==> exists|i: int| 0 <= i < data@.len() && (#[trigger] data@[i]).0 == keys@[k],
        {
            let key: i64 = keys[n];
            assert(keys@.contains(keys@[n as int]));
            if let Some(record) = self.records.get(&key) {
                let ghost before = data@;
                let copy = record.clone();
                data.push((key, copy));
                proof {
                    assert(data@[before.len() as int].0 == key);
                    assert forall|k: int|
                        0 <= k < n + 1 && self@.records.contains_key(
                            #[trigger] keys@[k],
                        ) implies exists|i: int|
                        0 <= i < data@.len() && (#[trigger] data@[i]).0 == keys@[k] by {
                        if k < n {
                            let i = choose|i: int|
                                0 <= i < before.len() && (#[trigger] before[i]).0 == keys@[k];
                            assert(data@[i].0 == keys@[k]);
                        }
                    }
                    assert forall|i: int, j: int| 0 <= i < j < data@.len() implies (
                    #[trigger] data@[i]).0 != (#[trigger] data@[j]).0 by {
                        assert(data@[i] == before[i]);
                        if j < before.len() {
                            assert(data@[j] == before[j]);
                        }
                    }
                    assert forall|i: int| 0 <= i < data@.len() implies {
                        let (key, record) = #[trigger] data@[i];
                        &&& dbsp::weight(self@.weights, key) > 0
                        &&& self@.records.contains_key(key)
                        &&& record@ == self@.records[key]
                        &&& exists|k: int| 0 <= k < n + 1 && #[trigger] keys@[k] == key
                    } by {
                        if i < before.len() {
                            assert(data@[i] == before[i]);
                            let k = choose|k: int| 0 <= k < n && #[trigger] keys@[k] == before[i].0;
                            assert(0 <= k < n + 1 && keys@[k] == data@[i].0);
                        } else {
                            assert(keys@[n as int] == key);
                        }
                    }
                }
            }
        }
        proof {
            assert forall|key: i64|
                dbsp::weight(self@.weights, key) > 0 && #[trigger] self@.records.contains_key(
                    key,
                ) implies exists|i: int| 0 <= i < data@.len() && (#[trigger] data@[i]).0
                == key by {
                assert(keys@.contains(key));
                let k = choose|k: int| 0 <= k < keys@.len() && keys@[k] == key;
                assert(self@.records.contains_key(keys@[k]));
            }
        }
        data
    }

    /// Keeps a row under its key.
    pub fn put_record(&mut self, key: i64, record: ImmutableRecord)
        ensures
            final(self)@ == (ViewState {
                records: old(self)@.records.insert(key, record@),
                ..old(self)@
            }),
    {
        self.records.insert(key, record);
        assert(self@.records =~= old(self)@.records.insert(key, record@));
    }

    /// Drops the row under the given key.
    pub fn drop_record(&mut self, key: i64)
        ensures
            final(self)@ == (ViewState { records: old(self)@.records.remove(key), ..old(self)@ }),
    {
        self.records.remove(&key);
        assert(self@.records =~= old(self)@.records.remove(key));
    }

    /// Applies a change to the keys of the view.
    pub fn apply_delta(&mut self, delta: &ZSet<i64>)
        requires
            old(self).valid(),
            forall|key: i64|
                #[trigger] delta@.contains_key(key) ==> dbsp::fits(
                    dbsp::weight(old(self)@.weights, key) + delta@[key],
                ),
        ensures
            final(self).valid(),
            dbsp::is_sum(old(self)@.weights, delta@, final(self)@.weights),
            final(self)@.name == old(self)@.name,
            final(self)@.records == old(self)@.records,
            final(self)@.predicate == old(self)@.predicate,
    {
        proof {
            keys_are_lawful();
        }
        self.stream.apply_delta(delta);
    }

    /// Whether a row meets the condition of the view.
    pub fn evaluate_predicate(&self, record: &ImmutableRecord) -> (r: bool)
        ensures
            r == accepts(self@.predicate, record@),
    {
        match &self.where_predicate {
            WherePredicate::Always => true,
            WherePredicate::GreaterThan { column, value } => match extract_column_value(
                record,
                column.as_str(),
            ) {
                Some(v) => v > *value,
                None => false,
            },
            WherePredicate::LessThan { column, value } => match extract_column_value(
                record,
                column.as_str(),
            ) {
                Some(v) => v < *value,
                None => false,
            },
            WherePredicate::Equals { column, value } => match extract_column_value(
                record,
                column.as_str(),
            ) {
                Some(v) => v == *value,
                None => false,
            },
        }
    }
}

/// A view without rows.
pub open spec fn empty_view(name: Seq<char>, predicate: PredicateView) -> ViewState {
    ViewState { name, weights: Map::empty(), records: Map::empty(), predicate }
}

/// Reads the value of the column of a row.
fn extract_column_value(record: &ImmutableRecord, column: &str) -> (r: Option<i64>)
    ensures
        match r {
            Some(v) => column_value(column@, record@) == Some(v as int),
            None => column_value(column@, record@) is None,
        },
{
    let payload = record.get_payload();
    if text::is_text(&text::chars_of(column), "x") && payload.len() >= 3 {
        Some(payload[2] as i64)
    } else {
        None
    }
}

// ---------------------------------------------------------------------------
// Laws
// ---------------------------------------------------------------------------
/// A row has a value of `x` from its third byte on, and of the three comparisons of
/// it with a number exactly one holds: `x < n`, `x = n` or `x > n`, as the value is
/// below, equal to or above the number.
pub proof fn comparisons_exclude_each_other(record: Seq<u8>, n: i64)
    requires
        record.len() >= 3,
    ensures
        accepts(PredicateView::LessThan { column: "x"@, value: n }, record) <==> record[2] < n,
        accepts(PredicateView::Equals { column: "x"@, value: n }, record) <==> record[2] == n,
        accepts(PredicateView::GreaterThan { column: "x"@, value: n }, record) <==> record[2] > n,
{
}

/// Two rows that both meet `x = n` have the same `x`, and a row that meets one of
/// `x = n` and `x = m` meets the other only if the numbers are the same.
pub proof fn equality_tells_apart(a: Seq<u8>, b: Seq<u8>, n: i64, m: i64)
    requires
        accepts(PredicateView::Equals { column: "x"@, value: n }, a),
        accepts(PredicateView::Equals { column: "x"@, value: m }, b),
    ensures
        a.len() >= 3 && b.len() >= 3,
        a[2] == b[2] <==> n == m,
{
}

/// A row that is too short to have an `x`, and any row where another column is
/// asked for, meets no comparison. Every row meets no condition at all.
pub proof fn a_missing_column_meets_nothing(column: Seq<char>, record: Seq<u8>, n: i64)
    requires
        column != "x"@ || record.len() < 3,
    ensures
        !accepts(PredicateView::LessThan { column, value: n }, record),
        !accepts(PredicateView::Equals { column, value: n }, record),
        !accepts(PredicateView::GreaterThan { column, value: n }, record),
        accepts(PredicateView::Always, record),
{
}

/// A condition that compares a column with a written integer is met as the operator
/// says: by the rows below, at or above the number.
pub proof fn written_conditions_compare(op: Operator, number: Seq<char>, n: i64, record: Seq<u8>)
    requires
        number == numeric::signed_decimal(n as int) || (n >= 0 && number == seq!['+']
            + numeric::decimal(n as nat)),
        record.len() >= 3,
    ensures
        ({
            let e = ExprView::Binary(
                Box::new(ExprView::Id("x"@)),
                op,
                Box::new(ExprView::Numeric(number)),
            );
            accepts(predicate_of(e), record) <==> match op {
                Operator::Greater => record[2] > n,
                Operator::Less => record[2] < n,
                Operator::Equals => record[2] == n,
                Operator::Other => true,
            }
        }),
{
    numeric::signed_decimal_reads_back(n);
    if n >= 0 && number == seq!['+'] + numeric::decimal(n as nat) {
        numeric::decimal_reads_back(n as nat);
        assert(number.skip(1) =~= numeric::decimal(n as nat));
    }
}

/// The order of the two sides matters, and so does that the one is a column and the
/// other a number: any other comparison is no condition, and every row meets it.
pub proof fn other_conditions_hold_always(lhs: ExprView, op: Operator, rhs: ExprView, record: Seq<u8>)
    requires
        !(lhs is Id) || !(rhs is Numeric),
    ensures
        accepts(predicate_of(ExprView::Binary(Box::new(lhs), op, Box::new(rhs))), record),
        accepts(predicate_of(lhs), record) || lhs is Binary,
{
}

/// A query without a condition accepts every row; a query with one accepts what its
/// expression states.
pub proof fn query_states_its_condition(select: Select, record: Seq<u8>)
    ensures
        select.core is None || (select.core->0).where_clause is None ==> accepts(
            where_of(select),
            record,
        ),
        select.core matches Some(core) ==> (core.where_clause matches Some(e) ==> where_of(select)
            == predicate_of(e.model())),
        select.core matches Some(core) ==> (core.from matches Some(SelectTable::Table(name)) ==> (
        select.base_table() == Some(name@))),
        select.core matches Some(core) ==> (!(core.from matches Some(SelectTable::Table(_)))
            ==> select.base_table() is None),
{
}

/// Column `x` of a row is its third byte; there is no other column, and a shorter row
/// has none.
pub proof fn columns_are_bytes(column: Seq<char>, record: Seq<u8>)
    ensures
        column == "x"@ && record.len() >= 3 ==> column_value(column, record) == Some(
            record[2] as int,
        ),
        column != "x"@ || record.len() < 3 ==> column_value(column, record) is None,
{
}

/// Rows are kept by their keys, and of rows with one key the last counts; a key has the
/// weight of as many rows as have it.
pub proof fn rows_are_kept_by_key(
    data: Seq<(i64, ImmutableRecord)>,
    key: i64,
    record: ImmutableRecord,
    other: i64,
)
    ensures
        rows_by_key(Seq::<(i64, ImmutableRecord)>::empty()) == Map::<i64, Seq<u8>>::empty(),
        rows_by_key(data.push((key, record))).contains_key(key),
        rows_by_key(data.push((key, record)))[key] == record@,
        other != key ==> rows_by_key(data.push((key, record))).contains_key(other) == rows_by_key(
            data,
        ).contains_key(other),
        dbsp::occurrences(keys_of(data.push((key, record))), key) == dbsp::occurrences(
            keys_of(data),
            key,
        ) + 1,
        other != key ==> dbsp::occurrences(keys_of(data.push((key, record))), other)
            == dbsp::occurrences(keys_of(data), other),
{
    assert(data.push((key, record)).drop_last() =~= data);
    assert(keys_of(data.push((key, record))).drop_last() =~= keys_of(data));
}

} // verus!
