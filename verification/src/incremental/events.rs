//! Events of tables, and the views that listen to them.

use vstd::prelude::*;

use crate::incremental::dbsp;
use crate::incremental::dbsp::ZSet;
use crate::incremental::view;
use crate::incremental::view::{ImmutableRecord, IncrementalView, ViewState};
use crate::numeric;
use crate::text;

verus! {

broadcast use vstd::std_specs::hash::group_hash_axioms;

// ---------------------------------------------------------------------------
// Events
// ---------------------------------------------------------------------------
/// A change to a table.
#[derive(Debug, Clone, PartialEq, Eq)]
pub enum TableChangeEvent {
    Insert { table_name: String, row_key: i64, record: ImmutableRecord },
    Delete { table_name: String, row_key: i64 },
}

/// The model of a [`TableChangeEvent`], but for the table's name.
pub enum EventView {
    Insert { row_key: i64, record: Seq<u8> },
    Delete { row_key: i64 },
}

impl View for TableChangeEvent {
    type V = EventView;

    open spec fn view(&self) -> EventView {
        match *self {
            TableChangeEvent::Insert { row_key, record, .. } => EventView::Insert {
                row_key,
                record: record@,
            },
            TableChangeEvent::Delete { row_key, .. } => EventView::Delete { row_key },
        }
    }
}

impl TableChangeEvent {
    /// The name of the table.
    pub open spec fn table(self) -> Seq<char> {
        match self {
            TableChangeEvent::Insert { table_name, .. } => table_name@,
            TableChangeEvent::Delete { table_name, .. } => table_name@,
        }
    }
}

impl EventView {
    /// The key of the row that changed.
    pub open spec fn key(self) -> i64 {
        match self {
            EventView::Insert { row_key, .. } => row_key,
            EventView::Delete { row_key } => row_key,
        }
    }

    /// What the event adds to the weight of the row.
    pub open spec fn weight(self) -> int {
        if self is Insert {
            1
        } else {
            -1
        }
    }
}

/// The event concerns the view: the new row meets its condition, or the old row is
/// in it.
pub open spec fn concerns(v: ViewState, e: EventView) -> bool {
    match e {
        EventView::Insert { record, .. } => view::accepts(v.predicate, record),
        EventView::Delete { row_key } => v.records.contains_key(row_key),
    }
}

/// Weights with `n` added for one key.
pub open spec fn shifted(m: Map<i64, i32>, key: i64, n: int) -> Map<i64, i32> {
    let w = dbsp::weight(m, key) + n;
    if w == 0 {
        m.remove(key)
    } else {
        m.insert(key, w as i32)
    }
}

/// The view after an event.
pub open spec fn changed(v: ViewState, e: EventView) -> ViewState {
    if !concerns(v, e) {
        v
    } else {
        ViewState {
            weights: shifted(v.weights, e.key(), e.weight()),
            records: match e {
                EventView::Insert { row_key, record } => v.records.insert(row_key, record),
                EventView::Delete { row_key } => v.records.remove(row_key),
            },
            ..v
        }
    }
}

/// The line that reports an event to a view, if it concerns it.
pub open spec fn notice(v: ViewState, e: EventView) -> Option<Seq<char>> {
    if !concerns(v, e) {
        None
    } else {
        Some(
            (if e is Insert {
                "INSERT to view '"@
            } else {
                "DELETE from view '"@
            }) + v.name + "': row_key="@ + numeric::signed_decimal(e.key() as int),
        )
    }
}

fn write_notice(start: &str, name: &str, key: i64) -> (r: String)
    ensures
        r@ == start@ + name@ + "': row_key="@ + numeric::signed_decimal(key as int),
{
    let mut out = text::chars_of(start);
    text::push_text(&mut out, name);
    text::push_text(&mut out, "': row_key=");
    numeric::push_signed(&mut out, key);
    text::string_of(&out)
}

/// Adds to the weight of one key.
fn shift(view: &mut IncrementalView, key: i64, n: i32)
    requires
        old(view).valid(),
        n != 0,
        dbsp::fits(dbsp::weight(old(view)@.weights, key) + n),
    ensures
        final(view).valid(),
        final(view)@ == (ViewState {
            weights: shifted(old(view)@.weights, key, n as int),
            ..old(view)@
        }),
{
    let mut delta: ZSet<i64> = ZSet::new();
    delta.insert(key, n);
    let ghost start = view@.weights;
    proof {
        assert forall|other: i64| #[trigger] delta@.contains_key(other) implies other == key
            && delta@[other] == n by {
            assert(dbsp::weight(delta@, other) == dbsp::weight(Map::<i64, i32>::empty(), other)
                + if other == key {
                n as int
            } else {
                0
            });
        }
    }
    view.apply_delta(&delta);
    proof {
        let goal = shifted(start, key, n as int);
        assert forall|other: i64|
            #![trigger dbsp::weight(view@.weights, other)]
            dbsp::weight(view@.weights, other) == dbsp::weight(goal, other) by {
            assert(dbsp::weight(delta@, other) == dbsp::weight(Map::<i64, i32>::empty(), other)
                + if other == key {
                n as int
            } else {
                0
            });
        }
        dbsp::weights_decide(view@.weights, goal);
    }
}

/// Passes an event on to a view, and gives the line that reports it.
pub fn apply_event(view: &mut IncrementalView, event: &TableChangeEvent) -> (r: Option<String>)
    requires
        old(view).valid(),
        concerns(old(view)@, event@) ==> dbsp::fits(
            dbsp::weight(old(view)@.weights, event@.key()) + event@.weight(),
        ),
    ensures
        final(view).valid(),
        final(view)@ == changed(old(view)@, event@),
        r.deep_view() == notice(old(view)@, event@),
{
    match event {
        TableChangeEvent::Insert { row_key, record, .. } => {
            if !view.evaluate_predicate(record) {
                return None;
            }
            let line = write_notice("INSERT to view '", view.name(), *row_key);
            view.put_record(*row_key, record.clone());
            shift(view, *row_key, 1);
            Some(line)
        },
        TableChangeEvent::Delete { row_key, .. } => {
            if !view.has_record(*row_key) {
                return None;
            }
            let line = write_notice("DELETE from view '", view.name(), *row_key);
            view.drop_record(*row_key);
            shift(view, *row_key, -1);
            Some(line)
        },
    }
}

// ---------------------------------------------------------------------------
// Streams of events
// ---------------------------------------------------------------------------
/// The models of views.
pub open spec fn states(views: Seq<IncrementalView>) -> Seq<ViewState> {
    Seq::new(views.len(), |i: int| views[i]@)
}

/// Every view is valid.
pub open spec fn all_valid(views: Seq<IncrementalView>) -> bool {
    forall|i: int| 0 <= i < views.len() ==> (#[trigger] views[i]).valid()
}

/// The views after the first `n` of those connected have got an event. A view that
/// is connected twice gets it twice.
pub open spec fn after_event(
    views: Seq<ViewState>,
    connected: Seq<usize>,
    e: EventView,
    n: int,
) -> Seq<ViewState>
    decreases n,
{
    if n <= 0 {
        views
    } else {
        let before = after_event(views, connected, e, n - 1);
        let id = connected[n - 1] as int;
        before.update(id, changed(before[id], e))
    }
}

/// The lines that report an event to the first `n` of the connected views.
pub open spec fn notices(
    views: Seq<ViewState>,
    connected: Seq<usize>,
    e: EventView,
    n: int,
) -> Seq<Seq<char>>
    decreases n,
{
    if n <= 0 {
        seq![]
    } else {
        let lines = notices(views, connected, e, n - 1);
        match notice(after_event(views, connected, e, n - 1)[connected[n - 1] as int], e) {
            Some(line) => lines.push(line),
            None => lines,
        }
    }
}

/// No weight overflows when an event is passed on. An inserted row is counted once
/// for each connection, a deleted one is gone after the first.
pub open spec fn in_range(views: Seq<ViewState>, connected: Seq<usize>, e: EventView) -> bool {
    forall|i: int|
        0 <= i < connected.len() ==> {
            let v = views[(#[trigger] connected[i]) as int];
            concerns(v, e) ==> dbsp::fits(
                dbsp::weight(v.weights, e.key()) + if e is Insert {
                    dbsp::occurrences(connected, connected[i])
                } else {
                    -1
                },
            )
        }
}

/// Every connection leads to a view.
pub open spec fn all_known(connected: Seq<usize>, count: nat) -> bool {
    forall|i: int| 0 <= i < connected.len() ==> (#[trigger] connected[i]) < count
}

/// What has become of a view after `n` connections were served.
proof fn view_so_far(views: Seq<ViewState>, connected: Seq<usize>, e: EventView, n: int, id: usize)
    requires
        0 <= n <= connected.len(),
        all_known(connected, views.len()),
        (id as int) < views.len(),
        in_range(views, connected, e),
    ensures
        after_event(views, connected, e, n).len() == views.len(),
        ({
            let v = views[id as int];
            let now = after_event(views, connected, e, n)[id as int];
            let count = dbsp::occurrences(connected.take(n), id);
            &&& count >= 0
            &&& count == 0 || !concerns(v, e) ==> now == v
            &&& now.predicate == v.predicate
            &&& concerns(v, e) && count > 0 && e is Insert ==> dbsp::weight(now.weights, e.key())
                == dbsp::weight(v.weights, e.key()) + count
            &&& count > 0 && e is Delete ==> !concerns(now, e)
        }),
    decreases n,
{
    if n > 0 {
        view_so_far(views, connected, e, n - 1, id);
        let at = connected[n - 1];
        assert(connected.take(n).drop_last() =~= connected.take(n - 1));
        assert(connected.take(n).last() == connected[n - 1]);
        if at == id {
            let before = after_event(views, connected, e, n - 1)[id as int];
            let count = dbsp::occurrences(connected.take(n), id);
            more_occur(connected, id, n);
            assert(concerns(views[connected[n - 1] as int], e) ==> dbsp::fits(
                dbsp::weight(views[id as int].weights, e.key()) + if e is Insert {
                    dbsp::occurrences(connected, connected[n - 1])
                } else {
                    -1
                },
            ));
        }
    } else {
        assert(connected.take(0) =~= seq![]);
    }
}

/// An item occurs in all of a sequence at least as often as in its start.
proof fn more_occur(s: Seq<usize>, item: usize, n: int)
    requires
        0 <= n <= s.len(),
    ensures
        0 <= dbsp::occurrences(s.take(n), item) <= dbsp::occurrences(s, item),
    decreases s.len() - n,
{
    dbsp::occurrences_count(s.take(n), item);
    if n < s.len() {
        more_occur(s, item, n + 1);
        assert(s.take(n + 1).drop_last() =~= s.take(n));
    } else {
        assert(s.take(n) =~= s);
    }
}

/// The events of a table, and the views that listen to them.
#[derive(Debug, PartialEq, Eq)]
pub struct TableEventStream {
    table_name: String,
    connected_views: Vec<usize>,
}

impl TableEventStream {
    /// The name of the table.
    pub closed spec fn table(self) -> Seq<char> {
        self.table_name@
    }

    /// The numbers of the views that are connected.
    pub closed spec fn connected(self) -> Seq<usize> {
        self.connected_views@
    }

    /// The stream of a table, without any view.
    pub fn new(table_name: String) -> (r: Self)
        ensures
            r.table() == table_name@,
            r.connected() == Seq::<usize>::empty(),
    {
        TableEventStream { table_name, connected_views: Vec::new() }
    }

    /// The name of the table.
    pub fn table_name(&self) -> (r: &str)
        ensures
            r@ == self.table(),
    {
        self.table_name.as_str()
    }

    /// Connects a view by its number.
    pub fn connect_view(&mut self, view: usize)
        ensures
            final(self).table() == old(self).table(),
            final(self).connected() == old(self).connected().push(view),
    {
        self.connected_views.push(view);
    }

    /// The number of connections.
    pub fn view_count(&self) -> (r: usize)
        ensures
            r == self.connected().len(),
    {
        self.connected_views.len()
    }

    /// Whether an event can be passed on without an overflow.
    pub fn can_emit(&self, views: &Vec<IncrementalView>, event: &TableChangeEvent) -> (r: bool)
        requires
            all_known(self.connected(), views@.len()),
        ensures
            r == in_range(states(views@), self.connected(), event@),
    {
        let ghost vs = states(views@);
        let ghost e = event@;
        for i in 0..self.connected_views.len()
            invariant
                vs == states(views@),
                e == event@,
                all_known(self.connected(), views@.len()),
                forall|j: int|
                    0 <= j < i ==> {
                        let v = vs[(#[trigger] self.connected()[j]) as int];
                        concerns(v, e) ==> dbsp::fits(
                            dbsp::weight(v.weights, e.key()) + if e is Insert {
                                dbsp::occurrences(self.connected(), self.connected()[j])
                            } else {
                                -1
                            },
                        )
                    },
        {
            let id: usize = self.connected_views[i];
            assert(self.connected()[i as int] < views@.len());
            assert(vs[id as int] == views@[id as int]@);
            match event {
                TableChangeEvent::Insert { row_key, record, .. } => {
                    let count: usize = self.connections_of(id);
                    proof {
                        assert(count == dbsp::occurrences(self.connected(), self.connected()[i as int]));
                    }
                    if views[id].evaluate_predicate(record) && views[id].weight_of(*row_key) as i128
                        + count as i128 > i32::MAX as i128 {
                        return false;
                    }
                },
                TableChangeEvent::Delete { row_key, .. } => {
                    if views[id].has_record(*row_key) && views[id].weight_of(*row_key)
                        == i32::MIN {
                        return false;
                    }
                },
            }
        }
        true
    }

    /// How often a view is connected.
    fn connections_of(&self, id: usize) -> (r: usize)
        ensures
            r == dbsp::occurrences(self.connected(), id),
    {
        let mut count: usize = 0;
        let ghost all = self.connected_views@;
        assert(all.take(0) =~= seq![]);
        for i in 0..self.connected_views.len()
            invariant
                all == self.connected_views@,
                count <= i,
                count == dbsp::occurrences(all.take(i as int), id),
        {
            assert(all.take(i + 1).drop_last() =~= all.take(i as int));
            if self.connected_views[i] == id {
                count = count + 1;
            }
        }
        assert(all.take(all.len() as int) =~= all);
        count
    }

    /// Passes an event on to the connected views, in the order of their
    /// connections, and gives the lines that report it.
    pub fn emit_change(&self, views: &mut Vec<IncrementalView>, event: &TableChangeEvent) -> (r: Vec<
        String,
    >)
        requires
            all_known(self.connected(), old(views)@.len()),
            all_valid(old(views)@),
            in_range(states(old(views)@), self.connected(), event@),
        ensures
            all_valid(final(views)@),
            final(views)@.len() == old(views)@.len(),
            states(final(views)@) == after_event(
                states(old(views)@),
                self.connected(),
                event@,
                self.connected().len() as int,
            ),
            r.deep_view() == notices(
                states(old(views)@),
                self.connected(),
                event@,
                self.connected().len() as int,
            ),
    {
        let ghost start = states(views@);
        let ghost connected = self.connected();
        let ghost e = event@;
        let mut lines: Vec<String> = Vec::new();
        assert(lines.deep_view() =~= seq![]);
        for i in 0..self.connected_views.len()
            invariant
                connected == self.connected(),
                e == event@,
                all_known(connected, start.len()),
                in_range(start, connected, e),
                all_valid(views@),
                views@.len() == start.len(),
                states(views@) == after_event(start, connected, e, i as int),
                lines.deep_view() == notices(start, connected, e, i as int),
        {
            let id: usize = self.connected_views[i];
            let ghost before = views@;
            proof {
                assert(connected[i as int] == id);
                assert(id < start.len());
                view_so_far(start, connected, e, i as int, id);
                more_occur(connected, id, i + 1);
                assert(connected.take(i + 1).drop_last() =~= connected.take(i as int));
                assert(connected.take(i + 1).last() == id);
                assert(states(before)[id as int] == before[id as int]@);
                assert(concerns(start[connected[i as int] as int], e) ==> dbsp::fits(
                    dbsp::weight(start[id as int].weights, e.key()) + if e is Insert {
                        dbsp::occurrences(connected, connected[i as int])
                    } else {
                        -1
                    },
                ));
            }
            let line = apply_event(&mut views[id], event);
            assert(states(views@) =~= states(before).update(
                id as int,
                changed(before[id as int]@, e),
            ));
            let ghost lines_before = lines.deep_view();
            if let Some(line) = line {
                lines.push(line);
                assert(lines.deep_view() =~= lines_before.push(line@));
            }
        }
        lines
    }
}

// ---------------------------------------------------------------------------
// Laws
// ---------------------------------------------------------------------------
/// A row that is inserted and meets the condition is held under its key, with a weight
/// of one more; one that does not meet it changes nothing.
pub proof fn insertions_reach_views(v: ViewState, key: i64, record: Seq<u8>, other: i64)
    requires
        dbsp::weight(v.weights, key) < i32::MAX,
        other != key,
    ensures
        ({
            let w = changed(v, EventView::Insert { row_key: key, record });
            &&& !view::accepts(v.predicate, record) ==> w == v
            &&& view::accepts(v.predicate, record) ==> {
                &&& w.records.contains_key(key) && w.records[key] == record
                &&& dbsp::weight(w.weights, key) == dbsp::weight(v.weights, key) + 1
            }
            &&& w.records.contains_key(other) == v.records.contains_key(other)
            &&& v.records.contains_key(other) ==> w.records[other] == v.records[other]
            &&& dbsp::weight(w.weights, other) == dbsp::weight(v.weights, other)
            &&& w.name == v.name && w.predicate == v.predicate
        }),
{
}

/// A row that is deleted and is held is held no more, and its weight is one less; one
/// that is not held changes nothing.
pub proof fn deletions_reach_views(v: ViewState, key: i64, other: i64)
    requires
        dbsp::weight(v.weights, key) > i32::MIN,
        other != key,
    ensures
        ({
            let w = changed(v, EventView::Delete { row_key: key });
            &&& !v.records.contains_key(key) ==> w == v
            &&& v.records.contains_key(key) ==> {
                &&& !w.records.contains_key(key)
                &&& dbsp::weight(w.weights, key) == dbsp::weight(v.weights, key) - 1
            }
            &&& w.records.contains_key(other) == v.records.contains_key(other)
            &&& v.records.contains_key(other) ==> w.records[other] == v.records[other]
            &&& dbsp::weight(w.weights, other) == dbsp::weight(v.weights, other)
            &&& w.name == v.name && w.predicate == v.predicate
        }),
{
}

/// A change is reported if and only if it changes the view: the report tells what was
/// done, in which view, and to which row.
pub proof fn changes_are_reported(v: ViewState, key: i64, record: Seq<u8>)
    ensures
        notice(v, EventView::Insert { row_key: key, record }) == if view::accepts(
            v.predicate,
            record,
        ) {
            Some(
                "INSERT to view '"@ + v.name + "': row_key="@ + numeric::signed_decimal(key as int),
            )
        } else {
            None
        },
        notice(v, EventView::Delete { row_key: key }) == if v.records.contains_key(key) {
            Some(
                "DELETE from view '"@ + v.name + "': row_key="@ + numeric::signed_decimal(
                    key as int,
                ),
            )
        } else {
            None
        },
{
}

/// A view that is not connected is not changed; one that is connected once is changed
/// once.
pub proof fn connected_views_are_changed(
    views: Seq<ViewState>,
    connected: Seq<usize>,
    e: EventView,
    n: int,
    id: int,
)
    requires
        0 <= n <= connected.len(),
        all_known(connected, views.len()),
        0 <= id < views.len(),
        forall|i: int, j: int| 0 <= i < j < connected.len() ==> connected[i] != connected[j],
    ensures
        after_event(views, connected, e, n).len() == views.len(),
        (exists|i: int| 0 <= i < n && #[trigger] connected[i] == id) ==> after_event(
            views,
            connected,
            e,
            n,
        )[id] == changed(views[id], e),
        !(exists|i: int| 0 <= i < n && #[trigger] connected[i] == id) ==> after_event(
            views,
            connected,
            e,
            n,
        )[id] == views[id],
    decreases n,
{
    if n > 0 {
        connected_views_are_changed(views, connected, e, n - 1, id);
        let last = connected[n - 1] as int;
        assert(connected[n - 1] < views.len());
        if last == id {
            assert(!(exists|i: int| 0 <= i < n - 1 && #[trigger] connected[i] == id));
        } else {
            if exists|i: int| 0 <= i < n && #[trigger] connected[i] == id {
                let i = choose|i: int| 0 <= i < n && #[trigger] connected[i] == id;
                assert(i < n - 1);
            }
        }
    }
}

/// Every connected view that a change concerns is reported on, as it was before the
/// change, in the order of the connections.
pub proof fn reports_follow_connections(
    views: Seq<ViewState>,
    connected: Seq<usize>,
    e: EventView,
    n: int,
)
    requires
        0 <= n < connected.len(),
        all_known(connected, views.len()),
        forall|i: int, j: int| 0 <= i < j < connected.len() ==> connected[i] != connected[j],
    ensures
        notices(views, connected, e, 0).len() == 0,
        notices(views, connected, e, n + 1) == notices(views, connected, e, n) + match notice(
            views[connected[n] as int],
            e,
        ) {
            Some(line) => seq![line],
            None => seq![],
        },
{
    assert(connected[n] < views.len());
    connected_views_are_changed(views, connected, e, n, connected[n] as int);
    match notice(views[connected[n] as int], e) {
        Some(line) => {
            assert(notices(views, connected, e, n).push(line) =~= notices(views, connected, e, n)
                + seq![line]);
        },
        None => {
            assert(notices(views, connected, e, n) =~= notices(views, connected, e, n) + seq![]);
        },
    }
}

} // verus!
