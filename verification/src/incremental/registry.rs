//! The registry of event streams and views, and what `CREATE VIEW` adds to it.

use vstd::prelude::*;

use crate::incremental::dbsp;
use crate::incremental::events;
use crate::incremental::events::{EventView, TableChangeEvent, TableEventStream};
use crate::incremental::view;
use crate::incremental::view::{IncrementalView, PredicateView, Select, ViewState};
use crate::text;

verus! {

broadcast use vstd::std_specs::hash::group_hash_axioms;

/// The model of a stream: its table and its connections.
pub struct StreamView {
    pub table: Seq<char>,
    pub connected: Seq<usize>,
}

/// The models of streams.
pub open spec fn stream_views(streams: Seq<TableEventStream>) -> Seq<StreamView> {
    Seq::new(
        streams.len(),
        |i: int| StreamView { table: streams[i].table(), connected: streams[i].connected() },
    )
}

/// The first stream from `i` on that is of the table, or the end.
pub open spec fn stream_pos(streams: Seq<StreamView>, table: Seq<char>, i: int) -> int
    decreases streams.len() - i,
{
    if i >= streams.len() || i < 0 || streams[i].table == table {
        i
    } else {
        stream_pos(streams, table, i + 1)
    }
}

/// There is a stream of the table.
pub open spec fn has_stream(streams: Seq<StreamView>, table: Seq<char>) -> bool {
    0 <= stream_pos(streams, table, 0) < streams.len()
}

/// The last name from the end of the first `n` on that is the given one.
pub open spec fn last_named(names: Seq<Seq<char>>, name: Seq<char>, n: int) -> Option<int>
    decreases n,
{
    if n <= 0 {
        None
    } else if names[n - 1] == name {
        Some(n - 1)
    } else {
        last_named(names, name, n - 1)
    }
}

/// The streams of all tables, and the views that listen to them. A view is known by
/// its number.
#[derive(Debug)]
pub struct TableEventRegistry {
    streams: Vec<TableEventStream>,
    views: Vec<IncrementalView>,
    names: Vec<String>,
}

impl TableEventRegistry {
    /// The streams.
    pub closed spec fn streams(self) -> Seq<StreamView> {
        stream_views(self.streams@)
    }

    /// The views, by their numbers.
    pub closed spec fn views(self) -> Seq<ViewState> {
        events::states(self.views@)
    }

    /// The names under which the views were registered.
    pub closed spec fn names(self) -> Seq<Seq<char>> {
        self.names.deep_view()
    }

    spec fn views_are_valid(self) -> bool {
        events::all_valid(self.views@)
    }

    /// Every connection leads to a view, every view is valid and has a name, and no
    /// table has two streams.
    pub closed spec fn valid(self) -> bool {
        &&& self.views_are_valid()
        &&& self.names@.len() == self.views@.len()
        &&& forall|i: int|
            0 <= i < self.streams@.len() ==> events::all_known(
                (#[trigger] self.streams@[i]).connected(),
                self.views@.len(),
            )
        &&& one_each(self.streams())
    }

    /// A registry without streams and views.
    pub fn new() -> (r: Self)
        ensures
            r.valid(),
            r.streams() == Seq::<StreamView>::empty(),
            r.views() == Seq::<ViewState>::empty(),
            r.names() == Seq::<Seq<char>>::empty(),
    {
        let r = TableEventRegistry { streams: Vec::new(), views: Vec::new(), names: Vec::new() };
        assert(r.streams() =~= seq![]);
        assert(r.views() =~= seq![]);
        assert(r.names() =~= seq![]);
        r
    }

    /// The position of the stream of a table, or the end.
    fn find(&self, table_name: &str) -> (r: usize)
        ensures
            r == stream_pos(self.streams(), table_name@, 0),
            r <= self.streams@.len(),
    {
        let wanted = text::chars_of(table_name);
        let ghost all = self.streams();
        let mut i: usize = 0;
        while i < self.streams.len()
            invariant
                i <= self.streams@.len(),
                all == self.streams(),
                wanted@ == table_name@,
                stream_pos(all, table_name@, 0) == stream_pos(all, table_name@, i as int),
            decreases self.streams@.len() - i,
        {
            let name = text::chars_of(self.streams[i].table_name());
            assert(all[i as int].table == name@);
            if text::same(&name, &wanted) {
                return i;
            }
            i = i + 1;
        }
        i
    }

    /// Gives the stream of a table, which is made if there is none yet.
    pub fn create_stream(&mut self, table_name: &str) -> (r: usize)
        requires
            old(self).valid(),
        ensures
            final(self).valid(),
            r == stream_pos(old(self).streams(), table_name@, 0),
            final(self).streams() == if has_stream(old(self).streams(), table_name@) {
                old(self).streams()
            } else {
                old(self).streams().push(
                    (StreamView { table: table_name@, connected: Seq::empty() }),
                )
            },
            final(self).views() == old(self).views(),
            final(self).names() == old(self).names(),
            r == stream_pos(final(self).streams(), table_name@, 0),
            has_stream(final(self).streams(), table_name@),
    {
        let at: usize = self.find(table_name);
        if at < self.streams.len() {
            return at;
        }
        let ghost before = self.streams();
        let stream = TableEventStream::new(table_name.to_string());
        self.streams.push(stream);
        proof {
            let made = StreamView { table: table_name@, connected: Seq::empty() };
            assert(self.streams() =~= before.push(made));
            none_before(before, table_name@, 0);
            pos_of_new(before, made, 0);
            assert forall|i: int, j: int|
                0 <= i < j < self.streams().len() implies (#[trigger] self.streams()[i]).table != (
            #[trigger] self.streams()[j]).table by {
                assert(self.streams()[i] == before[i]);
                if j < before.len() {
                    assert(self.streams()[j] == before[j]);
                }
            }
        }
        at
    }

    /// The stream of a table.
    pub fn get_stream(&self, table_name: &str) -> (r: usize)
        requires
            has_stream(self.streams(), table_name@),
        ensures
            r == stream_pos(self.streams(), table_name@, 0),
            self.streams()[r as int].table == table_name@,
    {
        let at: usize = self.find(table_name);
        proof {
            pos_is_of_table(self.streams(), table_name@, 0);
        }
        at
    }

    /// Whether there is a stream of the table.
    pub fn knows_table(&self, table_name: &str) -> (r: bool)
        ensures
            r == has_stream(self.streams(), table_name@),
    {
        self.find(table_name) < self.streams.len()
    }

    /// Registers a view of a table, connects it, and gives its number.
    pub fn register_view(&mut self, table_name: &str, view: IncrementalView) -> (r: usize)
        requires
            old(self).valid(),
            view.valid(),
            has_stream(old(self).streams(), table_name@),
        ensures
            final(self).valid(),
            r == old(self).views().len(),
            final(self).views() == old(self).views().push(view@),
            final(self).names() == old(self).names().push(table_name@ + "_view"@),
            ({
                let at = stream_pos(old(self).streams(), table_name@, 0);
                final(self).streams() == old(self).streams().update(
                    at,
                    (StreamView {
                        table: table_name@,
                        connected: old(self).streams()[at].connected.push(r),
                    }),
                )
            }),
    {
        let id: usize = self.views.len();
        let ghost views = self.views();
        let ghost names = self.names();
        let mut name = text::chars_of(table_name);
        text::push_text(&mut name, "_view");
        let name = text::string_of(&name);
        self.names.push(name);
        self.views.push(view);
        proof {
            assert(self.names() =~= names.push(name@));
            assert(self.views() =~= views.push(view@));
            assert forall|i: int| 0 <= i < self.views@.len() implies (
            #[trigger] self.views@[i]).valid() by {
                if i < id {
                    assert(self.views@[i] == old(self).views@[i]);
                }
            }
            assert forall|i: int| 0 <= i < self.streams@.len() implies events::all_known(
                (#[trigger] self.streams@[i]).connected(),
                self.views@.len(),
            ) by {
                let c = self.streams@[i].connected();
                assert(events::all_known(c, id as nat));
                assert forall|j: int| 0 <= j < c.len() implies (#[trigger] c[j])
                    < self.views@.len() by {
                    assert(c[j] < id);
                }
            }
        }
        self.connect_view(table_name, id);
        id
    }

    /// Connects a view to one more table: the view listens to the changes of all the
    /// tables that it is connected to.
    pub fn connect_view(&mut self, table_name: &str, id: usize)
        requires
            old(self).valid(),
            id < old(self).views().len(),
            has_stream(old(self).streams(), table_name@),
        ensures
            final(self).valid(),
            final(self).views() == old(self).views(),
            final(self).names() == old(self).names(),
            ({
                let at = stream_pos(old(self).streams(), table_name@, 0);
                final(self).streams() == old(self).streams().update(
                    at,
                    (StreamView {
                        table: table_name@,
                        connected: old(self).streams()[at].connected.push(id),
                    }),
                )
            }),
    {
        let at: usize = self.get_stream(table_name);
        let ghost streams = self.streams();
        let ghost own = self.streams@;
        self.streams[at].connect_view(id);
        proof {
            assert(self.streams() =~= streams.update(
                at as int,
                (StreamView {
                    table: table_name@,
                    connected: streams[at as int].connected.push(id),
                }),
            ));
            assert forall|i: int| 0 <= i < self.streams@.len() implies events::all_known(
                (#[trigger] self.streams@[i]).connected(),
                self.views@.len(),
            ) by {
                assert(events::all_known(own[i].connected(), self.views@.len()));
                let c = self.streams@[i].connected();
                assert forall|j: int| 0 <= j < c.len() implies (#[trigger] c[j])
                    < self.views@.len() by {
                    if j < own[i].connected().len() {
                        assert(own[i].connected()[j] < self.views@.len());
                    }
                }
            }
            assert forall|i: int, j: int|
                0 <= i < j < self.streams().len() implies (#[trigger] self.streams()[i]).table != (
            #[trigger] self.streams()[j]).table by {
                assert(streams[i].table != streams[j].table);
            }
        }
    }

    /// The number of the view that was last registered under the given name.
    pub fn find_view(&self, name: &str) -> (r: Option<usize>)
        ensures
            match r {
                Some(id) => last_named(self.names(), name@, self.names().len() as int) == Some(
                    id as int,
                ),
                None => last_named(self.names(), name@, self.names().len() as int) is None,
            },
    {
        let wanted = text::chars_of(name);
        let ghost all = self.names();
        let mut n: usize = self.names.len();
        while n > 0
            invariant
                n <= self.names@.len(),
                all == self.names(),
                wanted@ == name@,
                last_named(all, name@, all.len() as int) == last_named(all, name@, n as int),
            decreases n,
        {
            n = n - 1;
            let known = text::chars_of(self.names[n].as_str());
            assert(all[n as int] == known@);
            if text::same(&known, &wanted) {
                return Some(n);
            }
        }
        None
    }

    /// The view with the given number.
    pub fn view(&self, id: usize) -> (r: &IncrementalView)
        requires
            id < self.views().len(),
        ensures
            r@ == self.views()[id as int],
    {
        &self.views[id]
    }

    /// Whether an event can be passed on: its table has a stream, and no weight
    /// overflows.
    pub fn can_emit(&self, event: &TableChangeEvent) -> (r: bool)
        requires
            self.valid(),
        ensures
            r == (has_stream(self.streams(), event.table()) && events::in_range(
                self.views(),
                self.streams()[stream_pos(self.streams(), event.table(), 0)].connected,
                event@,
            )),
    {
        let table = match event {
            TableChangeEvent::Insert { table_name, .. } => table_name.as_str(),
            TableChangeEvent::Delete { table_name, .. } => table_name.as_str(),
        };
        let at: usize = self.find(table);
        if at >= self.streams.len() {
            return false;
        }
        assert(events::all_known(self.streams@[at as int].connected(), self.views@.len()));
        self.streams[at].can_emit(&self.views, event)
    }

    /// Passes an event on to the views of its table, and gives the lines that report
    /// it.
    pub fn emit_change(&mut self, event: &TableChangeEvent) -> (r: Vec<String>)
        requires
            old(self).valid(),
            has_stream(old(self).streams(), event.table()),
            events::in_range(
                old(self).views(),
                old(self).streams()[stream_pos(old(self).streams(), event.table(), 0)].connected,
                event@,
            ),
        ensures
            final(self).valid(),
            final(self).streams() == old(self).streams(),
            final(self).names() == old(self).names(),
            ({
                let at = stream_pos(old(self).streams(), event.table(), 0);
                let connected = old(self).streams()[at].connected;
                &&& final(self).views() == events::after_event(
                    old(self).views(),
                    connected,
                    event@,
                    connected.len() as int,
                )
                &&& r.deep_view() == events::notices(
                    old(self).views(),
                    connected,
                    event@,
                    connected.len() as int,
                )
            }),
    {
        let table = match event {
            TableChangeEvent::Insert { table_name, .. } => table_name.as_str(),
            TableChangeEvent::Delete { table_name, .. } => table_name.as_str(),
        };
        let at: usize = self.get_stream(table);
        assert(events::all_known(self.streams@[at as int].connected(), self.views@.len()));
        self.streams[at].emit_change(&mut self.views, event)
    }
}

impl Default for TableEventRegistry {
    fn default() -> (r: Self)
        ensures
            r.valid(),
            r.streams() == Seq::<StreamView>::empty(),
            r.views() == Seq::<ViewState>::empty(),
            r.names() == Seq::<Seq<char>>::empty(),
    {
        Self::new()
    }
}

/// No table has two streams.
pub open spec fn one_each(streams: Seq<StreamView>) -> bool {
    forall|i: int, j: int|
        0 <= i < j < streams.len() ==> (#[trigger] streams[i]).table != (#[trigger] streams[j]).table
}

proof fn none_before(streams: Seq<StreamView>, table: Seq<char>, i: int)
    requires
        0 <= i <= streams.len(),
        stream_pos(streams, table, i) >= streams.len(),
    ensures
        forall|j: int| i <= j < streams.len() ==> (#[trigger] streams[j]).table != table,
        stream_pos(streams, table, i) == streams.len(),
    decreases streams.len() - i,
{
    if i < streams.len() {
        none_before(streams, table, i + 1);
    }
}

proof fn pos_of_new(streams: Seq<StreamView>, made: StreamView, i: int)
    requires
        0 <= i <= streams.len(),
        forall|j: int| i <= j < streams.len() ==> (#[trigger] streams[j]).table != made.table,
    ensures
        stream_pos(streams.push(made), made.table, i) == streams.len(),
    decreases streams.len() - i,
{
    if i < streams.len() {
        assert(streams.push(made)[i] == streams[i]);
        pos_of_new(streams, made, i + 1);
    }
}

proof fn pos_is_of_table(streams: Seq<StreamView>, table: Seq<char>, i: int)
    requires
        0 <= i,
        stream_pos(streams, table, i) < streams.len(),
    ensures
        streams[stream_pos(streams, table, i)].table == table,
    decreases streams.len() - i,
{
    if i < streams.len() && streams[i].table != table {
        pos_is_of_table(streams, table, i + 1);
    }
}

// ---------------------------------------------------------------------------
// CREATE VIEW
// ---------------------------------------------------------------------------
/// What is to be done for a `CREATE VIEW`.
#[derive(Debug)]
pub struct CreateViewPlan {
    /// The name and table of the new entry of the schema.
    pub entry_name: String,
    /// The text of the new entry.
    pub sql: String,
    /// The condition under which the new entry is read back.
    pub where_clause: String,
    /// The table that the view is over.
    pub base_table: String,
    /// The view itself.
    pub view: IncrementalView,
}

/// The text of a `CREATE VIEW`.
pub open spec fn create_view_text(view_name: Seq<char>, select_text: Seq<char>) -> Seq<char> {
    "CREATE VIEW "@ + view_name + " AS "@ + select_text
}

/// Writes the text of a `CREATE VIEW`.
pub fn create_view_to_str(view_name: &str, select_text: &str) -> (r: String)
    ensures
        r@ == create_view_text(view_name@, select_text@),
{
    let mut out = text::chars_of("CREATE VIEW ");
    text::push_text(&mut out, view_name);
    text::push_text(&mut out, " AS ");
    text::push_text(&mut out, select_text);
    text::string_of(&out)
}

/// The table that a view is over; `t` where the query does not say.
pub open spec fn table_of(select: Select) -> Seq<char> {
    match select.base_table() {
        Some(table) => table,
        None => "t"@,
    }
}

/// Plans a `CREATE VIEW`. `normalized_name` is the name in the form in which the
/// schema has it, `exists` says that the schema has such a view already, and
/// `select_text` is the query as text.
pub fn translate_create_view(
    exists: bool,
    view_name: &str,
    normalized_name: &str,
    select: &Select,
    select_text: &str,
) -> (r: Result<CreateViewPlan, String>)
    ensures
        match r {
            Ok(plan) => {
                &&& !exists
                &&& plan.entry_name@ == normalized_name@
                &&& plan.sql@ == create_view_text(view_name@, select_text@)
                &&& plan.where_clause@ == "name = '"@ + normalized_name@ + "'"@
                &&& plan.base_table@ == table_of(*select)
                &&& plan.view.valid()
                &&& plan.view@ == view::empty_view(normalized_name@, view::where_of(*select))
            },
            Err(message) => exists && message@ == "View "@ + normalized_name@
                + " already exists"@,
        },
{
    if exists {
        let mut message = text::chars_of("View ");
        text::push_text(&mut message, normalized_name);
        text::push_text(&mut message, " already exists");
        return Err(text::string_of(&message));
    }
    let mut clause = text::chars_of("name = '");
    text::push_text(&mut clause, normalized_name);
    text::push_text(&mut clause, "'");
    let base_table = match view::extract_base_table_name(select) {
        Some(table) => table,
        None => "t".to_string(),
    };
    Ok(
        CreateViewPlan {
            entry_name: normalized_name.to_string(),
            sql: create_view_to_str(view_name, select_text),
            where_clause: text::string_of(&clause),
            base_table,
            view: IncrementalView::from_stmt(normalized_name.to_string(), select),
        },
    )
}

// ---------------------------------------------------------------------------
// A view follows its table
// ---------------------------------------------------------------------------
/// The rows of a table after some events.
pub open spec fn table_after(history: Seq<EventView>) -> Map<i64, Seq<u8>>
    decreases history.len(),
{
    if history.len() == 0 {
        Map::empty()
    } else {
        let before = table_after(history.drop_last());
        match history.last() {
            EventView::Insert { row_key, record } => before.insert(row_key, record),
            EventView::Delete { row_key } => before.remove(row_key),
        }
    }
}

/// The events tell of a table: a row is inserted under a key that is free, and
/// deleted where there is one.
pub open spec fn is_history(history: Seq<EventView>) -> bool
    decreases history.len(),
{
    history.len() == 0 || {
        &&& is_history(history.drop_last())
        &&& match history.last() {
            EventView::Insert { row_key, .. } => !table_after(history.drop_last()).contains_key(
                row_key,
            ),
            EventView::Delete { row_key } => table_after(history.drop_last()).contains_key(row_key),
        }
    }
}

/// A view after some events.
pub open spec fn view_after(v: ViewState, history: Seq<EventView>) -> ViewState
    decreases history.len(),
{
    if history.len() == 0 {
        v
    } else {
        events::changed(view_after(v, history.drop_last()), history.last())
    }
}

/// The rows of a table that meet a condition.
pub open spec fn selected(table: Map<i64, Seq<u8>>, predicate: PredicateView) -> Map<
    i64,
    Seq<u8>,
> {
    Map::new(
        |key: i64| table.contains_key(key) && view::accepts(predicate, table[key]),
        |key: i64| table[key],
    )
}

/// A view that listens from the start holds exactly the rows of its table that meet
/// its condition, each of them once: following the changes gives what a query over
/// the whole table would.
pub proof fn view_follows_table(name: Seq<char>, predicate: PredicateView, history: Seq<EventView>)
    requires
        is_history(history),
    ensures
        ({
            let v = view_after(view::empty_view(name, predicate), history);
            &&& v.name == name
            &&& v.predicate == predicate
            &&& v.records == selected(table_after(history), predicate)
            &&& v.weights == Map::new(
                |key: i64| v.records.contains_key(key),
                |key: i64| 1i32,
            )
        }),
    decreases history.len(),
{
    let start = view::empty_view(name, predicate);
    let v = view_after(start, history);
    if history.len() > 0 {
        view_follows_table(name, predicate, history.drop_last());
        let before = view_after(start, history.drop_last());
        let e = history.last();
        let key = e.key();
        assert(dbsp::weight(before.weights, key) == if before.records.contains_key(key) {
            1int
        } else {
            0
        });
    }
    assert(v.records =~= selected(table_after(history), predicate));
    assert(v.weights =~= Map::new(|key: i64| v.records.contains_key(key), |key: i64| 1i32));
}

/// Inserting a row and deleting it again leaves a view as it was.
pub proof fn delete_undoes_insert(v: ViewState, row_key: i64, record: Seq<u8>)
    requires
        dbsp::no_zeros(v.weights),
        !v.records.contains_key(row_key),
        i32::MIN <= dbsp::weight(v.weights, row_key) < i32::MAX,
    ensures
        events::changed(
            events::changed(v, EventView::Insert { row_key, record }),
            EventView::Delete { row_key },
        ) == v,
{
    let inserted = events::changed(v, EventView::Insert { row_key, record });
    let back = events::changed(inserted, EventView::Delete { row_key });
    assert(back.records =~= v.records);
    assert(back.weights =~= v.weights);
}

/// The stream of a table is the first under its name.
pub proof fn streams_are_found(streams: Seq<StreamView>, table: Seq<char>, i: int)
    requires
        0 <= i < streams.len(),
        streams[i].table == table,
        forall|j: int| 0 <= j < i ==> (#[trigger] streams[j]).table != table,
    ensures
        stream_pos(streams, table, 0) == i,
        has_stream(streams, table),
{
    stream_is_at(streams, table, 0, i);
}

proof fn stream_is_at(streams: Seq<StreamView>, table: Seq<char>, from: int, i: int)
    requires
        0 <= from <= i < streams.len(),
        streams[i].table == table,
        forall|j: int| from <= j < i ==> (#[trigger] streams[j]).table != table,
    ensures
        stream_pos(streams, table, from) == i,
    decreases i - from,
{
    if from < i {
        assert(streams[from].table != table);
        stream_is_at(streams, table, from + 1, i);
    }
}

/// A table has a stream if and only if one of the streams is its own.
pub proof fn only_known_tables_have_streams(streams: Seq<StreamView>, table: Seq<char>)
    ensures
        has_stream(streams, table) <==> exists|i: int|
            0 <= i < streams.len() && (#[trigger] streams[i]).table == table,
{
    if has_stream(streams, table) {
        pos_is_of_table(streams, table, 0);
    } else {
        none_anywhere(streams, table, 0);
    }
}

proof fn none_anywhere(streams: Seq<StreamView>, table: Seq<char>, i: int)
    requires
        0 <= i <= streams.len(),
        !(0 <= stream_pos(streams, table, i) < streams.len()),
    ensures
        forall|j: int| i <= j < streams.len() ==> (#[trigger] streams[j]).table != table,
    decreases streams.len() - i,
{
    if i < streams.len() {
        assert(streams[i].table != table);
        none_anywhere(streams, table, i + 1);
    }
}

/// Of the views under a name the last that was registered is found.
pub proof fn last_view_is_found(names: Seq<Seq<char>>, name: Seq<char>, n: int)
    requires
        0 <= n <= names.len(),
    ensures
        match last_named(names, name, n) {
            Some(i) => 0 <= i < n && names[i] == name && forall|j: int|
                i < j < n ==> #[trigger] names[j] != name,
            None => forall|j: int| 0 <= j < n ==> #[trigger] names[j] != name,
        },
    decreases n,
{
    if n > 0 && names[n - 1] != name {
        last_view_is_found(names, name, n - 1);
    }
}

/// A history of a table is read from its last event back: an insertion puts the row
/// under its key, a deletion takes it out, and other keys stay.
pub proof fn tables_follow_their_events(
    history: Seq<EventView>,
    key: i64,
    record: Seq<u8>,
    other: i64,
)
    requires
        other != key,
    ensures
        ({
            let t = table_after(history);
            let i = table_after(history.push(EventView::Insert { row_key: key, record }));
            let d = table_after(history.push(EventView::Delete { row_key: key }));
            &&& i.contains_key(key) && i[key] == record
            &&& !d.contains_key(key)
            &&& i.contains_key(other) == t.contains_key(other) && d.contains_key(other)
                == t.contains_key(other)
            &&& t.contains_key(other) ==> i[other] == t[other] && d[other] == t[other]
        }),
        table_after(Seq::<EventView>::empty()) == Map::<i64, Seq<u8>>::empty(),
{
    assert(history.push(EventView::Insert { row_key: key, record }).drop_last() =~= history);
    assert(history.push(EventView::Delete { row_key: key }).drop_last() =~= history);
}

/// The text of a view is read back: it names the view and holds its query.
pub proof fn view_texts_hold_their_parts(name: Seq<char>, query: Seq<char>)
    ensures
        ({
            let t = create_view_text(name, query);
            &&& t.take(12) == "CREATE VIEW "@
            &&& t.subrange(12, 12 + name.len() as int) == name
            &&& t.subrange(12 + name.len() as int, 16 + name.len() as int) == " AS "@
            &&& t.skip(16 + name.len() as int) == query
        }),
{
    reveal_strlit("CREATE VIEW ");
    reveal_strlit(" AS ");
    let t = create_view_text(name, query);
    let n = name.len() as int;
    assert("CREATE VIEW "@.len() == 12 && " AS "@.len() == 4);
    assert(t.take(12) =~= "CREATE VIEW "@);
    assert(t.subrange(12, 12 + n) =~= name);
    assert(t.subrange(12 + n, 16 + n) =~= " AS "@);
    assert(t.skip(16 + n) =~= query);
}

/// A view over a table is over that table; a query that names none is over `t`.
pub proof fn views_are_over_their_tables(select: Select)
    ensures
        select.base_table() matches Some(table) ==> table_of(select) == table,
        select.base_table() is None ==> table_of(select) == "t"@,
{
}

} // verus!
