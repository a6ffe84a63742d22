//! A Bw-tree: an ordered index with several values per key, whose pages are
//! changed by putting delta records in front of them.

use std::collections::BTreeMap;

use vstd::prelude::*;

use crate::mvcc::page;
use crate::mvcc::page::{DeleteDelta, DeltaView, InsertDelta, LeafBase, Node, PageId, PageView};

verus! {

/// No page.
pub const INVALID_PAGE_ID: PageId = 0;

/// The root page.
pub const ROOT_PAGE_ID: PageId = 1;

/// The first page id that is free in a new tree.
pub const FIRST_LEAF_PAGE_ID: PageId = 2;

/// The chain length from which a page is consolidated.
pub const MAX_DELTA_CHAIN: usize = 8;

/// The tree.
#[derive(Debug)]
pub struct BwTree {
    /// The pages by their ids.
    mapping_table: BTreeMap<PageId, Node>,
    /// Id of the root page.
    root_pid: PageId,
    /// Next free page id.
    next_pid: PageId,
    /// Chain length from which a page is consolidated.
    max_delta_chain_length: usize,
}

/// What becomes of a page that was just changed: a page with a long chain is
/// consolidated, unless nothing would be left in it.
pub open spec fn settles(before: PageView, after: PageView) -> bool {
    if before.deltas.len() < MAX_DELTA_CHAIN || (forall|key: i64|
        (#[trigger] before.consolidated(key)).len() == 0) {
        after == before
    } else {
        after.deltas.len() == 0 && before.consolidates_to(after.base)
    }
}

/// A page with one more record in front.
pub open spec fn with_delta(p: PageView, d: DeltaView) -> PageView {
    PageView { deltas: seq![d] + p.deltas, base: p.base }
}

/// A page from which one value is taken out: a page without the value stays as it
/// is.
pub open spec fn taken_out(p: PageView, key: i64, value: Seq<char>) -> PageView {
    if p.has(key, value) {
        with_delta(p, DeltaView::Delete(key, value))
    } else {
        p
    }
}

/// A page from which some values are taken out, one after the other.
pub open spec fn all_taken_out(p: PageView, key: i64, values: Seq<Seq<char>>) -> PageView
    decreases values.len(),
{
    if values.len() == 0 {
        p
    } else {
        taken_out(all_taken_out(p, key, values.drop_last()), key, values.last())
    }
}

/// `keys` are the keys of the page that have values, in ascending order.
pub open spec fn lists_keys(p: PageView, keys: Seq<i64>) -> bool {
    &&& forall|i: int, j: int| 0 <= i < j < keys.len() ==> keys[i] < keys[j]
    &&& forall|k: i64| #[trigger] keys.contains(k) <==> p.values(k).len() > 0
}

/// The number of values of the given keys.
pub open spec fn count_values(p: PageView, keys: Seq<i64>) -> nat
    decreases keys.len(),
{
    if keys.len() == 0 {
        0
    } else {
        count_values(p, keys.drop_last()) + p.values(keys.last()).len()
    }
}

/// The keys with each of their values after consolidation, key by key.
pub open spec fn listing(p: PageView, keys: Seq<i64>) -> Seq<(i64, Seq<char>)>
    decreases keys.len(),
{
    if keys.len() == 0 {
        seq![]
    } else {
        listing(p, keys.drop_last()) + paired(keys.last(), p.consolidated(keys.last()))
    }
}

/// The values of a key, each with the key.
pub open spec fn paired(key: i64, values: Seq<Seq<char>>) -> Seq<(i64, Seq<char>)> {
    Seq::new(values.len(), |i: int| (key, values[i]))
}

/// One end of a range of keys.
#[derive(Debug, Clone, Copy, PartialEq, Eq, Structural)]
pub enum KeyBound {
    Included(i64),
    Excluded(i64),
    Unbounded,
}

/// `key` lies in the range from `start` to `end`.
pub open spec fn in_range(start: KeyBound, end: KeyBound, key: i64) -> bool {
    &&& match start {
        KeyBound::Included(k) => k <= key,
        KeyBound::Excluded(k) => k < key,
        KeyBound::Unbounded => true,
    }
    &&& match end {
        KeyBound::Included(k) => key <= k,
        KeyBound::Excluded(k) => key < k,
        KeyBound::Unbounded => true,
    }
}

/// The keys of a sequence that lie in a range.
pub open spec fn keys_in_range(keys: Seq<i64>, start: KeyBound, end: KeyBound) -> Seq<i64>
    decreases keys.len(),
{
    if keys.len() == 0 {
        keys
    } else if in_range(start, end, keys.last()) {
        keys_in_range(keys.drop_last(), start, end).push(keys.last())
    } else {
        keys_in_range(keys.drop_last(), start, end)
    }
}

/// The keys of entries.
pub open spec fn keys_of(entries: Seq<(i64, Seq<Seq<char>>)>) -> Seq<i64> {
    Seq::new(entries.len(), |i: int| entries[i].0)
}

/// The keys of a consolidated page are those of the page that have values.
proof fn consolidated_keys(p: PageView, entries: Seq<(i64, Seq<Seq<char>>)>)
    requires
        p.consolidates_to(entries),
    ensures
        lists_keys(p, keys_of(entries)),
{
    let keys = keys_of(entries);
    assert forall|i: int, j: int| 0 <= i < j < keys.len() implies keys[i] < keys[j] by {
        assert(entries[i].0 < entries[j].0);
    }
    assert forall|k: i64| #[trigger] keys.contains(k) <==> p.values(k).len() > 0 by {
        values_agree(p, k);
        assert(page::base_values(entries, k) == p.consolidated(k));
        if keys.contains(k) {
            let i = choose|i: int| 0 <= i < keys.len() && keys[i] == k;
            assert(entries[i].0 == k);
            page::entry_is_found(entries, i);
            assert(entries[i].1.len() > 0);
        }
        if p.values(k).len() > 0 {
            let i = page::entry_of(entries, k);
            assert(keys[i] == k);
        }
    }
}

/// A key has values before consolidation if and only if it has some after it.
proof fn values_agree(p: PageView, key: i64)
    ensures
        (p.consolidated(key).len() > 0) == (p.values(key).len() > 0),
{
    if p.consolidated(key).len() > 0 {
        let x = p.consolidated(key)[0];
        p.consolidation_keeps_values(key, x);
        assert(p.consolidated(key).contains(x));
    }
    if p.values(key).len() > 0 {
        let x = p.values(key)[0];
        p.consolidation_keeps_values(key, x);
        assert(p.values(key).contains(x));
    }
}

/// Consolidation, where it happens, keeps which values every key has, keeps the
/// values of a key altogether where none of them occurs twice, and keeps the page in
/// order.
pub proof fn settling_keeps_values(before: PageView, after: PageView, key: i64)
    requires
        settles(before, after),
        before.wf(),
    ensures
        forall|x: Seq<char>| #[trigger] after.has(key, x) == before.has(key, x),
        before.values(key).no_duplicates() ==> after.values(key) == before.values(key),
        after.wf(),
{
    if after.deltas.len() == 0 && before.consolidates_to(after.base) {
        assert(page::base_values(after.base, key) == before.consolidated(key));
        assert(after.values(key) == before.consolidated(key));
        assert forall|x: Seq<char>| #[trigger] after.has(key, x) == before.has(key, x) by {
            before.consolidation_keeps_values(key, x);
        }
        if before.values(key).no_duplicates() {
            before.consolidation_keeps_distinct_values(key);
        }
    }
}

/// The values of `key` with one more record in front.
proof fn delta_in_front(p: PageView, d: DeltaView, key: i64)
    ensures
        with_delta(p, d).values(key) == page::effect(d, key, p.values(key)),
{
    shifted_values(p.deltas, seq![d] + p.deltas, page::base_values(p.base, key), key, 0);
}

proof fn shifted_values(
    older: Seq<DeltaView>,
    all: Seq<DeltaView>,
    base: Seq<Seq<char>>,
    key: i64,
    j: int,
)
    requires
        all.len() == older.len() + 1,
        forall|i: int| 0 <= i < older.len() ==> all[i + 1] == #[trigger] older[i],
        0 <= j <= older.len(),
    ensures
        page::values_from(all, base, key, j + 1) == page::values_from(older, base, key, j),
    decreases older.len() - j,
{
    if j < older.len() {
        assert(all[j + 1] == older[j]);
        shifted_values(older, all, base, key, j + 1);
    }
}

/// What a record in front of a page shows of the values of every key, whether the
/// page is then consolidated or not.
proof fn record_shows(was: PageView, d: DeltaView, now: PageView)
    requires
        was.wf(),
        settles(with_delta(was, d), now),
    ensures
        forall|k: i64, x: Seq<char>| #[trigger]
            now.has(k, x) == match d {
                DeltaView::Insert(key, v) => was.has(k, x) || (key == k && v == x),
                DeltaView::Delete(key, v) => was.has(k, x) && !(key == k && v == x),
                DeltaView::Split(_, _) => was.has(k, x),
            },
        forall|k: i64|
            page::effect(d, k, was.values(k)).no_duplicates() ==> #[trigger] now.values(k)
                == page::effect(d, k, was.values(k)),
{
    assert forall|k: i64, x: Seq<char>| #[trigger]
        now.has(k, x) == match d {
            DeltaView::Insert(key, v) => was.has(k, x) || (key == k && v == x),
            DeltaView::Delete(key, v) => was.has(k, x) && !(key == k && v == x),
            DeltaView::Split(_, _) => was.has(k, x),
        } by {
        settling_keeps_values(with_delta(was, d), now, k);
        delta_in_front(was, d, k);
        page::effect_has(d, k, was.values(k), x);
    }
    assert forall|k: i64|
        page::effect(d, k, was.values(k)).no_duplicates() implies #[trigger] now.values(k)
        == page::effect(d, k, was.values(k)) by {
        settling_keeps_values(with_delta(was, d), now, k);
        delta_in_front(was, d, k);
    }
}

/// `s` without the elements that are among `values`.
spec fn without_all(s: Seq<Seq<char>>, values: Seq<Seq<char>>) -> Seq<Seq<char>>
    decreases values.len(),
{
    if values.len() == 0 {
        s
    } else {
        page::without(without_all(s, values.drop_last()), values.last())
    }
}

/// What is left is what is not among the values.
proof fn values_taken_out(s: Seq<Seq<char>>, values: Seq<Seq<char>>, x: Seq<char>)
    ensures
        without_all(s, values).contains(x) == (s.contains(x) && !values.contains(x)),
    decreases values.len(),
{
    if values.len() > 0 {
        let rest = values.drop_last();
        values_taken_out(s, rest, x);
        page::without_has(without_all(s, rest), values.last(), x);
        assert(values =~= rest.push(values.last()));
        page::push_has(rest, values.last(), x);
    }
}

/// Taking values of a key out takes them from that key, and nothing from others.
proof fn taking_out_shows(p: PageView, key: i64, values: Seq<Seq<char>>, k: i64)
    ensures
        all_taken_out(p, key, values).values(k) == if k == key {
            without_all(p.values(k), values)
        } else {
            p.values(k)
        },
    decreases values.len(),
{
    if values.len() > 0 {
        let rest = values.drop_last();
        let v = values.last();
        let q = all_taken_out(p, key, rest);
        taking_out_shows(p, key, rest, k);
        delta_in_front(q, DeltaView::Delete(key, v), k);
        if k == key && !q.has(key, v) {
            page::nothing_to_take_out(q.values(key), v);
        }
    }
}

impl BwTree {
    /// The root page.
    pub closed spec fn page(self) -> PageView {
        self.mapping_table@[self.root_pid].page()
    }

    /// The tree is in order: there is one page, the root, and it is in order.
    pub closed spec fn wf(self) -> bool {
        &&& self.mapping_table@.dom() == set![self.root_pid]
        &&& self.root_pid == ROOT_PAGE_ID
        &&& self.max_delta_chain_length == MAX_DELTA_CHAIN
        &&& self.page().wf()
    }

    /// `value` is among the values of `key`.
    pub open spec fn has(self, key: i64, value: Seq<char>) -> bool {
        self.page().has(key, value)
    }

    /// An empty tree.
    pub fn new() -> (r: Self)
        ensures
            r.wf(),
            r.page() == (PageView { deltas: seq![], base: seq![] }),
            forall|key: i64| (#[trigger] r.page().values(key)).len() == 0,
    {
        let mut mapping_table: BTreeMap<PageId, Node> = BTreeMap::new();
        let entries: Vec<(i64, page::Values)> = Vec::new();
        let root = Node::LeafBase(
            LeafBase { entries, high_key: None, right_sibling: INVALID_PAGE_ID },
        );
        assert(root.page() =~= PageView { deltas: seq![], base: seq![] });
        mapping_table.insert(ROOT_PAGE_ID, root);
        assert(mapping_table@.dom() =~= set![ROOT_PAGE_ID]);
        BwTree {
            mapping_table,
            root_pid: ROOT_PAGE_ID,
            next_pid: FIRST_LEAF_PAGE_ID,
            max_delta_chain_length: MAX_DELTA_CHAIN,
        }
    }

    /// The page that holds `key`.
    fn find_leaf_page(&self, _key: i64) -> (r: PageId)
        ensures
            r == self.root_pid,
    {
        self.root_pid
    }

    /// The root node.
    fn root(&self) -> (r: &Node)
        requires
            self.wf(),
        ensures
            r.page() == self.page(),
            r.page().wf(),
    {
        assert(self.mapping_table@.dom().contains(self.root_pid));
        self.mapping_table.get(&self.root_pid).unwrap()
    }

    /// Consolidates the root page if its chain is long.
    fn settle(&mut self)
        requires
            old(self).wf(),
        ensures
            final(self).wf(),
            settles(old(self).page(), final(self).page()),
    {
        let ghost before = self.page();
        if !self.root().needs_consolidation(self.max_delta_chain_length) {
            return;
        }
        let entries = self.root().apply_deltas();
        let ghost view = page::entries_view(entries@);
        // A page without entries stays as it is.
        if entries.len() == 0 {
            assert forall|key: i64| (#[trigger] before.consolidated(key)).len() == 0 by {
                assert(page::base_values(view, key) == before.consolidated(key));
            }
            return;
        }
        let base = Node::LeafBase(
            LeafBase { entries, high_key: None, right_sibling: INVALID_PAGE_ID },
        );
        assert(base.page().deltas =~= seq![]);
        assert(base.page().base =~= view);
        proof {
            page::entry_is_found(view, 0);
            assert(page::base_values(view, view[0].0) == before.consolidated(view[0].0));
            assert(before.consolidated(view[0].0).len() > 0);
        }
        self.mapping_table.insert(self.root_pid, base);
        assert(self.mapping_table@.dom() =~= set![ROOT_PAGE_ID]);
        proof {
            settling_keeps_values(before, self.page(), 0);
        }
    }

    /// Inserts a value for a key. A key may have several values.
    pub fn insert(&mut self, key: i64, value: String) -> (r: bool)
        requires
            old(self).wf(),
        ensures
            final(self).wf(),
            r,
            settles(
                with_delta(old(self).page(), DeltaView::Insert(key, value@)),
                final(self).page(),
            ),
            forall|k: i64, x: Seq<char>| #[trigger]
                final(self).has(k, x) == (old(self).has(k, x) || (k == key && x == value@)),
            forall|k: i64|
                {
                    let due = if k == key {
                        old(self).page().values(k).push(value@)
                    } else {
                        old(self).page().values(k)
                    };
                    due.no_duplicates() ==> #[trigger] final(self).page().values(k) == due
                },
    {
        let ghost was = self.page();
        let pid: PageId = self.find_leaf_page(key);
        assert(self.mapping_table@.dom().contains(pid));
        let old_node = self.mapping_table.remove(&pid).unwrap();
        let node = Node::InsertDelta(InsertDelta { key, value, next: Box::new(old_node) });
        let ghost d = DeltaView::Insert(key, value@);
        assert(node.page() =~= with_delta(was, d));
        self.mapping_table.insert(pid, node);
        assert(self.mapping_table@.dom() =~= set![ROOT_PAGE_ID]);
        self.settle();
        proof {
            record_shows(was, d, self.page());
        }
        true
    }

    /// All values of a key.
    pub fn get(&self, key: &i64) -> (r: Vec<String>)
        requires
            self.wf(),
        ensures
            r.deep_view() == self.page().values(*key),
    {
        self.root().values(*key)
    }

    /// Whether `value` is among the values of `key`.
    fn key_value_exists(&self, key: &i64, value: &String) -> (r: bool)
        requires
            self.wf(),
        ensures
            r == self.has(*key, value@),
    {
        let values = self.get(key);
        for i in 0..values.len()
            invariant
                values.deep_view() == self.page().values(*key),
                forall|j: int| 0 <= j < i ==> values@[j]@ != value@,
        {
            if values[i] == *value {
                assert(values.deep_view()[i as int] == value@);
                return true;
            }
        }
        assert(!values.deep_view().contains(value@));
        false
    }

    /// Takes a value of a key out, every copy of it. Says whether it was there.
    fn take_out(&mut self, key: &i64, value: &String) -> (r: bool)
        requires
            old(self).wf(),
        ensures
            final(self).wf(),
            r == old(self).has(*key, value@),
            final(self).page() == taken_out(old(self).page(), *key, value@),
    {
        let ghost was = self.page();
        if !self.key_value_exists(key, value) {
            return false;
        }
        let pid: PageId = self.find_leaf_page(*key);
        assert(self.mapping_table@.dom().contains(pid));
        let old_node = self.mapping_table.remove(&pid).unwrap();
        let node = Node::DeleteDelta(
            DeleteDelta { key: *key, value: value.clone(), next: Box::new(old_node) },
        );
        assert(node.page() =~= with_delta(was, DeltaView::Delete(*key, value@)));
        self.mapping_table.insert(pid, node);
        assert(self.mapping_table@.dom() =~= set![ROOT_PAGE_ID]);
        true
    }

    /// Deletes a value of a key, every copy of it. Says whether it was there.
    pub fn delete(&mut self, key: &i64, value: &String) -> (r: bool)
        requires
            old(self).wf(),
        ensures
            final(self).wf(),
            r == old(self).has(*key, value@),
            !r ==> final(self).page() == old(self).page(),
            r ==> settles(
                with_delta(old(self).page(), DeltaView::Delete(*key, value@)),
                final(self).page(),
            ),
            forall|k: i64, x: Seq<char>| #[trigger]
                final(self).has(k, x) == (old(self).has(k, x) && !(k == *key && x == value@)),
            forall|k: i64|
                {
                    let due = if k == *key {
                        page::without(old(self).page().values(k), value@)
                    } else {
                        old(self).page().values(k)
                    };
                    due.no_duplicates() ==> #[trigger] final(self).page().values(k) == due
                },
    {
        let ghost was = self.page();
        if !self.take_out(key, value) {
            proof {
                page::nothing_to_take_out(was.values(*key), value@);
            }
            return false;
        }
        self.settle();
        proof {
            record_shows(was, DeltaView::Delete(*key, value@), self.page());
        }
        true
    }

    /// The keys that have values, in ascending order.
    pub fn keys(&self) -> (r: Vec<i64>)
        requires
            self.wf(),
        ensures
            lists_keys(self.page(), r@),
    {
        let entries = self.root().apply_deltas();
        let ghost view = page::entries_view(entries@);
        let mut keys: Vec<i64> = Vec::new();
        for i in 0..entries.len()
            invariant
                view == page::entries_view(entries@),
                keys@ =~= keys_of(view).take(i as int),
        {
            keys.push(entries[i].0);
        }
        proof {
            consolidated_keys(self.page(), view);
            assert(keys@ =~= keys_of(view));
        }
        keys
    }

    /// The number of key-value pairs.
    pub fn len(&self) -> (r: usize)
        requires
            self.wf(),
            forall|keys: Seq<i64>| #[trigger]
                lists_keys(self.page(), keys) ==> count_values(self.page(), keys) <= usize::MAX,
        ensures
            exists|keys: Seq<i64>| #[trigger] lists_keys(self.page(), keys),
            forall|keys: Seq<i64>| #[trigger]
                lists_keys(self.page(), keys) ==> r == count_values(self.page(), keys),
    {
        match self.checked_len() {
            Some(count) => count,
            None => 0,
        }
    }

    /// The number of key-value pairs, if it fits.
    pub fn checked_len(&self) -> (r: Option<usize>)
        requires
            self.wf(),
        ensures
            exists|keys: Seq<i64>| #[trigger] lists_keys(self.page(), keys),
            forall|keys: Seq<i64>| #[trigger]
                lists_keys(self.page(), keys) ==> match r {
                    Some(count) => count == count_values(self.page(), keys),
                    None => count_values(self.page(), keys) > usize::MAX,
                },
    {
        let keys = self.keys();
        proof {
            assert forall|other: Seq<i64>| #[trigger] lists_keys(self.page(), other) implies other
                == keys@ by {
                key_list_is_unique(self.page(), keys@, other);
            }
        }
        let mut count: usize = 0;
        for i in 0..keys.len()
            invariant
                self.wf(),
                lists_keys(self.page(), keys@),
                forall|other: Seq<i64>| #[trigger]
                    lists_keys(self.page(), other) ==> other == keys@,
                count == count_values(self.page(), keys@.take(i as int)),
        {
            proof {
                count_grows(self.page(), keys@, i + 1);
                assert(keys@.take(i + 1).drop_last() =~= keys@.take(i as int));
            }
            let values = self.get(&keys[i]);
            assert(values@.len() == values.deep_view().len());
            count = count.checked_add(values.len())?;
        }
        assert(keys@.take(keys@.len() as int) =~= keys@);
        Some(count)
    }

    /// Removes all values of a key. Says whether there were any and each of them
    /// occurred once. No other key is changed in any way: consolidating the page is
    /// left to the next insertion or deletion.
    pub fn remove(&mut self, key: &i64) -> (r: bool)
        requires
            old(self).wf(),
        ensures
            final(self).wf(),
            r == (old(self).page().values(*key).len() > 0 && old(self).page().values(
                *key,
            ).no_duplicates()),
            final(self).page() == all_taken_out(
                old(self).page(),
                *key,
                old(self).page().values(*key),
            ),
            forall|k: i64| #[trigger]
                final(self).page().values(k) == if k == *key {
                    Seq::<Seq<char>>::empty()
                } else {
                    old(self).page().values(k)
                },
            forall|k: i64, x: Seq<char>| #[trigger]
                final(self).has(k, x) == (old(self).has(k, x) && k != *key),
    {
        let values = self.get(key);
        let ghost view = values.deep_view();
        let ghost was = self.page();
        let mut success = values.len() > 0;
        for i in 0..values.len()
            invariant
                view == values.deep_view(),
                view == was.values(*key),
                self.wf(),
                success == (view.len() > 0 && view.take(i as int).no_duplicates()),
                self.page() == all_taken_out(was, *key, view.take(i as int)),
        {
            let ghost done = view.take(i as int);
            let ghost v = view[i as int];
            proof {
                assert(v == values@[i as int]@);
                assert(view.take(i + 1) =~= done.push(v));
                assert(view.take(i + 1).drop_last() =~= done);
                duplicates_show(done, v);
                taking_out_shows(was, *key, done, *key);
                values_taken_out(was.values(*key), done, v);
                assert(view.contains(v));
            }
            if !self.take_out(key, &values[i]) {
                success = false;
            }
        }
        proof {
            assert(view.take(values@.len() as int) =~= view);
            assert forall|k: i64| #[trigger]
                self.page().values(k) == if k == *key {
                    Seq::<Seq<char>>::empty()
                } else {
                    was.values(k)
                } by {
                taking_out_shows(was, *key, view, k);
                let left = without_all(view, view);
                if left.len() > 0 {
                    assert(left.contains(left[0]));
                    values_taken_out(view, view, left[0]);
                }
                assert(left =~= Seq::<Seq<char>>::empty());
            }
            assert forall|k: i64, x: Seq<char>| #[trigger]
                self.has(k, x) == (was.has(k, x) && k != *key) by {
                assert(self.page().values(k) == if k == *key {
                    Seq::<Seq<char>>::empty()
                } else {
                    was.values(k)
                });
            }
        }
        success
    }

    /// Whether no key has values.
    pub fn is_empty(&self) -> (r: bool)
        requires
            self.wf(),
        ensures
            r == (forall|key: i64| (#[trigger] self.page().values(key)).len() == 0),
    {
        let keys = self.keys();
        let r = keys.len() == 0;
        proof {
            if r {
                assert forall|key: i64| (#[trigger] self.page().values(key)).len() == 0 by {
                    assert(!keys@.contains(key));
                }
            } else {
                assert(keys@.contains(keys@[0]));
                assert(self.page().values(keys@[0]).len() > 0);
            }
        }
        r
    }

    /// The pairs of the keys that lie in a range.
    fn pairs_in(&self, start: KeyBound, end: KeyBound) -> (r: (Vec<i64>, Vec<String>))
        requires
            self.wf(),
        ensures
            r.0@.len() == r.1@.len(),
            exists|keys: Seq<i64>| #[trigger] lists_keys(self.page(), keys),
            forall|keys: Seq<i64>| #[trigger]
                lists_keys(self.page(), keys) ==> zipped(r.0@, r.1.deep_view()) == listing(
                    self.page(),
                    keys_in_range(keys, start, end),
                ),
    {
        let entries = self.root().apply_deltas();
        let ghost p = self.page();
        let ghost view = page::entries_view(entries@);
        let ghost all = keys_of(view);
        let mut keys: Vec<i64> = Vec::new();
        let mut values: Vec<String> = Vec::new();
        assert(zipped(keys@, values.deep_view()) =~= seq![]);
        for i in 0..entries.len()
            invariant
                view == page::entries_view(entries@),
                all == keys_of(view),
                p.consolidates_to(view),
                keys@.len() == values@.len(),
                zipped(keys@, values.deep_view()) == listing(
                    p,
                    keys_in_range(all.take(i as int), start, end),
                ),
        {
            let ghost before = zipped(keys@, values.deep_view());
            let ghost some = keys_in_range(all.take(i as int), start, end);
            let key: i64 = entries[i].0;
            proof {
                assert(all.take(i + 1).drop_last() =~= all.take(i as int));
                assert(view[i as int].0 == key);
                page::entry_is_found(view, i as int);
                assert(page::base_values(view, key) == p.consolidated(key));
            }
            if is_in_range(start, end, key) {
                let held = &entries[i].1;
                let n: usize = held.len();
                for m in 0..n
                    invariant
                        n == held@.len(),
                        keys@.len() == values@.len(),
                        zipped(keys@, values.deep_view()) == before + paired(
                            key,
                            held@.take(m as int),
                        ),
                {
                    let ghost so_far = zipped(keys@, values.deep_view());
                    keys.push(key);
                    values.push(held.at(m).clone());
                    proof {
                        assert(zipped(keys@, values.deep_view()) =~= so_far.push(
                            (key, held@[m as int]),
                        ));
                        assert(paired(key, held@.take(m + 1)) =~= paired(
                            key,
                            held@.take(m as int),
                        ).push((key, held@[m as int])));
                        assert(before + paired(key, held@.take(m + 1)) =~= so_far.push(
                            (key, held@[m as int]),
                        ));
                    }
                }
                proof {
                    assert(held@.take(n as int) =~= held@);
                    assert(some.push(key).drop_last() =~= some);
                }
            }
        }
        proof {
            assert(all.take(entries@.len() as int) =~= all);
            consolidated_keys(p, view);
            assert forall|other: Seq<i64>| #[trigger] lists_keys(p, other) implies zipped(
                keys@,
                values.deep_view(),
            ) == listing(p, keys_in_range(other, start, end)) by {
                key_list_is_unique(p, all, other);
            }
        }
        (keys, values)
    }

    /// Iterates over all pairs, key by key in ascending order.
    pub fn iter(&self) -> (r: BwTreeIterator)
        requires
            self.wf(),
        ensures
            r.wf(),
            exists|keys: Seq<i64>| #[trigger] lists_keys(self.page(), keys),
            forall|keys: Seq<i64>| #[trigger]
                lists_keys(self.page(), keys) ==> r@ == listing(self.page(), keys),
    {
        let (keys, values) = self.pairs_in(KeyBound::Unbounded, KeyBound::Unbounded);
        let r = BwTreeIterator { keys, values, position: 0 };
        proof {
            assert forall|ks: Seq<i64>| #[trigger] lists_keys(self.page(), ks) implies r@
                == listing(self.page(), ks) by {
                unbounded_keeps_all(ks);
                assert(r@ =~= zipped(keys@, values.deep_view()));
            }
        }
        r
    }

    /// Iterates over the pairs whose keys lie in a range.
    pub fn range(&self, start: KeyBound, end: KeyBound) -> (r: BwTreeRangeIterator)
        requires
            self.wf(),
        ensures
            r.wf(),
            exists|keys: Seq<i64>| #[trigger] lists_keys(self.page(), keys),
            forall|keys: Seq<i64>| #[trigger]
                lists_keys(self.page(), keys) ==> r@ == listing(
                    self.page(),
                    keys_in_range(keys, start, end),
                ),
    {
        let (keys, values) = self.pairs_in(start, end);
        let r = BwTreeRangeIterator { keys, values, position: 0 };
        assert(r@ =~= zipped(keys@, values.deep_view()));
        r
    }

    /// The first key of at least `key` that has values.
    pub fn lower_bound(&self, key: &i64) -> (r: Option<i64>)
        requires
            self.wf(),
        ensures
            match r {
                Some(k) => k >= *key && self.page().values(k).len() > 0 && forall|other: i64|
                    other >= *key && (#[trigger] self.page().values(other)).len() > 0 ==> k
                        <= other,
                None => forall|other: i64|
                    other >= *key ==> (#[trigger] self.page().values(other)).len() == 0,
            },
    {
        let keys = self.keys();
        let mut i: usize = 0;
        while i < keys.len() && keys[i] < *key
            invariant
                i <= keys@.len(),
                lists_keys(self.page(), keys@),
                forall|j: int| 0 <= j < i ==> keys@[j] < *key,
            decreases keys@.len() - i,
        {
            i = i + 1;
        }
        proof {
            first_key_from(self.page(), keys@, i as int);
        }
        if i < keys.len() {
            Some(keys[i])
        } else {
            None
        }
    }

    /// The first key above `key` that has values.
    pub fn upper_bound(&self, key: &i64) -> (r: Option<i64>)
        requires
            self.wf(),
        ensures
            match r {
                Some(k) => k > *key && self.page().values(k).len() > 0 && forall|other: i64|
                    other > *key && (#[trigger] self.page().values(other)).len() > 0 ==> k
                        <= other,
                None => forall|other: i64|
                    other > *key ==> (#[trigger] self.page().values(other)).len() == 0,
            },
    {
        let keys = self.keys();
        let mut i: usize = 0;
        while i < keys.len() && keys[i] <= *key
            invariant
                i <= keys@.len(),
                lists_keys(self.page(), keys@),
                forall|j: int| 0 <= j < i ==> keys@[j] <= *key,
            decreases keys@.len() - i,
        {
            i = i + 1;
        }
        proof {
            first_key_from(self.page(), keys@, i as int);
        }
        if i < keys.len() {
            Some(keys[i])
        } else {
            None
        }
    }
}

/// Every key with values stands in the list, and those from `i` on are at least
/// the one at `i`.
proof fn first_key_from(p: PageView, keys: Seq<i64>, i: int)
    requires
        lists_keys(p, keys),
        0 <= i <= keys.len(),
    ensures
        i < keys.len() ==> p.values(keys[i]).len() > 0,
        forall|other: i64|
            (#[trigger] p.values(other)).len() > 0 ==> (exists|j: int|
                0 <= j < keys.len() && keys[j] == other),
        forall|other: i64|
            (#[trigger] p.values(other)).len() > 0 ==> (exists|j: int| 0 <= j < i && keys[j] == other)
                || (i < keys.len() && keys[i] <= other),
{
    if i < keys.len() {
        assert(keys.contains(keys[i]));
    }
    assert forall|other: i64| (#[trigger] p.values(other)).len() > 0 implies (exists|j: int|
        0 <= j < keys.len() && keys[j] == other) && ((exists|j: int|
        0 <= j < i && keys[j] == other) || (i < keys.len() && keys[i] <= other)) by {
        assert(keys.contains(other));
        let j = choose|j: int| 0 <= j < keys.len() && keys[j] == other;
        if j >= i {
            assert(j == i || keys[i] < keys[j]);
        }
    }
}

proof fn unbounded_keeps_all(keys: Seq<i64>)
    ensures
        keys_in_range(keys, KeyBound::Unbounded, KeyBound::Unbounded) == keys,
    decreases keys.len(),
{
    if keys.len() > 0 {
        unbounded_keeps_all(keys.drop_last());
        assert(keys.drop_last().push(keys.last()) =~= keys);
    }
}

proof fn count_grows(p: PageView, keys: Seq<i64>, i: int)
    requires
        0 <= i <= keys.len(),
    ensures
        count_values(p, keys.take(i)) <= count_values(p, keys),
    decreases keys.len(),
{
    if i < keys.len() {
        assert(keys.drop_last().take(i) =~= keys.take(i));
        count_grows(p, keys.drop_last(), i);
    } else {
        assert(keys.take(i) =~= keys);
    }
}

/// A page has one list of keys.
pub proof fn key_list_is_unique(p: PageView, a: Seq<i64>, b: Seq<i64>)
    requires
        lists_keys(p, a),
        lists_keys(p, b),
    ensures
        a == b,
{
    assert forall|k: i64| a.contains(k) == b.contains(k) by {
        assert(a.contains(k) <==> p.values(k).len() > 0);
        assert(b.contains(k) <==> p.values(k).len() > 0);
    }
    same_members_same_list(a, b);
}

proof fn same_members_same_list(a: Seq<i64>, b: Seq<i64>)
    requires
        forall|i: int, j: int| 0 <= i < j < a.len() ==> a[i] < a[j],
        forall|i: int, j: int| 0 <= i < j < b.len() ==> b[i] < b[j],
        forall|k: i64| a.contains(k) == b.contains(k),
    ensures
        a == b,
    decreases a.len(),
{
    if a.len() == 0 {
        if b.len() > 0 {
            assert(b.contains(b[0]));
            assert(a.contains(b[0]));
        }
        assert(a =~= b);
    } else {
        let x = a.last();
        assert(a.contains(x));
        assert(b.contains(x));
        let y = b.last();
        assert(b.contains(y));
        assert(a.contains(y));
        // The last of each list is the greatest of both.
        let j = choose|j: int| 0 <= j < b.len() && b[j] == x;
        let i = choose|i: int| 0 <= i < a.len() && a[i] == y;
        assert(j == b.len() - 1 || b[j] < b[b.len() - 1]);
        assert(i == a.len() - 1 || a[i] < a[a.len() - 1]);
        assert(x == y);
        let c = a.drop_last();
        let d = b.drop_last();
        assert forall|k: i64| c.contains(k) == d.contains(k) by {
            if c.contains(k) {
                let m = choose|m: int| 0 <= m < c.len() && c[m] == k;
                assert(a[m] == k && a[m] < a[a.len() - 1]);
                assert(a.contains(k));
                assert(b.contains(k));
                let n = choose|n: int| 0 <= n < b.len() && b[n] == k;
                assert(d[n] == k);
            }
            if d.contains(k) {
                let m = choose|m: int| 0 <= m < d.len() && d[m] == k;
                assert(b[m] == k && b[m] < b[b.len() - 1]);
                assert(b.contains(k));
                assert(a.contains(k));
                let n = choose|n: int| 0 <= n < a.len() && a[n] == k;
                assert(c[n] == k);
            }
        }
        same_members_same_list(c, d);
        assert(a =~= c.push(x));
        assert(b =~= d.push(y));
    }
}

/// Appending a value to values without duplicates keeps them so if and only if it
/// was not among them.
proof fn duplicates_show(s: Seq<Seq<char>>, v: Seq<char>)
    ensures
        s.push(v).no_duplicates() == (s.no_duplicates() && !s.contains(v)),
{
    let t = s.push(v);
    if t.no_duplicates() {
        assert forall|i: int, j: int| 0 <= i < j < s.len() implies s[i] != s[j] by {
            assert(t[i] != t[j]);
        }
        if s.contains(v) {
            let i = choose|i: int| 0 <= i < s.len() && s[i] == v;
            assert(t[i] == t[s.len() as int]);
        }
    }
    if s.no_duplicates() && !s.contains(v) {
        assert forall|i: int, j: int| 0 <= i < j < t.len() implies t[i] != t[j] by {
            if j == s.len() {
                assert(s.contains(s[i]));
            } else {
                assert(s[i] != s[j]);
            }
        }
    }
}

/// Whether `key` lies in a range.
fn is_in_range(start: KeyBound, end: KeyBound, key: i64) -> (r: bool)
    ensures
        r == in_range(start, end, key),
{
    let above = match start {
        KeyBound::Included(k) => k <= key,
        KeyBound::Excluded(k) => k < key,
        KeyBound::Unbounded => true,
    };
    let below = match end {
        KeyBound::Included(k) => key <= k,
        KeyBound::Excluded(k) => key < k,
        KeyBound::Unbounded => true,
    };
    above && below
}

/// Keys and values put together.
pub open spec fn zipped(keys: Seq<i64>, values: Seq<Seq<char>>) -> Seq<(i64, Seq<char>)> {
    Seq::new(keys.len(), |i: int| (keys[i], values[i]))
}

/// Pairs that are given out one after the other.
pub struct BwTreeIterator {
    keys: Vec<i64>,
    values: Vec<String>,
    position: usize,
}

impl View for BwTreeIterator {
    type V = Seq<(i64, Seq<char>)>;

    /// The pairs that are still to come.
    closed spec fn view(&self) -> Seq<(i64, Seq<char>)> {
        zipped(self.keys@, self.values.deep_view()).skip(self.position as int)
    }
}

impl BwTreeIterator {
    /// The iterator stands among its pairs.
    pub closed spec fn wf(self) -> bool {
        self.keys@.len() == self.values@.len() && self.position <= self.keys@.len()
    }

    /// The next pair.
    pub fn next(&mut self) -> (r: Option<(i64, String)>)
        requires
            old(self).wf(),
        ensures
            final(self).wf(),
            match r {
                Some((k, v)) => old(self)@.len() > 0 && (k, v@) == old(self)@[0] && final(self)@
                    == old(self)@.skip(1),
                None => old(self)@.len() == 0 && final(self)@ == old(self)@,
            },
    {
        if self.position < self.keys.len() {
            let key: i64 = self.keys[self.position];
            let value = self.values[self.position].clone();
            self.position = self.position + 1;
            assert(self@ =~= old(self)@.skip(1));
            Some((key, value))
        } else {
            None
        }
    }
}

/// Pairs of a range that are given out one after the other.
pub struct BwTreeRangeIterator {
    keys: Vec<i64>,
    values: Vec<String>,
    position: usize,
}

impl View for BwTreeRangeIterator {
    type V = Seq<(i64, Seq<char>)>;

    /// The pairs that are still to come.
    closed spec fn view(&self) -> Seq<(i64, Seq<char>)> {
        zipped(self.keys@, self.values.deep_view()).skip(self.position as int)
    }
}

impl BwTreeRangeIterator {
    /// The iterator stands among its pairs.
    pub closed spec fn wf(self) -> bool {
        self.keys@.len() == self.values@.len() && self.position <= self.keys@.len()
    }

    /// The next pair.
    pub fn next(&mut self) -> (r: Option<(i64, String)>)
        requires
            old(self).wf(),
        ensures
            final(self).wf(),
            match r {
                Some((k, v)) => old(self)@.len() > 0 && (k, v@) == old(self)@[0] && final(self)@
                    == old(self)@.skip(1),
                None => old(self)@.len() == 0 && final(self)@ == old(self)@,
            },
    {
        if self.position < self.keys.len() {
            let key: i64 = self.keys[self.position];
            let value = self.values[self.position].clone();
            self.position = self.position + 1;
            assert(self@ =~= old(self)@.skip(1));
            Some((key, value))
        } else {
            None
        }
    }
}

// ---------------------------------------------------------------------------
// Laws of scans
// ---------------------------------------------------------------------------
/// A scan over given keys gives exactly the pairs of those keys.
proof fn listing_has(p: PageView, keys: Seq<i64>, key: i64, value: Seq<char>)
    ensures
        listing(p, keys).contains((key, value)) == (keys.contains(key) && p.consolidated(
            key,
        ).contains(value)),
    decreases keys.len(),
{
    let all = listing(p, keys);
    if keys.len() > 0 {
        let rest = keys.drop_last();
        let k = keys.last();
        let front = listing(p, rest);
        let held = p.consolidated(k);
        let back = paired(k, held);
        listing_has(p, rest, key, value);
        assert(all == front + back);
        if all.contains((key, value)) {
            let i = choose|i: int| 0 <= i < all.len() && all[i] == (key, value);
            if i < front.len() {
                assert(front[i] == (key, value));
                let j = choose|j: int| 0 <= j < rest.len() && rest[j] == key;
                assert(keys[j] == key);
            } else {
                assert(back[i - front.len()] == (key, value));
                assert(held[i - front.len()] == value);
                assert(keys[keys.len() - 1] == key);
            }
        }
        if keys.contains(key) && p.consolidated(key).contains(value) {
            let j = choose|j: int| 0 <= j < keys.len() && keys[j] == key;
            if j < rest.len() {
                assert(rest[j] == key);
                let i = choose|i: int| 0 <= i < front.len() && front[i] == (key, value);
                assert(all[i] == (key, value));
            } else {
                let i = choose|i: int| 0 <= i < held.len() && held[i] == value;
                assert(back[i] == (key, value));
                assert(all[front.len() + i] == (key, value));
            }
        }
    }
}

proof fn kept_keys(keys: Seq<i64>, start: KeyBound, end: KeyBound, key: i64)
    ensures
        keys_in_range(keys, start, end).contains(key) == (keys.contains(key) && in_range(
            start,
            end,
            key,
        )),
    decreases keys.len(),
{
    let kept = keys_in_range(keys, start, end);
    if keys.len() > 0 {
        let rest = keys.drop_last();
        let before = keys_in_range(rest, start, end);
        kept_keys(rest, start, end, key);
        if keys.contains(key) {
            let j = choose|j: int| 0 <= j < keys.len() && keys[j] == key;
            if j < rest.len() {
                assert(rest[j] == key);
            }
        }
        if rest.contains(key) {
            let j = choose|j: int| 0 <= j < rest.len() && rest[j] == key;
            assert(keys[j] == key);
        }
        if keys.last() == key {
            assert(keys[keys.len() - 1] == key);
        }
        if in_range(start, end, keys.last()) {
            assert(kept == before.push(keys.last()));
            if before.contains(key) {
                let j = choose|j: int| 0 <= j < before.len() && before[j] == key;
                assert(kept[j] == key);
            }
            if key == keys.last() {
                assert(kept[before.len() as int] == key);
            }
            if kept.contains(key) {
                let j = choose|j: int| 0 <= j < kept.len() && kept[j] == key;
                if j < before.len() {
                    assert(before[j] == key);
                }
            }
        }
    }
}

/// A scan gives a pair if and only if the value is among those of the key and the
/// key meets both ends: it is at least an included lower end, above an excluded one,
/// at most an included upper end, and below an excluded one.
pub proof fn scan_gives_what_lies_between(
    p: PageView,
    keys: Seq<i64>,
    start: KeyBound,
    end: KeyBound,
    key: i64,
    value: Seq<char>,
)
    requires
        lists_keys(p, keys),
    ensures
        listing(p, keys_in_range(keys, start, end)).contains((key, value)) <==> {
            &&& p.values(key).contains(value)
            &&& start matches KeyBound::Included(a) ==> a <= key
            &&& start matches KeyBound::Excluded(a) ==> a < key
            &&& end matches KeyBound::Included(b) ==> key <= b
            &&& end matches KeyBound::Excluded(b) ==> key < b
        },
{
    let kept = keys_in_range(keys, start, end);
    listing_has(p, kept, key, value);
    kept_keys(keys, start, end, key);
    p.consolidation_keeps_values(key, value);
    if p.values(key).contains(value) {
        assert(p.values(key).len() > 0);
        assert(keys.contains(key));
    }
}

/// Whether a key meets one end of a range does not depend on the other end: a scan
/// between two ends gives what the two scans with one open end both give.
pub proof fn ends_are_independent(
    p: PageView,
    keys: Seq<i64>,
    start: KeyBound,
    end: KeyBound,
    key: i64,
    value: Seq<char>,
)
    requires
        lists_keys(p, keys),
    ensures
        listing(p, keys_in_range(keys, start, end)).contains((key, value)) <==> {
            &&& listing(p, keys_in_range(keys, start, KeyBound::Unbounded)).contains((key, value))
            &&& listing(p, keys_in_range(keys, KeyBound::Unbounded, end)).contains((key, value))
        },
{
    scan_gives_what_lies_between(p, keys, start, end, key, value);
    scan_gives_what_lies_between(p, keys, start, KeyBound::Unbounded, key, value);
    scan_gives_what_lies_between(p, keys, KeyBound::Unbounded, end, key, value);
}

/// The pairs of a scan come in the order of their keys.
pub proof fn scan_is_in_order(p: PageView, keys: Seq<i64>, start: KeyBound, end: KeyBound)
    requires
        lists_keys(p, keys),
    ensures
        ({
            let pairs = listing(p, keys_in_range(keys, start, end));
            forall|i: int, j: int| 0 <= i < j < pairs.len() ==> (#[trigger] pairs[i]).0 <= (
            #[trigger] pairs[j]).0
        }),
{
    kept_keys_ascend(keys, start, end);
    listing_ascends(p, keys_in_range(keys, start, end));
}

proof fn kept_keys_ascend(keys: Seq<i64>, start: KeyBound, end: KeyBound)
    requires
        forall|i: int, j: int| 0 <= i < j < keys.len() ==> keys[i] < keys[j],
    ensures
        ({
            let kept = keys_in_range(keys, start, end);
            &&& forall|i: int, j: int| 0 <= i < j < kept.len() ==> kept[i] < kept[j]
            &&& forall|i: int| 0 <= i < kept.len() ==> keys.contains(#[trigger] kept[i])
        }),
    decreases keys.len(),
{
    if keys.len() > 0 {
        let rest = keys.drop_last();
        let before = keys_in_range(rest, start, end);
        let kept = keys_in_range(keys, start, end);
        assert forall|i: int, j: int| 0 <= i < j < rest.len() implies rest[i] < rest[j] by {
            assert(keys[i] < keys[j]);
        }
        kept_keys_ascend(rest, start, end);
        assert forall|i: int| 0 <= i < before.len() implies before[i] < keys.last()
            && keys.contains(#[trigger] before[i]) by {
            assert(rest.contains(before[i]));
            let m = choose|m: int| 0 <= m < rest.len() && rest[m] == before[i];
            assert(keys[m] < keys[keys.len() - 1]);
        }
        assert forall|i: int, j: int| 0 <= i < j < kept.len() implies kept[i] < kept[j] by {
            assert(kept[i] == before[i]);
            if j < before.len() {
                assert(kept[j] == before[j]);
            }
        }
        assert forall|i: int| 0 <= i < kept.len() implies keys.contains(#[trigger] kept[i]) by {
            if i < before.len() {
                assert(kept[i] == before[i]);
            } else {
                assert(keys[keys.len() - 1] == kept[i]);
            }
        }
    }
}

proof fn listing_ascends(p: PageView, keys: Seq<i64>)
    requires
        forall|i: int, j: int| 0 <= i < j < keys.len() ==> keys[i] < keys[j],
    ensures
        ({
            let pairs = listing(p, keys);
            &&& forall|i: int, j: int| 0 <= i < j < pairs.len() ==> (#[trigger] pairs[i]).0 <= (
            #[trigger] pairs[j]).0
            &&& forall|i: int| 0 <= i < pairs.len() ==> keys.contains((#[trigger] pairs[i]).0)
        }),
    decreases keys.len(),
{
    if keys.len() > 0 {
        let rest = keys.drop_last();
        let front = listing(p, rest);
        let back = paired(keys.last(), p.consolidated(keys.last()));
        let pairs = listing(p, keys);
        assert forall|i: int, j: int| 0 <= i < j < rest.len() implies rest[i] < rest[j] by {
            assert(keys[i] < keys[j]);
        }
        listing_ascends(p, rest);
        assert forall|i: int| 0 <= i < front.len() implies (#[trigger] front[i]).0 < keys.last()
            && keys.contains(front[i].0) by {
            assert(rest.contains(front[i].0));
            let m = choose|m: int| 0 <= m < rest.len() && rest[m] == front[i].0;
            assert(keys[m] < keys[keys.len() - 1]);
        }
        assert forall|i: int, j: int| 0 <= i < j < pairs.len() implies (#[trigger] pairs[i]).0 <= (
        #[trigger] pairs[j]).0 by {
            if j < front.len() {
                assert(pairs[i] == front[i] && pairs[j] == front[j]);
            } else {
                assert(pairs[j] == back[j - front.len()]);
                if i < front.len() {
                    assert(pairs[i] == front[i]);
                } else {
                    assert(pairs[i] == back[i - front.len()]);
                }
            }
        }
        assert forall|i: int| 0 <= i < pairs.len() implies keys.contains(
            (#[trigger] pairs[i]).0,
        ) by {
            if i < front.len() {
                assert(pairs[i] == front[i]);
            } else {
                assert(pairs[i] == back[i - front.len()]);
                assert(keys[keys.len() - 1] == pairs[i].0);
            }
        }
    }
}

/// A key is listed with its values in the order in which `get` gives them, where
/// none occurs twice.
pub proof fn scan_keeps_the_order_of_values(p: PageView, key: i64)
    requires
        p.values(key).no_duplicates(),
    ensures
        listing(p, seq![key]).len() == p.values(key).len(),
        forall|i: int|
            0 <= i < p.values(key).len() ==> #[trigger] listing(p, seq![key])[i] == (
                key,
                p.values(key)[i],
            ),
{
    p.consolidation_keeps_distinct_values(key);
    reveal_with_fuel(listing, 2);
    assert(seq![key].drop_last() =~= Seq::<i64>::empty());
    assert(listing(p, seq![key]) =~= paired(key, p.values(key)));
}

// ---------------------------------------------------------------------------
// Laws of changes
// ---------------------------------------------------------------------------
/// A record of an insertion puts the value behind those of its key, and one of a
/// deletion takes every copy of the value out and keeps the others in their order;
/// no other key is touched by either.
pub proof fn records_change_one_key(p: PageView, key: i64, value: Seq<char>, other: i64)
    requires
        other != key,
    ensures
        with_delta(p, DeltaView::Insert(key, value)).values(key) == p.values(key).push(value),
        with_delta(p, DeltaView::Insert(key, value)).values(other) == p.values(other),
        with_delta(p, DeltaView::Delete(key, value)).values(key) == p.values(key).filter(
            |x: Seq<char>| x != value,
        ),
        with_delta(p, DeltaView::Delete(key, value)).values(other) == p.values(other),
{
    delta_in_front(p, DeltaView::Insert(key, value), key);
    delta_in_front(p, DeltaView::Insert(key, value), other);
    delta_in_front(p, DeltaView::Delete(key, value), key);
    delta_in_front(p, DeltaView::Delete(key, value), other);
    page::without_is_filter(p.values(key), value);
}

/// A chain of fewer than eight records is left as it is. One of eight or more is
/// gone afterwards, unless the page has no values.
pub proof fn chains_stay_short(before: PageView, after: PageView, key: i64)
    requires
        settles(before, after),
    ensures
        before.deltas.len() < 8 ==> after == before,
        before.deltas.len() >= 8 && before.values(key).len() > 0 ==> after.deltas.len() == 0,
{
    values_agree(before, key);
}

/// The number of pairs of no keys is zero, and one more key adds as many as it has
/// values.
pub proof fn every_value_is_counted(p: PageView, keys: Seq<i64>, key: i64)
    ensures
        count_values(p, Seq::<i64>::empty()) == 0,
        count_values(p, keys.push(key)) == count_values(p, keys) + p.values(key).len(),
{
    assert(keys.push(key).drop_last() =~= keys);
}

} // verus!
