//! Pages of the tree: a sorted base page with a chain of delta records in front.

use smallvec::SmallVec;
use vstd::prelude::*;

verus! {

// ---------------------------------------------------------------------------
// The values of a key
// ---------------------------------------------------------------------------
/// The values of one key, in a `SmallVec` that holds the first two in place.
#[verifier::external_body]
#[derive(Debug)]
pub struct Values {
    inner: SmallVec<[String; 2]>,
}

/// The values that a [`Values`] holds, in order.
pub uninterp spec fn values_in(values: Values) -> Seq<Seq<char>>;

impl View for Values {
    type V = Seq<Seq<char>>;

    open spec fn view(&self) -> Seq<Seq<char>> {
        values_in(*self)
    }
}

/// `s` without the elements that are `v`.
pub open spec fn without(s: Seq<Seq<char>>, v: Seq<char>) -> Seq<Seq<char>>
    decreases s.len(),
{
    if s.len() == 0 {
        s
    } else if s.last() == v {
        without(s.drop_last(), v)
    } else {
        without(s.drop_last(), v).push(s.last())
    }
}

/// Whether two values differ.
fn differs(a: &String, b: &String) -> (r: bool)
    ensures
        r == (a@ != b@),
{
    !(*a == *b)
}

impl Values {
    /// `SmallVec::new` makes an empty vector.
    #[verifier::external_body]
    pub(crate) fn new() -> (r: Self)
        ensures
            values_in(r) == Seq::<Seq<char>>::empty(),
    {
        Values { inner: SmallVec::new() }
    }

    /// `SmallVec::push` appends an item.
    #[verifier::external_body]
    pub(crate) fn push(&mut self, value: String)
        ensures
            values_in(*final(self)) == values_in(*old(self)).push(value@),
    {
        self.inner.push(value);
    }

    /// `SmallVec::len` gives the number of items.
    #[verifier::external_body]
    pub(crate) fn len(&self) -> (r: usize)
        ensures
            r == values_in(*self).len(),
    {
        self.inner.len()
    }

    /// Indexing a `SmallVec` gives the item at the position.
    #[verifier::external_body]
    pub(crate) fn at(&self, i: usize) -> (r: &String)
        requires
            i < values_in(*self).len(),
        ensures
            r@ == values_in(*self)[i as int],
    {
        &self.inner[i]
    }

    /// `SmallVec::retain` keeps, in order, the items for which the closure holds:
    /// here those that differ from `value`.
    #[verifier::external_body]
    pub(crate) fn remove_all(&mut self, value: &String)
        ensures
            values_in(*final(self)) == without(values_in(*old(self)), value@),
    {
        self.inner.retain(|v| differs(v, value));
    }

    /// Cloning a `SmallVec` clones its items, in order.
    #[verifier::external_body]
    pub(crate) fn duplicate(&self) -> (r: Self)
        ensures
            values_in(r) == values_in(*self),
    {
        Values { inner: self.inner.clone() }
    }
}

// ---------------------------------------------------------------------------
// Nodes
// ---------------------------------------------------------------------------
/// Logical identifier of a page.
pub type PageId = u64;

/// A node of a page: the base page, or a delta record in front of another node.
#[derive(Debug)]
pub enum Node {
    /// Base page.
    LeafBase(LeafBase),
    /// A value was inserted.
    InsertDelta(InsertDelta),
    /// A value was deleted.
    DeleteDelta(DeleteDelta),
    /// The page was split.
    SplitDelta(SplitDelta),
}

/// A base page: the keys in ascending order, each with its values.
#[derive(Debug)]
pub struct LeafBase {
    pub entries: Vec<(i64, Values)>,
    /// Upper bound of the keys, not itself among them.
    pub high_key: Option<i64>,
    /// Page to the right.
    pub right_sibling: PageId,
}

/// Record of an insertion.
#[derive(Debug)]
pub struct InsertDelta {
    pub key: i64,
    pub value: String,
    /// The page before the insertion.
    pub next: Box<Node>,
}

/// Record of a deletion.
#[derive(Debug)]
pub struct DeleteDelta {
    pub key: i64,
    pub value: String,
    /// The page before the deletion.
    pub next: Box<Node>,
}

/// Record of a split.
#[derive(Debug)]
pub struct SplitDelta {
    pub split_key: i64,
    /// The page that took over the keys from the split key on.
    pub right_sibling_pid: PageId,
    /// The page before the split.
    pub next: Box<Node>,
}

/// The model of a delta record.
pub enum DeltaView {
    Insert(i64, Seq<char>),
    Delete(i64, Seq<char>),
    Split(i64, PageId),
}

/// The model of the entries of a base page.
pub type EntriesView = Seq<(i64, Seq<Seq<char>>)>;

/// The model of a page: its delta records, the newest first, and its entries.
#[verifier::ext_equal]
pub struct PageView {
    pub deltas: Seq<DeltaView>,
    pub base: Seq<(i64, Seq<Seq<char>>)>,
}

/// The entries of a base page.
pub open spec fn entries_view(entries: Seq<(i64, Values)>) -> Seq<(i64, Seq<Seq<char>>)> {
    Seq::new(entries.len(), |i: int| (entries[i].0, entries[i].1@))
}

impl Node {
    /// The delta record at the head of the chain.
    pub open spec fn head(self) -> DeltaView {
        match self {
            Node::InsertDelta(d) => DeltaView::Insert(d.key, d.value@),
            Node::DeleteDelta(d) => DeltaView::Delete(d.key, d.value@),
            Node::SplitDelta(d) => DeltaView::Split(d.split_key, d.right_sibling_pid),
            Node::LeafBase(_) => arbitrary(),
        }
    }

    /// The delta records of the chain, the newest first.
    pub open spec fn deltas(self) -> Seq<DeltaView>
        decreases self,
    {
        match self {
            Node::LeafBase(_) => seq![],
            Node::InsertDelta(d) => seq![self.head()] + d.next.deltas(),
            Node::DeleteDelta(d) => seq![self.head()] + d.next.deltas(),
            Node::SplitDelta(d) => seq![self.head()] + d.next.deltas(),
        }
    }

    /// The entries of the base page at the end of the chain.
    pub open spec fn base(self) -> Seq<(i64, Seq<Seq<char>>)>
        decreases self,
    {
        match self {
            Node::LeafBase(b) => entries_view(b.entries@),
            Node::InsertDelta(d) => d.next.base(),
            Node::DeleteDelta(d) => d.next.base(),
            Node::SplitDelta(d) => d.next.base(),
        }
    }

    /// The page that the node heads.
    pub open spec fn page(self) -> PageView {
        PageView { deltas: self.deltas(), base: self.base() }
    }
}

// ---------------------------------------------------------------------------
// What a page holds
// ---------------------------------------------------------------------------
/// The keys are in ascending order.
pub open spec fn ascending(base: Seq<(i64, Seq<Seq<char>>)>) -> bool {
    forall|i: int, j: int| 0 <= i < j < base.len() ==> (#[trigger] base[i]).0 < (#[trigger] base[j]).0
}

/// Every key has a value.
pub open spec fn no_empty_entry(base: Seq<(i64, Seq<Seq<char>>)>) -> bool {
    forall|i: int| 0 <= i < base.len() ==> (#[trigger] base[i]).1.len() > 0
}

/// The values of `key` in a base page.
pub open spec fn base_values(base: Seq<(i64, Seq<Seq<char>>)>, key: i64) -> Seq<Seq<char>>
    decreases base.len(),
{
    if base.len() == 0 {
        seq![]
    } else if base.last().0 == key {
        base.last().1
    } else {
        base_values(base.drop_last(), key)
    }
}

/// What a delta record does to the values of `key`: an insertion appends, a
/// deletion takes out every copy.
pub open spec fn effect(delta: DeltaView, key: i64, values: Seq<Seq<char>>) -> Seq<Seq<char>> {
    match delta {
        DeltaView::Insert(k, v) => if k == key {
            values.push(v)
        } else {
            values
        },
        DeltaView::Delete(k, v) => if k == key {
            without(values, v)
        } else {
            values
        },
        DeltaView::Split(_, _) => values,
    }
}

/// The values of `key` when the delta records from `j` on have taken effect, the
/// oldest first.
pub open spec fn values_from(
    deltas: Seq<DeltaView>,
    base: Seq<Seq<char>>,
    key: i64,
    j: int,
) -> Seq<Seq<char>>
    decreases deltas.len() - j,
{
    if j >= deltas.len() || j < 0 {
        base
    } else {
        effect(deltas[j], key, values_from(deltas, base, key, j + 1))
    }
}

impl PageView {
    /// The values of `key`.
    pub open spec fn values(self, key: i64) -> Seq<Seq<char>> {
        values_from(self.deltas, base_values(self.base, key), key, 0)
    }

    /// `value` is among the values of `key`.
    pub open spec fn has(self, key: i64, value: Seq<char>) -> bool {
        self.values(key).contains(value)
    }

    /// The page is in order: its entries ascend, and none is empty.
    pub open spec fn wf(self) -> bool {
        ascending(self.base) && no_empty_entry(self.base)
    }
}

// ---------------------------------------------------------------------------
// Consolidation
// ---------------------------------------------------------------------------
/// The record inserts or deletes the value of the key.
pub open spec fn is_about(d: DeltaView, key: i64, value: Seq<char>) -> bool {
    d == DeltaView::Insert(key, value) || d == DeltaView::Delete(key, value)
}

/// One of the `j` newest records inserts or deletes the value of the key.
pub open spec fn touched(deltas: Seq<DeltaView>, j: int, key: i64, value: Seq<char>) -> bool {
    exists|i: int| 0 <= i < j && #[trigger] is_about(deltas[i], key, value)
}

/// Record `j` is an insertion, and a newer record is about the same value of the
/// same key.
pub open spec fn outdated(deltas: Seq<DeltaView>, j: int) -> bool {
    match deltas[j] {
        DeltaView::Insert(k, v) => touched(deltas, j, k, v),
        _ => false,
    }
}

/// The values of `key` when the delta records from `j` on have taken effect, the
/// oldest first and the outdated ones left out.
pub open spec fn latest_from(
    deltas: Seq<DeltaView>,
    base: Seq<Seq<char>>,
    key: i64,
    j: int,
) -> Seq<Seq<char>>
    decreases deltas.len() - j,
{
    if j >= deltas.len() || j < 0 {
        base
    } else if outdated(deltas, j) {
        latest_from(deltas, base, key, j + 1)
    } else {
        effect(deltas[j], key, latest_from(deltas, base, key, j + 1))
    }
}

impl PageView {
    /// The values of `key` after consolidation: what the records insert repeatedly
    /// is inserted once.
    pub open spec fn consolidated(self, key: i64) -> Seq<Seq<char>> {
        latest_from(self.deltas, base_values(self.base, key), key, 0)
    }

    /// `entries` are what consolidating the page gives.
    pub open spec fn consolidates_to(self, entries: Seq<(i64, Seq<Seq<char>>)>) -> bool {
        &&& ascending(entries)
        &&& no_empty_entry(entries)
        &&& forall|key: i64| #[trigger] base_values(entries, key) == self.consolidated(key)
    }
}

// ---------------------------------------------------------------------------
// Facts about base pages
// ---------------------------------------------------------------------------
/// An entry of a page in order holds the values of its key.
pub proof fn entry_is_found(base: Seq<(i64, Seq<Seq<char>>)>, i: int)
    requires
        ascending(base),
        0 <= i < base.len(),
    ensures
        base_values(base, base[i].0) == base[i].1,
    decreases base.len(),
{
    if i < base.len() - 1 {
        assert(base[i].0 < base[base.len() - 1].0);
        assert(base.drop_last()[i] == base[i]);
        assert(ascending(base.drop_last())) by {
            assert forall|a: int, b: int| 0 <= a < b < base.drop_last().len() implies (
            #[trigger] base.drop_last()[a]).0 < (#[trigger] base.drop_last()[b]).0 by {
                assert(base[a].0 < base[b].0);
            }
        }
        entry_is_found(base.drop_last(), i);
    }
}

/// A key without an entry has no values.
pub proof fn missing_entry(base: Seq<(i64, Seq<Seq<char>>)>, key: i64)
    requires
        forall|i: int| 0 <= i < base.len() ==> (#[trigger] base[i]).0 != key,
    ensures
        base_values(base, key) == Seq::<Seq<char>>::empty(),
    decreases base.len(),
{
    if base.len() > 0 {
        assert(base[base.len() - 1].0 != key);
        assert forall|i: int| 0 <= i < base.drop_last().len() implies (
        #[trigger] base.drop_last()[i]).0 != key by {
            assert(base[i].0 != key);
        }
        missing_entry(base.drop_last(), key);
    }
}

/// A key with values has an entry.
pub proof fn entry_of(base: Seq<(i64, Seq<Seq<char>>)>, key: i64) -> (i: int)
    requires
        base_values(base, key).len() > 0,
    ensures
        0 <= i < base.len(),
        base[i].0 == key,
    decreases base.len(),
{
    if base.last().0 == key {
        base.len() - 1
    } else {
        entry_of(base.drop_last(), key)
    }
}

// ---------------------------------------------------------------------------
// Consolidation keeps what a page holds
// ---------------------------------------------------------------------------
pub proof fn without_has(s: Seq<Seq<char>>, v: Seq<char>, x: Seq<char>)
    ensures
        without(s, v).contains(x) == (s.contains(x) && x != v),
    decreases s.len(),
{
    if s.len() > 0 {
        let rest = s.drop_last();
        without_has(rest, v, x);
        assert(s =~= rest.push(s.last()));
        push_has(rest, s.last(), x);
        if s.last() != v {
            push_has(without(rest, v), s.last(), x);
        }
    }
}

/// Where a value is missing, taking it out changes nothing.
pub proof fn nothing_to_take_out(s: Seq<Seq<char>>, v: Seq<char>)
    requires
        !s.contains(v),
    ensures
        without(s, v) == s,
    decreases s.len(),
{
    if s.len() > 0 {
        let rest = s.drop_last();
        assert(s =~= rest.push(s.last()));
        push_has(rest, s.last(), v);
        nothing_to_take_out(rest, v);
    }
}

pub proof fn push_has(s: Seq<Seq<char>>, v: Seq<char>, x: Seq<char>)
    ensures
        s.push(v).contains(x) == (s.contains(x) || x == v),
{
    let t = s.push(v);
    if s.contains(x) {
        let i = choose|i: int| 0 <= i < s.len() && s[i] == x;
        assert(t[i] == x);
    }
    if x == v {
        assert(t[s.len() as int] == x);
    }
    if t.contains(x) && x != v {
        let i = choose|i: int| 0 <= i < t.len() && t[i] == x;
        assert(s[i] == x);
    }
}

/// What a record does to the presence of `x` among the values of `key`.
pub proof fn effect_has(d: DeltaView, key: i64, values: Seq<Seq<char>>, x: Seq<char>)
    ensures
        effect(d, key, values).contains(x) == match d {
            DeltaView::Insert(k, v) => values.contains(x) || (k == key && v == x),
            DeltaView::Delete(k, v) => values.contains(x) && !(k == key && v == x),
            DeltaView::Split(_, _) => values.contains(x),
        },
{
    match d {
        DeltaView::Insert(k, v) => push_has(values, v, x),
        DeltaView::Delete(k, v) => without_has(values, v, x),
        DeltaView::Split(_, _) => {},
    }
}

/// Leaving the outdated records out makes no difference to whether a value is
/// there, as long as no newer record is about it.
proof fn latest_agrees(
    deltas: Seq<DeltaView>,
    base: Seq<Seq<char>>,
    key: i64,
    x: Seq<char>,
    j: int,
)
    requires
        0 <= j <= deltas.len(),
    ensures
        !touched(deltas, j, key, x) ==> latest_from(deltas, base, key, j).contains(x)
            == values_from(deltas, base, key, j).contains(x),
    decreases deltas.len() - j,
{
    if j < deltas.len() {
        latest_agrees(deltas, base, key, x, j + 1);
        touched_by_one_more(deltas, j, key, x);
        effect_has(deltas[j], key, latest_from(deltas, base, key, j + 1), x);
        effect_has(deltas[j], key, values_from(deltas, base, key, j + 1), x);
    }
}

/// Leaving the outdated records out brings no value in.
proof fn latest_within(
    deltas: Seq<DeltaView>,
    base: Seq<Seq<char>>,
    key: i64,
    x: Seq<char>,
    j: int,
)
    requires
        0 <= j <= deltas.len(),
    ensures
        latest_from(deltas, base, key, j).contains(x) ==> values_from(
            deltas,
            base,
            key,
            j,
        ).contains(x),
    decreases deltas.len() - j,
{
    if j < deltas.len() {
        latest_within(deltas, base, key, x, j + 1);
        effect_has(deltas[j], key, latest_from(deltas, base, key, j + 1), x);
        effect_has(deltas[j], key, values_from(deltas, base, key, j + 1), x);
    }
}

proof fn touched_by_one_more(deltas: Seq<DeltaView>, j: int, key: i64, x: Seq<char>)
    requires
        0 <= j < deltas.len(),
    ensures
        touched(deltas, j + 1, key, x) == (touched(deltas, j, key, x) || is_about(
            deltas[j],
            key,
            x,
        )),
{
    if touched(deltas, j, key, x) {
        let i = choose|i: int| 0 <= i < j && #[trigger] is_about(deltas[i], key, x);
        assert(0 <= i < j + 1 && is_about(deltas[i], key, x));
    }
    if is_about(deltas[j], key, x) {
        assert(0 <= j < j + 1);
    }
}

/// The values that none of the `j` newest records is about.
spec fn untouched(s: Seq<Seq<char>>, deltas: Seq<DeltaView>, key: i64, j: int) -> Seq<Seq<char>>
    decreases s.len(),
{
    if s.len() == 0 {
        s
    } else if touched(deltas, j, key, s.last()) {
        untouched(s.drop_last(), deltas, key, j)
    } else {
        untouched(s.drop_last(), deltas, key, j).push(s.last())
    }
}

proof fn untouched_of_pushed(
    s: Seq<Seq<char>>,
    v: Seq<char>,
    deltas: Seq<DeltaView>,
    key: i64,
    j: int,
)
    ensures
        untouched(s.push(v), deltas, key, j) == if touched(deltas, j, key, v) {
            untouched(s, deltas, key, j)
        } else {
            untouched(s, deltas, key, j).push(v)
        },
{
    assert(s.push(v).drop_last() =~= s);
}

/// No records touch no values.
proof fn all_are_untouched(s: Seq<Seq<char>>, deltas: Seq<DeltaView>, key: i64)
    ensures
        untouched(s, deltas, key, 0) == s,
    decreases s.len(),
{
    if s.len() > 0 {
        all_are_untouched(s.drop_last(), deltas, key);
        assert(s.drop_last().push(s.last()) =~= s);
    }
}

/// A value that no record is about is untouched where it is there.
proof fn untouched_has(
    s: Seq<Seq<char>>,
    deltas: Seq<DeltaView>,
    key: i64,
    j: int,
    x: Seq<char>,
)
    requires
        !touched(deltas, j, key, x),
    ensures
        untouched(s, deltas, key, j).contains(x) == s.contains(x),
    decreases s.len(),
{
    if s.len() > 0 {
        let rest = s.drop_last();
        untouched_has(rest, deltas, key, j, x);
        assert(s =~= rest.push(s.last()));
        push_has(rest, s.last(), x);
        push_has(untouched(rest, deltas, key, j), s.last(), x);
    }
}

/// Taking a touched value out leaves the untouched ones as they are.
proof fn untouched_without(
    s: Seq<Seq<char>>,
    v: Seq<char>,
    deltas: Seq<DeltaView>,
    key: i64,
    j: int,
)
    requires
        touched(deltas, j, key, v),
    ensures
        untouched(without(s, v), deltas, key, j) == untouched(s, deltas, key, j),
    decreases s.len(),
{
    if s.len() > 0 {
        untouched_without(s.drop_last(), v, deltas, key, j);
        if s.last() != v {
            untouched_of_pushed(without(s.drop_last(), v), s.last(), deltas, key, j);
        }
    }
}

/// One more record touches the value that it is about, and no other.
proof fn untouched_by_one_more(
    s: Seq<Seq<char>>,
    v: Seq<char>,
    deltas: Seq<DeltaView>,
    key: i64,
    j: int,
)
    requires
        0 <= j < deltas.len(),
    ensures
        is_about(deltas[j], key, v) ==> untouched(s, deltas, key, j + 1) == untouched(
            without(s, v),
            deltas,
            key,
            j,
        ),
        (forall|x: Seq<char>| !is_about(deltas[j], key, x)) ==> untouched(s, deltas, key, j + 1)
            == untouched(s, deltas, key, j),
    decreases s.len(),
{
    if s.len() > 0 {
        let rest = s.drop_last();
        let x = s.last();
        untouched_by_one_more(rest, v, deltas, key, j);
        touched_by_one_more(deltas, j, key, x);
        if x != v {
            untouched_of_pushed(without(rest, v), x, deltas, key, j);
        }
    }
}

/// Where no untouched value occurs twice, leaving the outdated records out keeps
/// the untouched values as they are.
proof fn latest_keeps_untouched(
    deltas: Seq<DeltaView>,
    base: Seq<Seq<char>>,
    key: i64,
    j: int,
)
    requires
        0 <= j <= deltas.len(),
        untouched(values_from(deltas, base, key, j), deltas, key, j).no_duplicates(),
    ensures
        untouched(latest_from(deltas, base, key, j), deltas, key, j) == untouched(
            values_from(deltas, base, key, j),
            deltas,
            key,
            j,
        ),
    decreases deltas.len() - j,
{
    if j < deltas.len() {
        let d = deltas[j];
        let latest = latest_from(deltas, base, key, j + 1);
        let all = values_from(deltas, base, key, j + 1);
        match d {
            DeltaView::Insert(k, v) => if k == key {
                untouched_by_one_more(latest, v, deltas, key, j);
                untouched_by_one_more(all, v, deltas, key, j);
                untouched_of_pushed(latest, v, deltas, key, j);
                untouched_of_pushed(all, v, deltas, key, j);
                if touched(deltas, j, key, v) {
                    untouched_without(latest, v, deltas, key, j);
                    untouched_without(all, v, deltas, key, j);
                } else {
                    // The value cannot have been there before.
                    let kept = untouched(all, deltas, key, j);
                    pushed_once(kept, v);
                    untouched_has(all, deltas, key, j, v);
                    latest_within(deltas, base, key, v, j + 1);
                    nothing_to_take_out(all, v);
                    nothing_to_take_out(latest, v);
                }
                latest_keeps_untouched(deltas, base, key, j + 1);
            } else {
                untouched_by_one_more(latest, v, deltas, key, j);
                untouched_by_one_more(all, v, deltas, key, j);
                latest_keeps_untouched(deltas, base, key, j + 1);
            },
            DeltaView::Delete(k, v) => {
                untouched_by_one_more(latest, v, deltas, key, j);
                untouched_by_one_more(all, v, deltas, key, j);
                latest_keeps_untouched(deltas, base, key, j + 1);
            },
            DeltaView::Split(_, _) => {
                untouched_by_one_more(latest, seq![], deltas, key, j);
                untouched_by_one_more(all, seq![], deltas, key, j);
                latest_keeps_untouched(deltas, base, key, j + 1);
            },
        }
    }
}

/// A value at the end of values without duplicates is not among those before it.
proof fn pushed_once(s: Seq<Seq<char>>, v: Seq<char>)
    requires
        s.push(v).no_duplicates(),
    ensures
        s.no_duplicates(),
        !s.contains(v),
{
    let t = s.push(v);
    assert forall|a: int, b: int| 0 <= a < s.len() && 0 <= b < s.len() && a != b implies s[a]
        != s[b] by {
        assert(t[a] != t[b]);
    }
    if s.contains(v) {
        let i = choose|i: int| 0 <= i < s.len() && s[i] == v;
        assert(t[i] == t[s.len() as int]);
    }
}

impl PageView {
    /// Consolidation keeps which values every key has.
    pub proof fn consolidation_keeps_values(self, key: i64, x: Seq<char>)
        ensures
            self.consolidated(key).contains(x) == self.has(key, x),
    {
        latest_agrees(self.deltas, base_values(self.base, key), key, x, 0);
    }

    /// Consolidation keeps the values of a key altogether where none of them occurs
    /// twice.
    pub proof fn consolidation_keeps_distinct_values(self, key: i64)
        requires
            self.values(key).no_duplicates(),
        ensures
            self.consolidated(key) == self.values(key),
    {
        let base = base_values(self.base, key);
        all_are_untouched(self.consolidated(key), self.deltas, key);
        all_are_untouched(self.values(key), self.deltas, key);
        latest_keeps_untouched(self.deltas, base, key, 0);
    }
}

// ---------------------------------------------------------------------------
// Walking a page
// ---------------------------------------------------------------------------
/// The delta nodes of a page, the newest first, and its base page.
fn chain_of(node: &Node) -> (r: (Vec<&Node>, &LeafBase))
    ensures
        r.0@.len() == node.deltas().len(),
        forall|j: int|
            0 <= j < r.0@.len() ==> !(*(#[trigger] r.0@[j]) is LeafBase) && r.0@[j].head()
                == node.deltas()[j],
        entries_view(r.1.entries@) == node.base(),
{
    let mut nodes: Vec<&Node> = Vec::new();
    let mut current: &Node = node;
    let ghost mut heads: Seq<DeltaView> = seq![];
    loop
        invariant
            nodes@.len() == heads.len(),
            forall|j: int|
                0 <= j < nodes@.len() ==> !(*(#[trigger] nodes@[j]) is LeafBase)
                    && nodes@[j].head() == heads[j],
            node.deltas() == heads + current.deltas(),
            node.base() == current.base(),
        decreases current,
    {
        match current {
            Node::LeafBase(base) => {
                assert(heads + current.deltas() =~= heads);
                return (nodes, base);
            },
            Node::InsertDelta(d) => {
                nodes.push(current);
                proof {
                    assert(heads + (seq![current.head()] + d.next.deltas()) =~= heads.push(
                        current.head(),
                    ) + d.next.deltas());
                    heads = heads.push(current.head());
                }
                current = &d.next;
            },
            Node::DeleteDelta(d) => {
                nodes.push(current);
                proof {
                    assert(heads + (seq![current.head()] + d.next.deltas()) =~= heads.push(
                        current.head(),
                    ) + d.next.deltas());
                    heads = heads.push(current.head());
                }
                current = &d.next;
            },
            Node::SplitDelta(d) => {
                nodes.push(current);
                proof {
                    assert(heads + (seq![current.head()] + d.next.deltas()) =~= heads.push(
                        current.head(),
                    ) + d.next.deltas());
                    heads = heads.push(current.head());
                }
                current = &d.next;
            },
        }
    }
}

/// Where `key` stands among ascending entries, or where it would stand.
fn search(entries: &Vec<(i64, Values)>, key: i64) -> (r: (bool, usize))
    requires
        ascending(entries_view(entries@)),
    ensures
        r.1 <= entries@.len(),
        forall|i: int| 0 <= i < r.1 ==> (#[trigger] entries@[i]).0 < key,
        r.0 ==> r.1 < entries@.len() && entries@[r.1 as int].0 == key,
        !r.0 ==> forall|i: int| r.1 <= i < entries@.len() ==> (#[trigger] entries@[i]).0 > key,
{
    let mut low: usize = 0;
    let mut high: usize = entries.len();
    let ghost view = entries_view(entries@);
    while low < high
        invariant
            low <= high <= entries@.len(),
            view == entries_view(entries@),
            ascending(view),
            forall|i: int| 0 <= i < low ==> (#[trigger] entries@[i]).0 < key,
            forall|i: int| high <= i < entries@.len() ==> (#[trigger] entries@[i]).0 > key,
        decreases high - low,
    {
        let mid: usize = low + (high - low) / 2;
        let k: i64 = entries[mid].0;
        assert(view[mid as int].0 == k);
        if k == key {
            assert forall|i: int| 0 <= i < mid implies (#[trigger] entries@[i]).0 < key by {
                assert(view[i].0 < view[mid as int].0);
            }
            return (true, mid);
        } else if k < key {
            assert forall|i: int| 0 <= i < mid + 1 implies (#[trigger] entries@[i]).0 < key by {
                if i < mid {
                    assert(view[i].0 < view[mid as int].0);
                }
            }
            low = mid + 1;
        } else {
            assert forall|i: int| mid <= i < entries@.len() implies (#[trigger] entries@[i]).0
                > key by {
                if i > mid {
                    assert(view[mid as int].0 < view[i].0);
                }
            }
            high = mid;
        }
    }
    (false, low)
}

/// The values of `key` in a base page.
fn read_base(base: &LeafBase, key: i64) -> (r: Vec<String>)
    requires
        ascending(entries_view(base.entries@)),
    ensures
        r.deep_view() == base_values(entries_view(base.entries@), key),
{
    let ghost view = entries_view(base.entries@);
    let mut out: Vec<String> = Vec::new();
    let (found, at) = search(&base.entries, key);
    if found {
        let values = &base.entries[at].1;
        proof {
            entry_is_found(view, at as int);
        }
        let n: usize = values.len();
        for i in 0..n
            invariant
                n == values@.len(),
                out.deep_view() =~= values@.take(i as int),
        {
            let ghost before = out.deep_view();
            out.push(values.at(i).clone());
            assert(out.deep_view() =~= before.push(values@[i as int]));
        }
        assert(values@.take(n as int) =~= values@);
    } else {
        proof {
            assert forall|i: int| 0 <= i < view.len() implies (#[trigger] view[i]).0 != key by {
                assert(base.entries@[i].0 == view[i].0);
            }
            missing_entry(view, key);
        }
        assert(out.deep_view() =~= seq![]);
    }
    out
}

/// Takes every copy of `value` out.
fn drop_value(values: Vec<String>, value: &String) -> (r: Vec<String>)
    ensures
        r.deep_view() == without(values.deep_view(), value@),
{
    let ghost view = values.deep_view();
    let mut kept: Vec<String> = Vec::new();
    assert(kept.deep_view() =~= without(view.take(0), value@));
    for i in 0..values.len()
        invariant
            view == values.deep_view(),
            kept.deep_view() == without(view.take(i as int), value@),
    {
        assert(view.take(i + 1).drop_last() =~= view.take(i as int));
        assert(view[i as int] == values@[i as int]@);
        let ghost before = kept.deep_view();
        if differs(&values[i], value) {
            kept.push(values[i].clone());
            assert(kept.deep_view() =~= before.push(view[i as int]));
        }
    }
    assert(view.take(values.len() as int) =~= view);
    kept
}

impl Node {
    /// The values of `key` in the page.
    pub fn values(&self, key: i64) -> (r: Vec<String>)
        requires
            ascending(self.base()),
        ensures
            r.deep_view() == self.page().values(key),
    {
        let (nodes, base) = chain_of(self);
        let mut values = read_base(base, key);
        let ghost deltas = self.deltas();
        let ghost bottom = base_values(self.base(), key);
        let mut j: usize = nodes.len();
        while j > 0
            invariant
                j <= nodes@.len(),
                deltas == self.deltas(),
                nodes@.len() == deltas.len(),
                forall|j: int|
                    0 <= j < nodes@.len() ==> !(*(#[trigger] nodes@[j]) is LeafBase)
                        && nodes@[j].head() == deltas[j],
                values.deep_view() == values_from(deltas, bottom, key, j as int),
            decreases j,
        {
            j = j - 1;
            let ghost before = values.deep_view();
            match nodes[j] {
                Node::InsertDelta(d) => {
                    if d.key == key {
                        values.push(d.value.clone());
                        assert(values.deep_view() =~= before.push(d.value@));
                    }
                },
                Node::DeleteDelta(d) => {
                    if d.key == key {
                        values = drop_value(values, &d.value);
                    }
                },
                _ => {},
            }
        }
        values
    }

    /// Whether the chain is so long that the page should be consolidated.
    pub fn needs_consolidation(&self, max: usize) -> (r: bool)
        ensures
            r == (self.deltas().len() >= max),
    {
        let mut length: usize = 0;
        let mut current: &Node = self;
        let mut at_base = false;
        while !at_base && length < max
            invariant
                length <= max,
                self.deltas().len() == length + current.deltas().len(),
                at_base ==> *current is LeafBase,
            decreases max - length, (if at_base { 0int } else { 1int }),
        {
            match current {
                Node::LeafBase(_) => {
                    at_base = true;
                },
                Node::InsertDelta(d) => {
                    current = &d.next;
                    length = length + 1;
                },
                Node::DeleteDelta(d) => {
                    current = &d.next;
                    length = length + 1;
                },
                Node::SplitDelta(d) => {
                    current = &d.next;
                    length = length + 1;
                },
            }
        }
        length >= max
    }
}

// ---------------------------------------------------------------------------
// Consolidating a page
// ---------------------------------------------------------------------------
/// Two pages in order that have the same entry for `k`, if any, have the same
/// values for it.
proof fn same_entry(a: Seq<(i64, Seq<Seq<char>>)>, b: Seq<(i64, Seq<Seq<char>>)>, k: i64)
    requires
        ascending(a),
        ascending(b),
        forall|i: int| 0 <= i < a.len() && (#[trigger] a[i]).0 == k ==> b.contains(a[i]),
        forall|i: int| 0 <= i < b.len() && (#[trigger] b[i]).0 == k ==> a.contains(b[i]),
    ensures
        base_values(a, k) == base_values(b, k),
{
    if exists|i: int| 0 <= i < a.len() && (#[trigger] a[i]).0 == k {
        let i = choose|i: int| 0 <= i < a.len() && (#[trigger] a[i]).0 == k;
        assert(b.contains(a[i]));
        let j = choose|j: int| 0 <= j < b.len() && b[j] == a[i];
        entry_is_found(a, i);
        entry_is_found(b, j);
    } else {
        missing_entry(a, k);
        assert forall|i: int| 0 <= i < b.len() implies (#[trigger] b[i]).0 != k by {
            if b[i].0 == k {
                assert(a.contains(b[i]));
                let j = choose|j: int| 0 <= j < a.len() && a[j] == b[i];
                assert(a[j].0 == k);
            }
        }
        missing_entry(b, k);
    }
}

/// Replacing the values of one entry changes the values of its key only.
proof fn entry_replaced(
    a: Seq<(i64, Seq<Seq<char>>)>,
    b: Seq<(i64, Seq<Seq<char>>)>,
    at: int,
    k: i64,
)
    requires
        ascending(a),
        0 <= at < a.len(),
        b.len() == a.len(),
        b[at].0 == a[at].0,
        forall|i: int| 0 <= i < a.len() && i != at ==> #[trigger] b[i] == a[i],
    ensures
        ascending(b),
        k != a[at].0 ==> base_values(b, k) == base_values(a, k),
        base_values(b, a[at].0) == b[at].1,
        base_values(a, a[at].0) == a[at].1,
{
    assert forall|i: int, j: int| 0 <= i < j < b.len() implies (#[trigger] b[i]).0 < (
    #[trigger] b[j]).0 by {
        assert(a[i].0 < a[j].0);
    }
    entry_is_found(a, at);
    entry_is_found(b, at);
    if k != a[at].0 {
        assert forall|i: int| 0 <= i < a.len() && (#[trigger] a[i]).0 == k implies b.contains(
            a[i],
        ) by {
            assert(b[i] == a[i]);
        }
        assert forall|i: int| 0 <= i < b.len() && (#[trigger] b[i]).0 == k implies a.contains(
            b[i],
        ) by {
            assert(b[i] == a[i]);
        }
        same_entry(a, b, k);
    }
}

/// Adding an entry where it belongs gives its key values and changes nothing else.
proof fn entry_added(
    a: Seq<(i64, Seq<Seq<char>>)>,
    e: (i64, Seq<Seq<char>>),
    at: int,
    k: i64,
)
    requires
        ascending(a),
        0 <= at <= a.len(),
        forall|i: int| 0 <= i < at ==> (#[trigger] a[i]).0 < e.0,
        forall|i: int| at <= i < a.len() ==> (#[trigger] a[i]).0 > e.0,
    ensures
        ascending(a.insert(at, e)),
        k != e.0 ==> base_values(a.insert(at, e), k) == base_values(a, k),
        base_values(a.insert(at, e), e.0) == e.1,
        base_values(a, e.0) == Seq::<Seq<char>>::empty(),
{
    let b = a.insert(at, e);
    assert forall|i: int, j: int| 0 <= i < j < b.len() implies (#[trigger] b[i]).0 < (
    #[trigger] b[j]).0 by {
        if i < at {
            assert(b[i] == a[i]);
            if j > at {
                assert(b[j] == a[j - 1]);
                assert(a[i].0 < a[j - 1].0);
            } else if j < at {
                assert(b[j] == a[j]);
                assert(a[i].0 < a[j].0);
            }
        } else {
            assert(b[j] == a[j - 1]);
            if i > at {
                assert(b[i] == a[i - 1]);
                assert(a[i - 1].0 < a[j - 1].0);
            }
        }
    }
    assert(b[at] == e);
    entry_is_found(b, at);
    missing_entry(a, e.0);
    if k != e.0 {
        assert forall|i: int| 0 <= i < a.len() && (#[trigger] a[i]).0 == k implies b.contains(
            a[i],
        ) by {
            if i < at {
                assert(b[i] == a[i]);
            } else {
                assert(b[i + 1] == a[i]);
            }
        }
        assert forall|i: int| 0 <= i < b.len() && (#[trigger] b[i]).0 == k implies a.contains(
            b[i],
        ) by {
            if i < at {
                assert(b[i] == a[i]);
            } else if i > at {
                assert(b[i] == a[i - 1]);
            }
        }
        same_entry(a, b, k);
    }
}

/// Lets an insertion take effect on entries.
fn apply_insert(entries: &mut Vec<(i64, Values)>, key: i64, value: &String)
    requires
        ascending(entries_view(old(entries)@)),
    ensures
        ascending(entries_view(final(entries)@)),
        forall|k: i64| #[trigger]
            base_values(entries_view(final(entries)@), k) == effect(
                DeltaView::Insert(key, value@),
                k,
                base_values(entries_view(old(entries)@), k),
            ),
{
    let ghost a = entries_view(entries@);
    let (found, at) = search(entries, key);
    if found {
        let (k, mut values) = entries.remove(at);
        values.push(value.clone());
        entries.insert(at, (k, values));
        let ghost b = entries_view(entries@);
        proof {
            assert forall|k: i64| #[trigger] base_values(b, k) == effect(
                DeltaView::Insert(key, value@),
                k,
                base_values(a, k),
            ) by {
                entry_replaced(a, b, at as int, k);
            }
            entry_replaced(a, b, at as int, key);
        }
    } else {
        let mut values = Values::new();
        values.push(value.clone());
        entries.insert(at, (key, values));
        let ghost b = entries_view(entries@);
        proof {
            let e = (key, seq![value@]);
            assert(values@ =~= seq![value@]);
            assert forall|i: int| 0 <= i < at implies (#[trigger] a[i]).0 < key by {
                assert(old(entries)@[i].0 < key);
            }
            assert forall|i: int| at <= i < a.len() implies (#[trigger] a[i]).0 > key by {
                assert(old(entries)@[i].0 > key);
            }
            assert(b =~= a.insert(at as int, e));
            assert forall|k: i64| #[trigger] base_values(b, k) == effect(
                DeltaView::Insert(key, value@),
                k,
                base_values(a, k),
            ) by {
                entry_added(a, e, at as int, k);
                assert(Seq::<Seq<char>>::empty().push(value@) =~= seq![value@]);
            }
            entry_added(a, e, at as int, key);
        }
    }
}

/// Lets a deletion take effect on entries.
fn apply_delete(entries: &mut Vec<(i64, Values)>, key: i64, value: &String)
    requires
        ascending(entries_view(old(entries)@)),
    ensures
        ascending(entries_view(final(entries)@)),
        forall|k: i64| #[trigger]
            base_values(entries_view(final(entries)@), k) == effect(
                DeltaView::Delete(key, value@),
                k,
                base_values(entries_view(old(entries)@), k),
            ),
{
    let ghost a = entries_view(entries@);
    let (found, at) = search(entries, key);
    if found {
        let (k, mut values) = entries.remove(at);
        values.remove_all(value);
        entries.insert(at, (k, values));
        let ghost b = entries_view(entries@);
        proof {
            assert forall|k: i64| #[trigger] base_values(b, k) == effect(
                DeltaView::Delete(key, value@),
                k,
                base_values(a, k),
            ) by {
                entry_replaced(a, b, at as int, k);
            }
            entry_replaced(a, b, at as int, key);
        }
    } else {
        proof {
            assert forall|i: int| 0 <= i < a.len() implies (#[trigger] a[i]).0 != key by {
                assert(entries@[i].0 == a[i].0);
            }
            missing_entry(a, key);
        }
    }
}

/// Whether record `j` is an insertion that a newer record outdates.
fn is_outdated(nodes: &Vec<&Node>, j: usize, Ghost(deltas): Ghost<Seq<DeltaView>>) -> (r: bool)
    requires
        j < nodes@.len(),
        nodes@.len() == deltas.len(),
        forall|j: int|
            0 <= j < nodes@.len() ==> !(*(#[trigger] nodes@[j]) is LeafBase) && nodes@[j].head()
                == deltas[j],
    ensures
        r == outdated(deltas, j as int),
{
    let inserted = match nodes[j] {
        Node::InsertDelta(d) => d,
        _ => return false,
    };
    for i in 0..j
        invariant
            j < nodes@.len(),
            nodes@.len() == deltas.len(),
            forall|j: int|
                0 <= j < nodes@.len() ==> !(*(#[trigger] nodes@[j]) is LeafBase)
                    && nodes@[j].head() == deltas[j],
            deltas[j as int] == DeltaView::Insert(inserted.key, inserted.value@),
            forall|k: int|
                0 <= k < i ==> !#[trigger] is_about(deltas[k], inserted.key, inserted.value@),
    {
        if concerns_value(nodes[i], inserted.key, &inserted.value) {
            assert(is_about(deltas[i as int], inserted.key, inserted.value@));
            return true;
        }
    }
    false
}

/// Whether a record inserts or deletes the value of the key.
fn concerns_value(node: &Node, key: i64, value: &String) -> (r: bool)
    requires
        !(*node is LeafBase),
    ensures
        r == is_about(node.head(), key, value@),
{
    match node {
        Node::InsertDelta(d) => d.key == key && d.value == *value,
        Node::DeleteDelta(d) => d.key == key && d.value == *value,
        _ => false,
    }
}

/// A copy of entries.
fn copy_entries(entries: &Vec<(i64, Values)>) -> (r: Vec<(i64, Values)>)
    ensures
        entries_view(r@) == entries_view(entries@),
{
    let mut r: Vec<(i64, Values)> = Vec::new();
    for i in 0..entries.len()
        invariant
            entries_view(r@) =~= entries_view(entries@).take(i as int),
    {
        let ghost before = entries_view(r@);
        r.push((entries[i].0, entries[i].1.duplicate()));
        assert(entries_view(r@) =~= before.push(entries_view(entries@)[i as int]));
    }
    assert(entries_view(entries@).take(entries@.len() as int) =~= entries_view(entries@));
    r
}

/// The entries that have values.
pub open spec fn nonempty(a: Seq<(i64, Seq<Seq<char>>)>) -> Seq<(i64, Seq<Seq<char>>)>
    decreases a.len(),
{
    if a.len() == 0 {
        a
    } else if a.last().1.len() > 0 {
        nonempty(a.drop_last()).push(a.last())
    } else {
        nonempty(a.drop_last())
    }
}

proof fn nonempty_keeps_values(a: Seq<(i64, Seq<Seq<char>>)>, k: i64)
    requires
        ascending(a),
    ensures
        ascending(nonempty(a)),
        no_empty_entry(nonempty(a)),
        forall|j: int| 0 <= j < nonempty(a).len() ==> a.contains(#[trigger] nonempty(a)[j]),
        base_values(nonempty(a), k) == base_values(a, k),
    decreases a.len(),
{
    if a.len() > 0 {
        let rest = a.drop_last();
        let last = a.last();
        assert forall|i: int, j: int| 0 <= i < j < rest.len() implies (#[trigger] rest[i]).0 < (
        #[trigger] rest[j]).0 by {
            assert(a[i].0 < a[j].0);
        }
        nonempty_keeps_values(rest, k);
        let kept = nonempty(rest);
        assert forall|j: int| 0 <= j < kept.len() implies a.contains(#[trigger] kept[j])
            && kept[j].0 < last.0 by {
            assert(rest.contains(kept[j]));
            let m = choose|m: int| 0 <= m < rest.len() && rest[m] == kept[j];
            assert(a[m] == kept[j]);
            assert(a[m].0 < a[a.len() - 1].0);
        }
        if last.1.len() > 0 {
            let b = kept.push(last);
            assert(b.drop_last() =~= kept);
            assert forall|i: int, j: int| 0 <= i < j < b.len() implies (#[trigger] b[i]).0 < (
            #[trigger] b[j]).0 by {
                assert(b[i] == kept[i]);
                if j < kept.len() {
                    assert(b[j] == kept[j]);
                }
            }
            assert forall|j: int| 0 <= j < b.len() implies a.contains(#[trigger] b[j]) by {
                if j < kept.len() {
                    assert(b[j] == kept[j]);
                } else {
                    assert(a[a.len() - 1] == b[j]);
                }
            }
        } else if last.0 == k {
            assert forall|i: int| 0 <= i < rest.len() implies (#[trigger] rest[i]).0 != k by {
                assert(a[i].0 < a[a.len() - 1].0);
            }
            missing_entry(rest, k);
            assert(last.1 =~= Seq::<Seq<char>>::empty());
        }
    }
}

/// Leaves the entries without values out.
fn drop_empty_entries(entries: Vec<(i64, Values)>) -> (r: Vec<(i64, Values)>)
    requires
        ascending(entries_view(entries@)),
    ensures
        ascending(entries_view(r@)),
        no_empty_entry(entries_view(r@)),
        forall|k: i64| #[trigger]
            base_values(entries_view(r@), k) == base_values(entries_view(entries@), k),
{
    let ghost a = entries_view(entries@);
    let mut r: Vec<(i64, Values)> = Vec::new();
    assert(entries_view(r@) =~= nonempty(a.take(0)));
    for i in 0..entries.len()
        invariant
            a == entries_view(entries@),
            entries_view(r@) == nonempty(a.take(i as int)),
    {
        let ghost before = entries_view(r@);
        assert(a.take(i + 1).drop_last() =~= a.take(i as int));
        if entries[i].1.len() > 0 {
            r.push((entries[i].0, entries[i].1.duplicate()));
            assert(entries_view(r@) =~= before.push(a[i as int]));
        }
    }
    assert(a.take(entries@.len() as int) =~= a);
    proof {
        assert forall|k: i64| #[trigger] base_values(nonempty(a), k) == base_values(a, k) by {
            nonempty_keeps_values(a, k);
        }
        nonempty_keeps_values(a, 0);
    }
    r
}

impl Node {
    /// The entries of the page when its delta records have taken effect. An
    /// insertion is passed over where a newer record is about the same value of the
    /// same key.
    pub fn apply_deltas(&self) -> (r: Vec<(i64, Values)>)
        requires
            self.page().wf(),
        ensures
            self.page().consolidates_to(entries_view(r@)),
    {
        let (nodes, base) = chain_of(self);
        let ghost deltas = self.deltas();
        let mut entries = copy_entries(&base.entries);
        let mut j: usize = nodes.len();
        while j > 0
            invariant
                j <= nodes@.len(),
                deltas == self.deltas(),
                nodes@.len() == deltas.len(),
                forall|j: int|
                    0 <= j < nodes@.len() ==> !(*(#[trigger] nodes@[j]) is LeafBase)
                        && nodes@[j].head() == deltas[j],
                ascending(entries_view(entries@)),
                forall|key: i64| #[trigger]
                    base_values(entries_view(entries@), key) == latest_from(
                        deltas,
                        base_values(self.base(), key),
                        key,
                        j as int,
                    ),
            decreases j,
        {
            j = j - 1;
            let ghost before = entries_view(entries@);
            if !is_outdated(&nodes, j, Ghost(deltas)) {
                match nodes[j] {
                    Node::InsertDelta(d) => {
                        apply_insert(&mut entries, d.key, &d.value);
                    },
                    Node::DeleteDelta(d) => {
                        apply_delete(&mut entries, d.key, &d.value);
                    },
                    _ => {},
                }
            }
            assert forall|key: i64| #[trigger]
                base_values(entries_view(entries@), key) == latest_from(
                    deltas,
                    base_values(self.base(), key),
                    key,
                    j as int,
                ) by {
                assert(base_values(before, key) == latest_from(
                    deltas,
                    base_values(self.base(), key),
                    key,
                    j + 1,
                ));
            }
        }
        drop_empty_entries(entries)
    }

    /// The number of insertions and deletions in the chain.
    pub fn delta_chain_depth(&self) -> (r: usize)
        requires
            self.deltas().len() <= usize::MAX,
        ensures
            r == changes(self.deltas()),
    {
        let mut depth: usize = 0;
        let mut current: &Node = self;
        loop
            invariant
                self.deltas().len() <= usize::MAX,
                changes(self.deltas()) == depth + changes(current.deltas()),
                depth + current.deltas().len() <= self.deltas().len(),
            decreases current,
        {
            match current {
                Node::LeafBase(_) => {
                    return depth;
                },
                Node::InsertDelta(d) => {
                    assert(current.deltas().skip(1) =~= d.next.deltas());
                    current = &d.next;
                    depth = depth + 1;
                },
                Node::DeleteDelta(d) => {
                    assert(current.deltas().skip(1) =~= d.next.deltas());
                    current = &d.next;
                    depth = depth + 1;
                },
                Node::SplitDelta(d) => {
                    assert(current.deltas().skip(1) =~= d.next.deltas());
                    current = &d.next;
                },
            }
        }
    }
}

/// The number of insertions and deletions among records.
pub open spec fn changes(deltas: Seq<DeltaView>) -> nat
    decreases deltas.len(),
{
    if deltas.len() == 0 {
        0
    } else if deltas[0] is Split {
        changes(deltas.skip(1))
    } else {
        1 + changes(deltas.skip(1))
    }
}

// ---------------------------------------------------------------------------
// Laws
// ---------------------------------------------------------------------------
/// Taking a value out keeps the others, in their order.
pub proof fn without_is_filter(s: Seq<Seq<char>>, v: Seq<char>)
    ensures
        without(s, v) == s.filter(|x: Seq<char>| x != v),
    decreases s.len(),
{
    reveal(Seq::filter);
    if s.len() > 0 {
        without_is_filter(s.drop_last(), v);
    }
}

/// Where the base page has no values of a key, consolidation gives every value of
/// the key once, however often it was inserted.
pub proof fn consolidation_gives_each_value_once(p: PageView, key: i64)
    requires
        base_values(p.base, key).len() == 0,
    ensures
        p.consolidated(key).no_duplicates(),
{
    latest_has_no_duplicates(p.deltas, base_values(p.base, key), key, 0);
}

proof fn latest_has_no_duplicates(
    deltas: Seq<DeltaView>,
    base: Seq<Seq<char>>,
    key: i64,
    j: int,
)
    requires
        base.len() == 0,
        0 <= j <= deltas.len(),
    ensures
        latest_from(deltas, base, key, j).no_duplicates(),
        forall|x: Seq<char>| #[trigger]
            latest_from(deltas, base, key, j).contains(x) ==> !touched(deltas, j, key, x),
    decreases deltas.len() - j,
{
    if j < deltas.len() {
        latest_has_no_duplicates(deltas, base, key, j + 1);
        let later = latest_from(deltas, base, key, j + 1);
        let now = latest_from(deltas, base, key, j);
        assert forall|x: Seq<char>| #[trigger] now.contains(x) implies !touched(
            deltas,
            j,
            key,
            x,
        ) by {
            touched_by_one_more(deltas, j, key, x);
            effect_has(deltas[j], key, later, x);
        }
        match deltas[j] {
            DeltaView::Insert(k, v) => if k == key && !outdated(deltas, j) {
                touched_by_one_more(deltas, j, key, v);
                if later.contains(v) {
                    assert(!touched(deltas, j + 1, key, v));
                }
                assert forall|a: int, b: int|
                    0 <= a < now.len() && 0 <= b < now.len() && a != b implies now[a]
                    != now[b] by {
                    if a < later.len() {
                        assert(later.contains(later[a]));
                    }
                    if b < later.len() {
                        assert(later.contains(later[b]));
                    }
                }
            },
            DeltaView::Delete(k, v) => if k == key {
                without_no_duplicates(later, v);
            },
            DeltaView::Split(_, _) => {},
        }
    }
}

proof fn without_no_duplicates(s: Seq<Seq<char>>, v: Seq<char>)
    requires
        s.no_duplicates(),
    ensures
        without(s, v).no_duplicates(),
    decreases s.len(),
{
    if s.len() > 0 {
        let rest = s.drop_last();
        let x = s.last();
        assert(s =~= rest.push(x));
        pushed_once(rest, x);
        without_no_duplicates(rest, v);
        without_has(rest, v, x);
        let kept = without(rest, v);
        assert forall|a: int, b: int|
            0 <= a < kept.push(x).len() && 0 <= b < kept.push(x).len() && a
                != b implies kept.push(x)[a] != kept.push(x)[b] by {
            if a < kept.len() {
                assert(kept.contains(kept[a]));
            }
            if b < kept.len() {
                assert(kept.contains(kept[b]));
            }
        }
    }
}

/// The number of insertions and deletions does not count splits.
pub proof fn splits_are_no_changes(deltas: Seq<DeltaView>, d: DeltaView)
    ensures
        changes(Seq::<DeltaView>::empty()) == 0,
        changes(seq![d] + deltas) == changes(deltas) + if d is Insert || d is Delete {
            1int
        } else {
            0
        },
{
    assert((seq![d] + deltas).skip(1) =~= deltas);
}

} // verus!
