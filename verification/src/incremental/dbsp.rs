//! Weighted sets, and streams of changes to them.
//!
//! A change is itself a weighted set: what is added has a positive weight, what is
//! taken away a negative one. To apply a change is to add the weights, and an item
//! whose weight is zero is not in the set at all.

use std::collections::HashMap;
use std::hash::Hash;

use vstd::prelude::*;
use vstd::std_specs::hash;
use vstd::std_specs::iter::IteratorSpec;

verus! {

broadcast use vstd::std_specs::hash::group_hash_axioms;

/// Values of the type can be told apart by their hashes and by comparison, and a
/// clone is the value itself.
pub open spec fn lawful<T: Clone>() -> bool {
    hash::obeys_key_model::<T>() && forall|a: T, b: T| #[trigger] cloned(a, b) ==> a == b
}

/// The weight of an item; zero if it is not there.
pub open spec fn weight<T>(m: Map<T, i32>, item: T) -> int {
    if m.contains_key(item) {
        m[item] as int
    } else {
        0
    }
}

/// No item has the weight zero.
pub open spec fn no_zeros<T>(m: Map<T, i32>) -> bool {
    forall|item: T| #[trigger] m.contains_key(item) ==> m[item] != 0
}

/// The number fits in a weight.
pub open spec fn fits(n: int) -> bool {
    i32::MIN <= n <= i32::MAX
}

/// How often an item occurs.
pub open spec fn occurrences<T>(items: Seq<T>, item: T) -> int
    decreases items.len(),
{
    if items.len() == 0 {
        0
    } else if items.last() == item {
        occurrences(items.drop_last(), item) + 1
    } else {
        occurrences(items.drop_last(), item)
    }
}

/// The entries of a set in some order, each of them once.
pub open spec fn lists<T>(entries: Seq<(&T, i32)>, m: Map<T, i32>) -> bool {
    &&& forall|i: int|
        0 <= i < entries.len() ==> m.contains_key(*(#[trigger] entries[i]).0) && m[*entries[i].0]
            == entries[i].1
    &&& forall|i: int, j: int|
        0 <= i < j < entries.len() ==> *(#[trigger] entries[i]).0 != *(#[trigger] entries[j]).0
    &&& forall|item: T| #[trigger]
        m.contains_key(item) ==> exists|i: int|
            0 <= i < entries.len() && *(#[trigger] entries[i]).0 == item
}

/// The item is among the first `n` entries.
pub open spec fn listed<T>(entries: Seq<(&T, i32)>, n: int, item: T) -> bool {
    exists|i: int| 0 <= i < n && *(#[trigger] entries[i]).0 == item
}

/// A weighted set.
#[derive(Clone, Debug)]
pub struct ZSet<T> {
    data: HashMap<T, i32>,
}

impl<T> View for ZSet<T> {
    type V = Map<T, i32>;

    closed spec fn view(&self) -> Map<T, i32> {
        self.data@
    }
}

impl<T: Hash + Eq + Clone> ZSet<T> {
    /// No item has the weight zero.
    pub open spec fn valid(&self) -> bool {
        no_zeros(self@)
    }

    /// A set without items.
    pub fn new() -> (r: Self)
        requires
            hash::obeys_key_model::<T>(),
        ensures
            r.valid(),
            r@ == Map::<T, i32>::empty(),
    {
        ZSet { data: HashMap::new() }
    }

    /// Adds to the weight of an item.
    pub fn insert(&mut self, item: T, weight: i32)
        requires
            hash::obeys_key_model::<T>(),
            old(self).valid(),
            fits(self::weight(old(self)@, item) + weight),
        ensures
            final(self).valid(),
            forall|other: T|
                #![trigger self::weight(final(self)@, other)]
                self::weight(final(self)@, other) == self::weight(old(self)@, other) + if other
                    == item {
                    weight as int
                } else {
                    0
                },
    {
        let current: i32 = match self.data.get(&item) {
            Some(w) => *w,
            None => 0,
        };
        let sum: i32 = current + weight;
        if sum == 0 {
            self.data.remove(&item);
        } else {
            self.data.insert(item, sum);
        }
    }

    /// The weight of an item; zero if it is not there.
    pub fn weight_of(&self, item: &T) -> (r: i32)
        requires
            hash::obeys_key_model::<T>(),
        ensures
            r == self::weight(self@, *item),
    {
        match self.data.get(item) {
            Some(w) => *w,
            None => 0,
        }
    }

    /// The items with their weights, in no particular order.
    pub fn iter(&self) -> (r: Vec<(&T, i32)>)
        requires
            hash::obeys_key_model::<T>(),
        ensures
            lists(r@, self@),
    {
        let mut entries: Vec<(&T, i32)> = Vec::new();
        let ghost all = hash::spec_hash_map_iter(&self.data).remaining();
        for (item, w) in it: self.data.iter()
            invariant
                it.seq() == all,
                all.no_duplicates(),
                entries@.len() == it.index(),
                forall|i: int|
                    0 <= i < entries@.len() ==> (#[trigger] entries@[i]).0 == all[i].0
                        && entries@[i].1 == *all[i].1,
        {
            entries.push((item, *w));
        }
        proof {
            let m = self.data@;
            assert forall|i: int| 0 <= i < entries@.len() implies m.contains_key(
                *(#[trigger] entries@[i]).0,
            ) && m[*entries@[i].0] == entries@[i].1 by {
                assert(m.contains_key(*all[i].0));
            }
            assert forall|i: int, j: int| 0 <= i < j < entries@.len() implies *(
            #[trigger] entries@[i]).0 != *(#[trigger] entries@[j]).0 by {
                assert(m.contains_key(*all[i].0));
                assert(m.contains_key(*all[j].0));
                assert(all[i] != all[j]);
            }
            assert forall|item: T| #[trigger] m.contains_key(item) implies exists|i: int|
                0 <= i < entries@.len() && *(#[trigger] entries@[i]).0 == item by {
                assert(all.contains((&item, &m[item])));
                let i = choose|i: int| 0 <= i < all.len() && all[i] == (&item, &m[item]);
                assert(*entries@[i].0 == item);
            }
        }
        entries
    }

    /// Whether two sets hold the same items with the same weights.
    pub fn same(&self, other: &ZSet<T>) -> (r: bool)
        requires
            hash::obeys_key_model::<T>(),
        ensures
            r == (self@ == other@),
    {
        let r = self.is_within(other) && other.is_within(self);
        assert(r ==> self@ =~= other@);
        r
    }

    /// Whether every item is in the other set, with the same weight.
    fn is_within(&self, other: &ZSet<T>) -> (r: bool)
        requires
            hash::obeys_key_model::<T>(),
        ensures
            r == forall|item: T| #[trigger]
                self@.contains_key(item) ==> other@.contains_key(item) && other@[item]
                    == self@[item],
    {
        let entries = self.iter();
        for i in 0..entries.len()
            invariant
                hash::obeys_key_model::<T>(),
                lists(entries@, self@),
                forall|j: int|
                    0 <= j < i ==> other@.contains_key(*(#[trigger] entries@[j]).0)
                        && other@[*entries@[j].0] == entries@[j].1,
        {
            let (item, w) = entries[i];
            assert(self@.contains_key(*entries@[i as int].0));
            match other.data.get(item) {
                Some(known) => if *known != w {
                    return false;
                },
                None => return false,
            }
        }
        assert forall|item: T| #[trigger] self@.contains_key(item) implies other@.contains_key(item)
            && other@[item] == self@[item] by {
            let i = choose|i: int| 0 <= i < entries@.len() && *(#[trigger] entries@[i]).0 == item;
            assert(other@.contains_key(*entries@[i].0));
        }
        true
    }

    /// Adds the weights of another set.
    pub fn merge(&mut self, other: &ZSet<T>)
        requires
            lawful::<T>(),
            old(self).valid(),
            forall|item: T|
                #[trigger] other@.contains_key(item) ==> fits(
                    self::weight(old(self)@, item) + other@[item],
                ),
        ensures
            final(self).valid(),
            forall|item: T|
                #![trigger self::weight(final(self)@, item)]
                self::weight(final(self)@, item) == self::weight(old(self)@, item) + self::weight(
                    other@,
                    item,
                ),
    {
        let entries = other.iter();
        let ghost start = self@;
        for i in 0..entries.len()
            invariant
                lawful::<T>(),
                self.valid(),
                lists(entries@, other@),
                forall|item: T|
                    #[trigger] other@.contains_key(item) ==> fits(
                        self::weight(start, item) + other@[item],
                    ),
                forall|item: T|
                    #![trigger self::weight(self@, item)]
                    self::weight(self@, item) == self::weight(start, item) + if listed(
                        entries@,
                        i as int,
                        item,
                    ) {
                        self::weight(other@, item)
                    } else {
                        0
                    },
        {
            let (item, w) = entries[i];
            let copy = item.clone();
            assert(cloned(*item, copy));
            proof {
                assert(*entries@[i as int].0 == copy);
                assert(other@.contains_key(copy));
                listing_grows(entries@, other@, i as int);
            }
            self.insert(copy, w);
        }
        proof {
            assert forall|item: T|
                #![trigger self::weight(self@, item)]
                self::weight(self@, item) == self::weight(start, item) + self::weight(
                    other@,
                    item,
                ) by {
                if other@.contains_key(item) {
                    assert(listed(entries@, entries@.len() as int, item));
                } else {
                    assert(!listed(entries@, entries@.len() as int, item));
                }
            }
        }
    }

    /// The set in which every item has as its weight how often it was given.
    pub fn from_items(items: Vec<T>) -> (r: Self)
        requires
            hash::obeys_key_model::<T>(),
            forall|item: T| #[trigger] occurrences(items@, item) <= i32::MAX,
        ensures
            r.valid(),
            forall|item: T|
                #![trigger self::weight(r@, item)]
                self::weight(r@, item) == occurrences(items@, item),
    {
        let ghost all = items@;
        let mut items = items;
        let mut zset = Self::new();
        while items.len() > 0
            invariant
                hash::obeys_key_model::<T>(),
                zset.valid(),
                forall|item: T| #[trigger] occurrences(all, item) <= i32::MAX,
                forall|item: T|
                    #![trigger self::weight(zset@, item)]
                    self::weight(zset@, item) + occurrences(items@, item) == occurrences(
                        all,
                        item,
                    ),
            decreases items@.len(),
        {
            let ghost before = items@;
            let item = items.pop().unwrap();
            proof {
                assert(items@ =~= before.drop_last());
                occurrences_count(items@, item);
                assert(self::weight(zset@, item) + occurrences(before, item) == occurrences(
                    all,
                    item,
                ));
            }
            zset.insert(item, 1);
        }
        zset
    }

    /// The items of positive weight, each of them once, in no particular order.
    pub fn to_vec(&self) -> (r: Vec<T>)
        requires
            lawful::<T>(),
        ensures
            r@.no_duplicates(),
            forall|item: T| #[trigger] r@.contains(item) <==> self::weight(self@, item) > 0,
    {
        let entries = self.iter();
        let mut items: Vec<T> = Vec::new();
        for i in 0..entries.len()
            invariant
                lawful::<T>(),
                lists(entries@, self@),
                items@.no_duplicates(),
                forall|item: T|
                    #[trigger] items@.contains(item) <==> listed(entries@, i as int, item)
                        && self::weight(self@, item) > 0,
        {
            let (item, w) = entries[i];
            let ghost before = items@;
            proof {
                assert(self@.contains_key(*entries@[i as int].0));
                listing_grows(entries@, self@, i as int);
            }
            if w > 0 {
                let copy = item.clone();
                assert(cloned(*item, copy));
                assert(!before.contains(copy));
                items.push(copy);
                proof {
                    assert(items@.no_duplicates()) by {
                        assert forall|a: int, b: int|
                            0 <= a < items@.len() && 0 <= b < items@.len() && a
                                != b implies items@[a] != items@[b] by {
                            if a == before.len() {
                                assert(before.contains(before[b]));
                            } else if b == before.len() {
                                assert(before.contains(before[a]));
                            }
                        }
                    }
                    assert forall|other: T|
                        #[trigger] items@.contains(other) <==> listed(
                            entries@,
                            i + 1,
                            other,
                        ) && self::weight(self@, other) > 0 by {
                        if items@.contains(other) {
                            let k = choose|k: int| 0 <= k < items@.len() && items@[k] == other;
                            if k < before.len() {
                                assert(before.contains(before[k]));
                            }
                        }
                        if before.contains(other) {
                            let k = choose|k: int| 0 <= k < before.len() && before[k] == other;
                            assert(items@[k] == other);
                        }
                        if other == copy {
                            assert(items@[before.len() as int] == other);
                        }
                    }
                }
            }
        }
        proof {
            assert forall|item: T| #[trigger] items@.contains(item) <==> self::weight(self@, item)
                > 0 by {
                if self@.contains_key(item) {
                    assert(listed(entries@, entries@.len() as int, item));
                }
            }
        }
        items
    }
}

/// One more entry lists one more item, which was not listed before.
proof fn listing_grows<T>(entries: Seq<(&T, i32)>, m: Map<T, i32>, n: int)
    requires
        lists(entries, m),
        0 <= n < entries.len(),
    ensures
        !listed(entries, n, *entries[n].0),
        forall|item: T| #[trigger]
            listed(entries, n + 1, item) <==> listed(entries, n, item) || item == *entries[n].0,
{
    assert forall|item: T| #[trigger]
        listed(entries, n + 1, item) <==> listed(entries, n, item) || item == *entries[n].0 by {
        if listed(entries, n, item) {
            let i = choose|i: int| 0 <= i < n && *(#[trigger] entries[i]).0 == item;
            assert(0 <= i < n + 1 && *entries[i].0 == item);
        }
        if item == *entries[n].0 {
            assert(0 <= n < n + 1 && *entries[n].0 == item);
        }
    }
}

pub proof fn occurrences_count<T>(items: Seq<T>, item: T)
    ensures
        occurrences(items, item) >= 0,
    decreases items.len(),
{
    if items.len() > 0 {
        occurrences_count(items.drop_last(), item);
    }
}

// ---------------------------------------------------------------------------
// Sums
// ---------------------------------------------------------------------------
/// The sum of `f` over a finite set.
pub open spec fn sum_over<T>(s: Set<T>, f: spec_fn(T) -> int) -> int
    decreases s.len(),
{
    if s.finite() && s.len() > 0 {
        let x = s.choose();
        f(x) + sum_over(s.remove(x), f)
    } else {
        0
    }
}

/// `f` where it is positive, and zero elsewhere.
pub open spec fn gain<T>(f: spec_fn(T) -> int) -> spec_fn(T) -> int {
    |x: T|
        if f(x) > 0 {
            f(x)
        } else {
            0
        }
}

/// `f` where it is negative, and zero elsewhere.
pub open spec fn loss<T>(f: spec_fn(T) -> int) -> spec_fn(T) -> int {
    |x: T|
        if f(x) < 0 {
            f(x)
        } else {
            0
        }
}

/// A sum can be taken in any order.
proof fn sum_takes_any_first<T>(s: Set<T>, f: spec_fn(T) -> int, x: T)
    requires
        s.finite(),
        s.contains(x),
    ensures
        sum_over(s, f) == f(x) + sum_over(s.remove(x), f),
    decreases s.len(),
{
    let y = s.choose();
    if x != y {
        sum_takes_any_first(s.remove(y), f, x);
        sum_takes_any_first(s.remove(x), f, y);
        assert(s.remove(y).remove(x) =~= s.remove(x).remove(y));
    }
}

/// A sum over some of a set lies between the losses and the gains of all of it.
proof fn partial_sum_is_bounded<T>(some: Set<T>, all: Set<T>, f: spec_fn(T) -> int)
    requires
        all.finite(),
        some.subset_of(all),
    ensures
        sum_over(all, loss(f)) <= sum_over(some, f) <= sum_over(all, gain(f)),
    decreases all.len(),
{
    if all.len() > 0 {
        let x = all.choose();
        let rest = all.remove(x);
        vstd::set_lib::lemma_set_subset_finite(all, some);
        if some.contains(x) {
            sum_takes_any_first(some, f, x);
            partial_sum_is_bounded(some.remove(x), rest, f);
        } else {
            partial_sum_is_bounded(some, rest, f);
        }
    } else {
        assert(some =~= Set::<T>::empty());
    }
}

/// Sums of what is the same are the same.
proof fn sums_agree<T>(s: Set<T>, f: spec_fn(T) -> int, g: spec_fn(T) -> int)
    requires
        s.finite(),
        forall|x: T| #[trigger] s.contains(x) ==> f(x) == g(x),
    ensures
        sum_over(s, f) == sum_over(s, g),
    decreases s.len(),
{
    if s.len() > 0 {
        let x = s.choose();
        assert(s.contains(x));
        sums_agree(s.remove(x), f, g);
    }
}

/// The sum of sums is the sum of the two sums.
proof fn sum_splits<T>(
    s: Set<T>,
    f: spec_fn(T) -> int,
    g: spec_fn(T) -> int,
    both: spec_fn(T) -> int,
)
    requires
        s.finite(),
        forall|x: T| #[trigger] s.contains(x) ==> both(x) == f(x) + g(x),
    ensures
        sum_over(s, both) == sum_over(s, f) + sum_over(s, g),
    decreases s.len(),
{
    if s.len() > 0 {
        let x = s.choose();
        assert(s.contains(x));
        sum_splits(s.remove(x), f, g, both);
    }
}

/// What is zero outside a smaller set can be summed over that set alone.
proof fn sum_within<T>(some: Set<T>, all: Set<T>, f: spec_fn(T) -> int)
    requires
        all.finite(),
        some.subset_of(all),
        forall|x: T| #[trigger] all.contains(x) && !some.contains(x) ==> f(x) == 0,
    ensures
        sum_over(all, f) == sum_over(some, f),
    decreases all.len(),
{
    vstd::set_lib::lemma_set_subset_finite(all, some);
    if all.len() > 0 {
        let x = all.choose();
        assert(all.contains(x));
        if some.contains(x) {
            sum_takes_any_first(some, f, x);
            sum_within(some.remove(x), all.remove(x), f);
        } else {
            sum_within(some, all.remove(x), f);
        }
    } else {
        assert(some =~= all);
    }
}

/// The images of a finite set lie in a finite set.
proof fn images_are_finite<T, U>(s: Set<T>, f: spec_fn(T) -> U) -> (r: Set<U>)
    requires
        s.finite(),
    ensures
        r.finite(),
        forall|x: T| #[trigger] s.contains(x) ==> r.contains(f(x)),
    decreases s.len(),
{
    if s.len() == 0 {
        assert(s =~= Set::empty());
        Set::empty()
    } else {
        let x = s.choose();
        let rest = images_are_finite(s.remove(x), f);
        let r = rest.insert(f(x));
        assert forall|y: T| #[trigger] s.contains(y) implies r.contains(f(y)) by {
            if y != x {
                assert(s.remove(x).contains(y));
            }
        }
        r
    }
}

// ---------------------------------------------------------------------------
// Streams
// ---------------------------------------------------------------------------
/// The images of the items of a set under a function: what it gave for each.
pub open spec fn images<T, U, F: Fn(&T) -> U>(
    f: F,
    m: Map<T, i32>,
    g: spec_fn(T) -> U,
) -> bool {
    forall|item: T| #[trigger] m.contains_key(item) ==> call_ensures(f, (&item,), g(item))
}

/// What an item adds to the weight of `to`, where it is mapped there.
pub open spec fn share<T, U>(
    m: Map<T, i32>,
    g: spec_fn(T) -> Option<(U, i32)>,
    to: U,
) -> spec_fn(T) -> int {
    |item: T|
        match g(item) {
            Some((u, w)) => if u == to {
                m[item] * w
            } else {
                0
            },
            None => 0,
        }
}

/// Whatever the order in which the images are added up, no weight overflows.
pub open spec fn adds_up<T, U>(m: Map<T, i32>, g: spec_fn(T) -> Option<(U, i32)>) -> bool {
    &&& forall|item: T| #[trigger]
        m.contains_key(item) ==> (g(item) matches Some((_, w)) ==> fits(m[item] * w))
    &&& forall|to: U|
        {
            &&& sum_over(m.dom(), gain(#[trigger] share(m, g, to))) <= i32::MAX
            &&& sum_over(m.dom(), loss(share(m, g, to))) >= i32::MIN
        }
}

/// A mapping to items as one to items of weight one.
pub open spec fn unweighted<T, U>(g: spec_fn(T) -> U) -> spec_fn(T) -> Option<(U, i32)> {
    |item: T| Some((g(item), 1i32))
}

/// The items of `r` are what `g` maps those of `m` to, with the weights that come
/// together added up.
pub open spec fn is_filter_mapped<T, U>(
    m: Map<T, i32>,
    g: spec_fn(T) -> Option<(U, i32)>,
    r: Map<U, i32>,
) -> bool {
    forall|to: U|
        #![trigger weight(r, to)]
        weight(r, to) == sum_over(m.dom(), share(m, g, to))
}

/// The same for a mapping that keeps the weights.
pub open spec fn is_mapped<T, U>(m: Map<T, i32>, g: spec_fn(T) -> U, r: Map<U, i32>) -> bool {
    is_filter_mapped(m, unweighted(g), r)
}

/// The items of `r` are those of `m` that are kept, with their weights.
pub open spec fn is_filtered<T>(m: Map<T, i32>, keep: spec_fn(T) -> bool, r: Map<T, i32>) -> bool {
    forall|item: T|
        #![trigger weight(r, item)]
        weight(r, item) == if keep(item) {
            weight(m, item)
        } else {
            0
        }
}

/// The state that a stream of changes has led to.
#[derive(Clone, Debug)]
pub struct Stream<T> {
    current: ZSet<T>,
}

impl<T> View for Stream<T> {
    type V = Map<T, i32>;

    closed spec fn view(&self) -> Map<T, i32> {
        self.current@
    }
}

/// Adds up the images of the entries of a set.
fn add_up<T, U: Hash + Eq + Clone>(
    entries: &Vec<(&T, i32)>,
    found: Vec<Option<(U, i32)>>,
    m: Ghost<Map<T, i32>>,
    g: Ghost<spec_fn(T) -> Option<(U, i32)>>,
) -> (r: ZSet<U>)
    requires
        hash::obeys_key_model::<U>(),
        lists(entries@, m@),
        found@.len() == entries@.len(),
        forall|i: int| 0 <= i < found@.len() ==> g@(*(#[trigger] entries@[i]).0) == found@[i],
        adds_up(m@, g@),
    ensures
        r.valid(),
        forall|to: U|
            #![trigger weight(r@, to)]
            weight(r@, to) == sum_over(m@.dom(), share(m@, g@, to)),
{
    let ghost map = m@;
    let ghost image = g@;
    let ghost given = found@;
    let mut found = found;
    let mut result: ZSet<U> = ZSet::new();
    let ghost mut visited: Set<T> = Set::empty();
    for i in 0..entries.len()
        invariant
            hash::obeys_key_model::<U>(),
            lists(entries@, map),
            adds_up(map, image),
            given.len() == entries@.len(),
            found@.len() == entries@.len(),
            forall|j: int| i <= j < found@.len() ==> #[trigger] found@[j] == given[j],
            forall|j: int|
                0 <= j < given.len() ==> image(*(#[trigger] entries@[j]).0) == given[j],
            visited.finite(),
            forall|item: T| #[trigger]
                visited.contains(item) <==> listed(entries@, i as int, item),
            result.valid(),
            forall|to: U|
                #![trigger weight(result@, to)]
                weight(result@, to) == sum_over(visited, share(map, image, to)),
    {
        let (item, w) = entries[i];
        let mut slot: Option<(U, i32)> = None;
        std::mem::swap(&mut found[i], &mut slot);
        let ghost before = visited;
        proof {
            assert(*entries@[i as int].0 == *item && entries@[i as int].1 == w);
            assert(map.contains_key(*item));
            assert(image(*item) == slot);
            listing_grows(entries@, map, i as int);
            visited = visited.insert(*item);
            assert(before =~= visited.remove(*item));
            assert(visited.subset_of(map.dom())) by {
                assert forall|x: T| visited.contains(x) implies map.dom().contains(x) by {
                    assert(listed(entries@, i + 1, x));
                    let j = choose|j: int| 0 <= j < i + 1 && *(#[trigger] entries@[j]).0 == x;
                    assert(map.contains_key(*entries@[j].0));
                }
            }
            domain_is_finite(entries@, map);
            assert forall|to: U| #[trigger] sum_over(visited, share(map, image, to)) == share(
                map,
                image,
                to,
            )(*item) + sum_over(before, share(map, image, to)) by {
                sum_takes_any_first(visited, share(map, image, to), *item);
            }
        }
        if let Some((to, factor)) = slot {
            proof {
                let f = share(map, image, to);
                partial_sum_is_bounded(visited, map.dom(), f);
                assert(f(*item) == w * factor);
                assert(fits(w * factor));
                assert(weight(result@, to) == sum_over(before, f));
                assert(sum_over(map.dom(), gain(f)) <= i32::MAX);
            }
            result.insert(to, w * factor);
        }
    }
    proof {
        assert(visited =~= map.dom()) by {
            assert forall|x: T| visited.contains(x) <==> map.dom().contains(x) by {
                if map.contains_key(x) {
                    assert(listed(entries@, entries@.len() as int, x));
                }
                if visited.contains(x) {
                    let n = entries@.len() as int;
                    let j = choose|j: int| 0 <= j < n && *(#[trigger] entries@[j]).0 == x;
                    assert(map.contains_key(*entries@[j].0));
                }
            }
        }
    }
    result
}

/// What has a listing is finite.
proof fn domain_is_finite<T>(entries: Seq<(&T, i32)>, m: Map<T, i32>)
    requires
        lists(entries, m),
    ensures
        m.dom().finite(),
{
    let keys = Seq::new(entries.len(), |i: int| *entries[i].0);
    vstd::seq_lib::seq_to_set_is_finite(keys);
    assert(m.dom().subset_of(keys.to_set())) by {
        assert forall|item: T| m.dom().contains(item) implies keys.to_set().contains(item) by {
            let i = choose|i: int| 0 <= i < entries.len() && *(#[trigger] entries[i]).0 == item;
            assert(keys[i] == item);
            assert(keys.contains(item));
        }
    }
    vstd::set_lib::lemma_set_subset_finite(keys.to_set(), m.dom());
}

impl<T: Hash + Eq + Clone> Stream<T> {
    /// No item has the weight zero.
    pub open spec fn valid(&self) -> bool {
        no_zeros(self@)
    }

    /// A stream without items.
    pub fn new() -> (r: Self)
        requires
            hash::obeys_key_model::<T>(),
        ensures
            r.valid(),
            r@ == Map::<T, i32>::empty(),
    {
        Stream { current: ZSet::new() }
    }

    /// The stream that has led to the given state.
    pub fn from_zset(zset: ZSet<T>) -> (r: Self)
        ensures
            r@ == zset@,
            zset.valid() ==> r.valid(),
    {
        Stream { current: zset }
    }

    /// The weight of an item; zero if it is not there.
    pub fn weight_of(&self, item: &T) -> (r: i32)
        requires
            hash::obeys_key_model::<T>(),
        ensures
            r == weight(self@, *item),
    {
        self.current.weight_of(item)
    }

    /// Applies a change.
    pub fn apply_delta(&mut self, delta: &ZSet<T>)
        requires
            lawful::<T>(),
            old(self).valid(),
            forall|item: T|
                #[trigger] delta@.contains_key(item) ==> fits(
                    weight(old(self)@, item) + delta@[item],
                ),
        ensures
            final(self).valid(),
            forall|item: T|
                #![trigger weight(final(self)@, item)]
                weight(final(self)@, item) == weight(old(self)@, item) + weight(delta@, item),
    {
        self.current.merge(delta);
    }

    /// The items of positive weight, each of them once, in no particular order.
    pub fn to_vec(&self) -> (r: Vec<T>)
        requires
            lawful::<T>(),
        ensures
            r@.no_duplicates(),
            forall|item: T| #[trigger] r@.contains(item) <==> weight(self@, item) > 0,
    {
        self.current.to_vec()
    }

    /// Adds an item once.
    pub fn push(&mut self, item: T)
        requires
            hash::obeys_key_model::<T>(),
            old(self).valid(),
            weight(old(self)@, item) < i32::MAX,
        ensures
            final(self).valid(),
            forall|other: T|
                #![trigger weight(final(self)@, other)]
                weight(final(self)@, other) == weight(old(self)@, other) + if other == item {
                    1int
                } else {
                    0
                },
    {
        self.current.insert(item, 1);
    }

    /// Maps the items, each with a factor for its weight, or drops them. Weights
    /// that come together are added up.
    pub fn filter_map<U, F>(&self, f: F) -> (r: Stream<U>) where
        U: Hash + Eq + Clone,
        F: Fn(&T) -> Option<(U, i32)>,

        requires
            hash::obeys_key_model::<T>(),
            hash::obeys_key_model::<U>(),
            forall|item: T| #[trigger] self@.contains_key(item) ==> call_requires(f, (&item,)),
            forall|g: spec_fn(T) -> Option<(U, i32)>| #[trigger]
                images(f, self@, g) ==> adds_up(self@, g),
        ensures
            r.valid(),
            exists|g: spec_fn(T) -> Option<(U, i32)>|
                #![trigger images(f, self@, g)]
                images(f, self@, g) && is_filter_mapped(self@, g, r@),
    {
        let entries = self.current.iter();
        let ghost m = self@;
        let mut found: Vec<Option<(U, i32)>> = Vec::new();
        for i in 0..entries.len()
            invariant
                m == self@,
                lists(entries@, m),
                forall|item: T| #[trigger] m.contains_key(item) ==> call_requires(f, (&item,)),
                found@.len() == i,
                forall|j: int|
                    0 <= j < i ==> call_ensures(f, (entries@[j].0,), #[trigger] found@[j]),
        {
            assert(m.contains_key(*entries@[i as int].0));
            found.push(f(entries[i].0));
        }
        let ghost g = |item: T|
            found@[choose|i: int| 0 <= i < entries@.len() && *(#[trigger] entries@[i]).0 == item];
        proof {
            assert forall|i: int| 0 <= i < found@.len() implies g(*(#[trigger] entries@[i]).0)
                == found@[i] by {
                let item = *entries@[i].0;
                let k = choose|k: int|
                    0 <= k < entries@.len() && *(#[trigger] entries@[k]).0 == item;
                assert(k == i);
            }
            assert forall|item: T| #[trigger] m.contains_key(item) implies call_ensures(
                f,
                (&item,),
                g(item),
            ) by {
                let k = choose|k: int|
                    0 <= k < entries@.len() && *(#[trigger] entries@[k]).0 == item;
                assert(call_ensures(f, (entries@[k].0,), found@[k]));
            }
            assert(images(f, m, g));
        }
        Stream { current: add_up(&entries, found, Ghost(m), Ghost(g)) }
    }

    /// Maps the items. Weights that come together are added up.
    pub fn map<U, F>(&self, f: F) -> (r: Stream<U>) where
        U: Hash + Eq + Clone,
        F: Fn(&T) -> U,

        requires
            hash::obeys_key_model::<T>(),
            hash::obeys_key_model::<U>(),
            forall|item: T| #[trigger] self@.contains_key(item) ==> call_requires(f, (&item,)),
            forall|g: spec_fn(T) -> U| #[trigger]
                images(f, self@, g) ==> adds_up(self@, unweighted(g)),
        ensures
            r.valid(),
            exists|g: spec_fn(T) -> U|
                #![trigger images(f, self@, g)]
                images(f, self@, g) && is_mapped(self@, g, r@),
    {
        let entries = self.current.iter();
        let ghost m = self@;
        let mut found: Vec<Option<(U, i32)>> = Vec::new();
        for i in 0..entries.len()
            invariant
                m == self@,
                lists(entries@, m),
                forall|item: T| #[trigger] m.contains_key(item) ==> call_requires(f, (&item,)),
                found@.len() == i,
                forall|j: int|
                    0 <= j < i ==> ((#[trigger] found@[j]) matches Some((u, w)) && w == 1
                        && call_ensures(f, (entries@[j].0,), u)),
        {
            assert(m.contains_key(*entries@[i as int].0));
            found.push(Some((f(entries[i].0), 1)));
        }
        let ghost g = |item: T|
            (found@[choose|i: int|
                0 <= i < entries@.len() && *(#[trigger] entries@[i]).0 == item]->0).0;
        proof {
            assert forall|i: int| 0 <= i < found@.len() implies unweighted(g)(
                *(#[trigger] entries@[i]).0,
            ) == found@[i] by {
                let item = *entries@[i].0;
                let k = choose|k: int|
                    0 <= k < entries@.len() && *(#[trigger] entries@[k]).0 == item;
                assert(k == i);
                assert(found@[i] matches Some((u, w)) && w == 1);
            }
            assert forall|item: T| #[trigger] m.contains_key(item) implies call_ensures(
                f,
                (&item,),
                g(item),
            ) by {
                let k = choose|k: int|
                    0 <= k < entries@.len() && *(#[trigger] entries@[k]).0 == item;
                assert(found@[k] matches Some((u, w)) && call_ensures(f, (entries@[k].0,), u));
            }
            assert(images(f, m, g));
        }
        Stream { current: add_up(&entries, found, Ghost(m), Ghost(unweighted(g))) }
    }

    /// Keeps the items for which the predicate holds, with their weights.
    pub fn filter<F>(&self, predicate: F) -> (r: Stream<T>) where F: Fn(&T) -> bool
        requires
            lawful::<T>(),
            self.valid(),
            forall|item: T| #[trigger]
                self@.contains_key(item) ==> call_requires(predicate, (&item,)),
        ensures
            r.valid(),
            exists|g: spec_fn(T) -> bool|
                #![trigger images(predicate, self@, g)]
                images(predicate, self@, g) && is_filtered(self@, g, r@),
    {
        let entries = self.current.iter();
        let ghost m = self@;
        let mut result: ZSet<T> = ZSet::new();
        let ghost mut kept: Seq<bool> = seq![];
        for i in 0..entries.len()
            invariant
                lawful::<T>(),
                m == self@,
                lists(entries@, m),
                result.valid(),
                forall|item: T| #[trigger]
                    m.contains_key(item) ==> call_requires(predicate, (&item,)),
                kept.len() == i,
                forall|j: int|
                    0 <= j < i ==> call_ensures(predicate, (entries@[j].0,), #[trigger] kept[j]),
                forall|j: int|
                    0 <= j < i ==> weight(result@, *(#[trigger] entries@[j]).0) == if kept[j] {
                        entries@[j].1 as int
                    } else {
                        0
                    },
                forall|item: T|
                    #![trigger weight(result@, item)]
                    !listed(entries@, i as int, item) ==> weight(result@, item) == 0,
        {
            let (item, w) = entries[i];
            proof {
                assert(*entries@[i as int].0 == *item && entries@[i as int].1 == w);
                assert(m.contains_key(*item));
                listing_grows(entries@, m, i as int);
            }
            let keep = predicate(item);
            let ghost before = result@;
            if keep {
                let copy = item.clone();
                assert(cloned(*item, copy));
                result.insert(copy, w);
            }
            proof {
                kept = kept.push(keep);
                assert forall|j: int| 0 <= j < i + 1 implies weight(
                    result@,
                    *(#[trigger] entries@[j]).0,
                ) == if kept[j] {
                    entries@[j].1 as int
                } else {
                    0
                } by {
                    if j < i {
                        assert(*entries@[j].0 != *entries@[i as int].0);
                        assert(weight(before, *entries@[j].0) == if kept[j] {
                            entries@[j].1 as int
                        } else {
                            0
                        });
                    } else {
                        assert(weight(before, *item) == 0);
                    }
                }
            }
        }
        proof {
            let g = |item: T|
                kept[choose|i: int| 0 <= i < entries@.len() && *(#[trigger] entries@[i]).0 == item];
            assert forall|item: T| #[trigger] m.contains_key(item) implies call_ensures(
                predicate,
                (&item,),
                g(item),
            ) by {
                let k = choose|k: int|
                    0 <= k < entries@.len() && *(#[trigger] entries@[k]).0 == item;
                assert(call_ensures(predicate, (entries@[k].0,), kept[k]));
            }
            assert(images(predicate, m, g));
            assert forall|item: T|
                #![trigger weight(result@, item)]
                weight(result@, item) == if g(item) {
                    weight(m, item)
                } else {
                    0
                } by {
                if m.contains_key(item) {
                    let k = choose|k: int|
                        0 <= k < entries@.len() && *(#[trigger] entries@[k]).0 == item;
                    assert(m[*entries@[k].0] == entries@[k].1);
                } else {
                    assert(!listed(entries@, entries@.len() as int, item)) by {
                        if listed(entries@, entries@.len() as int, item) {
                            let n = entries@.len() as int;
                            let k = choose|k: int|
                                0 <= k < n && *(#[trigger] entries@[k]).0 == item;
                            assert(m.contains_key(*entries@[k].0));
                        }
                    }
                }
            }
        }
        Stream { current: result }
    }
}

// ---------------------------------------------------------------------------
// Laws of changes
// ---------------------------------------------------------------------------
/// The item weights of `c` are those of `a` and `b` added up.
pub open spec fn is_sum<T>(a: Map<T, i32>, b: Map<T, i32>, c: Map<T, i32>) -> bool {
    forall|item: T|
        #![trigger weight(c, item)]
        weight(c, item) == weight(a, item) + weight(b, item)
}

/// A set is known by its weights.
pub proof fn weights_decide<T>(a: Map<T, i32>, b: Map<T, i32>)
    requires
        no_zeros(a),
        no_zeros(b),
        forall|item: T| #![trigger weight(a, item)] weight(a, item) == weight(b, item),
    ensures
        a == b,
{
    assert forall|item: T| a.contains_key(item) <==> b.contains_key(item) by {
        assert(weight(a, item) == weight(b, item));
    }
    assert forall|item: T| a.contains_key(item) implies a[item] == b[item] by {
        assert(weight(a, item) == weight(b, item));
    }
    assert(a =~= b);
}

/// It does not matter in which order two changes are applied.
pub proof fn changes_commute<T>(
    start: Map<T, i32>,
    a: Map<T, i32>,
    b: Map<T, i32>,
    after_a: Map<T, i32>,
    after_b: Map<T, i32>,
    a_then_b: Map<T, i32>,
    b_then_a: Map<T, i32>,
)
    requires
        no_zeros(a_then_b),
        no_zeros(b_then_a),
        is_sum(start, a, after_a),
        is_sum(after_a, b, a_then_b),
        is_sum(start, b, after_b),
        is_sum(after_b, a, b_then_a),
    ensures
        a_then_b == b_then_a,
{
    assert forall|item: T|
        #![trigger weight(a_then_b, item)]
        weight(a_then_b, item) == weight(b_then_a, item) by {
        assert(weight(after_a, item) == weight(start, item) + weight(a, item));
        assert(weight(after_b, item) == weight(start, item) + weight(b, item));
        assert(weight(b_then_a, item) == weight(after_b, item) + weight(a, item));
    }
    weights_decide(a_then_b, b_then_a);
}

/// A change and its opposite leave everything as it was.
pub proof fn opposite_change_undoes<T>(
    start: Map<T, i32>,
    change: Map<T, i32>,
    opposite: Map<T, i32>,
    changed: Map<T, i32>,
    end: Map<T, i32>,
)
    requires
        no_zeros(start),
        no_zeros(end),
        is_sum(start, change, changed),
        is_sum(changed, opposite, end),
        forall|item: T|
            #![trigger weight(opposite, item)]
            weight(opposite, item) == -weight(change, item),
    ensures
        end == start,
{
    assert forall|item: T| #![trigger weight(end, item)] weight(end, item) == weight(start, item) by {
        assert(weight(changed, item) == weight(start, item) + weight(change, item));
        assert(weight(opposite, item) == -weight(change, item));
    }
    weights_decide(end, start);
}

/// A filtered state can be kept up to date with the filtered changes alone.
pub proof fn filtering_follows_changes<T>(
    keep: spec_fn(T) -> bool,
    start: Map<T, i32>,
    change: Map<T, i32>,
    end: Map<T, i32>,
    filtered_start: Map<T, i32>,
    filtered_change: Map<T, i32>,
    filtered_end: Map<T, i32>,
    followed: Map<T, i32>,
)
    requires
        no_zeros(filtered_end),
        no_zeros(followed),
        is_sum(start, change, end),
        is_filtered(start, keep, filtered_start),
        is_filtered(change, keep, filtered_change),
        is_filtered(end, keep, filtered_end),
        is_sum(filtered_start, filtered_change, followed),
    ensures
        followed == filtered_end,
{
    assert forall|item: T|
        #![trigger weight(followed, item)]
        weight(followed, item) == weight(filtered_end, item) by {
        assert(weight(end, item) == weight(start, item) + weight(change, item));
        assert(weight(filtered_start, item) + weight(filtered_change, item) == weight(
            filtered_end,
            item,
        ));
    }
    weights_decide(followed, filtered_end);
}

/// What `g` makes of the weights that the items of `s` have under `f`.
spec fn regrouped<T, U, V>(
    m: Map<T, i32>,
    s: Set<T>,
    f: spec_fn(T) -> U,
    g: spec_fn(U) -> V,
    to: V,
) -> spec_fn(U) -> int {
    |u: U|
        if g(u) == to {
            sum_over(s, share(m, unweighted(f), u))
        } else {
            0
        }
}

/// Adding up the weights by their images first, and then what comes together of
/// those, is adding up all of them.
proof fn regrouping_keeps_sums<T, U, V>(
    m: Map<T, i32>,
    s: Set<T>,
    f: spec_fn(T) -> U,
    g: spec_fn(U) -> V,
    to: V,
    groups: Set<U>,
)
    requires
        s.finite(),
        groups.finite(),
        forall|x: T| #[trigger] s.contains(x) ==> groups.contains(f(x)),
    ensures
        sum_over(groups, regrouped(m, s, f, g, to)) == sum_over(
            s,
            share(m, unweighted(|x: T| g(f(x))), to),
        ),
    decreases s.len(),
{
    let all = regrouped(m, s, f, g, to);
    if s.len() == 0 {
        let none = Set::<U>::empty();
        sum_within(none, groups, all);
    } else {
        let x = s.choose();
        let rest = s.remove(x);
        let later = regrouped(m, rest, f, g, to);
        let first = |u: U|
            if g(u) == to {
                share(m, unweighted(f), u)(x)
            } else {
                0
            };
        assert(s.contains(x));
        assert forall|u: U| #[trigger] groups.contains(u) implies all(u) == first(u) + later(
            u,
        ) by {
            sum_takes_any_first(s, share(m, unweighted(f), u), x);
        }
        sum_splits(groups, first, later, all);
        regrouping_keeps_sums(m, rest, f, g, to, groups);
        let one = Set::<U>::empty().insert(f(x));
        sum_within(one, groups, first);
        sum_takes_any_first(one, first, f(x));
        assert(one.remove(f(x)) =~= Set::<U>::empty());
        sum_takes_any_first(s, share(m, unweighted(|x: T| g(f(x))), to), x);
    }
}

/// Mapping by `f` and then by `g` gives what mapping by the one after the other
/// gives.
pub proof fn mapping_twice_is_mapping_once<T, U, V>(
    s: Stream<T>,
    f: spec_fn(T) -> U,
    g: spec_fn(U) -> V,
    middle: Stream<U>,
    twice: Stream<V>,
    once: Stream<V>,
)
    requires
        no_zeros(twice@),
        no_zeros(once@),
        is_mapped(s@, f, middle@),
        is_mapped(middle@, g, twice@),
        is_mapped(s@, |x: T| g(f(x)), once@),
    ensures
        twice@ == once@,
{
    let m = s@;
    assert(m.dom().finite());
    assert(middle@.dom().finite());
    let reached = images_are_finite(m.dom(), f);
    let groups = reached.union(middle@.dom());
    assert forall|to: V| #![trigger weight(twice@, to)] weight(twice@, to) == weight(
        once@,
        to,
    ) by {
        let all = regrouped(m, m.dom(), f, g, to);
        let held = share(middle@, unweighted(g), to);
        assert forall|u: U| #[trigger] groups.contains(u) && !middle@.dom().contains(u) implies all(
            u,
        ) == 0 by {
            assert(weight(middle@, u) == 0);
        }
        sum_within(middle@.dom(), groups, all);
        assert forall|u: U| #[trigger] middle@.dom().contains(u) implies all(u) == held(u) by {
            assert(weight(middle@, u) == middle@[u]);
        }
        sums_agree(middle@.dom(), all, held);
        regrouping_keeps_sums(m, m.dom(), f, g, to, groups);
        assert(weight(once@, to) == sum_over(
            m.dom(),
            share(m, unweighted(|x: T| g(f(x))), to),
        ));
    }
    weights_decide(twice@, once@);
}

/// Mapping is what filtering and mapping gives where nothing is dropped and every
/// factor is one: weights of items that are mapped to one item are added up.
pub proof fn mapping_is_filter_mapping_with_factor_one<T, U>(
    s: Stream<T>,
    f: spec_fn(T) -> U,
    mapped: Stream<U>,
    filter_mapped: Stream<U>,
)
    requires
        no_zeros(mapped@),
        no_zeros(filter_mapped@),
        is_mapped(s@, f, mapped@),
        is_filter_mapped(s@, |x: T| Some((f(x), 1i32)), filter_mapped@),
    ensures
        mapped@ == filter_mapped@,
{
    weights_decide(mapped@, filter_mapped@);
}

/// What a stream is mapped to depends on the images of its own items alone.
pub proof fn images_decide<T, U>(
    s: Stream<T>,
    g: spec_fn(T) -> Option<(U, i32)>,
    h: spec_fn(T) -> Option<(U, i32)>,
    r: Stream<U>,
)
    requires
        forall|item: T| #[trigger] s@.contains_key(item) ==> g(item) == h(item),
        is_filter_mapped(s@, g, r@),
    ensures
        is_filter_mapped(s@, h, r@),
{
    assert forall|to: U|
        #![trigger weight(r@, to)]
        weight(r@, to) == sum_over(s@.dom(), share(s@, h, to)) by {
        assert forall|item: T| #[trigger] s@.dom().contains(item) implies share(s@, g, to)(item)
            == share(s@, h, to)(item) by {
            assert(s@.contains_key(item));
        }
        sums_agree(s@.dom(), share(s@, g, to), share(s@, h, to));
    }
}

} // verus!
