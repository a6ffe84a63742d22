//! The prepared statements of a connection.

use std::collections::HashMap;

use vstd::prelude::*;

use crate::protocol::resultset::ColumnDefinition;

verus! {

/// A prepared statement: what the engine holds, and what was learnt when it was
/// prepared.
#[derive(Debug)]
pub struct Prepared<S> {
    pub statement: S,
    /// The result columns.
    pub columns: Vec<ColumnDefinition>,
    /// The number of parameters.
    pub num_params: usize,
}

/// The prepared statements of a connection, by their ids.
#[derive(Debug)]
pub struct StatementStore<S> {
    next_id: u32,
    map: HashMap<u32, Prepared<S>>,
}

/// Gives access to an entry of a map. This is `HashMap::get_mut`: where the map
/// has the key, the reference is to its value, and what is written there is the
/// only change to the map; where it has not, the map stays as it is.
#[verifier::external_body]
fn entry_mut<S>(map: &mut HashMap<u32, Prepared<S>>, id: u32) -> (r: Option<&mut Prepared<S>>)
    ensures
        match r {
            Some(entry) => old(map)@.contains_key(id) && *entry == old(map)@[id] && final(map)@
                == old(map)@.insert(id, *final(entry)),
            None => !old(map)@.contains_key(id) && final(map)@ == old(map)@,
        },
{
    map.get_mut(&id)
}

impl<S> StatementStore<S> {
    /// The statements by their ids.
    pub closed spec fn map(self) -> Map<u32, Prepared<S>> {
        self.map@
    }

    /// The last id that was given out.
    pub closed spec fn last_id(self) -> u32 {
        self.next_id
    }

    /// No statement has an id that was not given out.
    pub open spec fn valid(self) -> bool {
        forall|id: u32| #[trigger] self.map().contains_key(id) ==> 0 < id <= self.last_id()
    }

    /// A store without statements.
    pub fn new() -> (r: Self)
        ensures
            r.valid(),
            r.map() == Map::<u32, Prepared<S>>::empty(),
            r.last_id() == 0,
    {
        StatementStore { next_id: 0, map: HashMap::new() }
    }

    /// Whether another statement can be given an id.
    pub fn has_room(&self) -> (r: bool)
        ensures
            r == (self.last_id() < u32::MAX),
    {
        self.next_id < u32::MAX
    }

    /// Keeps a statement under a new id, and gives that id.
    pub fn insert(&mut self, prepared: Prepared<S>) -> (id: u32)
        requires
            old(self).valid(),
            old(self).last_id() < u32::MAX,
        ensures
            final(self).valid(),
            id == old(self).last_id() + 1,
            final(self).last_id() == id,
            !old(self).map().contains_key(id),
            final(self).map() == old(self).map().insert(id, prepared),
    {
        broadcast use vstd::std_specs::hash::group_hash_axioms;

        self.next_id = self.next_id + 1;
        let id: u32 = self.next_id;
        self.map.insert(id, prepared);
        assert forall|known: u32| #[trigger] self.map().contains_key(known) implies 0 < known
            <= self.last_id() by {
            assert(known == id || old(self).map().contains_key(known));
        }
        id
    }

    /// The statement with the given id.
    pub fn get(&self, id: u32) -> (r: Option<&Prepared<S>>)
        ensures
            match r {
                Some(p) => self.map().contains_key(id) && *p == self.map()[id],
                None => !self.map().contains_key(id),
            },
    {
        broadcast use vstd::std_specs::hash::group_hash_axioms;

        self.map.get(&id)
    }

    /// The statement with the given id, to be changed.
    pub fn get_mut(&mut self, id: u32) -> (r: Option<&mut Prepared<S>>)
        ensures
            final(self).last_id() == old(self).last_id(),
            match r {
                Some(p) => {
                    &&& old(self).map().contains_key(id)
                    &&& *p == old(self).map()[id]
                    &&& final(self).map() == old(self).map().insert(id, *final(p))
                },
                None => !old(self).map().contains_key(id) && final(self).map() == old(self).map(),
            },
    {
        entry_mut(&mut self.map, id)
    }

    /// Drops the statement with the given id, if there is one.
    pub fn close(&mut self, id: u32)
        ensures
            final(self).last_id() == old(self).last_id(),
            final(self).map() == old(self).map().remove(id),
            old(self).valid() ==> final(self).valid(),
    {
        broadcast use vstd::std_specs::hash::group_hash_axioms;

        self.map.remove(&id);
    }
}

} // verus!
