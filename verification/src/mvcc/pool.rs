//! A pool of delta records, kept for reuse.

use vstd::prelude::*;

use crate::mvcc::page::Node;

verus! {

/// The most insertion records that are kept.
pub const INSERT_POOL: usize = 64;

/// The most deletion records that are kept.
pub const DELETE_POOL: usize = 32;

/// Records of insertions and of deletions, the last returned first.
#[derive(Debug)]
pub struct DeltaPool {
    insert_pool: Vec<Box<Node>>,
    delete_pool: Vec<Box<Node>>,
}

impl DeltaPool {
    /// The records of insertions.
    pub closed spec fn inserts(self) -> Seq<Box<Node>> {
        self.insert_pool@
    }

    /// The records of deletions.
    pub closed spec fn deletes(self) -> Seq<Box<Node>> {
        self.delete_pool@
    }

    /// The pools hold records of their kind, and not too many.
    pub open spec fn valid(self) -> bool {
        &&& self.inserts().len() <= INSERT_POOL
        &&& self.deletes().len() <= DELETE_POOL
        &&& forall|i: int|
            0 <= i < self.inserts().len() ==> *(#[trigger] self.inserts()[i]) is InsertDelta
        &&& forall|i: int|
            0 <= i < self.deletes().len() ==> *(#[trigger] self.deletes()[i]) is DeleteDelta
    }

    /// A pool without records.
    pub fn new() -> (r: Self)
        ensures
            r.valid(),
            r.inserts().len() == 0,
            r.deletes().len() == 0,
    {
        DeltaPool {
            insert_pool: Vec::with_capacity(INSERT_POOL),
            delete_pool: Vec::with_capacity(DELETE_POOL),
        }
    }

    /// Takes a record of an insertion, if there is one.
    pub fn get_insert_node(&mut self) -> (r: Option<Box<Node>>)
        requires
            old(self).valid(),
        ensures
            final(self).valid(),
            final(self).deletes() == old(self).deletes(),
            match r {
                Some(node) => old(self).inserts() == final(self).inserts().push(node),
                None => old(self).inserts().len() == 0 && final(self).inserts().len() == 0,
            },
    {
        let r = self.insert_pool.pop();
        proof {
            assert(forall|i: int| 0 <= i < self.inserts().len() ==> self.inserts()[i]
                == #[trigger] old(self).inserts()[i]);
            if r is Some {
                assert(old(self).inserts() =~= self.inserts().push(r->0));
            }
        }
        r
    }

    /// Takes a record of a deletion, if there is one.
    pub fn get_delete_node(&mut self) -> (r: Option<Box<Node>>)
        requires
            old(self).valid(),
        ensures
            final(self).valid(),
            final(self).inserts() == old(self).inserts(),
            match r {
                Some(node) => old(self).deletes() == final(self).deletes().push(node),
                None => old(self).deletes().len() == 0 && final(self).deletes().len() == 0,
            },
    {
        let r = self.delete_pool.pop();
        proof {
            assert(forall|i: int| 0 <= i < self.deletes().len() ==> self.deletes()[i]
                == #[trigger] old(self).deletes()[i]);
            if r is Some {
                assert(old(self).deletes() =~= self.deletes().push(r->0));
            }
        }
        r
    }

    /// Gives a record back. It is dropped if the pool of its kind is full, or if
    /// there is none.
    pub fn return_node(&mut self, node: Box<Node>)
        requires
            old(self).valid(),
        ensures
            final(self).valid(),
            final(self).inserts() == if *node is InsertDelta && old(self).inserts().len()
                < INSERT_POOL {
                old(self).inserts().push(node)
            } else {
                old(self).inserts()
            },
            final(self).deletes() == if *node is DeleteDelta && old(self).deletes().len()
                < DELETE_POOL {
                old(self).deletes().push(node)
            } else {
                old(self).deletes()
            },
    {
        let is_insert = matches!(&*node, Node::InsertDelta(_));
        let is_delete = matches!(&*node, Node::DeleteDelta(_));
        if is_insert && self.insert_pool.len() < INSERT_POOL {
            self.insert_pool.push(node);
        } else if is_delete && self.delete_pool.len() < DELETE_POOL {
            self.delete_pool.push(node);
        }
    }
}

/// At most 64 records of insertions and 32 of deletions are kept.
pub proof fn pools_are_bounded(pool: DeltaPool)
    requires
        pool.valid(),
    ensures
        pool.inserts().len() <= 64,
        pool.deletes().len() <= 32,
{
}

} // verus!
