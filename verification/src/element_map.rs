//! The identifier map: a dense array from small integer ids to nodes of the
//! host tree, with a sentinel in the slots that no node was assigned to.

use vstd::prelude::*;
use crate::host::UNASSIGNED;

verus! {

/// `slots` grown with the sentinel, where needed, until it has a slot `id`.
pub open spec fn grown(slots: Seq<u64>, id: int) -> Seq<u64> {
    if id < slots.len() {
        slots
    } else {
        slots + Seq::new((id + 1 - slots.len()) as nat, |i: int| UNASSIGNED)
    }
}

/// The slots after `node` was assigned to `id`.
pub open spec fn assigned(slots: Seq<u64>, id: int, node: u64) -> Seq<u64> {
    grown(slots, id).update(id, node)
}

/// The node that `id` stands for: the one in its slot, unless the slot is
/// missing or holds the sentinel.
pub open spec fn lookup(slots: Seq<u64>, id: int) -> Option<u64> {
    if 0 <= id < slots.len() && slots[id] != UNASSIGNED {
        Some(slots[id])
    } else {
        None
    }
}

/// The slots after each of `writes`, an id and a node, was assigned in turn,
/// starting from `slots`.
pub open spec fn assigned_all(slots: Seq<u64>, writes: Seq<(usize, u64)>) -> Seq<u64>
    decreases writes.len(),
{
    if writes.len() == 0 {
        slots
    } else {
        assigned(assigned_all(slots, writes.drop_last()), writes.last().0 as int, writes.last().1)
    }
}

/// Whether one of `writes` assigns to `id`.
pub open spec fn writes_to(writes: Seq<(usize, u64)>, id: int) -> bool {
    exists|k: int| 0 <= k < writes.len() && (#[trigger] writes[k]).0 == id
}

/// The number of slots that `writes` need: one more than the highest id they
/// assign to.
pub open spec fn slots_needed(writes: Seq<(usize, u64)>) -> int
    decreases writes.len(),
{
    if writes.len() == 0 {
        0
    } else if writes.last().0 + 1 > slots_needed(writes.drop_last()) {
        writes.last().0 + 1
    } else {
        slots_needed(writes.drop_last())
    }
}

#[derive(Debug)]
pub struct ElementMap {
    entities: Vec<u64>,
}

impl View for ElementMap {
    type V = Seq<u64>;

    closed spec fn view(&self) -> Seq<u64> {
        self.entities@
    }
}

impl Default for ElementMap {
    fn default() -> (map: Self)
        ensures
            map@ == Seq::<u64>::empty(),
    {
        ElementMap { entities: Vec::new() }
    }
}

impl ElementMap {
    /// Assigns `entity` to `id`. Slots between the old end of the map and `id`
    /// are filled with the sentinel.
    pub fn set(&mut self, id: usize, entity: u64)
        ensures
            final(self)@ == assigned(old(self)@, id as int, entity),
    {
        while self.entities.len() <= id
            invariant
                self.entities@.len() >= old(self)@.len(),
                self.entities@.len() <= id + 1 || self.entities@ == old(self)@,
                self.entities@.take(old(self)@.len() as int) == old(self)@,
                forall|i: int|
                    old(self)@.len() <= i < self.entities@.len() ==> self.entities@[i]
                        == UNASSIGNED,
            decreases id + 1 - self.entities@.len(),
        {
            self.entities.push(UNASSIGNED);
        }
        self.entities[id] = entity;
    }

    /// The node assigned to `id`; none where the id was never assigned.
    pub fn get(&self, id: usize) -> (entity: Option<u64>)
        ensures
            entity == lookup(self@, id as int),
    {
        if id < self.entities.len() {
            let entity: u64 = self.entities[id];
            if entity != UNASSIGNED {
                return Some(entity);
            }
        }
        None
    }

    /// The number of slots, assigned or not.
    pub fn len(&self) -> (len: usize)
        ensures
            len == self@.len(),
    {
        self.entities.len()
    }
}

/// After any run of assignments to an empty map, the map has a slot for every
/// id up to the highest one assigned, and no more. A slot that was never
/// assigned holds the sentinel, and looking it up finds nothing.
pub proof fn lemma_map_stays_dense(writes: Seq<(usize, u64)>)
    ensures
        assigned_all(Seq::empty(), writes).len() == slots_needed(writes),
        forall|id: int|
            0 <= id < slots_needed(writes) && !writes_to(writes, id) ==> {
                &&& #[trigger] assigned_all(Seq::empty(), writes)[id] == UNASSIGNED
                &&& lookup(assigned_all(Seq::empty(), writes), id) == None::<u64>
            },
    decreases writes.len(),
{
    if writes.len() > 0 {
        let before = writes.drop_last();
        lemma_map_stays_dense(before);
        let slots = assigned_all(Seq::empty(), before);
        let id = writes.last().0 as int;
        assert forall|other: int|
            0 <= other < slots_needed(writes) && !writes_to(writes, other) implies {
            &&& #[trigger] assigned_all(Seq::empty(), writes)[other] == UNASSIGNED
            &&& lookup(assigned_all(Seq::empty(), writes), other) == None::<u64>
        } by {
            if writes_to(before, other) {
                let k = choose|k: int| 0 <= k < before.len() && (#[trigger] before[k]).0 == other;
            }
        }
    }
}

} // verus!
