//! Slot tables for synchronization objects.
//!
//! An object's identifier is the index of its slot.  A slot that an earlier
//! object has given up is handed out again before the table grows.

use vstd::prelude::*;

verus! {

/// `id` is the slot that the next object gets: the first empty one, or the
/// position just past the end when every slot is taken.
pub open spec fn is_next_slot<T>(slots: Seq<Option<T>>, id: int) -> bool {
    &&& 0 <= id <= slots.len()
    &&& forall|j: int| 0 <= j < id ==> (#[trigger] slots[j]).is_some()
    &&& id < slots.len() ==> slots[id].is_none()
}

/// The table after `item` has moved into slot `id`.
pub open spec fn with_slot<T>(slots: Seq<Option<T>>, id: int, item: T) -> Seq<Option<T>> {
    if id < slots.len() {
        slots.update(id, Some(item))
    } else {
        slots.push(Some(item))
    }
}

/// `id` names a slot that holds an object.
pub open spec fn occupied<T>(slots: Seq<Option<T>>, id: int) -> bool {
    0 <= id < slots.len() && slots[id].is_some()
}

/// Only one slot can be the next one.
pub proof fn lemma_next_slot_unique<T>(slots: Seq<Option<T>>, a: int, b: int)
    requires
        is_next_slot(slots, a),
        is_next_slot(slots, b),
    ensures
        a == b,
{
    if a < b {
        assert(slots[a].is_some());
    } else if b < a {
        assert(slots[b].is_some());
    }
}

/// The index of the first empty slot, if there is one.
pub fn find_empty_slot<T>(slots: &Vec<Option<T>>) -> (found: Option<usize>)
    ensures
        match found {
            Some(id) => id < slots@.len() && is_next_slot(slots@, id as int),
            None => is_next_slot(slots@, slots@.len() as int),
        },
{
    let mut id: usize = 0;
    while id < slots.len()
        invariant
            0 <= id <= slots@.len(),
            forall|j: int| 0 <= j < id ==> (#[trigger] slots@[j]).is_some(),
        decreases slots@.len() - id,
    {
        if slots[id].is_none() {
            return Some(id);
        }
        id += 1;
    }
    None
}

/// Puts `item` into the first empty slot, or into a new slot at the end when
/// none is empty, and returns the slot's index.
pub fn claim_slot<T>(slots: &mut Vec<Option<T>>, item: T) -> (id: usize)
    ensures
        is_next_slot(old(slots)@, id as int),
        final(slots)@ == with_slot(old(slots)@, id as int, item),
        occupied(final(slots)@, id as int),
        final(slots)@.len() >= old(slots)@.len(),
{
    match find_empty_slot(slots) {
        Some(id) => {
            slots[id] = Some(item);
            id
        },
        None => {
            slots.push(Some(item));
            slots.len() - 1
        },
    }
}

} // verus!
