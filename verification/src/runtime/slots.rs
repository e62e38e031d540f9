//! Slots of the rollup.

use vstd::prelude::*;


verus! {

/// What separates slots of the rollup from those of layer one.
pub const ER_SLOT_OFFSET: u64 = 1_099_511_627_776;

/// The slot after a slot.
pub open spec fn next_slot(slot: u64) -> u64 {
    if slot < u64::MAX {
        (slot + 1) as u64
    } else {
        u64::MAX
    }
}

/// The first slot of a rollup on a layer-one bank.
pub open spec fn root_slot(l1_slot: u64) -> u64 {
    if l1_slot + ER_SLOT_OFFSET <= u64::MAX {
        (l1_slot + ER_SLOT_OFFSET) as u64
    } else {
        u64::MAX
    }
}

/// The first slot of a rollup on a layer-one bank: so far ahead of it that layer
/// one never gets there.
pub fn er_slot_for(l1_slot: u64) -> (slot: u64)
    ensures
        slot == root_slot(l1_slot),
{
    l1_slot.saturating_add(ER_SLOT_OFFSET)
}

/// The slot after a reset onto a layer-one bank: the bank's own first slot, or
/// the one after the rollup's tip if that is later.
pub open spec fn reset_slot(l1_slot: u64, tip: u64) -> u64 {
    if root_slot(l1_slot) >= next_slot(tip) {
        root_slot(l1_slot)
    } else {
        next_slot(tip)
    }
}

/// The slot after a reset.
pub fn er_slot_after_reset(l1_slot: u64, tip: u64) -> (slot: u64)
    ensures
        slot == reset_slot(l1_slot, tip),
{
    let fresh: u64 = er_slot_for(l1_slot);
    let next: u64 = tip.saturating_add(1);
    if fresh >= next {
        fresh
    } else {
        next
    }
}

/// The slot after the rollup is anchored anew: the one after its tip. A rollup
/// whose tip is no rollup slot starts at the first slot on the bank.
pub open spec fn anchored_slot(l1_slot: u64, tip: u64) -> u64 {
    if tip >= ER_SLOT_OFFSET {
        next_slot(tip)
    } else {
        root_slot(l1_slot)
    }
}

/// The slot after the rollup is anchored anew.
pub fn er_slot_after_reanchor(l1_slot: u64, tip: u64) -> (slot: u64)
    ensures
        slot == anchored_slot(l1_slot, tip),
{
    if tip >= ER_SLOT_OFFSET {
        tip.saturating_add(1)
    } else {
        er_slot_for(l1_slot)
    }
}

/// Slots of the rollup lie beyond the offset, also after a reset, and far ahead
/// of layer one.
pub proof fn rollup_slots_stay_ahead(l1_slot: u64, tip: u64)
    ensures
        root_slot(l1_slot) >= ER_SLOT_OFFSET,
        reset_slot(l1_slot, tip) >= ER_SLOT_OFFSET,
        anchored_slot(l1_slot, tip) >= ER_SLOT_OFFSET,
        l1_slot <= u64::MAX - ER_SLOT_OFFSET ==> root_slot(l1_slot) == l1_slot + ER_SLOT_OFFSET
            && reset_slot(l1_slot, tip) >= l1_slot + ER_SLOT_OFFSET,
{
}

/// Rollup slots only grow: a reset, a new anchor and a rotation each go to a
/// later slot, as long as there are slots left.
pub proof fn rollup_slots_only_grow(l1_slot: u64, tip: u64)
    requires
        tip < u64::MAX,
    ensures
        next_slot(tip) > tip,
        reset_slot(l1_slot, tip) > tip,
        anchored_slot(l1_slot, tip) > tip,
{
}

/// A rollup starts 2^40 slots ahead of layer one. A reset goes there or to the slot after
/// the tip, whichever is later; a new anchor goes to the slot after the tip, unless the tip
/// is no rollup slot. No slot is beyond the greatest number.
pub proof fn rollup_slots_follow_layer_one_or_the_tip(l1_slot: u64, tip: u64)
    ensures
        ({
            let ahead = l1_slot + 1_099_511_627_776;
            let after = tip + 1;
            let most = u64::MAX as int;
            let first = if ahead < most {
                ahead
            } else {
                most
            };
            let next = if after < most {
                after
            } else {
                most
            };
            &&& root_slot(l1_slot) == first
            &&& next_slot(tip) == next
            &&& first >= next ==> reset_slot(l1_slot, tip) == first
            &&& first < next ==> reset_slot(l1_slot, tip) == next
            &&& tip >= 1_099_511_627_776 ==> anchored_slot(l1_slot, tip) == next
            &&& tip < 1_099_511_627_776 ==> anchored_slot(l1_slot, tip) == first
        }),
{
}

} // verus!
