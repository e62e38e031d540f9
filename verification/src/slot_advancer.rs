//! Advancing the rollup's slots.

use vstd::prelude::*;

use crate::accounts::{Pubkey, ZEROS};
use crate::runtime::slots::{next_slot, ER_SLOT_OFFSET};
use crate::runtime::{EphemeralRollupSettings, FeeStructure};

verus! {

/// How slots are advanced.
#[derive(Debug, Clone, PartialEq, Eq)]
pub struct Config {
    /// How long to wait between slots, in milliseconds.
    pub slot_duration_ms: u64,
    /// The leader of all banks.
    pub manager_account: Pubkey,
    pub er_fee_structure: FeeStructure,
}

impl Default for Config {
    fn default() -> (config: Config)
        ensures
            config.slot_duration_ms == 10,
            config.manager_account == ZEROS,
            config.er_fee_structure.lamports_per_signature == 0,
            config.er_fee_structure.lamports_per_write_lock == 0,
            config.er_fee_structure.compute_fee_bins@.len() == 0,
    {
        Config {
            slot_duration_ms: 10,
            manager_account: ZEROS,
            er_fee_structure: EphemeralRollupSettings::zero_fee_structure(),
        }
    }
}

/// The slots that each level of commitment stands for.
#[derive(Debug, Clone, Copy, PartialEq, Eq)]
pub struct CommitmentSlots {
    pub slot: u64,
    pub root: u64,
    pub highest_confirmed_slot: u64,
    pub highest_super_majority_root: u64,
}

/// Every level of commitment stands for one slot.
pub open spec fn all_at(slot: u64) -> CommitmentSlots {
    CommitmentSlots {
        slot,
        root: slot,
        highest_confirmed_slot: slot,
        highest_super_majority_root: slot,
    }
}

/// What is read of a working bank.
#[derive(Debug, Clone, Copy, PartialEq, Eq)]
pub struct WorkingBank {
    pub slot: u64,
    pub tick_height: u64,
    pub max_tick_height: u64,
    /// The slot of the bank's parent, if it still has one.
    pub parent_slot: Option<u64>,
}

/// What it takes to advance a slot.
#[derive(Debug, Clone, Copy, PartialEq, Eq)]
pub struct SlotAdvance {
    /// How many ticks the bank still needs before it is frozen.
    pub ticks: u64,
    pub frozen_slot: u64,
    pub next_slot: u64,
    /// Whether the frozen bank lets go of its parent.
    pub disconnect_parent: bool,
    /// What the levels of commitment then stand for.
    pub commitment: CommitmentSlots,
}

/// What it takes to advance from a bank: it gets its remaining ticks, is frozen,
/// and becomes the root and what every level of commitment stands for. It lets go
/// of its parent if that is a bank of the rollup; the first bank keeps its parent
/// on layer one.
pub open spec fn advance_of(bank: WorkingBank) -> SlotAdvance {
    SlotAdvance {
        ticks: (bank.max_tick_height - bank.tick_height) as u64,
        frozen_slot: bank.slot,
        next_slot: next_slot(bank.slot),
        disconnect_parent: bank.parent_slot matches Some(parent) && parent >= ER_SLOT_OFFSET,
        commitment: all_at(bank.slot),
    }
}

/// One round of advancing slots: `None` if it is to stop.
pub fn advance_slot(exit: bool, bank: &WorkingBank) -> (advance: Option<SlotAdvance>)
    requires
        bank.tick_height <= bank.max_tick_height,
    ensures
        advance == (if exit {
            None
        } else {
            Some(advance_of(*bank))
        }),
{
    if exit {
        return None;
    }
    let disconnect_parent = match bank.parent_slot {
        Some(parent) => parent >= ER_SLOT_OFFSET,
        None => false,
    };
    Some(
        SlotAdvance {
            ticks: bank.max_tick_height - bank.tick_height,
            frozen_slot: bank.slot,
            next_slot: bank.slot.saturating_add(1),
            disconnect_parent,
            commitment: CommitmentSlots {
                slot: bank.slot,
                root: bank.slot,
                highest_confirmed_slot: bank.slot,
                highest_super_majority_root: bank.slot,
            },
        },
    )
}

/// What it takes to publish a working bank.
#[derive(Debug, Clone, Copy, PartialEq, Eq)]
pub struct Publication {
    pub frozen_slot: u64,
    pub next_slot: u64,
    /// Whether the frozen bank's parent lets go of its own parent.
    pub disconnect_grandparent: bool,
    /// What the levels of commitment then stand for.
    pub commitment: CommitmentSlots,
}

/// What it takes to publish a working bank: it is frozen, every level of
/// commitment stands for it, and the rollup goes on with the next slot. Its
/// parent lets go of its own parent, if it is a bank of the rollup.
pub fn publish_bank(bank: &WorkingBank) -> (publication: Publication)
    ensures
        publication == (Publication {
            frozen_slot: bank.slot,
            next_slot: next_slot(bank.slot),
            disconnect_grandparent: bank.parent_slot matches Some(parent) && parent
                >= ER_SLOT_OFFSET,
            commitment: all_at(bank.slot),
        }),
{
    let disconnect_grandparent = match bank.parent_slot {
        Some(parent) => parent >= ER_SLOT_OFFSET,
        None => false,
    };
    Publication {
        frozen_slot: bank.slot,
        next_slot: bank.slot.saturating_add(1),
        disconnect_grandparent,
        commitment: CommitmentSlots {
            slot: bank.slot,
            root: bank.slot,
            highest_confirmed_slot: bank.slot,
            highest_super_majority_root: bank.slot,
        },
    }
}

/// The tick height that a new bank starts at: one slot's ticks remain.
pub fn initial_tick_height(max_tick_height: u64, ticks_per_slot: u64) -> (height: u64)
    requires
        ticks_per_slot <= max_tick_height,
    ensures
        height == max_tick_height - ticks_per_slot,
{
    max_tick_height - ticks_per_slot
}

/// What the levels of commitment stand for once transactions were processed in a
/// slot: only what is processed moves.
pub fn publish_processed_slot(current: &CommitmentSlots, slot: u64) -> (commitment: CommitmentSlots)
    ensures
        commitment == (CommitmentSlots { slot, ..*current }),
{
    CommitmentSlots {
        slot,
        root: current.root,
        highest_confirmed_slot: current.highest_confirmed_slot,
        highest_super_majority_root: current.highest_super_majority_root,
    }
}

/// The slot after `n` rounds.
pub open spec fn slot_after(slot: u64, n: nat) -> u64
    decreases n,
{
    if n == 0 {
        slot
    } else {
        next_slot(slot_after(slot, (n - 1) as nat))
    }
}

/// Each round goes one slot further.
pub proof fn rounds_go_one_slot_further(slot: u64, n: nat)
    requires
        slot + n <= u64::MAX,
    ensures
        slot_after(slot, n) == slot + n,
    decreases n,
{
    if n > 0 {
        rounds_go_one_slot_further(slot, (n - 1) as nat);
    }
}

/// A bank whose parent is on layer one keeps it, so that layer one's bank stays
/// alive as long as the rollup is anchored to it.
pub proof fn the_anchor_is_kept(bank: WorkingBank)
    requires
        bank.parent_slot matches Some(parent) && parent < ER_SLOT_OFFSET,
    ensures
        !advance_of(bank).disconnect_parent,
{
}

/// Advancing a slot gives the bank the ticks that it lacks, freezes its slot, makes it what
/// every level of commitment stands for, and goes on with the next slot. The bank lets go
/// of its parent if and only if that is a bank of the rollup.
pub proof fn advancing_finishes_the_slot(bank: WorkingBank)
    requires
        bank.tick_height <= bank.max_tick_height,
    ensures
        ({
            let advance = advance_of(bank);
            &&& bank.tick_height + advance.ticks == bank.max_tick_height
            &&& advance.frozen_slot == bank.slot
            &&& bank.slot < u64::MAX ==> advance.next_slot == bank.slot + 1
            &&& bank.slot == u64::MAX ==> advance.next_slot == u64::MAX
            &&& advance.disconnect_parent <==> bank.parent_slot is Some && bank.parent_slot->0
                >= 1_099_511_627_776
            &&& advance.commitment.slot == bank.slot
            &&& advance.commitment.root == bank.slot
            &&& advance.commitment.highest_confirmed_slot == bank.slot
            &&& advance.commitment.highest_super_majority_root == bank.slot
        }),
{
}

} // verus!
