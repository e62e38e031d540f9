//! Checkpoints on layer one, and what they let the manager settle.

use vstd::prelude::*;

use crate::accounts::{Pubkey, ZEROS};
use crate::codec::same_array;
use crate::ledger::{L1Bank, L1Model, Snapshot, SnapshotModel};
use crate::portal_state::{Checkpoint, CheckpointStatus, PortalAccount};
use crate::settlement::{PlanModel, SettlementPlan};

verus! {

/// The fewest slots for which a checkpoint can be challenged.
pub const DEFAULT_CHECKPOINT_CHALLENGE_WINDOW_SLOTS: u64 = 10;

/// The checkpoint can still be settled.
pub open spec fn is_open(status: CheckpointStatus) -> bool {
    status is Pending || status is Committed || status is Challenged
}

/// Whether the checkpoint can still be settled.
pub fn is_open_status(status: CheckpointStatus) -> (open: bool)
    ensures
        open == is_open(status),
{
    match status {
        CheckpointStatus::Pending | CheckpointStatus::Committed | CheckpointStatus::Challenged => {
            true
        },
        CheckpointStatus::Settled | CheckpointStatus::Cancelled | CheckpointStatus::Invalid => {
            false
        },
    }
}

/// The checkpoint at an address, if the portal program owns an account there
/// that reads as one.
pub open spec fn checkpoint_at(portal: Pubkey, now: SnapshotModel, key: Pubkey) -> Option<
    Checkpoint,
> {
    if now.owned_by(key, portal) {
        match now.portal_account(key) {
            Some(PortalAccount::Checkpoint(checkpoint)) => Some(checkpoint),
            _ => None,
        }
    } else {
        None
    }
}

/// The checkpoint at an address.
pub fn find_checkpoint_at(portal: &Pubkey, now: &Snapshot, key: &Pubkey) -> (r: Option<Checkpoint>)
    requires
        now.well_formed(),
    ensures
        r == checkpoint_at(*portal, now@, *key),
{
    match now.account(key) {
        Some(account) => {
            if !same_array(&account.owner, portal) {
                return None;
            }
            match now.portal_account(key) {
                Some(PortalAccount::Checkpoint(checkpoint)) => Some(checkpoint),
                _ => None,
            }
        },
        None => None,
    }
}

/// A valid checkpoint of the session that can still be settled.
pub open spec fn is_active(checkpoint: Checkpoint, session: Pubkey) -> bool {
    checkpoint.valid && checkpoint.session == session && is_open(checkpoint.status)
}

/// The active checkpoint of a session with the highest rollup slot, among the
/// first `n` accounts; of several with that slot, the last.
pub open spec fn active_checkpoint(
    portal: Pubkey,
    now: SnapshotModel,
    session: Pubkey,
    n: nat,
) -> Option<(Pubkey, Checkpoint)>
    decreases n,
{
    if n == 0 {
        None
    } else {
        let before = active_checkpoint(portal, now, session, (n - 1) as nat);
        let key = now.keys[n - 1];
        match checkpoint_at(portal, now, key) {
            Some(checkpoint) => if is_active(checkpoint, session) && (before matches Some((_, best))
                ==> best.er_slot <= checkpoint.er_slot) {
                Some((key, checkpoint))
            } else {
                before
            },
            None => before,
        }
    }
}

/// The session's active checkpoint.
pub open spec fn session_checkpoint(portal: Pubkey, now: SnapshotModel, session: Pubkey) -> Option<
    (Pubkey, Checkpoint),
> {
    active_checkpoint(portal, now, session, now.keys.len())
}

/// The active checkpoint of a session: of the valid ones that can still be
/// settled, the one with the highest rollup slot.
pub fn active_checkpoint_for_session(portal: &Pubkey, now: &Snapshot, session: &Pubkey) -> (r: Option<
    (Pubkey, Checkpoint),
>)
    requires
        now.well_formed(),
    ensures
        r == session_checkpoint(*portal, now@, *session),
{
    let mut best: Option<(Pubkey, Checkpoint)> = None;
    let mut i: usize = 0;
    while i < now.accounts.len()
        invariant
            now.well_formed(),
            i <= now@.keys.len(),
            best == active_checkpoint(*portal, now@, *session, i as nat),
        decreases now@.keys.len() - i,
    {
        let key = now.accounts.key_at(i);
        if let Some(checkpoint) = find_checkpoint_at(portal, now, &key) {
            let higher = match best {
                Some((_, best)) => best.er_slot <= checkpoint.er_slot,
                None => true,
            };
            if checkpoint.valid && same_array(&checkpoint.session, session) && is_open_status(
                checkpoint.status,
            ) && higher {
                best = Some((key, checkpoint));
            }
        }
        i += 1;
    }
    best
}

spec fn active_at(portal: Pubkey, now: SnapshotModel, session: Pubkey, key: Pubkey) -> bool {
    checkpoint_at(portal, now, key) matches Some(checkpoint) && is_active(checkpoint, session)
}

proof fn lemma_active_checkpoint(portal: Pubkey, now: SnapshotModel, session: Pubkey, n: nat)
    requires
        n <= now.keys.len(),
    ensures
        match active_checkpoint(portal, now, session, n) {
            Some((key, checkpoint)) => {
                &&& now.keys.contains(key)
                &&& checkpoint_at(portal, now, key) == Some(checkpoint)
                &&& is_active(checkpoint, session)
                &&& forall|i: int|
                    0 <= i < n && active_at(portal, now, session, #[trigger] now.keys[i])
                        ==> checkpoint_at(portal, now, now.keys[i])->0.er_slot
                        <= checkpoint.er_slot
            },
            None => forall|i: int|
                0 <= i < n ==> !active_at(portal, now, session, #[trigger] now.keys[i]),
        },
    decreases n,
{
    if n > 0 {
        lemma_active_checkpoint(portal, now, session, (n - 1) as nat);
    }
}

/// The session's active checkpoint is active.
pub proof fn lemma_session_checkpoint_is_active(
    portal: Pubkey,
    now: SnapshotModel,
    session: Pubkey,
)
    ensures
        session_checkpoint(portal, now, session) matches Some((key, checkpoint))
            ==> checkpoint_at(portal, now, key) == Some(checkpoint) && is_active(
            checkpoint,
            session,
        ),
{
    lemma_active_checkpoint(portal, now, session, now.keys.len());
}

/// The session's active checkpoint is one of its checkpoints that can still be
/// settled, none of those has a higher rollup slot, and if there is none there
/// is no such checkpoint.
pub proof fn the_newest_checkpoint_is_active(
    portal: Pubkey,
    now: SnapshotModel,
    session: Pubkey,
    key: Pubkey,
    other: Checkpoint,
)
    requires
        now.keys.contains(key),
        checkpoint_at(portal, now, key) == Some(other),
        is_active(other, session),
    ensures
        session_checkpoint(portal, now, session) matches Some((found, checkpoint)) && {
            &&& now.keys.contains(found)
            &&& checkpoint_at(portal, now, found) == Some(checkpoint)
            &&& is_active(checkpoint, session)
            &&& other.er_slot <= checkpoint.er_slot
        },
{
    lemma_active_checkpoint(portal, now, session, now.keys.len());
    let i = choose|i: int| 0 <= i < now.keys.len() && now.keys[i] == key;
    assert(now.keys[i] == key);
}

/// The slot from which a challenged checkpoint can be committed: as long after
/// the challenge as the challenge window is.
pub open spec fn resolution_deadline(checkpoint: Checkpoint) -> Option<u64> {
    let window = checkpoint.challenge_deadline_l1_slot - checkpoint.proposed_at_l1_slot;
    if window >= 0 && checkpoint.challenged_at_l1_slot + window <= u64::MAX {
        Some((checkpoint.challenged_at_l1_slot + window) as u64)
    } else {
        None
    }
}

/// The slot from which a challenged checkpoint can be committed, or `None` if
/// its times make no sense.
pub fn challenge_resolution_deadline(checkpoint: &Checkpoint) -> (r: Option<u64>)
    ensures
        r == resolution_deadline(*checkpoint),
{
    match checkpoint.challenge_deadline_l1_slot.checked_sub(checkpoint.proposed_at_l1_slot) {
        Some(window) => checkpoint.challenged_at_l1_slot.checked_add(window),
        None => None,
    }
}

/// What a checkpoint lets the manager do with a plan.
#[derive(Debug, Clone, Copy, PartialEq, Eq)]
pub enum CheckpointStep {
    /// The plan is not what the checkpoint commits to, or the checkpoint makes
    /// no sense: do nothing.
    Refuse,
    /// The checkpoint can still be challenged.
    Wait,
    /// Commit the checkpoint and settle the plan.
    CommitThenSettle,
    /// Settle the plan.
    Settle,
    /// The checkpoint is over: drop the plan.
    Forget,
}

/// The plan is the one that the checkpoint of the session commits to.
pub open spec fn plan_matches(checkpoint: Checkpoint, session: Pubkey, plan: PlanModel) -> bool {
    &&& checkpoint.valid
    &&& checkpoint.session == session
    &&& checkpoint.er_slot == plan.er_slot
    &&& checkpoint.effect_commitment == plan.checksum
}

/// What a checkpoint lets the manager do with a plan at a slot of layer one.
pub open spec fn checkpoint_step(
    l1_slot: u64,
    session: Pubkey,
    plan: PlanModel,
    checkpoint: Checkpoint,
) -> CheckpointStep {
    if !plan_matches(checkpoint, session, plan) {
        CheckpointStep::Refuse
    } else {
        match checkpoint.status {
            CheckpointStatus::Pending => if l1_slot < checkpoint.challenge_deadline_l1_slot {
                CheckpointStep::Wait
            } else {
                CheckpointStep::CommitThenSettle
            },
            CheckpointStatus::Committed => CheckpointStep::Settle,
            CheckpointStatus::Challenged => match resolution_deadline(checkpoint) {
                None => CheckpointStep::Refuse,
                Some(deadline) => if l1_slot < deadline {
                    CheckpointStep::Wait
                } else {
                    CheckpointStep::CommitThenSettle
                },
            },
            _ => CheckpointStep::Forget,
        }
    }
}

/// What an existing checkpoint lets the manager do with a plan.
pub fn step_for_existing_checkpoint(
    l1_slot: u64,
    session: &Pubkey,
    plan: &SettlementPlan,
    checkpoint: &Checkpoint,
) -> (step: CheckpointStep)
    ensures
        step == checkpoint_step(l1_slot, *session, plan@, *checkpoint),
{
    if !checkpoint.valid || !same_array(&checkpoint.session, session) || checkpoint.er_slot
        != plan.er_slot || !same_array(&checkpoint.effect_commitment, &plan.checksum) {
        return CheckpointStep::Refuse;
    }
    match checkpoint.status {
        CheckpointStatus::Pending => {
            if l1_slot < checkpoint.challenge_deadline_l1_slot {
                CheckpointStep::Wait
            } else {
                CheckpointStep::CommitThenSettle
            }
        },
        CheckpointStatus::Committed => CheckpointStep::Settle,
        CheckpointStatus::Challenged => match challenge_resolution_deadline(checkpoint) {
            None => CheckpointStep::Refuse,
            Some(deadline) => {
                if l1_slot < deadline {
                    CheckpointStep::Wait
                } else {
                    CheckpointStep::CommitThenSettle
                }
            },
        },
        CheckpointStatus::Settled | CheckpointStatus::Cancelled | CheckpointStatus::Invalid => {
            CheckpointStep::Forget
        },
    }
}

/// Where the portal program keeps the checkpoint of a rollup slot and the cursor
/// of the session's checkpoints.
#[derive(Debug, Clone, Copy, PartialEq, Eq)]
pub struct CheckpointAddresses {
    pub checkpoint: Pubkey,
    pub cursor: Pubkey,
}

/// The state root of the session's last final checkpoint: zero if the cursor is
/// missing, is no cursor, or is one of another session.
pub open spec fn finalized_state_root(
    now: SnapshotModel,
    session: Pubkey,
    cursor: Pubkey,
) -> [u8; 32] {
    match now.portal_account(cursor) {
        Some(PortalAccount::CheckpointCursor(found)) => if found.session == session {
            found.latest_finalized_state_root
        } else {
            ZEROS
        },
        _ => ZEROS,
    }
}

/// The state root of the session's last final checkpoint.
pub fn latest_finalized_checkpoint_state_root(
    now: &Snapshot,
    session: &Pubkey,
    cursor: &Pubkey,
) -> (root: [u8; 32])
    requires
        now.well_formed(),
    ensures
        root == finalized_state_root(now@, *session, *cursor),
{
    match now.portal_account(cursor) {
        Some(PortalAccount::CheckpointCursor(found)) => {
            if same_array(&found.session, session) {
                found.latest_finalized_state_root
            } else {
                ZEROS
            }
        },
        _ => ZEROS,
    }
}

/// What is due for a plan.
#[derive(Debug, Clone, Copy, PartialEq, Eq)]
pub enum CheckpointDecision {
    /// Propose a checkpoint that commits to the plan.
    Propose { challenge_window_slots: u64, previous_state_root: [u8; 32] },
    /// Go on with the checkpoint that there is.
    Existing(CheckpointStep),
}

/// How long a checkpoint can be challenged.
pub open spec fn challenge_window(settlement_interval_slots: u64) -> u64 {
    if settlement_interval_slots > DEFAULT_CHECKPOINT_CHALLENGE_WINDOW_SLOTS {
        settlement_interval_slots
    } else {
        DEFAULT_CHECKPOINT_CHALLENGE_WINDOW_SLOTS
    }
}

/// What is due for a plan: the active checkpoint decides; without one, a
/// checkpoint is proposed unless the address is taken by something that is not a
/// checkpoint that is over.
pub open spec fn decision(
    portal: Pubkey,
    l1: L1Model,
    session: Pubkey,
    plan: PlanModel,
    settlement_interval_slots: u64,
    addresses: CheckpointAddresses,
) -> CheckpointDecision {
    let propose = CheckpointDecision::Propose {
        challenge_window_slots: challenge_window(settlement_interval_slots),
        previous_state_root: finalized_state_root(l1.now, session, addresses.cursor),
    };
    match session_checkpoint(portal, l1.now, session) {
        Some((_, checkpoint)) => CheckpointDecision::Existing(
            checkpoint_step(l1.slot, session, plan, checkpoint),
        ),
        None => if l1.now.account(addresses.checkpoint) is None {
            propose
        } else {
            match checkpoint_at(portal, l1.now, addresses.checkpoint) {
                None => CheckpointDecision::Existing(CheckpointStep::Refuse),
                Some(checkpoint) => if is_open(checkpoint.status) {
                    CheckpointDecision::Existing(
                        checkpoint_step(l1.slot, session, plan, checkpoint),
                    )
                } else {
                    propose
                },
            }
        },
    }
}

/// What is due for a plan.
pub fn checkpoint_or_settlement(
    portal: &Pubkey,
    l1: &L1Bank,
    session: &Pubkey,
    plan: &SettlementPlan,
    settlement_interval_slots: u64,
    addresses: &CheckpointAddresses,
) -> (r: CheckpointDecision)
    requires
        l1.well_formed(),
    ensures
        r == decision(*portal, l1@, *session, plan@, settlement_interval_slots, *addresses),
{
    let challenge_window_slots: u64 = if settlement_interval_slots
        > DEFAULT_CHECKPOINT_CHALLENGE_WINDOW_SLOTS {
        settlement_interval_slots
    } else {
        DEFAULT_CHECKPOINT_CHALLENGE_WINDOW_SLOTS
    };
    if let Some((_, checkpoint)) = active_checkpoint_for_session(portal, &l1.now, session) {
        return CheckpointDecision::Existing(
            step_for_existing_checkpoint(l1.slot, session, plan, &checkpoint),
        );
    }
    if l1.now.account(&addresses.checkpoint).is_some() {
        match find_checkpoint_at(portal, &l1.now, &addresses.checkpoint) {
            None => {
                return CheckpointDecision::Existing(CheckpointStep::Refuse);
            },
            Some(checkpoint) => {
                if is_open_status(checkpoint.status) {
                    return CheckpointDecision::Existing(
                        step_for_existing_checkpoint(l1.slot, session, plan, &checkpoint),
                    );
                }
            },
        }
    }
    CheckpointDecision::Propose {
        challenge_window_slots,
        previous_state_root: latest_finalized_checkpoint_state_root(
            &l1.now,
            session,
            &addresses.cursor,
        ),
    }
}

} // verus!
