//! When a settlement is due, told by layer one and the kept plans.

use vstd::prelude::*;

use crate::accounts::Pubkey;
use crate::ledger::{L1Model, SnapshotModel};
use crate::manager::checkpoints::{
    active_checkpoint, checkpoint_step, decision, finalized_state_root, session_checkpoint,
    CheckpointAddresses, CheckpointDecision, CheckpointStep,
};
use crate::manager::due::{
    bound_plan, due, finished_plans, kept_after, kept_when_asked, kept_with_bound,
    stored_is_useless, valid_session, without_finished, ActionModel, SettlementSigner,
    StoredPlanId,
};
use crate::manager::plans::{lemma_stored_plan, stored_plan, stores_plan};
use crate::portal_state::{Checkpoint, CheckpointStatus, PortalAccount, Session, SettlementStatus};
use crate::settlement::batches::submission_transactions;
use crate::settlement::{plan_checksum, PlanModel};

verus! {

/// The portal program has the checkpoint at an address.
pub open spec fn has_checkpoint(
    portal: Pubkey,
    now: SnapshotModel,
    key: Pubkey,
    checkpoint: Checkpoint,
) -> bool {
    &&& now.accounts.contains_key(key)
    &&& now.accounts[key].owner == portal
    &&& now.portal.contains_key(key)
    &&& now.portal[key] == PortalAccount::Checkpoint(checkpoint)
}

/// The checkpoint is over.
pub open spec fn is_over(checkpoint: Checkpoint) -> bool {
    ||| checkpoint.status == CheckpointStatus::Settled
    ||| checkpoint.status == CheckpointStatus::Cancelled
    ||| checkpoint.status == CheckpointStatus::Invalid
}

/// The portal program has a checkpoint at an address that is valid, of the session, and
/// not over.
pub open spec fn is_candidate(
    portal: Pubkey,
    now: SnapshotModel,
    session: Pubkey,
    key: Pubkey,
    checkpoint: Checkpoint,
) -> bool {
    &&& has_checkpoint(portal, now, key, checkpoint)
    &&& checkpoint.valid
    &&& checkpoint.session == session
    &&& !is_over(checkpoint)
}

/// The candidate at a place has a higher slot than those after it, and at least as high a
/// slot as those before it.
pub open spec fn is_best_at(
    portal: Pubkey,
    now: SnapshotModel,
    session: Pubkey,
    n: nat,
    i: int,
    checkpoint: Checkpoint,
) -> bool {
    &&& 0 <= i < n
    &&& is_candidate(portal, now, session, now.keys[i], checkpoint)
    &&& forall|j: int, other: Checkpoint|
        0 <= j < n && #[trigger] is_candidate(portal, now, session, now.keys[j], other)
            ==> other.er_slot <= checkpoint.er_slot && (j > i ==> other.er_slot
            < checkpoint.er_slot)
}

proof fn lemma_best(
    portal: Pubkey,
    now: SnapshotModel,
    session: Pubkey,
    n: nat,
) -> (at: int)
    requires
        n <= now.keys.len(),
    ensures
        match active_checkpoint(portal, now, session, n) {
            Some((key, checkpoint)) => {
                &&& 0 <= at < n
                &&& now.keys[at] == key
                &&& is_best_at(portal, now, session, n, at, checkpoint)
            },
            None => forall|j: int, other: Checkpoint|
                0 <= j < n ==> !#[trigger] is_candidate(portal, now, session, now.keys[j], other),
        },
    decreases n,
{
    if n == 0 {
        0
    } else {
        let before = lemma_best(portal, now, session, (n - 1) as nat);
        let key = now.keys[n - 1];
        if active_checkpoint(portal, now, session, n) == active_checkpoint(
            portal,
            now,
            session,
            (n - 1) as nat,
        ) && !(exists|other: Checkpoint|
            is_candidate(portal, now, session, key, other) && (active_checkpoint(
                portal,
                now,
                session,
                n,
            ) matches Some((_, checkpoint)) ==> other.er_slot >= checkpoint.er_slot)) {
            before
        } else {
            n - 1
        }
    }
}

/// The session's active checkpoint is the candidate with the highest slot, and of several
/// with that slot the last; there is none if and only if there is no candidate.
pub proof fn the_active_checkpoint_is_the_last_of_the_newest(
    portal: Pubkey,
    now: SnapshotModel,
    session: Pubkey,
) -> (at: int)
    ensures
        match session_checkpoint(portal, now, session) {
            Some((key, checkpoint)) => {
                &&& 0 <= at < now.keys.len()
                &&& now.keys[at] == key
                &&& is_best_at(portal, now, session, now.keys.len(), at, checkpoint)
            },
            None => forall|j: int, other: Checkpoint|
                0 <= j < now.keys.len() ==> !#[trigger] is_candidate(
                    portal,
                    now,
                    session,
                    now.keys[j],
                    other,
                ),
        },
{
    lemma_best(portal, now, session, now.keys.len())
}

/// The checkpoint commits to the plan.
pub open spec fn commits_to(checkpoint: Checkpoint, session: Pubkey, plan: PlanModel) -> bool {
    &&& checkpoint.valid
    &&& checkpoint.session == session
    &&& checkpoint.er_slot == plan.er_slot
    &&& checkpoint.effect_commitment == plan.checksum
}

/// The time for challenging the checkpoint is over at a slot: for a pending one that is
/// its deadline, for a challenged one as long after the challenge as the time for
/// challenging was.
pub open spec fn can_be_committed(checkpoint: Checkpoint, l1_slot: u64) -> bool {
    ||| checkpoint.status == CheckpointStatus::Pending && checkpoint.challenge_deadline_l1_slot
        <= l1_slot
    ||| checkpoint.status == CheckpointStatus::Challenged && checkpoint.challenged_at_l1_slot + (
    checkpoint.challenge_deadline_l1_slot - checkpoint.proposed_at_l1_slot) <= l1_slot
}

/// The deadline of a challenged checkpoint is before it was proposed, or the time for its
/// challenge never ends.
pub open spec fn is_confused(checkpoint: Checkpoint) -> bool {
    checkpoint.status == CheckpointStatus::Challenged && (checkpoint.challenge_deadline_l1_slot
        < checkpoint.proposed_at_l1_slot || checkpoint.challenged_at_l1_slot + (
    checkpoint.challenge_deadline_l1_slot - checkpoint.proposed_at_l1_slot) > u64::MAX)
}

/// A plan is settled if and only if the checkpoint commits to it and is committed; the
/// checkpoint is committed first if and only if its time for challenging is over. It is
/// waited for if that time is not over yet, and dropped if it is over itself.
pub proof fn checkpoints_take_their_steps(
    l1_slot: u64,
    session: Pubkey,
    plan: PlanModel,
    checkpoint: Checkpoint,
)
    ensures
        ({
            let step = checkpoint_step(l1_slot, session, plan, checkpoint);
            let fits = commits_to(checkpoint, session, plan) && !is_confused(checkpoint);
            &&& step == CheckpointStep::Refuse <==> !fits
            &&& step == CheckpointStep::Settle <==> fits && checkpoint.status
                == CheckpointStatus::Committed
            &&& step == CheckpointStep::CommitThenSettle <==> fits && can_be_committed(
                checkpoint,
                l1_slot,
            )
            &&& step == CheckpointStep::Wait <==> fits && !can_be_committed(checkpoint, l1_slot)
                && (checkpoint.status == CheckpointStatus::Pending || checkpoint.status
                == CheckpointStatus::Challenged)
            &&& step == CheckpointStep::Forget <==> fits && is_over(checkpoint)
        }),
{
}

/// The state root that the session's cursor holds.
pub open spec fn cursor_holds(
    now: SnapshotModel,
    session: Pubkey,
    cursor: Pubkey,
    root: [u8; 32],
) -> bool {
    &&& now.accounts.contains_key(cursor)
    &&& now.portal.contains_key(cursor)
    &&& now.portal[cursor] matches PortalAccount::CheckpointCursor(found)
    &&& found.session == session
    &&& found.latest_finalized_state_root == root
}

/// The last final state root is the one that the session's cursor holds, and zero if
/// there is no cursor of the session.
pub proof fn final_roots_come_from_the_cursor(
    now: SnapshotModel,
    session: Pubkey,
    cursor: Pubkey,
    root: [u8; 32],
)
    ensures
        cursor_holds(now, session, cursor, root) ==> finalized_state_root(now, session, cursor)
            == root,
        (forall|r: [u8; 32]| !cursor_holds(now, session, cursor, r)) ==> forall|i: int|
            0 <= i < 32 ==> #[trigger] finalized_state_root(now, session, cursor)@[i] == 0,
{
    if finalized_state_root(now, session, cursor) != crate::accounts::ZEROS {
        assert(cursor_holds(
            now,
            session,
            cursor,
            finalized_state_root(now, session, cursor),
        ));
    }
}

/// Nothing stands in the way of a new checkpoint at its address: there is no account, or
/// there is a checkpoint that is over.
pub open spec fn is_free(portal: Pubkey, now: SnapshotModel, key: Pubkey) -> bool {
    !now.accounts.contains_key(key) || exists|checkpoint: Checkpoint|
        has_checkpoint(portal, now, key, checkpoint) && is_over(checkpoint)
}

/// A checkpoint is proposed if and only if the session has no candidate and the address
/// is free. Its time for challenging is ten slots, or the settlement interval if that is
/// longer, and it follows the last final state root.
pub proof fn checkpoints_are_proposed_when_free(
    portal: Pubkey,
    l1: L1Model,
    session: Pubkey,
    plan: PlanModel,
    interval: u64,
    addresses: CheckpointAddresses,
)
    ensures
        ({
            let decided = decision(portal, l1, session, plan, interval, addresses);
            let none = session_checkpoint(portal, l1.now, session) is None;
            &&& decided is Propose <==> none && is_free(portal, l1.now, addresses.checkpoint)
            &&& decided matches CheckpointDecision::Propose {
                challenge_window_slots,
                previous_state_root,
            } ==> {
                &&& challenge_window_slots >= 10
                &&& challenge_window_slots >= interval
                &&& challenge_window_slots == 10 || challenge_window_slots == interval
                &&& previous_state_root == finalized_state_root(
                    l1.now,
                    session,
                    addresses.cursor,
                )
            }
            &&& session_checkpoint(portal, l1.now, session) matches Some((_, checkpoint))
                ==> decided == CheckpointDecision::Existing(
                checkpoint_step(l1.slot, session, plan, checkpoint),
            )
        }),
{
    let key = addresses.checkpoint;
    if let Some(checkpoint) = crate::manager::checkpoints::checkpoint_at(portal, l1.now, key) {
        assert(has_checkpoint(portal, l1.now, key, checkpoint));
        assert(is_over(checkpoint) ==> is_free(portal, l1.now, key));
        if is_free(portal, l1.now, key) {
            let other = choose|other: Checkpoint|
                has_checkpoint(portal, l1.now, key, other) && is_over(other);
            assert(other == checkpoint);
        }
    }
}

/// The plan of a checkpoint is the kept plan of its slot, if there is one, and else the
/// stored plan, if it is the one that the checkpoint commits to; a plan with another
/// checksum is never taken.
pub proof fn checkpoints_get_the_plan_they_commit_to(
    kept: Map<(Pubkey, u64), PlanModel>,
    stored: Option<Seq<u8>>,
    session: Pubkey,
    checkpoint: Checkpoint,
    plan: PlanModel,
)
    ensures
        ({
            let slot = (session, checkpoint.er_slot);
            let bound = bound_plan(kept, stored, session, checkpoint);
            &&& kept.contains_key(slot) && kept[slot].checksum == checkpoint.effect_commitment
                ==> bound == Some(kept[slot])
            &&& kept.contains_key(slot) && kept[slot].checksum != checkpoint.effect_commitment
                ==> bound is None
            &&& !kept.contains_key(slot) && stored is None ==> bound is None
            &&& !kept.contains_key(slot) && stored is Some && stores_plan(
                stored->0,
                checkpoint.effect_commitment,
                plan,
            ) ==> bound == Some(plan) && !stored_is_useless(kept, stored, session, checkpoint)
            &&& stored_is_useless(kept, stored, session, checkpoint) ==> bound is None && stored
                is Some && !kept.contains_key(slot)
            &&& bound is None && !kept.contains_key(slot) && stored is Some ==> stored_is_useless(
                kept,
                stored,
                session,
                checkpoint,
            )
        }),
{
    if let Some(bytes) = stored {
        if stores_plan(bytes, checkpoint.effect_commitment, plan) {
            lemma_stored_plan(bytes, checkpoint.effect_commitment, plan);
        }
    }
}

/// The plan of a checkpoint is kept from then on, under the session and its slot; no
/// other plan changes, and without a plan nothing does.
pub proof fn bound_plans_are_kept(
    kept: Map<(Pubkey, u64), PlanModel>,
    stored: Option<Seq<u8>>,
    session: Pubkey,
    checkpoint: Checkpoint,
    other: (Pubkey, u64),
)
    ensures
        ({
            let after = kept_with_bound(kept, stored, session, checkpoint);
            &&& bound_plan(kept, stored, session, checkpoint) matches Some(plan) ==> {
                &&& after.contains_key((session, plan.er_slot))
                &&& after[(session, plan.er_slot)] == plan
                &&& other != (session, plan.er_slot) ==> {
                    &&& after.contains_key(other) <==> kept.contains_key(other)
                    &&& after[other] == kept[other]
                }
            }
            &&& bound_plan(kept, stored, session, checkpoint) is None ==> after == kept
        }),
{
}

/// A checkpoint that is over loses its plan, and no step changes any other plan.
pub proof fn finished_checkpoints_lose_their_plan(
    kept: Map<(Pubkey, u64), PlanModel>,
    l1_slot: u64,
    session: Pubkey,
    plan: PlanModel,
    checkpoint: Checkpoint,
    other: (Pubkey, u64),
)
    ensures
        ({
            let step = checkpoint_step(l1_slot, session, plan, checkpoint);
            let after = kept_after(kept, session, checkpoint, step);
            let dropped = commits_to(checkpoint, session, plan) && is_over(checkpoint) && other == (
                session,
                plan.er_slot,
            );
            &&& after.contains_key(other) <==> kept.contains_key(other) && !dropped
            &&& after.contains_key(other) ==> after[other] == kept[other]
        }),
{
}

/// The portal program has a checkpoint of the session at the address that is over, with
/// this slot and this proposer.
pub open spec fn is_finished_at(
    portal: Pubkey,
    now: SnapshotModel,
    session: Pubkey,
    key: Pubkey,
    proposer: Pubkey,
    er_slot: u64,
) -> bool {
    exists|checkpoint: Checkpoint|
        has_checkpoint(portal, now, key, checkpoint) && is_over(checkpoint) && checkpoint.session
            == session && checkpoint.proposer == proposer && checkpoint.er_slot == er_slot
}

/// One of the first `n` addresses has such a checkpoint.
pub open spec fn is_finished(
    portal: Pubkey,
    now: SnapshotModel,
    session: Pubkey,
    n: nat,
    id: StoredPlanId,
) -> bool {
    exists|i: int|
        0 <= i < n && #[trigger] is_finished_at(
            portal,
            now,
            session,
            now.keys[i],
            id.proposer,
            id.er_slot,
        )
}

proof fn lemma_finished(
    portal: Pubkey,
    now: SnapshotModel,
    session: Pubkey,
    n: nat,
    id: StoredPlanId,
)
    requires
        n <= now.keys.len(),
    ensures
        finished_plans(portal, now, session, n).contains(id) <==> is_finished(
            portal,
            now,
            session,
            n,
            id,
        ),
    decreases n,
{
    let finished = finished_plans(portal, now, session, n);
    if n > 0 {
        let m = (n - 1) as nat;
        let before = finished_plans(portal, now, session, m);
        lemma_finished(portal, now, session, m, id);
        let key = now.keys[n - 1];
        let here = is_finished_at(portal, now, session, key, id.proposer, id.er_slot);
        if finished.contains(id) && !before.contains(id) {
            let i = choose|i: int| 0 <= i < finished.len() && finished[i] == id;
            if i < before.len() {
                assert(before[i] == id);
            }
            let checkpoint = crate::manager::checkpoints::checkpoint_at(portal, now, key)->0;
            assert(has_checkpoint(portal, now, key, checkpoint));
            assert(is_over(checkpoint));
            assert(here);
        }
        if before.contains(id) {
            let i = choose|i: int| 0 <= i < before.len() && before[i] == id;
            assert(finished[i] == id);
            let j = choose|j: int|
                0 <= j < m && #[trigger] is_finished_at(
                    portal,
                    now,
                    session,
                    now.keys[j],
                    id.proposer,
                    id.er_slot,
                );
            assert(0 <= j < n);
        }
        if here {
            let checkpoint = choose|checkpoint: Checkpoint|
                has_checkpoint(portal, now, key, checkpoint) && is_over(checkpoint)
                    && checkpoint.session == session && checkpoint.proposer == id.proposer
                    && checkpoint.er_slot == id.er_slot;
            assert(crate::manager::checkpoints::checkpoint_at(portal, now, key) == Some(
                checkpoint,
            ));
            assert(finished[before.len() as int] == id);
        }
        if is_finished(portal, now, session, n, id) && !here {
            let j = choose|j: int|
                0 <= j < n && #[trigger] is_finished_at(
                    portal,
                    now,
                    session,
                    now.keys[j],
                    id.proposer,
                    id.er_slot,
                );
            assert(j < m);
            assert(is_finished(portal, now, session, m, id));
        }
    }
}

proof fn lemma_without(
    kept: Map<(Pubkey, u64), PlanModel>,
    session: Pubkey,
    finished: Seq<StoredPlanId>,
    key: (Pubkey, u64),
)
    ensures
        ({
            let after = without_finished(kept, session, finished);
            &&& after.contains_key(key) <==> kept.contains_key(key) && !(key.0 == session && exists|
                i: int,
            |
                0 <= i < finished.len() && (#[trigger] finished[i]).er_slot == key.1)
            &&& after.contains_key(key) ==> after[key] == kept[key]
        }),
    decreases finished.len(),
{
    if finished.len() > 0 {
        let rest = finished.drop_last();
        lemma_without(kept, session, rest, key);
        if exists|i: int| 0 <= i < rest.len() && (#[trigger] rest[i]).er_slot == key.1 {
            let i = choose|i: int| 0 <= i < rest.len() && (#[trigger] rest[i]).er_slot == key.1;
            assert(finished[i].er_slot == key.1);
        }
        if exists|i: int| 0 <= i < finished.len() && (#[trigger] finished[i]).er_slot == key.1 {
            let i = choose|i: int|
                0 <= i < finished.len() && (#[trigger] finished[i]).er_slot == key.1;
            if i < rest.len() {
                assert(rest[i].er_slot == key.1);
            }
        }
        assert(finished[finished.len() - 1] == finished.last());
    }
}

/// The plans that are dropped are exactly those of the session's checkpoints that are
/// over: their stored plans are named, and the kept plans of their slots go. Plans of
/// other sessions and of other slots stay.
pub proof fn plans_of_finished_checkpoints_are_dropped(
    portal: Pubkey,
    now: SnapshotModel,
    session: Pubkey,
    kept: Map<(Pubkey, u64), PlanModel>,
    id: StoredPlanId,
    key: (Pubkey, u64),
)
    ensures
        ({
            let finished = finished_plans(portal, now, session, now.keys.len());
            let after = without_finished(kept, session, finished);
            &&& finished.contains(id) <==> is_finished(portal, now, session, now.keys.len(), id)
            &&& is_finished(portal, now, session, now.keys.len(), id) ==> !after.contains_key(
                (session, id.er_slot),
            )
            &&& kept.contains_key(key) && !after.contains_key(key) ==> key.0 == session && exists|
                proposer: Pubkey,
            | #[trigger]
                is_finished(
                    portal,
                    now,
                    session,
                    now.keys.len(),
                    StoredPlanId { proposer, er_slot: key.1 },
                )
            &&& after.contains_key(key) ==> kept.contains_key(key) && after[key] == kept[key]
        }),
{
    let n = now.keys.len();
    let finished = finished_plans(portal, now, session, n);
    lemma_finished(portal, now, session, n, id);
    lemma_without(kept, session, finished, key);
    lemma_without(kept, session, finished, (session, id.er_slot));
    if finished.contains(id) {
        let i = choose|i: int| 0 <= i < finished.len() && finished[i] == id;
        assert(finished[i].er_slot == id.er_slot);
    }
    if kept.contains_key(key) && !without_finished(kept, session, finished).contains_key(key) {
        let i = choose|i: int| 0 <= i < finished.len() && (#[trigger] finished[i]).er_slot == key.1;
        let found = finished[i];
        lemma_finished(portal, now, session, n, found);
        assert(found == (StoredPlanId { proposer: found.proposer, er_slot: key.1 }));
    }
}

/// The session is due to settle at a slot: its interval has passed since it last settled.
pub open spec fn is_time(l1_slot: u64, state: Session) -> bool {
    l1_slot >= state.last_settled_l1_slot + state.settlement_interval_slots || l1_slot == u64::MAX
}

/// The transactions that carry the plan.
pub open spec fn carrying(
    signer: SettlementSigner,
    session: Pubkey,
    plan: PlanModel,
    include_begin: bool,
) -> Option<Seq<Seq<u8>>> {
    submission_transactions(
        plan,
        signer.protocol,
        signer.portal_program_id,
        session,
        signer.validator_secret,
        signer.recent_blockhash,
        include_begin,
    )
}

/// The plan is blocked, or nothing in it is beyond the limits.
pub open spec fn is_sendable(signer: SettlementSigner, plan: PlanModel) -> bool {
    plan.unsupported_changes.len() > 0 || {
        &&& forall|c: int|
            0 <= c < plan.chunks.len() ==> (#[trigger] plan.chunks[c]).data.len()
                <= signer.protocol.limits.max_chunk
        &&& plan.lamport_changes.len() <= signer.protocol.limits.max_lamport_accounts
    }
}

/// Exactly this is due: the plan with its transactions.
pub open spec fn sends(
    due: Option<(PlanModel, ActionModel)>,
    plan: PlanModel,
    first: bool,
    bytes: Option<Seq<Seq<u8>>>,
) -> bool {
    match bytes {
        Some(transactions) => if first || transactions.len() > 0 {
            due == Some((plan, ActionModel::Submit { commit_first: first, transactions }))
        } else {
            due is None
        },
        None => due is None,
    }
}

/// While a session is idle nothing is due before its time. Then, if it has an active
/// checkpoint, the plan of that checkpoint is due: settled from its beginning if the
/// checkpoint is committed, and after committing it if its time for challenging is over;
/// nothing is due otherwise.
pub proof fn idle_sessions_settle_committed_plans(
    signer: SettlementSigner,
    l1: L1Model,
    session: Pubkey,
    state: Session,
    kept: Map<(Pubkey, u64), PlanModel>,
    stored: Option<Seq<u8>>,
    live: Option<PlanModel>,
    addresses: CheckpointAddresses,
    checkpoint: Checkpoint,
    plan: PlanModel,
    key: Pubkey,
)
    requires
        state.settlement_status == SettlementStatus::Idle,
    ensures
        ({
            let found = due(signer, l1, session, state, kept, stored, live, addresses);
            let fits = commits_to(checkpoint, session, plan) && !is_confused(checkpoint)
                && is_sendable(signer, plan);
            let bytes = carrying(signer, session, plan, true);
            &&& !is_time(l1.slot, state) ==> found is None
            &&& is_time(l1.slot, state) && session_checkpoint(
                signer.portal_program_id,
                l1.now,
                session,
            ) == Some((key, checkpoint)) ==> {
                &&& bound_plan(kept, stored, session, checkpoint) is None ==> found is None
                &&& bound_plan(kept, stored, session, checkpoint) == Some(plan) ==> {
                    &&& fits && checkpoint.status == CheckpointStatus::Committed ==> sends(
                        found,
                        plan,
                        false,
                        bytes,
                    )
                    &&& fits && can_be_committed(checkpoint, l1.slot) ==> sends(
                        found,
                        plan,
                        true,
                        bytes,
                    )
                    &&& !fits || (checkpoint.status != CheckpointStatus::Committed
                        && !can_be_committed(checkpoint, l1.slot)) ==> found is None
                }
            }
        }),
{
    checkpoints_take_their_steps(l1.slot, session, plan, checkpoint);
}

/// While a session is idle and has no active checkpoint, its live plan is due once its
/// time has come: a checkpoint is proposed for it if the address is free.
pub proof fn idle_sessions_propose_their_live_plan(
    signer: SettlementSigner,
    l1: L1Model,
    session: Pubkey,
    state: Session,
    kept: Map<(Pubkey, u64), PlanModel>,
    stored: Option<Seq<u8>>,
    live: Option<PlanModel>,
    addresses: CheckpointAddresses,
)
    requires
        state.settlement_status == SettlementStatus::Idle,
        is_time(l1.slot, state),
        session_checkpoint(signer.portal_program_id, l1.now, session) is None,
    ensures
        ({
            let found = due(signer, l1, session, state, kept, stored, live, addresses);
            let portal = signer.portal_program_id;
            &&& live is None ==> found is None
            &&& live is Some && is_free(portal, l1.now, addresses.checkpoint) ==> (found matches Some(
                (plan, ActionModel::Propose { challenge_window_slots, previous_state_root }),
            ) && {
                &&& Some(plan) == live
                &&& challenge_window_slots >= 10
                &&& challenge_window_slots >= state.settlement_interval_slots
                &&& challenge_window_slots == 10 || challenge_window_slots
                    == state.settlement_interval_slots
                &&& previous_state_root == finalized_state_root(
                    l1.now,
                    session,
                    addresses.cursor,
                )
            })
            &&& !is_free(portal, l1.now, addresses.checkpoint) ==> !(found matches Some(
                (_, action),
            ) && action is Propose)
        }),
{
    if let Some(plan) = live {
        checkpoints_are_proposed_when_free(
            signer.portal_program_id,
            l1,
            session,
            plan,
            state.settlement_interval_slots,
            addresses,
        );
    }
}

/// While a settlement is in progress, the plan of the active checkpoint, else the kept
/// plan of the settlement's slot, else the live plan is sent without its beginning, if it
/// is the plan that the settlement began with; nothing is due otherwise.
pub proof fn settlements_in_progress_are_finished(
    signer: SettlementSigner,
    l1: L1Model,
    session: Pubkey,
    state: Session,
    kept: Map<(Pubkey, u64), PlanModel>,
    stored: Option<Seq<u8>>,
    live: Option<PlanModel>,
    addresses: CheckpointAddresses,
    plan: PlanModel,
)
    requires
        state.settlement_status == SettlementStatus::InProgress,
    ensures
        ({
            let found = due(signer, l1, session, state, kept, stored, live, addresses);
            let slot = (session, state.settlement_er_slot);
            let active = session_checkpoint(signer.portal_program_id, l1.now, session);
            let bound = if active is Some {
                bound_plan(kept, stored, session, (active->0).1)
            } else {
                None
            };
            let chosen = bound == Some(plan) || (bound is None && kept.contains_key(slot)
                && kept[slot] == plan) || (bound is None && !kept.contains_key(slot) && live
                == Some(plan));
            let began = plan.er_slot == state.settlement_er_slot && plan.checksum
                == state.settlement_checksum;
            &&& chosen && began && is_sendable(signer, plan) ==> sends(
                found,
                plan,
                false,
                carrying(signer, session, plan, false),
            )
            &&& chosen && (!began || !is_sendable(signer, plan)) ==> found is None
            &&& bound is None && !kept.contains_key(slot) && live is None ==> found is None
        }),
{
}

/// A session is taken for valid if and only if the portal program owns an account at its
/// address that reads as a valid session.
pub proof fn valid_sessions_are_the_portals(
    portal: Pubkey,
    now: SnapshotModel,
    session: Pubkey,
    state: Session,
)
    ensures
        valid_session(portal, now, session) == Some(state) <==> {
            &&& now.accounts.contains_key(session)
            &&& now.accounts[session].owner == portal
            &&& now.portal.contains_key(session)
            &&& now.portal[session] == PortalAccount::Session(state)
            &&& state.valid
        },
{
}

/// Asking what is due keeps every plan unless there is a valid session. Then the plans of
/// finished checkpoints go; and the plan of the active checkpoint is kept, if it is asked
/// for: a settlement is in progress, or it is time for one.
pub proof fn asking_keeps_the_plans_that_matter(
    portal: Pubkey,
    l1: L1Model,
    session: Pubkey,
    state: Session,
    kept: Map<(Pubkey, u64), PlanModel>,
    stored: Option<Seq<u8>>,
)
    ensures
        ({
            let after = kept_when_asked(portal, l1, session, kept, stored);
            let rest = without_finished(
                kept,
                session,
                finished_plans(portal, l1.now, session, l1.now.keys.len()),
            );
            let active = session_checkpoint(portal, l1.now, session);
            let asked = state.settlement_status == SettlementStatus::InProgress || is_time(
                l1.slot,
                state,
            );
            &&& valid_session(portal, l1.now, session) is None ==> after == kept
            &&& valid_session(portal, l1.now, session) == Some(state) ==> {
                &&& !asked || active is None ==> after == rest
                &&& asked && active is Some ==> after == kept_with_bound(
                    rest,
                    stored,
                    session,
                    (active->0).1,
                )
            }
        }),
{
}

/// A stored plan is taken only if nothing blocks it, its checksum belongs to what it
/// holds, and that is the commitment.
pub proof fn stored_plans_match_their_commitment(bytes: Seq<u8>, commitment: [u8; 32])
    ensures
        stored_plan(bytes, commitment) matches Some(plan) ==> {
            &&& plan.checksum == commitment
            &&& plan_checksum(plan) == commitment
            &&& plan.unsupported_changes.len() == 0
        },
{
}

} // verus!
