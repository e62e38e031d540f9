//! Which settlement is due.

use vstd::prelude::*;

use crate::accounts::Pubkey;
use crate::codec::same_array;
use crate::ledger::{L1Bank, L1Model, Snapshot, SnapshotModel};
use crate::manager::checkpoints::{
    active_checkpoint_for_session, checkpoint_at, checkpoint_or_settlement, checkpoint_step,
    decision, find_checkpoint_at, lemma_session_checkpoint_is_active, is_open, is_open_status,
    plan_matches, resolution_deadline, session_checkpoint, step_for_existing_checkpoint,
    CheckpointAddresses, CheckpointDecision, CheckpointStep,
};
use crate::manager::plans::{load_checkpoint_plan, stored_plan, PlanCache};
use crate::portal_state::{Checkpoint, CheckpointStatus, PortalAccount, Session, SettlementStatus};
use crate::settlement::batches::{submission_transactions, transaction_bytes};
use crate::settlement::plan::can_be_sent;
use crate::settlement::portal::{protocol_ok, PortalProtocol};
use crate::settlement::{PlanModel, SettlementPlan};

verus! {

/// Who settles, and with what.
#[derive(Debug, Clone, Copy, PartialEq, Eq)]
pub struct SettlementSigner {
    pub protocol: PortalProtocol,
    pub portal_program_id: Pubkey,
    pub validator_secret: [u8; 32],
    pub recent_blockhash: [u8; 32],
}

/// What to do for a settlement.
#[derive(Debug, Clone, PartialEq, Eq)]
pub enum SettlementAction {
    /// Propose a checkpoint that commits to the plan.
    Propose { challenge_window_slots: u64, previous_state_root: [u8; 32] },
    /// Commit the checkpoint first, if so said, and send the transactions.
    Submit { commit_first: bool, transactions: Vec<Vec<u8>> },
}

/// What a `SettlementAction` holds.
#[verifier::ext_equal]
pub enum ActionModel {
    Propose { challenge_window_slots: u64, previous_state_root: [u8; 32] },
    Submit { commit_first: bool, transactions: Seq<Seq<u8>> },
}

impl View for SettlementAction {
    type V = ActionModel;

    open spec fn view(&self) -> ActionModel {
        match *self {
            SettlementAction::Propose { challenge_window_slots, previous_state_root } => {
                ActionModel::Propose { challenge_window_slots, previous_state_root }
            },
            SettlementAction::Submit { commit_first, transactions } => {
                ActionModel::Submit {
                    commit_first,
                    transactions: transaction_bytes(transactions@),
                }
            },
        }
    }
}

/// The submission of a plan: `None` if the plan is not within the limits or if
/// its transactions cannot be made. An empty or blocked plan has no transactions.
pub open spec fn submit(
    signer: SettlementSigner,
    session: Pubkey,
    plan: PlanModel,
    commit_first: bool,
    include_begin: bool,
) -> Option<ActionModel> {
    if !can_be_sent(plan, signer.protocol.limits) {
        None
    } else {
        match submission_transactions(
            plan,
            signer.protocol,
            signer.portal_program_id,
            session,
            signer.validator_secret,
            signer.recent_blockhash,
            include_begin,
        ) {
            None => None,
            Some(transactions) => Some(ActionModel::Submit { commit_first, transactions }),
        }
    }
}

fn submit_plan(
    signer: &SettlementSigner,
    session: &Pubkey,
    plan: &SettlementPlan,
    commit_first: bool,
    include_begin: bool,
) -> (r: Option<SettlementAction>)
    requires
        protocol_ok(signer.protocol),
    ensures
        action_model(r) == submit(*signer, *session, plan@, commit_first, include_begin),
{
    if !plan.has_unsupported_changes() && !plan.fits(&signer.protocol.limits) {
        return None;
    }
    let transactions = if include_begin {
        plan.portal_transactions(
            &signer.protocol,
            signer.portal_program_id,
            *session,
            &signer.validator_secret,
            &signer.recent_blockhash,
        )
    } else {
        plan.portal_retry_transactions_after_begin(
            &signer.protocol,
            signer.portal_program_id,
            *session,
            &signer.validator_secret,
            &signer.recent_blockhash,
        )
    };
    match transactions {
        None => None,
        Some(transactions) => Some(SettlementAction::Submit { commit_first, transactions }),
    }
}

/// What an optional action holds.
pub open spec fn action_model(action: Option<SettlementAction>) -> Option<ActionModel> {
    match action {
        Some(action) => Some(action@),
        None => None,
    }
}

/// What a step of a checkpoint makes of a plan.
pub open spec fn step_action(
    signer: SettlementSigner,
    session: Pubkey,
    plan: PlanModel,
    step: CheckpointStep,
) -> Option<ActionModel> {
    match step {
        CheckpointStep::CommitThenSettle => submit(signer, session, plan, true, true),
        CheckpointStep::Settle => submit(signer, session, plan, false, true),
        _ => None,
    }
}

fn act_on_step(
    signer: &SettlementSigner,
    session: &Pubkey,
    plan: &SettlementPlan,
    step: CheckpointStep,
) -> (r: Option<SettlementAction>)
    requires
        protocol_ok(signer.protocol),
    ensures
        action_model(r) == step_action(*signer, *session, plan@, step),
{
    match step {
        CheckpointStep::CommitThenSettle => submit_plan(signer, session, plan, true, true),
        CheckpointStep::Settle => submit_plan(signer, session, plan, false, true),
        CheckpointStep::Refuse | CheckpointStep::Wait | CheckpointStep::Forget => None,
    }
}

/// The plans that are kept once a checkpoint has had its step.
pub open spec fn kept_after(
    kept: Map<(Pubkey, u64), PlanModel>,
    session: Pubkey,
    checkpoint: Checkpoint,
    step: CheckpointStep,
) -> Map<(Pubkey, u64), PlanModel> {
    if step is Forget {
        kept.remove((session, checkpoint.er_slot))
    } else {
        kept
    }
}

/// What an existing checkpoint lets the manager send for a plan. A checkpoint
/// that is over lets it send nothing, and its plan is dropped.
pub fn transactions_for_existing_checkpoint(
    signer: &SettlementSigner,
    l1_slot: u64,
    session: &Pubkey,
    plan: &SettlementPlan,
    checkpoint: &Checkpoint,
    plans: &mut PlanCache,
) -> (r: Option<SettlementAction>)
    requires
        protocol_ok(signer.protocol),
        old(plans).well_formed(),
    ensures
        final(plans).well_formed(),
        final(plans)@ == kept_after(
            old(plans)@,
            *session,
            *checkpoint,
            checkpoint_step(l1_slot, *session, plan@, *checkpoint),
        ),
        action_model(r) == step_action(
            *signer,
            *session,
            plan@,
            checkpoint_step(l1_slot, *session, plan@, *checkpoint),
        ),
{
    let step = step_for_existing_checkpoint(l1_slot, session, plan, checkpoint);
    if let CheckpointStep::Forget = step {
        plans.remove(session, checkpoint.er_slot);
        return None;
    }
    act_on_step(signer, session, plan, step)
}

/// The session, if the portal program owns an account there that reads as a
/// valid one.
pub open spec fn valid_session(portal: Pubkey, now: SnapshotModel, session: Pubkey) -> Option<
    Session,
> {
    if now.owned_by(session, portal) {
        match now.portal_account(session) {
            Some(PortalAccount::Session(found)) => if found.valid {
                Some(found)
            } else {
                None
            },
            _ => None,
        }
    } else {
        None
    }
}

/// The session, if the portal program owns an account there that reads as a
/// valid one.
pub fn find_valid_session(portal: &Pubkey, now: &Snapshot, session: &Pubkey) -> (r: Option<Session>)
    requires
        now.well_formed(),
    ensures
        r == valid_session(*portal, now@, *session),
{
    match now.account(session) {
        None => None,
        Some(account) => {
            if !same_array(&account.owner, portal) {
                return None;
            }
            match now.portal_account(session) {
                Some(PortalAccount::Session(found)) => {
                    if found.valid {
                        Some(found)
                    } else {
                        None
                    }
                },
                _ => None,
            }
        },
    }
}

/// A stored plan.
#[derive(Debug, Clone, Copy, PartialEq, Eq)]
pub struct StoredPlanId {
    pub proposer: Pubkey,
    pub er_slot: u64,
}

/// Whether there is a checkpoint of the session at an address that is over.
pub open spec fn over_at(portal: Pubkey, now: SnapshotModel, session: Pubkey, key: Pubkey) -> bool {
    checkpoint_at(portal, now, key) matches Some(checkpoint) && checkpoint.session == session
        && !is_open(checkpoint.status)
}

/// The stored plans of the session's checkpoints that are over, among the first
/// `n` accounts.
pub open spec fn finished_plans(
    portal: Pubkey,
    now: SnapshotModel,
    session: Pubkey,
    n: nat,
) -> Seq<StoredPlanId>
    decreases n,
{
    if n == 0 {
        Seq::empty()
    } else {
        let before = finished_plans(portal, now, session, (n - 1) as nat);
        let key = now.keys[n - 1];
        if over_at(portal, now, session, key) {
            let checkpoint = checkpoint_at(portal, now, key)->0;
            before.push(
                StoredPlanId { proposer: checkpoint.proposer, er_slot: checkpoint.er_slot },
            )
        } else {
            before
        }
    }
}

/// The kept plans without those that are finished.
pub open spec fn without_finished(
    kept: Map<(Pubkey, u64), PlanModel>,
    session: Pubkey,
    finished: Seq<StoredPlanId>,
) -> Map<(Pubkey, u64), PlanModel>
    decreases finished.len(),
{
    if finished.len() == 0 {
        kept
    } else {
        without_finished(kept, session, finished.drop_last()).remove(
            (session, finished.last().er_slot),
        )
    }
}

/// Drops the plans of the session's checkpoints that are over, and returns which
/// stored plans go with them.
pub fn cleanup_terminal_checkpoint_plans(
    portal: &Pubkey,
    now: &Snapshot,
    session: &Pubkey,
    plans: &mut PlanCache,
) -> (finished: Vec<StoredPlanId>)
    requires
        now.well_formed(),
        old(plans).well_formed(),
    ensures
        final(plans).well_formed(),
        finished@ == finished_plans(*portal, now@, *session, now@.keys.len()),
        final(plans)@ == without_finished(old(plans)@, *session, finished@),
{
    let mut finished: Vec<StoredPlanId> = Vec::new();
    let mut i: usize = 0;
    while i < now.accounts.len()
        invariant
            now.well_formed(),
            plans.well_formed(),
            i <= now@.keys.len(),
            finished@ == finished_plans(*portal, now@, *session, i as nat),
            plans@ == without_finished(old(plans)@, *session, finished@),
        decreases now@.keys.len() - i,
    {
        let key = now.accounts.key_at(i);
        if let Some(checkpoint) = find_checkpoint_at(portal, now, &key) {
            if same_array(&checkpoint.session, session) && !is_open_status(checkpoint.status) {
                let ghost before = finished@;
                plans.remove(session, checkpoint.er_slot);
                finished.push(
                    StoredPlanId { proposer: checkpoint.proposer, er_slot: checkpoint.er_slot },
                );
                assert(finished@.drop_last() =~= before);
            }
        }
        i += 1;
    }
    finished
}

/// The plan that belongs to a checkpoint: the kept one, or else the stored one,
/// if its checksum is what the checkpoint commits to.
pub open spec fn bound_plan(
    kept: Map<(Pubkey, u64), PlanModel>,
    stored: Option<Seq<u8>>,
    session: Pubkey,
    checkpoint: Checkpoint,
) -> Option<PlanModel> {
    if kept.contains_key((session, checkpoint.er_slot)) {
        let plan = kept[(session, checkpoint.er_slot)];
        if plan.checksum == checkpoint.effect_commitment {
            Some(plan)
        } else {
            None
        }
    } else {
        match stored {
            Some(bytes) => stored_plan(bytes, checkpoint.effect_commitment),
            None => None,
        }
    }
}

/// The kept plans once the plan of a checkpoint was asked for: that plan is kept
/// too.
pub open spec fn kept_with_bound(
    kept: Map<(Pubkey, u64), PlanModel>,
    stored: Option<Seq<u8>>,
    session: Pubkey,
    checkpoint: Checkpoint,
) -> Map<(Pubkey, u64), PlanModel> {
    match bound_plan(kept, stored, session, checkpoint) {
        Some(plan) => kept.insert((session, plan.er_slot), plan),
        None => kept,
    }
}

/// A stored plan was asked for and is not the one of the checkpoint.
pub open spec fn stored_is_useless(
    kept: Map<(Pubkey, u64), PlanModel>,
    stored: Option<Seq<u8>>,
    session: Pubkey,
    checkpoint: Checkpoint,
) -> bool {
    &&& !kept.contains_key((session, checkpoint.er_slot))
    &&& stored matches Some(bytes) && stored_plan(bytes, checkpoint.effect_commitment) is None
}

/// What optional bytes hold.
pub open spec fn optional_bytes(bytes: Option<Vec<u8>>) -> Option<Seq<u8>> {
    match bytes {
        Some(bytes) => Some(bytes@),
        None => None,
    }
}

/// What an optional plan holds.
pub open spec fn plan_model(plan: Option<SettlementPlan>) -> Option<PlanModel> {
    match plan {
        Some(plan) => Some(plan@),
        None => None,
    }
}

/// The plan that belongs to a checkpoint, and whether a stored plan is of no
/// use. The plan is kept from then on.
pub fn checkpoint_bound_plan(
    plans: &mut PlanCache,
    stored: &Option<Vec<u8>>,
    session: &Pubkey,
    checkpoint: &Checkpoint,
) -> (r: (Option<SettlementPlan>, bool))
    requires
        old(plans).well_formed(),
    ensures
        final(plans).well_formed(),
        plan_model(r.0) == bound_plan(
            old(plans)@,
            optional_bytes(*stored),
            *session,
            *checkpoint,
        ),
        final(plans)@ == kept_with_bound(
            old(plans)@,
            optional_bytes(*stored),
            *session,
            *checkpoint,
        ),
        r.1 == stored_is_useless(old(plans)@, optional_bytes(*stored), *session, *checkpoint),
{
    let mut useless = false;
    let found: Option<SettlementPlan> = match plans.get(session, checkpoint.er_slot) {
        Some(plan) => {
            if same_array(&plan.checksum, &checkpoint.effect_commitment) {
                Some(plan.copy())
            } else {
                None
            }
        },
        None => match stored {
            Some(bytes) => {
                let loaded = load_checkpoint_plan(bytes, &checkpoint.effect_commitment);
                useless = loaded.is_none();
                loaded
            },
            None => None,
        },
    };
    if let Some(plan) = &found {
        plans.insert(session, plan.er_slot, plan.copy());
    }
    (found, useless)
}

/// The settlement interval has passed.
pub open spec fn interval_passed(l1_slot: u64, session: Session) -> bool {
    l1_slot >= session.last_settled_l1_slot + session.settlement_interval_slots || (l1_slot
        == u64::MAX)
}

/// The plan to go on with while a settlement is in progress: that of the active
/// checkpoint, else the kept one of the session's settlement, else the live one.
pub open spec fn retry_plan(
    kept: Map<(Pubkey, u64), PlanModel>,
    bound: Option<PlanModel>,
    session: Pubkey,
    state: Session,
    live: Option<PlanModel>,
) -> Option<PlanModel> {
    if bound is Some {
        bound
    } else if kept.contains_key((session, state.settlement_er_slot)) {
        Some(kept[(session, state.settlement_er_slot)])
    } else {
        live
    }
}

/// The action has nothing to send.
pub open spec fn sends_nothing(action: ActionModel) -> bool {
    match action {
        ActionModel::Propose { .. } => false,
        ActionModel::Submit { commit_first, transactions } => !commit_first && transactions.len()
            == 0,
    }
}

/// The plan with its action, unless there is none or it has nothing to send.
pub open spec fn with_action(plan: PlanModel, action: Option<ActionModel>) -> Option<
    (PlanModel, ActionModel),
> {
    match action {
        Some(action) => if sends_nothing(action) {
            None
        } else {
            Some((plan, action))
        },
        None => None,
    }
}

fn pair_with_action(plan: SettlementPlan, action: Option<SettlementAction>) -> (r: Option<
    (SettlementPlan, SettlementAction),
>)
    ensures
        due_model(r) == with_action(plan@, action_model(action)),
{
    match action {
        Some(action) => {
            let nothing = match &action {
                SettlementAction::Propose { .. } => false,
                SettlementAction::Submit { commit_first, transactions } => {
                    !*commit_first && transactions.len() == 0
                },
            };
            if nothing {
                None
            } else {
                Some((plan, action))
            }
        },
        None => None,
    }
}

/// The settlement that is due, given the kept plans without finished ones. What
/// has nothing to send is not due.
pub open spec fn due(
    signer: SettlementSigner,
    l1: L1Model,
    session: Pubkey,
    state: Session,
    kept: Map<(Pubkey, u64), PlanModel>,
    stored: Option<Seq<u8>>,
    live: Option<PlanModel>,
    addresses: CheckpointAddresses,
) -> Option<(PlanModel, ActionModel)> {
    let portal = signer.portal_program_id;
    let active = session_checkpoint(portal, l1.now, session);
    match state.settlement_status {
        SettlementStatus::Idle => if !interval_passed(l1.slot, state) {
            None
        } else {
            match active {
                Some((_, checkpoint)) => match bound_plan(kept, stored, session, checkpoint) {
                    None => None,
                    Some(plan) => with_action(
                        plan,
                        step_action(
                            signer,
                            session,
                            plan,
                            checkpoint_step(l1.slot, session, plan, checkpoint),
                        ),
                    ),
                },
                None => match live {
                    None => None,
                    Some(plan) => match decision(
                        portal,
                        l1,
                        session,
                        plan,
                        state.settlement_interval_slots,
                        addresses,
                    ) {
                        CheckpointDecision::Propose {
                            challenge_window_slots,
                            previous_state_root,
                        } => Some(
                            (
                                plan,
                                ActionModel::Propose {
                                    challenge_window_slots,
                                    previous_state_root,
                                },
                            ),
                        ),
                        CheckpointDecision::Existing(step) => with_action(
                            plan,
                            step_action(signer, session, plan, step),
                        ),
                    },
                },
            }
        },
        SettlementStatus::InProgress => {
            let bound = match active {
                Some((_, checkpoint)) => bound_plan(kept, stored, session, checkpoint),
                None => None,
            };
            match retry_plan(kept, bound, session, state, live) {
                None => None,
                Some(plan) => if state.settlement_er_slot == plan.er_slot
                    && state.settlement_checksum == plan.checksum {
                    with_action(plan, submit(signer, session, plan, false, false))
                } else {
                    None
                },
            }
        },
    }
}

/// The active checkpoint, if its plan is asked for.
pub open spec fn consulted(
    portal: Pubkey,
    l1: L1Model,
    session: Pubkey,
    state: Session,
) -> Option<Checkpoint> {
    if state.settlement_status is Idle && !interval_passed(l1.slot, state) {
        None
    } else {
        match session_checkpoint(portal, l1.now, session) {
            Some((_, checkpoint)) => Some(checkpoint),
            None => None,
        }
    }
}

/// The settlement that is due, with what becomes of stored plans.
pub struct DueOutcome {
    /// The plan to settle and what to do for it.
    pub due: Option<(SettlementPlan, SettlementAction)>,
    /// Stored plans that are of no use any more.
    pub finished: Vec<StoredPlanId>,
    /// The stored plan that was asked for is not the checkpoint's.
    pub discard_stored: bool,
}

/// What an optional settlement holds.
pub open spec fn due_model(due: Option<(SettlementPlan, SettlementAction)>) -> Option<
    (PlanModel, ActionModel),
> {
    match due {
        Some((plan, action)) => Some((plan@, action@)),
        None => None,
    }
}

/// What becomes of the kept plans.
pub open spec fn kept_when_asked(
    portal: Pubkey,
    l1: L1Model,
    session: Pubkey,
    kept: Map<(Pubkey, u64), PlanModel>,
    stored: Option<Seq<u8>>,
) -> Map<(Pubkey, u64), PlanModel> {
    match valid_session(portal, l1.now, session) {
        None => kept,
        Some(state) => {
            let rest = without_finished(
                kept,
                session,
                finished_plans(portal, l1.now, session, l1.now.keys.len()),
            );
            match consulted(portal, l1, session, state) {
                Some(checkpoint) => kept_with_bound(rest, stored, session, checkpoint),
                None => rest,
            }
        },
    }
}

proof fn lemma_open_is_not_forgotten(
    l1_slot: u64,
    session: Pubkey,
    plan: PlanModel,
    checkpoint: Checkpoint,
)
    requires
        is_open(checkpoint.status),
    ensures
        !(checkpoint_step(l1_slot, session, plan, checkpoint) is Forget),
{
}

/// The settlement that is due for a session: nothing unless the portal program
/// has a valid session there; while the session is idle, nothing before its
/// interval has passed, and then what the active checkpoint, or else a new one,
/// lets the manager do; while a settlement is in progress, the rest of it, if
/// the plan is the one that the settlement began with. `stored` is the stored
/// plan of the active checkpoint, if there is one, `live` the plan of the
/// rollup's present state, and `addresses` belong to that plan's slot.
pub fn settlement_transactions_if_due(
    signer: &SettlementSigner,
    l1: &L1Bank,
    session: &Pubkey,
    plans: &mut PlanCache,
    stored: &Option<Vec<u8>>,
    live: Option<SettlementPlan>,
    addresses: &CheckpointAddresses,
) -> (r: DueOutcome)
    requires
        protocol_ok(signer.protocol),
        l1.well_formed(),
        old(plans).well_formed(),
    ensures
        final(plans).well_formed(),
        final(plans)@ == kept_when_asked(
            signer.portal_program_id,
            l1@,
            *session,
            old(plans)@,
            optional_bytes(*stored),
        ),
        match valid_session(signer.portal_program_id, l1@.now, *session) {
            None => r.due is None && r.finished@.len() == 0 && !r.discard_stored,
            Some(state) => {
                let finished = finished_plans(
                    signer.portal_program_id,
                    l1@.now,
                    *session,
                    l1@.now.keys.len(),
                );
                let kept = without_finished(old(plans)@, *session, finished);
                &&& r.finished@ == finished
                &&& due_model(r.due) == due(
                    *signer,
                    l1@,
                    *session,
                    state,
                    kept,
                    optional_bytes(*stored),
                    plan_model(live),
                    *addresses,
                )
                &&& r.discard_stored == (consulted(
                    signer.portal_program_id,
                    l1@,
                    *session,
                    state,
                ) matches Some(checkpoint) && stored_is_useless(
                    kept,
                    optional_bytes(*stored),
                    *session,
                    checkpoint,
                ))
            },
        },
{
    let portal = signer.portal_program_id;
    let state = match find_valid_session(&portal, &l1.now, session) {
        Some(state) => state,
        None => {
            return DueOutcome { due: None, finished: Vec::new(), discard_stored: false };
        },
    };
    let finished = cleanup_terminal_checkpoint_plans(&portal, &l1.now, session, plans);
    match state.settlement_status {
        SettlementStatus::Idle => {
            let next: u64 = state.last_settled_l1_slot.saturating_add(
                state.settlement_interval_slots,
            );
            if l1.slot < next {
                return DueOutcome { due: None, finished, discard_stored: false };
            }
            match active_checkpoint_for_session(&portal, &l1.now, session) {
                Some((_, checkpoint)) => {
                    let (plan, discard_stored) = checkpoint_bound_plan(
                        plans,
                        stored,
                        session,
                        &checkpoint,
                    );
                    match plan {
                        None => DueOutcome { due: None, finished, discard_stored },
                        Some(plan) => {
                            proof {
                                lemma_session_checkpoint_is_active(portal, l1@.now, *session);
                                lemma_open_is_not_forgotten(l1.slot, *session, plan@, checkpoint);
                            }
                            let action = transactions_for_existing_checkpoint(
                                signer,
                                l1.slot,
                                session,
                                &plan,
                                &checkpoint,
                                plans,
                            );
                            let due = pair_with_action(plan, action);
                            DueOutcome { due, finished, discard_stored }
                        },
                    }
                },
                None => {
                    let due = match live {
                        None => None,
                        Some(plan) => match checkpoint_or_settlement(
                            &portal,
                            l1,
                            session,
                            &plan,
                            state.settlement_interval_slots,
                            addresses,
                        ) {
                            CheckpointDecision::Propose {
                                challenge_window_slots,
                                previous_state_root,
                            } => Some(
                                (
                                    plan,
                                    SettlementAction::Propose {
                                        challenge_window_slots,
                                        previous_state_root,
                                    },
                                ),
                            ),
                            CheckpointDecision::Existing(step) => {
                                let action = act_on_step(signer, session, &plan, step);
                                pair_with_action(plan, action)
                            },
                        },
                    };
                    DueOutcome { due, finished, discard_stored: false }
                },
            }
        },
        SettlementStatus::InProgress => {
            let (bound, discard_stored) = match active_checkpoint_for_session(
                &portal,
                &l1.now,
                session,
            ) {
                Some((_, checkpoint)) => checkpoint_bound_plan(plans, stored, session, &checkpoint),
                None => (None, false),
            };
            let plan = match bound {
                Some(plan) => Some(plan),
                None => match plans.get(session, state.settlement_er_slot) {
                    Some(plan) => Some(plan.copy()),
                    None => live,
                },
            };
            let due = match plan {
                None => None,
                Some(plan) => {
                    if state.settlement_er_slot == plan.er_slot && same_array(
                        &state.settlement_checksum,
                        &plan.checksum,
                    ) {
                        let action = submit_plan(signer, session, &plan, false, false);
                        pair_with_action(plan, action)
                    } else {
                        None
                    }
                },
            };
            DueOutcome { due, finished, discard_stored }
        },
    }
}

/// Whatever is due has something to send.
pub proof fn nothing_empty_is_due(
    signer: SettlementSigner,
    l1: L1Model,
    session: Pubkey,
    state: Session,
    kept: Map<(Pubkey, u64), PlanModel>,
    stored: Option<Seq<u8>>,
    live: Option<PlanModel>,
    addresses: CheckpointAddresses,
)
    requires
        due(signer, l1, session, state, kept, stored, live, addresses) is Some,
    ensures
        !sends_nothing((due(signer, l1, session, state, kept, stored, live, addresses)->0).1),
{
}

/// The checkpoint allows settling: it is committed, or it is to be committed
/// first and can no longer be challenged.
pub open spec fn settles(l1_slot: u64, checkpoint: Checkpoint, commit_first: bool) -> bool {
    match checkpoint.status {
        CheckpointStatus::Committed => !commit_first,
        CheckpointStatus::Pending => commit_first && l1_slot
            >= checkpoint.challenge_deadline_l1_slot,
        CheckpointStatus::Challenged => commit_first && (resolution_deadline(checkpoint) matches Some(
            deadline,
        ) && l1_slot >= deadline),
        _ => false,
    }
}

/// There is a valid checkpoint of the session at an address that commits to the
/// plan and allows settling.
pub open spec fn settled_by(
    portal: Pubkey,
    l1: L1Model,
    session: Pubkey,
    plan: PlanModel,
    commit_first: bool,
    key: Pubkey,
) -> bool {
    checkpoint_at(portal, l1.now, key) matches Some(checkpoint) && plan_matches(
        checkpoint,
        session,
        plan,
    ) && settles(l1.slot, checkpoint, commit_first)
}

/// While a session is idle, a plan is submitted only if a valid checkpoint of
/// the session on layer one commits to it and allows settling.
pub proof fn settlements_follow_a_checkpoint(
    signer: SettlementSigner,
    l1: L1Model,
    session: Pubkey,
    state: Session,
    kept: Map<(Pubkey, u64), PlanModel>,
    stored: Option<Seq<u8>>,
    live: Option<PlanModel>,
    addresses: CheckpointAddresses,
    plan: PlanModel,
    commit_first: bool,
    transactions: Seq<Seq<u8>>,
)
    requires
        state.settlement_status is Idle,
        due(signer, l1, session, state, kept, stored, live, addresses) == Some(
            (plan, ActionModel::Submit { commit_first, transactions }),
        ),
    ensures
        interval_passed(l1.slot, state),
        exists|key: Pubkey|
            settled_by(signer.portal_program_id, l1, session, plan, commit_first, key),
{
    let portal = signer.portal_program_id;
    lemma_session_checkpoint_is_active(portal, l1.now, session);
    let key = match session_checkpoint(portal, l1.now, session) {
        Some((key, _)) => key,
        None => addresses.checkpoint,
    };
    assert(settled_by(portal, l1, session, plan, commit_first, key));
}

/// While a settlement is in progress, only the plan that it began with is sent.
pub proof fn settlements_go_on_with_their_plan(
    signer: SettlementSigner,
    l1: L1Model,
    session: Pubkey,
    state: Session,
    kept: Map<(Pubkey, u64), PlanModel>,
    stored: Option<Seq<u8>>,
    live: Option<PlanModel>,
    addresses: CheckpointAddresses,
    plan: PlanModel,
    action: ActionModel,
)
    requires
        state.settlement_status is InProgress,
        due(signer, l1, session, state, kept, stored, live, addresses) == Some((plan, action)),
    ensures
        plan.er_slot == state.settlement_er_slot,
        plan.checksum == state.settlement_checksum,
        action matches ActionModel::Submit { commit_first, .. } && !commit_first,
{
}

/// A checkpoint is proposed only for a session that is idle and has no active
/// checkpoint, and for the live plan.
pub proof fn proposals_wait_for_the_active_checkpoint(
    signer: SettlementSigner,
    l1: L1Model,
    session: Pubkey,
    state: Session,
    kept: Map<(Pubkey, u64), PlanModel>,
    stored: Option<Seq<u8>>,
    live: Option<PlanModel>,
    addresses: CheckpointAddresses,
    plan: PlanModel,
    challenge_window_slots: u64,
    previous_state_root: [u8; 32],
)
    requires
        due(signer, l1, session, state, kept, stored, live, addresses) == Some(
            (plan, ActionModel::Propose { challenge_window_slots, previous_state_root }),
        ),
    ensures
        state.settlement_status is Idle,
        interval_passed(l1.slot, state),
        session_checkpoint(signer.portal_program_id, l1.now, session) is None,
        live == Some(plan),
        challenge_window_slots >= 10,
        challenge_window_slots >= state.settlement_interval_slots,
{
}

} // verus!
