//! The rollup's manager: what it sees on layer one and what it sends there.

use vstd::prelude::*;

pub use events::{L1Event, PortalConfig};

use crate::accounts::{Account, Pubkey, ZEROS};
use crate::addresses::{delegation_record_address, find_delegation_record_pda};
use crate::instructions::{instruction_models, Instruction};
use crate::keyed::{ordered, KeyMap};
use crate::ledger::{held, AccountMap, L1Bank, Snapshot, SnapshotModel};
use crate::manager::checkpoints::CheckpointAddresses;
use crate::manager::due::{
    consulted, due, due_model, finished_plans, kept_when_asked, optional_bytes, plan_model,
    stored_is_useless, valid_session, without_finished, DueOutcome, SettlementSigner,
};
use crate::manager::events::{events_of, get_l1_events};
use crate::manager::plans::PlanCache;
use crate::manager::sessions::{
    active_l1_session, delegation_models, delegations_to, l1_delegations_for_grid, running_session,
    DelegationModel,
};
use crate::portal_state::PortalAccount;
use crate::runtime::delegation::{
    delegation_model, delegation_update, received_update, reset_model, reset_update,
};
use crate::runtime::deposits::{
    deposit_model, deposit_update, present_or_empty, WithdrawalSink,
};
use crate::runtime::diff::{accumulates, all_differences, resets_leave_no_difference};
use crate::runtime::receipts::{
    all_receipt_settlements, receipt_settlement, receipt_settlements,
};
use crate::runtime::refresh::{
    anchored_model, overlay_update, owners_on, refresh_update, refreshed,
};
use crate::runtime::slots::next_slot;
use crate::runtime::{
    Anchor, BankUpdate, EphemeralRollupSettings, EphemeralRuntime, RuntimeModel, UpdateModel,
};
use crate::settlement::batches::{
    address_of_keypair, keypair_address, optional_view, resign_settlement_transaction,
    resigned_transaction, signs_the_same,
};
use crate::settlement::plan::{build_settlement_plan, plan_of, plans_are_consistent};
use crate::settlement::portal::{protocol_ok, submission, PortalProtocol, SettlementTarget};
use crate::settlement::{PlanModel, SettlementPlan};
use crate::state_diff::{diff_models, ErStateDiff};
use crate::timing::DEFAULT_ER_SLOT_DURATION_MS;

pub mod checkpoints;
pub mod conduct;
pub mod due;
pub mod events;
pub mod plans;
pub mod reporting;
pub mod sessions;
pub mod timeliness;

verus! {

/// What can go wrong with the manager.
#[derive(Debug, Clone, PartialEq, Eq)]
pub enum NorthStarError {
    /// The runtime could not be made, for the reason given.
    RuntimeCreationFailed(String),
}

impl NorthStarError {
    /// The error in words.
    pub fn message(&self) -> (text: String)
        ensures
            match *self {
                NorthStarError::RuntimeCreationFailed(reason) => text@
                    == "Failed to create ephemeral runtime: "@ + reason@,
            },
    {
        match self {
            NorthStarError::RuntimeCreationFailed(reason) => {
                let mut text = "Failed to create ephemeral runtime: ".to_owned();
                text.append(reason.as_str());
                text
            },
        }
    }
}

/// What is known of a fork.
#[derive(Debug, Clone, Copy, PartialEq, Eq)]
pub struct EphemeralForkMetadata {}

/// What a manager works with.
#[derive(Debug, Clone, Copy, PartialEq, Eq)]
pub struct ManagerConfig {
    pub portal: PortalConfig,
    pub protocol: PortalProtocol,
    /// The secret key of the manager's account, which is the sessions' validator.
    pub manager_secret: [u8; 32],
}

/// The manager of the rollup.
pub struct Manager {
    pub config: ManagerConfig,
    pub slot_duration_ms: u64,
    pub er_history_max_retained_slots: usize,
    /// The plans that are kept for checkpoints.
    pub checkpoint_plans: PlanCache,
    pub runtime: Option<EphemeralRuntime>,
}

/// What a `Manager` holds.
#[verifier::ext_equal]
pub struct ManagerModel {
    pub config: ManagerConfig,
    pub slot_duration_ms: u64,
    pub er_history_max_retained_slots: usize,
    pub plans: Map<(Pubkey, u64), PlanModel>,
    pub runtime: Option<RuntimeModel>,
}

impl View for Manager {
    type V = ManagerModel;

    open spec fn view(&self) -> ManagerModel {
        ManagerModel {
            config: self.config,
            slot_duration_ms: self.slot_duration_ms,
            er_history_max_retained_slots: self.er_history_max_retained_slots,
            plans: self.checkpoint_plans@,
            runtime: match self.runtime {
                Some(runtime) => Some(runtime@),
                None => None,
            },
        }
    }
}

/// Whether there is a runtime and it is active.
pub open spec fn is_running(manager: ManagerModel) -> bool {
    manager.runtime matches Some(runtime) && runtime.active
}

/// A runtime once its session is active: reset onto a layer-one bank with what
/// the session says.
pub open spec fn activated(
    before: RuntimeModel,
    anchor_slot: u64,
    l1: SnapshotModel,
    session_pda: Pubkey,
    grid_id: u64,
    ttl_slots: u64,
    fee_cap: u64,
) -> RuntimeModel {
    RuntimeModel {
        active: true,
        advancing: true,
        session: Some(session_pda),
        ..reset_model(
            RuntimeModel { grid_id, ttl_slots, fee_cap, ..before },
            anchor_slot,
            l1,
        )
    }
}

/// The runtime once the first `n` delegations are taken over.
pub open spec fn with_delegations(
    before: RuntimeModel,
    delegations: Seq<DelegationModel>,
    n: nat,
) -> RuntimeModel
    decreases n,
{
    if n == 0 {
        before
    } else {
        let found = delegations[n - 1];
        delegation_model(
            with_delegations(before, delegations, (n - 1) as nat),
            found.delegated,
            found.account,
            Some(found.owner_program),
        )
    }
}

/// What taking over the delegations does to the bank, one update for each.
pub open spec fn delegation_updates(delegations: Seq<DelegationModel>) -> Seq<UpdateModel> {
    delegations.map_values(
        |found: DelegationModel|
            received_update(
                found.delegated,
                found.account,
                Some(found.owner_program),
                found.program,
            ),
    )
}

/// What the updates hold.
pub open spec fn update_models(updates: Seq<BankUpdate>) -> Seq<UpdateModel> {
    updates.map_values(|update: BankUpdate| update@)
}

/// The owner that the delegation record of an account names, whatever its grid.
pub open spec fn recorded_owner(portal: Pubkey, l1: SnapshotModel, key: Pubkey) -> Option<Pubkey> {
    match delegation_record_address(portal, key) {
        None => None,
        Some(address) => match l1.portal_account(address) {
            Some(PortalAccount::DelegationRecord(record)) => Some(record.owner_program),
            _ => None,
        },
    }
}

/// The settlement plan of the runtime's present state: `None` without a session,
/// or if there is nothing to settle and nothing to report.
pub open spec fn live_plan(manager: ManagerModel, sinks: Map<Pubkey, Pubkey>) -> Option<PlanModel> {
    match manager.runtime {
        None => None,
        Some(runtime) => match runtime.session {
            None => None,
            Some(session) => plan_of(
                all_differences(runtime),
                runtime.delegated,
                runtime.working_slot,
                all_receipt_settlements(runtime, session, sinks),
                manager.config.protocol.limits,
            ),
        },
    }
}

impl Manager {
    pub open spec fn well_formed(&self) -> bool {
        &&& protocol_ok(self.config.protocol)
        &&& self.checkpoint_plans.well_formed()
        &&& self.runtime matches Some(runtime) ==> runtime.well_formed()
    }

    /// A manager without a runtime. `er_history_max_retained_slots` is how many
    /// slots of history are kept.
    pub fn new(config: ManagerConfig, er_history_max_retained_slots: usize) -> (manager: Manager)
        requires
            protocol_ok(config.protocol),
        ensures
            manager.well_formed(),
            manager@ == (ManagerModel {
                config,
                slot_duration_ms: DEFAULT_ER_SLOT_DURATION_MS,
                er_history_max_retained_slots,
                plans: Map::empty(),
                runtime: None,
            }),
    {
        Manager {
            config,
            slot_duration_ms: DEFAULT_ER_SLOT_DURATION_MS,
            er_history_max_retained_slots,
            checkpoint_plans: PlanCache::new(),
            runtime: None,
        }
    }

    /// Sets how long a slot lasts, in milliseconds.
    pub fn set_slot_duration(&mut self, slot_duration_ms: u64)
        requires
            old(self).well_formed(),
        ensures
            final(self).well_formed(),
            final(self)@ == (ManagerModel { slot_duration_ms, ..old(self)@ }),
    {
        self.slot_duration_ms = slot_duration_ms;
    }

    /// Sets how many slots of history are kept.
    pub fn set_er_history_max_retained_slots(&mut self, max_retained_slots: usize)
        requires
            old(self).well_formed(),
        ensures
            final(self).well_formed(),
            final(self)@ == (ManagerModel {
                er_history_max_retained_slots: max_retained_slots,
                ..old(self)@
            }),
    {
        self.er_history_max_retained_slots = max_retained_slots;
    }

    /// Whether a session is active.
    pub fn has_active_runtime(&self) -> (active: bool)
        ensures
            active == is_running(self@),
    {
        match &self.runtime {
            Some(runtime) => runtime.active,
            None => false,
        }
    }

    /// Whether there is a runtime.
    pub fn has_runtime(&self) -> (has: bool)
        ensures
            has == (self@.runtime is Some),
    {
        self.runtime.is_some()
    }

    /// The session of the runtime.
    pub fn session_pda(&self) -> (session: Option<Pubkey>)
        ensures
            session == (match self@.runtime {
                Some(runtime) => runtime.session,
                None => None,
            }),
    {
        match &self.runtime {
            Some(runtime) => runtime.session,
            None => None,
        }
    }

    /// How the rollup differs from layer one, if there is a runtime.
    pub fn state_diff_from_l1(&self) -> (diff: Option<ErStateDiff>)
        requires
            self.well_formed(),
        ensures
            match self@.runtime {
                None => diff is None,
                Some(runtime) => diff matches Some(diff) && diff_models(diff.accounts@)
                    == all_differences(runtime) && accumulates(
                    diff.lt_hash,
                    diff_models(diff.accounts@),
                ),
            },
    {
        match &self.runtime {
            None => None,
            Some(runtime) => Some(runtime.state_diff_from_l1()),
        }
    }

    /// The settlement plan of the rollup's present state. `sinks` holds the
    /// address of each recipient's withdrawal sink.
    pub fn settlement_plan(&self, sinks: &KeyMap<Pubkey, 32>) -> (plan: Option<SettlementPlan>)
        requires
            self.well_formed(),
            sinks.well_formed(),
        ensures
            plan_model(plan) == live_plan(self@, sinks@),
    {
        let runtime = match &self.runtime {
            Some(runtime) => runtime,
            None => {
                return None;
            },
        };
        let session = match runtime.session {
            Some(session) => session,
            None => {
                return None;
            },
        };
        let diff = runtime.state_diff_from_l1();
        let receipts = runtime.settlement_receipt_balances(&session, sinks);
        build_settlement_plan(
            &diff,
            &runtime.delegated_accounts,
            runtime.working_slot,
            receipts,
            &self.config.protocol.limits,
        )
    }

    /// The instructions that settle the rollup's present state. Returns `None` if
    /// there are none: then nothing is to be sent, not even the beginning and the
    /// end of a settlement.
    pub fn settlement_instructions(&self, sinks: &KeyMap<Pubkey, 32>) -> (r: Option<
        Vec<Instruction>,
    >)
        requires
            self.well_formed(),
            sinks.well_formed(),
        ensures
            match live_plan(self@, sinks@) {
                None => r is None,
                Some(plan) => match submission(
                    plan,
                    self@.config.protocol,
                    (SettlementTarget {
                        program_id: self@.config.portal.program_id,
                        session: (self@.runtime->0).session->0,
                        validator: keypair_address(self@.config.manager_secret),
                    }),
                    true,
                ) {
                    None => r is None,
                    Some(instructions) => if instructions.len() == 0 {
                        r is None
                    } else {
                        r matches Some(list) && instruction_models(list@) == instructions
                    },
                },
            },
    {
        let session = match self.session_pda() {
            Some(session) => session,
            None => {
                return None;
            },
        };
        let plan = match self.settlement_plan(sinks) {
            Some(plan) => plan,
            None => {
                return None;
            },
        };
        proof {
            let runtime = self@.runtime->0;
            plans_are_consistent(
                all_differences(runtime),
                runtime.delegated,
                runtime.working_slot,
                all_receipt_settlements(runtime, session, sinks@),
                self@.config.protocol.limits,
            );
        }
        let validator = address_of_keypair(&self.config.manager_secret);
        match plan.portal_instructions(
            &self.config.protocol,
            self.config.portal.program_id,
            session,
            validator,
        ) {
            None => None,
            Some(instructions) => {
                if instructions.len() == 0 {
                    None
                } else {
                    Some(instructions)
                }
            },
        }
    }

    /// Signs a settlement transaction anew for a fresh blockhash.
    pub fn resign_settlement_transaction(
        &self,
        transaction: &Vec<u8>,
        recent_blockhash: &[u8; 32],
    ) -> (r: Option<Vec<u8>>)
        ensures
            optional_view(r) == resigned_transaction(
                transaction@,
                self@.config.manager_secret,
                *recent_blockhash,
            ),
            signs_the_same(
                transaction@,
                self@.config.manager_secret,
                *recent_blockhash,
                optional_view(r),
            ),
    {
        resign_settlement_transaction(transaction, &self.config.manager_secret, recent_blockhash)
    }

    /// The settlement that is due at a layer-one bank, if the runtime has a
    /// session. `stored` is the stored plan of the session's active checkpoint, and
    /// `addresses` belong to the runtime's working slot.
    pub fn settlement_transactions_if_due(
        &mut self,
        l1: &L1Bank,
        recent_blockhash: &[u8; 32],
        stored: &Option<Vec<u8>>,
        sinks: &KeyMap<Pubkey, 32>,
        addresses: &CheckpointAddresses,
    ) -> (r: Option<DueOutcome>)
        requires
            old(self).well_formed(),
            l1.well_formed(),
            sinks.well_formed(),
        ensures
            final(self).well_formed(),
            match (match old(self)@.runtime {
                Some(runtime) => runtime.session,
                None => None,
            }) {
                None => r is None && final(self)@ == old(self)@,
                Some(session) => {
                    let config = old(self)@.config;
                    let signer = SettlementSigner {
                        protocol: config.protocol,
                        portal_program_id: config.portal.program_id,
                        validator_secret: config.manager_secret,
                        recent_blockhash: *recent_blockhash,
                    };
                    &&& final(self)@ == (ManagerModel {
                        plans: kept_when_asked(
                            config.portal.program_id,
                            l1@,
                            session,
                            old(self)@.plans,
                            optional_bytes(*stored),
                        ),
                        ..old(self)@
                    })
                    &&& r matches Some(outcome) && match valid_session(
                        config.portal.program_id,
                        l1@.now,
                        session,
                    ) {
                        None => outcome.due is None && outcome.finished@.len() == 0
                            && !outcome.discard_stored,
                        Some(state) => {
                            let finished = finished_plans(
                                config.portal.program_id,
                                l1@.now,
                                session,
                                l1@.now.keys.len(),
                            );
                            let kept = without_finished(old(self)@.plans, session, finished);
                            &&& outcome.finished@ == finished
                            &&& due_model(outcome.due) == due(
                                signer,
                                l1@,
                                session,
                                state,
                                kept,
                                optional_bytes(*stored),
                                live_plan(old(self)@, sinks@),
                                *addresses,
                            )
                            &&& outcome.discard_stored == (consulted(
                                config.portal.program_id,
                                l1@,
                                session,
                                state,
                            ) matches Some(checkpoint) && stored_is_useless(
                                kept,
                                optional_bytes(*stored),
                                session,
                                checkpoint,
                            ))
                        },
                    }
                },
            },
    {
        let session = match self.session_pda() {
            Some(session) => session,
            None => {
                return None;
            },
        };
        let live = self.settlement_plan(sinks);
        let signer = SettlementSigner {
            protocol: self.config.protocol,
            portal_program_id: self.config.portal.program_id,
            validator_secret: self.config.manager_secret,
            recent_blockhash: *recent_blockhash,
        };
        Some(
            due::settlement_transactions_if_due(
                &signer,
                l1,
                &session,
                &mut self.checkpoint_plans,
                stored,
                live,
                addresses,
            ),
        )
    }

    /// Keeps the plan that a checkpoint was proposed for.
    pub fn cache_checkpoint_plan(&mut self, session: &Pubkey, plan: SettlementPlan)
        requires
            old(self).well_formed(),
        ensures
            final(self).well_formed(),
            final(self)@ == (ManagerModel {
                plans: old(self)@.plans.insert((*session, plan.er_slot), plan@),
                ..old(self)@
            }),
    {
        let er_slot: u64 = plan.er_slot;
        self.checkpoint_plans.insert(session, er_slot, plan);
    }

    /// Gives up the runtime.
    pub fn shutdown_runtime(&mut self) -> (runtime: Option<EphemeralRuntime>)
        requires
            old(self).well_formed(),
        ensures
            final(self).well_formed(),
            final(self)@ == (ManagerModel { runtime: None, ..old(self)@ }),
            runtime == old(self).runtime,
    {
        self.runtime.take()
    }

    /// What happened in a layer-one bank.
    pub fn get_l1_events(&self, bank: &L1Bank) -> (events: Vec<L1Event>)
        requires
            bank.well_formed(),
        ensures
            events@ == events_of(self@.config.portal, bank@, bank@.modified.len()),
    {
        get_l1_events(&self.config.portal, bank)
    }

    /// Makes the runtime on a layer-one bank, without a session. If there is one
    /// already, nothing changes.
    pub fn init_runtime(&mut self, anchor: Anchor) -> (update: Option<BankUpdate>)
        requires
            old(self).well_formed(),
            anchor.snapshot.well_formed(),
        ensures
            final(self).well_formed(),
            old(self)@.runtime is Some ==> update is None && final(self)@ == old(self)@,
            old(self)@.runtime is None ==> {
                &&& update matches Some(update) && update@ == crate::runtime::no_update()
                &&& final(self)@ == (ManagerModel {
                    runtime: Some(
                        idle_runtime(
                            old(self)@.config.portal.program_id,
                            anchor.slot,
                            anchor.snapshot@,
                        ),
                    ),
                    ..old(self)@
                })
            },
    {
        if self.runtime.is_some() {
            return None;
        }
        let settings = EphemeralRollupSettings {
            session_pda: ZEROS,
            grid_id: 0,
            ttl_slots: 0,
            er_fee_structure: EphemeralRollupSettings::zero_fee_structure(),
            fee_cap: 0,
            delegated_accounts: Vec::new(),
        };
        let ghost l1 = anchor.snapshot@;
        let ghost slot = anchor.slot;
        let portal = self.config.portal.program_id;
        let (runtime, update) = EphemeralRuntime::new(anchor, &settings, portal);
        proof {
            let fresh = idle_runtime(portal, slot, l1);
            assert(runtime@.delegated =~= fresh.delegated);
            assert(runtime@.snapshots =~= fresh.snapshots);
            assert(runtime@.overlay =~= fresh.overlay);
            assert(runtime@ =~= fresh);
        }
        self.runtime = Some(runtime);
        Some(update)
    }

    /// Starts a session: the runtime is reset onto a layer-one bank and accepts
    /// transactions. Returns `None` if there is no runtime.
    pub fn activate_session(
        &mut self,
        anchor: Anchor,
        session_pda: Pubkey,
        grid_id: u64,
        ttl_slots: u64,
        fee_cap: u64,
    ) -> (update: Option<BankUpdate>)
        requires
            old(self).well_formed(),
            anchor.snapshot.well_formed(),
        ensures
            final(self).well_formed(),
            match old(self)@.runtime {
                None => update is None && final(self)@ == old(self)@,
                Some(runtime) => {
                    &&& final(self)@ == (ManagerModel {
                        runtime: Some(
                            activated(
                                runtime,
                                anchor.slot,
                                anchor.snapshot@,
                                session_pda,
                                grid_id,
                                ttl_slots,
                                fee_cap,
                            ),
                        ),
                        ..old(self)@
                    })
                    &&& update matches Some(update) && update@ == reset_update(
                        anchor.snapshot@,
                        runtime.portal_program_id,
                        grid_id,
                        anchor.snapshot@.keys.len(),
                    )
                },
            },
    {
        match self.runtime.take() {
            None => None,
            Some(mut runtime) => {
                runtime.set_session_settings(grid_id, ttl_slots, fee_cap);
                let update = runtime.reset_to_new_parent(anchor);
                runtime.set_session_pda(session_pda);
                runtime.activate();
                self.runtime = Some(runtime);
                Some(update)
            },
        }
    }

    /// Ends the session. Returns whether there is a runtime.
    pub fn deactivate_session(&mut self) -> (done: bool)
        requires
            old(self).well_formed(),
        ensures
            final(self).well_formed(),
            match old(self)@.runtime {
                None => !done && final(self)@ == old(self)@,
                Some(runtime) => done && final(self)@ == (ManagerModel {
                    runtime: Some(
                        RuntimeModel { active: false, advancing: false, session: None, ..runtime },
                    ),
                    ..old(self)@
                }),
            },
    {
        match self.runtime.take() {
            None => false,
            Some(mut runtime) => {
                runtime.deactivate();
                self.runtime = Some(runtime);
                true
            },
        }
    }

    /// Goes on with a session that layer one has: if there is a runtime, it is not
    /// active, and layer one has a session that the manager can run, that session
    /// is started and every delegation to its grid is taken over. Returns what is
    /// to be done to the bank: the reset first, followed by one update for each
    /// delegation.
    pub fn resume_active_session_from_l1(&mut self, anchor: Anchor, expired: bool) -> (r: Option<
        Vec<BankUpdate>,
    >)
        requires
            old(self).well_formed(),
            anchor.snapshot.well_formed(),
        ensures
            final(self).well_formed(),
            match resumable(old(self)@, anchor.snapshot@, expired) {
                None => r is None && final(self)@ == old(self)@,
                Some((session_pda, session)) => {
                    let portal = old(self)@.config.portal.program_id;
                    let l1 = anchor.snapshot@;
                    let delegations = delegations_to(portal, l1, session.grid_id, l1.keys.len());
                    let started = activated(
                        old(self)@.runtime->0,
                        anchor.slot,
                        l1,
                        session_pda,
                        session.grid_id,
                        session.ttl_slots,
                        session.fee_cap,
                    );
                    &&& final(self)@ == (ManagerModel {
                        runtime: Some(with_delegations(started, delegations, delegations.len())),
                        ..old(self)@
                    })
                    &&& r matches Some(updates) && update_models(updates@) == seq![
                        reset_update(
                            l1,
                            (old(self)@.runtime->0).portal_program_id,
                            session.grid_id,
                            l1.keys.len(),
                        ),
                    ] + delegation_updates(delegations)
                },
            },
    {
        if self.runtime.is_none() || self.has_active_runtime() {
            return None;
        }
        let portal = self.config.portal.program_id;
        let manager = address_of_keypair(&self.config.manager_secret);
        let (session_pda, session) = match active_l1_session(
            &portal,
            &anchor.snapshot,
            expired,
            &manager,
        ) {
            Some(found) => found,
            None => {
                return None;
            },
        };
        let delegations = l1_delegations_for_grid(&portal, &anchor.snapshot, session.grid_id);
        let ghost models = delegation_models(delegations@);
        let ghost before = self@;
        let mut updates: Vec<BankUpdate> = Vec::new();
        match self.activate_session(
            anchor,
            session_pda,
            session.grid_id,
            session.ttl_slots,
            session.fee_cap,
        ) {
            None => {
                return None;
            },
            Some(update) => {
                updates.push(update);
            },
        }
        let ghost reset = updates@[0]@;
        let ghost started = self@.runtime->0;
        assert(update_models(updates@) =~= seq![reset] + delegation_updates(models).take(0));
        let mut i: usize = 0;
        match self.runtime.take() {
            None => None,
            Some(mut runtime) => {
                while i < delegations.len()
                    invariant
                        i <= delegations@.len(),
                        models == delegation_models(delegations@),
                        runtime.well_formed(),
                        runtime@ == with_delegations(started, models, i as nat),
                        update_models(updates@) == seq![reset] + delegation_updates(models).take(
                            i as int,
                        ),
                    decreases delegations@.len() - i,
                {
                    let found = &delegations[i];
                    assert(models[i as int] == found@);
                    let update = runtime.receive_delegation(
                        &found.delegated,
                        &found.account,
                        Some(found.owner_program),
                        &found.program,
                    );
                    let ghost earlier = updates@;
                    let ghost model = update@;
                    updates.push(update);
                    proof {
                        assert(update_models(updates@) =~= update_models(earlier).push(model));
                        assert(delegation_updates(models).take(i as int + 1) =~= delegation_updates(
                            models,
                        ).take(i as int).push(model));
                        assert(seq![reset] + delegation_updates(models).take(i as int + 1) =~= (
                        seq![reset] + delegation_updates(models).take(i as int)).push(model));
                    }
                    i += 1;
                }
                assert(delegation_updates(models).take(models.len() as int)
                    =~= delegation_updates(models));
                self.runtime = Some(runtime);
                Some(updates)
            },
        }
    }

    /// Credits a deposit, if a session is active.
    pub fn credit_deposit(
        &mut self,
        depositor: &Pubkey,
        lamports: u64,
        account: Option<&Account>,
        sink: &WithdrawalSink,
    ) -> (update: Option<BankUpdate>)
        requires
            old(self).well_formed(),
        ensures
            final(self).well_formed(),
            !is_running(old(self)@) ==> update is None && final(self)@ == old(self)@,
            is_running(old(self)@) ==> {
                let runtime = old(self)@.runtime->0;
                &&& final(self)@ == (ManagerModel {
                    runtime: Some(
                        deposit_model(
                            runtime,
                            *depositor,
                            present_or_empty(account),
                            lamports,
                            *sink,
                        ),
                    ),
                    ..old(self)@
                })
                &&& update matches Some(update) && update@ == deposit_update(
                    runtime,
                    *depositor,
                    present_or_empty(account),
                    lamports,
                    *sink,
                )
            },
    {
        if !self.has_active_runtime() {
            return None;
        }
        match self.runtime.take() {
            None => None,
            Some(mut runtime) => {
                let update = runtime.credit_deposit(depositor, lamports, account, sink);
                self.runtime = Some(runtime);
                Some(update)
            },
        }
    }

    /// Anchors the runtime to another layer-one bank, if a session is active.
    pub fn reanchor_to_l1_parent(&mut self, anchor: Anchor) -> (update: Option<BankUpdate>)
        requires
            old(self).well_formed(),
            anchor.snapshot.well_formed(),
        ensures
            final(self).well_formed(),
            !is_running(old(self)@) ==> update is None && final(self)@ == old(self)@,
            is_running(old(self)@) ==> {
                let runtime = old(self)@.runtime->0;
                &&& final(self)@ == (ManagerModel {
                    runtime: Some(anchored_model(runtime, anchor.slot, anchor.snapshot@)),
                    ..old(self)@
                })
                &&& update matches Some(update) && update@ == overlay_update(runtime)
            },
    {
        if !self.has_active_runtime() {
            return None;
        }
        match self.runtime.take() {
            None => None,
            Some(mut runtime) => {
                let update = runtime.reanchor_to_l1_parent(anchor);
                self.runtime = Some(runtime);
                Some(update)
            },
        }
    }

    /// Brings the programs of delegated accounts up to date with layer one, if a
    /// session is active.
    pub fn refresh_delegated_owner_programs(&mut self, l1: &Snapshot, bank: &AccountMap) -> (update:
        Option<BankUpdate>)
        requires
            old(self).well_formed(),
            l1.well_formed(),
            bank.well_formed(),
        ensures
            final(self).well_formed(),
            !is_running(old(self)@) ==> update is None && final(self)@ == old(self)@,
            is_running(old(self)@) ==> {
                let runtime = old(self)@.runtime->0;
                let programs = crate::keyed::ordered(owners_on(runtime, l1@));
                &&& update matches Some(update) && update@ == refresh_update(
                    l1@,
                    held(bank@),
                    programs,
                    programs.len(),
                )
                &&& final(self)@ == (ManagerModel {
                    runtime: Some(
                        if refreshed(l1@, held(bank@), programs, programs.len()) > 0 {
                            RuntimeModel {
                                working_slot: next_slot(runtime.working_slot),
                                ..runtime
                            }
                        } else {
                            runtime
                        },
                    ),
                    ..old(self)@
                })
            },
    {
        if !self.has_active_runtime() {
            return None;
        }
        match self.runtime.take() {
            None => None,
            Some(mut runtime) => {
                let update = runtime.refresh_delegated_owner_programs_from_l1(l1, bank);
                self.runtime = Some(runtime);
                Some(update)
            },
        }
    }

    /// Takes over an account that layer one has delegated, under the owner that
    /// its record names, if a session is active and layer one has the account.
    pub fn handle_delegation(&mut self, l1: &Snapshot, delegated_account: &Pubkey) -> (update: Option<
        BankUpdate,
    >)
        requires
            old(self).well_formed(),
            l1.well_formed(),
        ensures
            final(self).well_formed(),
            handled(
                old(self)@,
                final(self)@,
                l1@,
                *delegated_account,
                recorded_owner(old(self)@.config.portal.program_id, l1@, *delegated_account),
                update,
            ),
    {
        let owner_program = match find_delegation_record_pda(
            &self.config.portal.program_id,
            delegated_account,
        ) {
            None => None,
            Some(address) => match l1.portal_account(&address) {
                Some(PortalAccount::DelegationRecord(record)) => Some(record.owner_program),
                _ => None,
            },
        };
        self.handle_delegation_with_owner_program(l1, delegated_account, owner_program)
    }

    /// Takes over an account that layer one has delegated, if a session is active
    /// and layer one has the account.
    pub fn handle_delegation_with_owner_program(
        &mut self,
        l1: &Snapshot,
        delegated_account: &Pubkey,
        owner_program: Option<Pubkey>,
    ) -> (update: Option<BankUpdate>)
        requires
            old(self).well_formed(),
            l1.well_formed(),
        ensures
            final(self).well_formed(),
            handled(
                old(self)@,
                final(self)@,
                l1@,
                *delegated_account,
                owner_program,
                update,
            ),
    {
        if !self.has_active_runtime() {
            return None;
        }
        let account = match l1.account(delegated_account) {
            Some(account) => account,
            None => {
                return None;
            },
        };
        match self.runtime.take() {
            None => None,
            Some(mut runtime) => {
                let update = runtime.handle_delegation_inner(
                    delegated_account,
                    account,
                    owner_program,
                    Some(l1),
                );
                self.runtime = Some(runtime);
                Some(update)
            },
        }
    }
}

/// A runtime without a session, on a layer-one bank.
pub open spec fn idle_runtime(portal: Pubkey, anchor_slot: u64, l1: SnapshotModel) -> RuntimeModel {
    RuntimeModel {
        portal_program_id: portal,
        grid_id: 0,
        ttl_slots: 0,
        fee_cap: 0,
        working_slot: next_slot(crate::runtime::slots::root_slot(anchor_slot)),
        active: false,
        advancing: false,
        session: None,
        snapshots: Map::empty(),
        delegated: Set::empty(),
        touched: Set::empty(),
        overlay: Map::empty(),
        anchor_slot,
        anchor: l1,
    }
}

/// The session that can be resumed: there is a runtime, it is not active, and
/// layer one has a session that the manager can run.
pub open spec fn resumable(manager: ManagerModel, l1: SnapshotModel, expired: bool) -> Option<
    (Pubkey, crate::portal_state::Session),
> {
    if manager.runtime is None || is_running(manager) {
        None
    } else {
        running_session(
            manager.config.portal.program_id,
            l1,
            expired,
            keypair_address(manager.config.manager_secret),
        )
    }
}

/// A delegation was handled: nothing unless a session is active and layer one has
/// the account; else the account is taken over as layer one has it.
pub open spec fn handled(
    before: ManagerModel,
    after: ManagerModel,
    l1: SnapshotModel,
    key: Pubkey,
    owner_program: Option<Pubkey>,
    update: Option<BankUpdate>,
) -> bool {
    if !is_running(before) || l1.account(key) is None {
        update is None && after == before
    } else {
        let account = l1.account(key)->0;
        &&& after == (ManagerModel {
            runtime: Some(delegation_model(before.runtime->0, key, account, owner_program)),
            ..before
        })
        &&& update matches Some(update) && update@ == delegation_update(
            key,
            account,
            owner_program,
            Some(l1),
        )
    }
}

/// Without an active session the manager ignores deposits, delegations, new
/// anchors and programs: nothing of it changes and nothing is to be done to the
/// bank.
pub proof fn nothing_happens_without_a_session(
    before: ManagerModel,
    after: ManagerModel,
    l1: SnapshotModel,
    key: Pubkey,
    owner_program: Option<Pubkey>,
    update: Option<BankUpdate>,
)
    requires
        !is_running(before),
        handled(before, after, l1, key, owner_program, update),
    ensures
        after == before,
        update is None,
{
}

/// A session that is resumed is one that layer one has, is not expired, and has
/// the manager as its validator; afterwards the runtime is active on it.
pub proof fn resumed_sessions_are_the_managers(
    manager: ManagerModel,
    l1: SnapshotModel,
    expired: bool,
)
    requires
        resumable(manager, l1, expired) is Some,
    ensures
        !expired,
        resumable(manager, l1, expired) matches Some((address, session)) && session.validator
            == keypair_address(manager.config.manager_secret) && l1.owned_by(
            address,
            manager.config.portal.program_id,
        ),
{
}

/// A session that has just been started has nothing to settle.
pub proof fn fresh_sessions_have_nothing_to_settle(
    manager: &Manager,
    before: RuntimeModel,
    anchor_slot: u64,
    l1: SnapshotModel,
    session_pda: Pubkey,
    grid_id: u64,
    ttl_slots: u64,
    fee_cap: u64,
    sinks: Map<Pubkey, Pubkey>,
)
    requires
        manager.well_formed(),
        manager@.runtime == Some(
            activated(before, anchor_slot, l1, session_pda, grid_id, ttl_slots, fee_cap),
        ),
    ensures
        live_plan(manager@, sinks) is None,
{
    let runtime = manager.runtime->0;
    let settings = RuntimeModel { grid_id, ttl_slots, fee_cap, ..before };
    resets_leave_no_difference(&runtime, settings, anchor_slot, l1);
    let recipients = ordered(runtime@.overlay.dom());
    runtime.er_account_overlay.lemma_listed();
    assert(runtime.er_account_overlay@.dom() =~= runtime@.overlay.dom());
    assert forall|i: int| 0 <= i < recipients.len() implies receipt_settlement(
        runtime@,
        session_pda,
        sinks,
        #[trigger] recipients[i],
    ) is None by {
        assert(recipients.contains(recipients[i]));
        assert(runtime.er_account_overlay@.contains_key(recipients[i]));
        assert(runtime@.overlay.contains_key(recipients[i]));
    }
    lemma_no_receipts(runtime@, session_pda, sinks, recipients, recipients.len());
}

proof fn lemma_no_receipts(
    runtime: RuntimeModel,
    session: Pubkey,
    sinks: Map<Pubkey, Pubkey>,
    recipients: Seq<Pubkey>,
    n: nat,
)
    requires
        n <= recipients.len(),
        forall|i: int|
            0 <= i < n ==> receipt_settlement(
                runtime,
                session,
                sinks,
                #[trigger] recipients[i],
            ) is None,
    ensures
        receipt_settlements(runtime, session, sinks, recipients, n).len() == 0,
    decreases n,
{
    if n > 0 {
        lemma_no_receipts(runtime, session, sinks, recipients, (n - 1) as nat);
    }
}

} // verus!
