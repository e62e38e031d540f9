//! What the manager does with sessions and delegations.

use vstd::prelude::*;

use crate::accounts::{AccountModel, Pubkey};
use crate::addresses::program_address;
use crate::ledger::SnapshotModel;
use crate::manager::sessions::{
    account_under, delegations_to, record_for_grid, running_session, DelegationModel,
};
use crate::manager::{
    activated, delegation_updates, handled, idle_runtime, is_running, live_plan, recorded_owner,
    resumable, with_delegations, ManagerModel,
};
use crate::portal_state::{DelegationRecord, PortalAccount, Session};
use crate::runtime::diff::all_differences;
use crate::runtime::programs::program_on;
use crate::runtime::receipts::all_receipt_settlements;
use crate::runtime::takeover::{is_delegated_on, resets_hold_delegated_accounts};
use crate::runtime::{BankUpdate, RuntimeModel};
use crate::settlement::completeness::{
    can_be_settled, chunks_come_from_delegated_accounts, is_sound, lamports_changed, new_lamports,
    new_owner, owner_changed, plans_are_blocked_by_delegated_accounts_only,
    plans_list_every_change_once, there_is_a_plan_for_every_change,
};
use crate::settlement::delivery::{
    addresses_are_derived_from_seeds, record_seeds, session_seeds,
};

verus! {

/// Layer one has the session at the address that the portal program derives for it.
pub open spec fn has_session(
    portal: Pubkey,
    now: SnapshotModel,
    address: Pubkey,
    session: Session,
) -> bool {
    let found = program_address(session_seeds(), portal);
    &&& found is Some
    &&& (found->0).0 == address
    &&& now.accounts.contains_key(address)
    &&& now.accounts[address].owner == portal
    &&& now.portal.contains_key(address)
    &&& now.portal[address] == PortalAccount::Session(session)
}

/// The manager can run a session if and only if layer one has it, it is valid and not
/// expired, and the manager is its validator.
pub proof fn managers_run_their_own_sessions(
    portal: Pubkey,
    now: SnapshotModel,
    expired: bool,
    manager: Pubkey,
    address: Pubkey,
    session: Session,
)
    ensures
        running_session(portal, now, expired, manager) == Some((address, session)) <==> {
            &&& has_session(portal, now, address, session)
            &&& session.valid
            &&& !expired
            &&& session.validator == manager
        },
{
    addresses_are_derived_from_seeds(portal, portal, portal);
}

/// The portal program has a valid record for the grid at the address.
pub open spec fn has_valid_record(
    portal: Pubkey,
    now: SnapshotModel,
    key: Pubkey,
    grid_id: u64,
    record: DelegationRecord,
) -> bool {
    &&& now.accounts.contains_key(key)
    &&& now.accounts[key].owner == portal
    &&& now.portal.contains_key(key)
    &&& now.portal[key] == PortalAccount::DelegationRecord(record)
    &&& record.valid
    &&& record.grid_id == grid_id
}

/// The account is the portal program's, and its record is at the address.
pub open spec fn is_under(
    portal: Pubkey,
    now: SnapshotModel,
    account: Pubkey,
    record: Pubkey,
) -> bool {
    let found = program_address(record_seeds(account), portal);
    &&& now.accounts.contains_key(account)
    &&& now.accounts[account].owner == portal
    &&& found is Some
    &&& (found->0).0 == record
}

proof fn lemma_last_under(portal: Pubkey, now: SnapshotModel, record: Pubkey, n: nat)
    requires
        n <= now.keys.len(),
    ensures
        match account_under(portal, now, record, n) {
            Some(account) => exists|i: int|
                0 <= i < n && account == now.keys[i] && #[trigger] is_under(
                    portal,
                    now,
                    now.keys[i],
                    record,
                ) && forall|j: int|
                    i < j < n ==> !#[trigger] is_under(portal, now, now.keys[j], record),
            None => forall|j: int|
                0 <= j < n ==> !#[trigger] is_under(portal, now, now.keys[j], record),
        },
    decreases n,
{
    if n > 0 {
        addresses_are_derived_from_seeds(portal, portal, now.keys[n - 1]);
        if !is_under(portal, now, now.keys[n - 1], record) {
            lemma_last_under(portal, now, record, (n - 1) as nat);
            if let Some(account) = account_under(portal, now, record, (n - 1) as nat) {
                let i = choose|i: int|
                    0 <= i < n - 1 && account == now.keys[i] && #[trigger] is_under(
                        portal,
                        now,
                        now.keys[i],
                        record,
                    ) && forall|j: int|
                        i < j < n - 1 ==> !#[trigger] is_under(portal, now, now.keys[j], record);
                assert(0 <= i < n);
            }
        } else {
            assert(0 <= n - 1 < n);
        }
    }
}

/// The account of a record is the last of layer one's accounts that is under it, and
/// there is none if and only if there is no such account.
pub proof fn records_have_their_accounts(portal: Pubkey, now: SnapshotModel, record: Pubkey)
    ensures
        match account_under(portal, now, record, now.keys.len()) {
            Some(account) => exists|i: int|
                0 <= i < now.keys.len() && account == now.keys[i] && #[trigger] is_under(
                    portal,
                    now,
                    now.keys[i],
                    record,
                ) && forall|j: int|
                    i < j < now.keys.len() ==> !#[trigger] is_under(
                        portal,
                        now,
                        now.keys[j],
                        record,
                    ),
            None => forall|j: int|
                0 <= j < now.keys.len() ==> !#[trigger] is_under(portal, now, now.keys[j], record),
        },
{
    lemma_last_under(portal, now, record, now.keys.len());
}

/// A valid record for the grid is at the address, and has an account.
pub open spec fn delegates(portal: Pubkey, now: SnapshotModel, grid_id: u64) -> spec_fn(
    Pubkey,
) -> bool {
    |key: Pubkey|
        (exists|record: DelegationRecord|
            has_valid_record(portal, now, key, grid_id, record)) && account_under(
            portal,
            now,
            key,
            now.keys.len(),
        ) is Some
}

/// The delegation of the record at the address: its account as layer one has it, and the
/// owner that it names with what layer one knows of that program.
pub open spec fn delegation_at(portal: Pubkey, now: SnapshotModel) -> spec_fn(
    Pubkey,
) -> DelegationModel {
    |key: Pubkey|
        {
            let account = account_under(portal, now, key, now.keys.len())->0;
            let record = now.portal[key]->DelegationRecord_0;
            DelegationModel {
                delegated: account,
                account: now.accounts[account],
                owner_program: record.owner_program,
                program: program_on(now, record.owner_program),
            }
        }
}

proof fn lemma_delegations(portal: Pubkey, now: SnapshotModel, grid_id: u64, n: nat)
    requires
        n <= now.keys.len(),
    ensures
        delegations_to(portal, now, grid_id, n) == now.keys.take(n as int).filter(
            delegates(portal, now, grid_id),
        ).map_values(delegation_at(portal, now)),
    decreases n,
{
    reveal(Seq::filter);
    let taken = now.keys.take(n as int);
    let picks = delegates(portal, now, grid_id);
    let makes = delegation_at(portal, now);
    if n > 0 {
        lemma_delegations(portal, now, grid_id, (n - 1) as nat);
        assert(taken.drop_last() =~= now.keys.take(n - 1));
        let key = now.keys[n - 1];
        let before = taken.drop_last().filter(picks);
        if let Some(record) = record_for_grid(portal, now, key, grid_id) {
            assert(has_valid_record(portal, now, key, grid_id, record));
        }
        if picks(key) {
            let record = choose|record: DelegationRecord|
                has_valid_record(portal, now, key, grid_id, record);
            assert(record_for_grid(portal, now, key, grid_id) == Some(record));
            assert(before.push(key).map_values(makes) =~= before.map_values(makes).push(
                makes(key),
            ));
        }
        assert(delegations_to(portal, now, grid_id, n) =~= taken.filter(picks).map_values(makes));
    } else {
        assert(taken.filter(picks).map_values(makes) =~= Seq::empty());
    }
}

/// The delegations to a grid are those of its valid records that have an account, one for
/// each, in the order of the records' addresses.
pub proof fn every_valid_record_is_a_delegation(portal: Pubkey, now: SnapshotModel, grid_id: u64)
    ensures
        delegations_to(portal, now, grid_id, now.keys.len()) == now.keys.filter(
            delegates(portal, now, grid_id),
        ).map_values(delegation_at(portal, now)),
{
    lemma_delegations(portal, now, grid_id, now.keys.len());
    assert(now.keys.take(now.keys.len() as int) =~= now.keys);
}

/// A session that has just been activated runs under its own terms on what layer one has
/// delegated to its grid, and has written nothing else.
pub proof fn activated_sessions_start_from_layer_one(
    before: RuntimeModel,
    anchor_slot: u64,
    l1: SnapshotModel,
    session_pda: Pubkey,
    grid_id: u64,
    ttl_slots: u64,
    fee_cap: u64,
    key: Pubkey,
    owner: Pubkey,
)
    ensures
        ({
            let after = activated(
                before,
                anchor_slot,
                l1,
                session_pda,
                grid_id,
                ttl_slots,
                fee_cap,
            );
            let portal = before.portal_program_id;
            &&& after.active
            &&& after.advancing
            &&& after.session == Some(session_pda)
            &&& after.grid_id == grid_id
            &&& after.ttl_slots == ttl_slots
            &&& after.fee_cap == fee_cap
            &&& after.portal_program_id == portal
            &&& after.anchor == l1
            &&& after.anchor_slot == anchor_slot
            &&& is_delegated_on(l1, portal, grid_id, key, owner) ==> after.delegated.contains(key)
                && after.overlay[key].owner == owner
            &&& after.delegated.contains(key) ==> is_delegated_on(
                l1,
                portal,
                grid_id,
                key,
                after.overlay[key].owner,
            ) && after.snapshots[key] == l1.accounts[key]
            &&& after.overlay.contains_key(key) <==> after.delegated.contains(key)
            &&& after.touched.contains(key) <==> after.delegated.contains(key)
            &&& before.working_slot < u64::MAX - 1 ==> after.working_slot > before.working_slot + 1
        }),
{
    resets_hold_delegated_accounts(
        RuntimeModel { grid_id, ttl_slots, fee_cap, ..before },
        anchor_slot,
        l1,
        key,
        owner,
    );
}

/// The delegation names the account, and no later one does.
pub open spec fn is_last_of(
    delegations: Seq<DelegationModel>,
    n: nat,
    i: int,
    key: Pubkey,
) -> bool {
    &&& 0 <= i < n
    &&& delegations[i].delegated == key
    &&& forall|j: int| i < j < n ==> (#[trigger] delegations[j]).delegated != key
}

proof fn lemma_with_delegations(
    before: RuntimeModel,
    delegations: Seq<DelegationModel>,
    n: nat,
    key: Pubkey,
)
    requires
        n <= delegations.len(),
    ensures
        ({
            let after = with_delegations(before, delegations, n);
            let named = exists|i: int| 0 <= i < n && (#[trigger] delegations[i]).delegated == key;
            &&& after.delegated.contains(key) <==> before.delegated.contains(key) || named
            &&& after.touched.contains(key) <==> before.touched.contains(key) || named
            &&& after.overlay.contains_key(key) <==> before.overlay.contains_key(key) || named
            &&& !named && before.overlay.contains_key(key) ==> after.overlay[key]
                == before.overlay[key]
            &&& forall|i: int| #[trigger]
                is_last_of(delegations, n, i, key) ==> after.overlay[key] == (AccountModel {
                    owner: delegations[i].owner_program,
                    ..delegations[i].account
                })
            &&& after.session == before.session
            &&& after.active == before.active
            &&& after.snapshots == before.snapshots
            &&& after.anchor == before.anchor
            &&& before.working_slot + n <= u64::MAX ==> after.working_slot == before.working_slot
                + n
        }),
    decreases n,
{
    if n > 0 {
        let m = (n - 1) as nat;
        lemma_with_delegations(before, delegations, m, key);
        let last = delegations[n - 1];
        let after = with_delegations(before, delegations, n);
        if last.delegated == key {
            assert(0 <= n - 1 < n && delegations[n - 1].delegated == key);
        }
        if exists|i: int| 0 <= i < n && (#[trigger] delegations[i]).delegated == key {
            let i = choose|i: int| 0 <= i < n && (#[trigger] delegations[i]).delegated == key;
            if last.delegated != key {
                assert(0 <= i < m && delegations[i].delegated == key);
            }
        }
        if exists|i: int| 0 <= i < m && (#[trigger] delegations[i]).delegated == key {
            let i = choose|i: int| 0 <= i < m && (#[trigger] delegations[i]).delegated == key;
            assert(0 <= i < n && delegations[i].delegated == key);
        }
        assert forall|i: int| #[trigger] is_last_of(delegations, n, i, key) implies after.overlay[key]
            == (AccountModel { owner: delegations[i].owner_program, ..delegations[i].account }) by {
            if last.delegated == key {
                assert(i == n - 1);
            } else {
                assert(is_last_of(delegations, m, i, key));
            }
        }
    }
}

/// Taking delegations over writes each account under the owner that its record names and
/// makes it delegated and the rollup's own; of several for one account the last stays.
/// Everything else stays as it was, but the slot goes on by one for each.
pub proof fn delegations_are_taken_over_in_turn(
    before: RuntimeModel,
    delegations: Seq<DelegationModel>,
    key: Pubkey,
)
    ensures
        ({
            let n = delegations.len();
            let after = with_delegations(before, delegations, n);
            let named = exists|i: int| 0 <= i < n && (#[trigger] delegations[i]).delegated == key;
            &&& after.delegated.contains(key) <==> before.delegated.contains(key) || named
            &&& after.touched.contains(key) <==> before.touched.contains(key) || named
            &&& after.overlay.contains_key(key) <==> before.overlay.contains_key(key) || named
            &&& !named && before.overlay.contains_key(key) ==> after.overlay[key]
                == before.overlay[key]
            &&& forall|i: int| #[trigger]
                is_last_of(delegations, n, i, key) ==> after.overlay[key] == (AccountModel {
                    owner: delegations[i].owner_program,
                    ..delegations[i].account
                })
            &&& after.session == before.session
            &&& after.active == before.active
            &&& after.snapshots == before.snapshots
            &&& after.anchor == before.anchor
            &&& before.working_slot + n <= u64::MAX ==> after.working_slot == before.working_slot
                + n
        }),
{
    lemma_with_delegations(before, delegations, delegations.len(), key);
}

/// Each delegation is stored in the bank by an update of its own, in their order: the
/// program and its code if they are known, and then the account under its owner.
pub proof fn delegations_are_stored_in_turn(delegations: Seq<DelegationModel>, i: int)
    requires
        0 <= i < delegations.len(),
    ensures
        delegation_updates(delegations).len() == delegations.len(),
        ({
            let update = delegation_updates(delegations)[i];
            let found = delegations[i];
            let n = update.writes.len();
            &&& n >= 1
            &&& update.writes[n - 1].0 == found.delegated
            &&& update.writes[n - 1].1 == (AccountModel {
                owner: found.owner_program,
                ..found.account
            })
            &&& found.program is None ==> n == 1 && update.reload_programs.len() == 0
            &&& found.program matches Some(program) ==> {
                &&& update.writes[0] == (found.owner_program, program.account)
                &&& program.programdata is None ==> n == 2
                &&& program.programdata matches Some(code) ==> n == 3 && update.writes[1] == code
                &&& crate::runtime::takeover::is_loaded(program.account)
                    ==> update.reload_programs =~= seq![found.owner_program]
                &&& !crate::runtime::takeover::is_loaded(program.account)
                    ==> update.reload_programs.len() == 0
            }
        }),
{
}

/// The recorded owner is the one that the account's record names, whatever the record's
/// grid, and is known if and only if there is a record.
pub proof fn owners_are_read_from_records(
    portal: Pubkey,
    l1: SnapshotModel,
    key: Pubkey,
    owner: Pubkey,
)
    ensures
        recorded_owner(portal, l1, key) == Some(owner) <==> {
            let found = program_address(record_seeds(key), portal);
            &&& found is Some
            &&& l1.accounts.contains_key((found->0).0)
            &&& l1.portal.contains_key((found->0).0)
            &&& l1.portal[(found->0).0] matches PortalAccount::DelegationRecord(record)
            &&& record.owner_program == owner
        },
{
    addresses_are_derived_from_seeds(portal, portal, key);
}

/// A delegation is handled if and only if a session is active and layer one has the
/// account: then the account is delegated, the rollup's own, and stored under its owner
/// program if that is known. The manager's plans and settings stay in any case.
pub proof fn handled_delegations_change_the_active_runtime(
    before: ManagerModel,
    after: ManagerModel,
    l1: SnapshotModel,
    key: Pubkey,
    owner_program: Option<Pubkey>,
    update: Option<BankUpdate>,
)
    requires
        handled(before, after, l1, key, owner_program, update),
    ensures
        after.plans == before.plans,
        after.config == before.config,
        after.slot_duration_ms == before.slot_duration_ms,
        update is Some <==> before.runtime is Some && (before.runtime->0).active
            && l1.accounts.contains_key(key),
        update is None ==> after.runtime == before.runtime,
        update matches Some(update) ==> {
            let runtime = after.runtime->0;
            let n = update@.writes.len();
            let owner = match owner_program {
                Some(owner) => owner,
                None => l1.accounts[key].owner,
            };
            &&& after.runtime is Some
            &&& runtime.delegated.contains(key)
            &&& runtime.touched.contains(key)
            &&& runtime.overlay.contains_key(key)
            &&& runtime.overlay[key] == (AccountModel { owner, ..l1.accounts[key] })
            &&& n >= 1
            &&& update@.writes[n - 1] == (key, runtime.overlay[key])
        },
{
}

/// A runtime without a session has nothing delegated, has written nothing, owns nothing
/// and is not active. Its slot follows the first slot that layer one cannot reach soon.
pub proof fn idle_runtimes_hold_nothing(
    portal: Pubkey,
    anchor_slot: u64,
    l1: SnapshotModel,
    key: Pubkey,
)
    ensures
        ({
            let idle = idle_runtime(portal, anchor_slot, l1);
            &&& !idle.active
            &&& !idle.advancing
            &&& idle.session is None
            &&& !idle.delegated.contains(key)
            &&& !idle.touched.contains(key)
            &&& !idle.overlay.contains_key(key)
            &&& !idle.snapshots.contains_key(key)
            &&& idle.portal_program_id == portal
            &&& idle.anchor == l1
            &&& idle.anchor_slot == anchor_slot
            &&& anchor_slot + 1_099_511_627_777 <= u64::MAX ==> idle.working_slot == anchor_slot
                + 1_099_511_627_777
        }),
{
}

/// A session is resumed if and only if there is a runtime without an active session and
/// layer one has a session that the manager can run.
pub proof fn sessions_are_resumed_when_idle(
    manager: ManagerModel,
    l1: SnapshotModel,
    expired: bool,
    address: Pubkey,
    session: Session,
)
    ensures
        resumable(manager, l1, expired) == Some((address, session)) <==> {
            &&& manager.runtime is Some
            &&& !(manager.runtime->0).active
            &&& has_session(manager.config.portal.program_id, l1, address, session)
            &&& session.valid
            &&& !expired
            &&& session.validator == crate::settlement::batches::keypair_address(
                manager.config.manager_secret,
            )
        },
        is_running(manager) <==> manager.runtime is Some && (manager.runtime->0).active,
{
    managers_run_their_own_sessions(
        manager.config.portal.program_id,
        l1,
        expired,
        crate::settlement::batches::keypair_address(manager.config.manager_secret),
        address,
        session,
    );
}

/// There is no plan to settle without a runtime or without a session. Otherwise the plan
/// is for the runtime's slot and holds every receipt that has to be settled; unless it is
/// blocked, it holds every owner and all lamports in which the runtime's delegated
/// accounts differ from layer one, and chunks of such accounts only. There is none if and
/// only if no receipt has to be settled and no delegated account differs.
pub proof fn live_plans_settle_the_runtime(
    manager: ManagerModel,
    sinks: Map<Pubkey, Pubkey>,
    session: Pubkey,
    c: int,
)
    requires
        manager.config.protocol.limits.max_chunk > 0,
        manager.runtime matches Some(runtime) ==> forall|i: int|
            0 <= i < all_differences(runtime).len() ==> (#[trigger] all_differences(
                runtime,
            )[i]).er_account.data.len() <= u32::MAX,
    ensures
        manager.runtime is None || (manager.runtime->0).session is None ==> live_plan(
            manager,
            sinks,
        ) is None,
        manager.runtime matches Some(runtime) ==> (runtime.session == Some(session) ==> {
            let changed = all_differences(runtime);
            let receipts = all_receipt_settlements(runtime, session, sinks);
            &&& live_plan(manager, sinks) is None <==> {
                &&& receipts.len() == 0
                &&& forall|i: int|
                    0 <= i < changed.len() && runtime.delegated.contains(
                        (#[trigger] changed[i]).pubkey,
                    ) ==> {
                        &&& is_sound(changed[i])
                        &&& changed[i].l1_account->0.data == changed[i].er_account.data
                        &&& changed[i].l1_account->0.owner == changed[i].er_account.owner
                        &&& changed[i].l1_account->0.lamports == changed[i].er_account.lamports
                    }
            }
            &&& live_plan(manager, sinks) matches Some(plan) ==> {
                &&& plan.er_slot == runtime.working_slot
                &&& plan.receipt_balances == receipts
                &&& plan.unsupported_changes.len() == 0 <==> can_be_settled(
                    changed,
                    runtime.delegated,
                    manager.config.protocol.limits,
                )
                &&& plan.unsupported_changes.len() == 0 ==> {
                    &&& plan.owner_changes == changed.filter(
                        owner_changed(runtime.delegated),
                    ).map_values(new_owner())
                    &&& plan.lamport_changes == changed.filter(
                        lamports_changed(runtime.delegated),
                    ).map_values(new_lamports())
                }
                &&& 0 <= c < plan.chunks.len() ==> runtime.delegated.contains(
                    plan.chunks[c].account,
                ) && plan.chunks[c].data.len() <= manager.config.protocol.limits.max_chunk
            }
        }),
{
    if let Some(runtime) = manager.runtime {
        if runtime.session == Some(session) {
            let changed = all_differences(runtime);
            let receipts = all_receipt_settlements(runtime, session, sinks);
            let slot = runtime.working_slot;
            let limits = manager.config.protocol.limits;
            let own = runtime.delegated;
            there_is_a_plan_for_every_change(changed, own, slot, receipts, limits);
            if let Some(plan) = live_plan(manager, sinks) {
                plans_are_blocked_by_delegated_accounts_only(changed, own, slot, receipts, limits);
                plans_list_every_change_once(changed, own, slot, receipts, limits);
                if 0 <= c < plan.chunks.len() {
                    let _ = chunks_come_from_delegated_accounts(
                        changed,
                        own,
                        slot,
                        receipts,
                        limits,
                        c,
                    );
                }
            }
        }
    }
}

} // verus!
