//! The session on layer one, and what is delegated to it.

use vstd::prelude::*;

use crate::accounts::{Account, AccountModel, Pubkey};
use crate::addresses::{
    delegation_record_address, find_delegation_record_pda, find_session_pda, session_address,
};
use crate::codec::same_array;
use crate::keyed::KeyMap;
use crate::ledger::{Snapshot, SnapshotModel};
use crate::manager::due::{find_valid_session, valid_session};
use crate::portal_state::{DelegationRecord, PortalAccount, Session};
use crate::runtime::programs::{
    find_program_on, program_model, program_on, OwnerProgram, ProgramModel,
};

verus! {

/// The session that the manager can run: a valid one at the session's address,
/// not expired, whose validator is the manager.
pub open spec fn running_session(
    portal: Pubkey,
    now: SnapshotModel,
    expired: bool,
    manager: Pubkey,
) -> Option<(Pubkey, Session)> {
    match session_address(portal) {
        None => None,
        Some(address) => match valid_session(portal, now, address) {
            None => None,
            Some(session) => if !expired && session.validator == manager {
                Some((address, session))
            } else {
                None
            },
        },
    }
}

/// The session that the manager can run. `expired` says whether the portal
/// program takes the session for expired by now.
pub fn active_l1_session(portal: &Pubkey, now: &Snapshot, expired: bool, manager: &Pubkey) -> (r: Option<
    (Pubkey, Session),
>)
    requires
        now.well_formed(),
    ensures
        r == running_session(*portal, now@, expired, *manager),
{
    let address = match find_session_pda(portal) {
        Some(address) => address,
        None => {
            return None;
        },
    };
    match find_valid_session(portal, now, &address) {
        None => None,
        Some(session) => {
            if !expired && same_array(&session.validator, manager) {
                Some((address, session))
            } else {
                None
            }
        },
    }
}

/// The valid delegation record for a grid at an address.
pub open spec fn record_for_grid(
    portal: Pubkey,
    now: SnapshotModel,
    key: Pubkey,
    grid_id: u64,
) -> Option<DelegationRecord> {
    if now.owned_by(key, portal) {
        match now.portal_account(key) {
            Some(PortalAccount::DelegationRecord(record)) => if record.valid && record.grid_id
                == grid_id {
                Some(record)
            } else {
                None
            },
            _ => None,
        }
    } else {
        None
    }
}

/// The account whose delegation record is at an address: the last one of the
/// portal program, among the first `n` accounts.
pub open spec fn account_under(
    portal: Pubkey,
    now: SnapshotModel,
    record: Pubkey,
    n: nat,
) -> Option<Pubkey>
    decreases n,
{
    if n == 0 {
        None
    } else {
        let key = now.keys[n - 1];
        if now.owned_by(key, portal) && delegation_record_address(portal, key) == Some(record) {
            Some(key)
        } else {
            account_under(portal, now, record, (n - 1) as nat)
        }
    }
}

/// An account that layer one has delegated, with the program that owns it.
#[derive(Debug, Clone, PartialEq, Eq)]
pub struct L1Delegation {
    pub delegated: Pubkey,
    pub account: Account,
    pub owner_program: Pubkey,
    pub program: Option<OwnerProgram>,
}

/// What an `L1Delegation` holds.
#[verifier::ext_equal]
pub struct DelegationModel {
    pub delegated: Pubkey,
    pub account: AccountModel,
    pub owner_program: Pubkey,
    pub program: Option<ProgramModel>,
}

impl View for L1Delegation {
    type V = DelegationModel;

    open spec fn view(&self) -> DelegationModel {
        DelegationModel {
            delegated: self.delegated,
            account: self.account@,
            owner_program: self.owner_program,
            program: program_model(self.program),
        }
    }
}

/// What the delegations hold.
pub open spec fn delegation_models(delegations: Seq<L1Delegation>) -> Seq<DelegationModel> {
    delegations.map_values(|delegation: L1Delegation| delegation@)
}

/// The delegations to a grid whose records are among the first `n` accounts.
pub open spec fn delegations_to(
    portal: Pubkey,
    now: SnapshotModel,
    grid_id: u64,
    n: nat,
) -> Seq<DelegationModel>
    decreases n,
{
    if n == 0 {
        Seq::empty()
    } else {
        let before = delegations_to(portal, now, grid_id, (n - 1) as nat);
        let key = now.keys[n - 1];
        match record_for_grid(portal, now, key, grid_id) {
            None => before,
            Some(record) => match account_under(portal, now, key, now.keys.len()) {
                None => before,
                Some(delegated) => before.push(
                    DelegationModel {
                        delegated,
                        account: now.accounts[delegated],
                        owner_program: record.owner_program,
                        program: program_on(now, record.owner_program),
                    },
                ),
            },
        }
    }
}

proof fn lemma_account_under_exists(portal: Pubkey, now: SnapshotModel, record: Pubkey, n: nat)
    requires
        n <= now.keys.len(),
        account_under(portal, now, record, n) is Some,
    ensures
        now.accounts.contains_key(account_under(portal, now, record, n)->0),
    decreases n,
{
    let key = now.keys[n - 1];
    if !(now.owned_by(key, portal) && delegation_record_address(portal, key) == Some(record)) {
        lemma_account_under_exists(portal, now, record, (n - 1) as nat);
    }
}

fn accounts_by_record(portal: &Pubkey, now: &Snapshot) -> (by_record: KeyMap<Pubkey, 32>)
    requires
        now.well_formed(),
    ensures
        by_record.well_formed(),
        forall|record: Pubkey|
            (#[trigger] by_record@.contains_key(record)) == (account_under(
                *portal,
                now@,
                record,
                now@.keys.len(),
            ) is Some),
        forall|record: Pubkey| #[trigger]
            by_record@.contains_key(record) ==> account_under(
                *portal,
                now@,
                record,
                now@.keys.len(),
            ) == Some(by_record@[record]),
{
    let mut by_record: KeyMap<Pubkey, 32> = KeyMap::new();
    let mut i: usize = 0;
    while i < now.accounts.len()
        invariant
            now.well_formed(),
            by_record.well_formed(),
            i <= now@.keys.len(),
            forall|record: Pubkey|
                (#[trigger] by_record@.contains_key(record)) == (account_under(
                    *portal,
                    now@,
                    record,
                    i as nat,
                ) is Some),
            forall|record: Pubkey| #[trigger]
                by_record@.contains_key(record) ==> account_under(
                    *portal,
                    now@,
                    record,
                    i as nat,
                ) == Some(by_record@[record]),
        decreases now@.keys.len() - i,
    {
        let key = now.accounts.key_at(i);
        let account = now.accounts.value_at(i);
        assert(now@.owned_by(key, *portal) == (account.owner == *portal));
        let ghost before = by_record@;
        if same_array(&account.owner, portal) {
            if let Some(record) = find_delegation_record_pda(portal, &key) {
                by_record.insert(record, key);
            }
        }
        proof {
            assert forall|record: Pubkey|
                (#[trigger] by_record@.contains_key(record)) == (account_under(
                    *portal,
                    now@,
                    record,
                    i as nat + 1,
                ) is Some) by {
                assert(before.contains_key(record) == (account_under(
                    *portal,
                    now@,
                    record,
                    i as nat,
                ) is Some));
            }
            assert forall|record: Pubkey| #[trigger]
                by_record@.contains_key(record) implies account_under(
                *portal,
                now@,
                record,
                i as nat + 1,
            ) == Some(by_record@[record]) by {
                assert(before.contains_key(record) ==> account_under(
                    *portal,
                    now@,
                    record,
                    i as nat,
                ) == Some(before[record]));
            }
        }
        i += 1;
    }
    by_record
}

/// The accounts that layer one has delegated to a grid: for each valid record,
/// the account of the portal program whose record is there.
pub fn l1_delegations_for_grid(portal: &Pubkey, now: &Snapshot, grid_id: u64) -> (r: Vec<
    L1Delegation,
>)
    requires
        now.well_formed(),
    ensures
        delegation_models(r@) == delegations_to(*portal, now@, grid_id, now@.keys.len()),
{
    let by_record = accounts_by_record(portal, now);
    let mut r: Vec<L1Delegation> = Vec::new();
    assert(delegation_models(r@) =~= Seq::<DelegationModel>::empty());
    let mut i: usize = 0;
    while i < now.accounts.len()
        invariant
            now.well_formed(),
            by_record.well_formed(),
            i <= now@.keys.len(),
            forall|record: Pubkey|
                (#[trigger] by_record@.contains_key(record)) == (account_under(
                    *portal,
                    now@,
                    record,
                    now@.keys.len(),
                ) is Some),
            forall|record: Pubkey| #[trigger]
                by_record@.contains_key(record) ==> account_under(
                    *portal,
                    now@,
                    record,
                    now@.keys.len(),
                ) == Some(by_record@[record]),
            delegation_models(r@) == delegations_to(*portal, now@, grid_id, i as nat),
        decreases now@.keys.len() - i,
    {
        let key = now.accounts.key_at(i);
        let account = now.accounts.value_at(i);
        assert(now@.owned_by(key, *portal) == (account.owner == *portal));
        let record = if same_array(&account.owner, portal) {
            match now.portal_account(&key) {
                Some(PortalAccount::DelegationRecord(record)) => {
                    if record.valid && record.grid_id == grid_id {
                        Some(record)
                    } else {
                        None
                    }
                },
                _ => None,
            }
        } else {
            None
        };
        assert(record == record_for_grid(*portal, now@, key, grid_id));
        if let Some(record) = record {
            if let Some(delegated) = by_record.get(&key) {
                proof {
                    lemma_account_under_exists(*portal, now@, key, now@.keys.len());
                }
                if let Some(found) = now.account(delegated) {
                    let ghost before = r@;
                    let delegation = L1Delegation {
                        delegated: *delegated,
                        account: found.copy(),
                        owner_program: record.owner_program,
                        program: find_program_on(now, &record.owner_program),
                    };
                    let ghost model = delegation@;
                    r.push(delegation);
                    assert(delegation_models(r@) =~= delegation_models(before).push(model));
                }
            }
        }
        i += 1;
    }
    r
}

} // verus!
