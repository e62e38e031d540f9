//! The rollup's state beside its bank: what is delegated, what was written, and
//! what the rollup is anchored to.

use vstd::prelude::*;

use crate::accounts::{Account, AccountModel, Pubkey};
use crate::keyed::KeySet;
use crate::ledger::{account_at, held, AccountMap, Snapshot, SnapshotModel};
use crate::runtime::slots::next_slot;

pub mod accounting;
pub mod delegation;
pub mod deposits;
pub mod diff;
pub mod invariants;
pub mod programs;
pub mod receipts;
pub mod refresh;
pub mod slots;
pub mod takeover;
pub mod token_deposit;
pub mod token_progress;

verus! {

/// A fee for the compute budget of a transaction.
#[derive(Debug, Clone, Copy, PartialEq, Eq)]
pub struct FeeBin {
    pub limit: u64,
    pub fee: u64,
}

/// What the rollup charges for a transaction.
#[derive(Debug, Clone, PartialEq, Eq)]
pub struct FeeStructure {
    pub lamports_per_signature: u64,
    pub lamports_per_write_lock: u64,
    pub compute_fee_bins: Vec<FeeBin>,
}

/// What a rollup is made with.
#[derive(Debug, Clone, PartialEq, Eq)]
pub struct EphemeralRollupSettings {
    pub session_pda: Pubkey,
    pub grid_id: u64,
    pub ttl_slots: u64,
    pub er_fee_structure: FeeStructure,
    pub fee_cap: u64,
    pub delegated_accounts: Vec<Pubkey>,
}

impl EphemeralRollupSettings {
    /// A fee structure in which every part is zero.
    pub fn zero_fee_structure() -> (fees: FeeStructure)
        ensures
            fees.lamports_per_signature == 0,
            fees.lamports_per_write_lock == 0,
            fees.compute_fee_bins@.len() == 0,
    {
        FeeStructure {
            lamports_per_signature: 0,
            lamports_per_write_lock: 0,
            compute_fee_bins: Vec::new(),
        }
    }
}

/// A layer-one bank that a rollup can be anchored to.
pub struct Anchor {
    pub slot: u64,
    pub snapshot: Snapshot,
}

/// An account to be stored in the rollup's bank.
#[derive(Debug, Clone, PartialEq, Eq)]
pub struct AccountWrite {
    pub pubkey: Pubkey,
    pub account: Account,
}

/// What is to be done to the rollup's bank: accounts to be stored, in order, and
/// programs that must be loaded anew.
#[derive(Debug, Clone, PartialEq, Eq)]
pub struct BankUpdate {
    pub writes: Vec<AccountWrite>,
    pub reload_programs: Vec<Pubkey>,
}

/// What a `BankUpdate` holds.
#[verifier::ext_equal]
pub struct UpdateModel {
    pub writes: Seq<(Pubkey, AccountModel)>,
    pub reload_programs: Seq<Pubkey>,
}

/// What the writes hold.
pub open spec fn write_models(writes: Seq<AccountWrite>) -> Seq<(Pubkey, AccountModel)> {
    writes.map_values(|write: AccountWrite| (write.pubkey, write.account@))
}

impl View for BankUpdate {
    type V = UpdateModel;

    open spec fn view(&self) -> UpdateModel {
        UpdateModel {
            writes: write_models(self.writes@),
            reload_programs: self.reload_programs@,
        }
    }
}

impl UpdateModel {
    /// The update with one more write.
    pub open spec fn and_write(self, pubkey: Pubkey, account: AccountModel) -> UpdateModel {
        UpdateModel { writes: self.writes.push((pubkey, account)), ..self }
    }

    /// The update with one more program to be loaded anew.
    pub open spec fn and_reload(self, program: Pubkey) -> UpdateModel {
        UpdateModel { reload_programs: self.reload_programs.push(program), ..self }
    }
}

/// An update that does nothing.
pub open spec fn no_update() -> UpdateModel {
    UpdateModel { writes: Seq::empty(), reload_programs: Seq::empty() }
}

impl BankUpdate {
    /// An update that does nothing.
    pub fn new() -> (update: BankUpdate)
        ensures
            update@ == no_update(),
    {
        let update = BankUpdate { writes: Vec::new(), reload_programs: Vec::new() };
        assert(update@ =~= no_update());
        update
    }

    /// Adds a write.
    pub fn push_write(&mut self, pubkey: Pubkey, account: Account)
        ensures
            final(self)@ == old(self)@.and_write(pubkey, account@),
    {
        self.writes.push(AccountWrite { pubkey, account });
        assert(self@.writes =~= old(self)@.writes.push((pubkey, account@)));
    }

    /// Adds a program to be loaded anew.
    pub fn push_reload(&mut self, program: Pubkey)
        ensures
            final(self)@ == old(self)@.and_reload(program),
    {
        self.reload_programs.push(program);
    }
}

/// The rollup's state beside its bank.
pub struct EphemeralRuntime {
    pub portal_program_id: Pubkey,
    pub grid_id: u64,
    pub ttl_slots: u64,
    pub fee_cap: u64,
    /// The slot of the working bank.
    pub working_slot: u64,
    /// Whether transactions are accepted.
    pub active: bool,
    /// Whether slots are being advanced.
    pub advancing: bool,
    pub session: Option<Pubkey>,
    /// Delegated accounts as they were on layer one when they were taken over.
    pub initial_account_snapshots: AccountMap,
    pub delegated_accounts: KeySet<32>,
    /// Accounts whose balance is the rollup's own.
    pub touched_accounts: KeySet<32>,
    /// What the rollup has written.
    pub er_account_overlay: AccountMap,
    pub anchor_slot: u64,
    /// The layer-one bank that the rollup is anchored to.
    pub anchor: Snapshot,
}

/// What an `EphemeralRuntime` holds.
#[verifier::ext_equal]
pub struct RuntimeModel {
    pub portal_program_id: Pubkey,
    pub grid_id: u64,
    pub ttl_slots: u64,
    pub fee_cap: u64,
    pub working_slot: u64,
    pub active: bool,
    pub advancing: bool,
    pub session: Option<Pubkey>,
    pub snapshots: Map<Pubkey, AccountModel>,
    pub delegated: Set<Pubkey>,
    pub touched: Set<Pubkey>,
    pub overlay: Map<Pubkey, AccountModel>,
    pub anchor_slot: u64,
    pub anchor: SnapshotModel,
}

impl View for EphemeralRuntime {
    type V = RuntimeModel;

    open spec fn view(&self) -> RuntimeModel {
        RuntimeModel {
            portal_program_id: self.portal_program_id,
            grid_id: self.grid_id,
            ttl_slots: self.ttl_slots,
            fee_cap: self.fee_cap,
            working_slot: self.working_slot,
            active: self.active,
            advancing: self.advancing,
            session: self.session,
            snapshots: held(self.initial_account_snapshots@),
            delegated: self.delegated_accounts@,
            touched: self.touched_accounts@,
            overlay: held(self.er_account_overlay@),
            anchor_slot: self.anchor_slot,
            anchor: self.anchor@,
        }
    }
}

impl EphemeralRuntime {
    pub open spec fn well_formed(&self) -> bool {
        &&& self.initial_account_snapshots.well_formed()
        &&& self.delegated_accounts.well_formed()
        &&& self.touched_accounts.well_formed()
        &&& self.er_account_overlay.well_formed()
        &&& self.anchor.well_formed()
    }

    /// Accepts transactions from now on, and advances slots.
    pub fn activate(&mut self)
        requires
            old(self).well_formed(),
        ensures
            final(self).well_formed(),
            final(self)@ == (RuntimeModel { active: true, advancing: true, ..old(self)@ }),
    {
        self.active = true;
        self.advancing = true;
    }

    /// Accepts no transactions from now on, stops advancing slots, and forgets the
    /// session.
    pub fn deactivate(&mut self)
        requires
            old(self).well_formed(),
        ensures
            final(self).well_formed(),
            final(self)@ == (RuntimeModel {
                active: false,
                advancing: false,
                session: None,
                ..old(self)@
            }),
    {
        self.active = false;
        self.advancing = false;
        self.session = None;
    }

    /// Whether transactions are accepted.
    pub fn is_active(&self) -> (active: bool)
        ensures
            active == self@.active,
    {
        self.active
    }

    /// Sets the session.
    pub fn set_session_pda(&mut self, pda: Pubkey)
        requires
            old(self).well_formed(),
        ensures
            final(self).well_formed(),
            final(self)@ == (RuntimeModel { session: Some(pda), ..old(self)@ }),
    {
        self.session = Some(pda);
    }

    /// Sets what a session says about the rollup.
    pub fn set_session_settings(&mut self, grid_id: u64, ttl_slots: u64, fee_cap: u64)
        requires
            old(self).well_formed(),
        ensures
            final(self).well_formed(),
            final(self)@ == (RuntimeModel { grid_id, ttl_slots, fee_cap, ..old(self)@ }),
    {
        self.grid_id = grid_id;
        self.ttl_slots = ttl_slots;
        self.fee_cap = fee_cap;
    }

    /// The session, if there is one.
    pub fn session_pda(&self) -> (session: Option<Pubkey>)
        ensures
            session == self@.session,
    {
        self.session
    }

    /// The delegated accounts.
    pub fn delegated_accounts(&self) -> (delegated: KeySet<32>)
        requires
            self.well_formed(),
        ensures
            delegated.well_formed(),
            delegated@ == self@.delegated,
    {
        self.delegated_accounts.copy()
    }

    /// A delegated account as it was on layer one when it was taken over.
    pub fn initial_account_snapshot(&self, pubkey: &Pubkey) -> (account: Option<&Account>)
        requires
            self.well_formed(),
        ensures
            match account {
                Some(account) => self@.snapshots.contains_key(*pubkey) && self@.snapshots[*pubkey]
                    == account@,
                None => !self@.snapshots.contains_key(*pubkey),
            },
    {
        account_at(&self.initial_account_snapshots, pubkey)
    }

    /// Freezes the working bank and goes on with the next slot.
    pub fn rotate(&mut self)
        requires
            old(self).well_formed(),
        ensures
            final(self).well_formed(),
            final(self)@ == (RuntimeModel {
                working_slot: next_slot(old(self)@.working_slot),
                ..old(self)@
            }),
    {
        self.working_slot = self.working_slot.saturating_add(1);
    }
}

} // verus!
