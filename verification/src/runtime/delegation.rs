//! Taking over delegated accounts.

use vstd::prelude::*;

use crate::accounts::{Account, AccountModel, Pubkey};
use crate::addresses::{delegation_record_address, find_delegation_record_pda};
use crate::codec::same_array;
use crate::keyed::{KeyMap, KeySet};
use crate::ledger::{held, lemma_held_insert, AccountMap, Snapshot, SnapshotModel};
use crate::portal_state::PortalAccount;
use crate::runtime::programs::{
    find_program_on, program_model, program_on, push_program, push_reload_of, with_program,
    with_reload, OwnerProgram, ProgramModel,
};
use crate::runtime::slots::{
    er_slot_after_reset, er_slot_for, next_slot, reset_slot, root_slot,
};
use crate::runtime::{
    no_update, Anchor, BankUpdate, EphemeralRollupSettings, EphemeralRuntime, RuntimeModel,
    UpdateModel,
};

verus! {

/// The program that owns an account delegated to a grid, as its delegation
/// record says.
pub open spec fn delegated_owner(
    l1: SnapshotModel,
    portal: Pubkey,
    grid_id: u64,
    key: Pubkey,
) -> Option<Pubkey> {
    match delegation_record_address(portal, key) {
        None => None,
        Some(record) => match l1.portal_account(record) {
            Some(PortalAccount::DelegationRecord(record)) => if record.grid_id == grid_id {
                Some(record.owner_program)
            } else {
                None
            },
            _ => None,
        },
    }
}

/// The program that owns an account delegated to a grid.
pub fn find_delegated_owner(l1: &Snapshot, portal: &Pubkey, grid_id: u64, key: &Pubkey) -> (r: Option<
    Pubkey,
>)
    requires
        l1.well_formed(),
    ensures
        r == delegated_owner(l1@, *portal, grid_id, *key),
{
    match find_delegation_record_pda(portal, key) {
        None => None,
        Some(record) => match l1.portal_account(&record) {
            Some(PortalAccount::DelegationRecord(record)) => {
                if record.grid_id == grid_id {
                    Some(record.owner_program)
                } else {
                    None
                }
            },
            _ => None,
        },
    }
}

/// An account as the rollup takes it over: under the owner that its delegation
/// record names. `None` if the portal program does not own the account, or if it
/// has no record for the grid.
pub open spec fn effective(
    l1: SnapshotModel,
    portal: Pubkey,
    grid_id: u64,
    key: Pubkey,
    account: AccountModel,
) -> Option<AccountModel> {
    if account.owner != portal {
        None
    } else {
        match delegated_owner(l1, portal, grid_id, key) {
            Some(owner) => Some(AccountModel { owner, ..account }),
            None => None,
        }
    }
}

/// The account under another owner.
pub fn with_owner(account: &Account, owner: Pubkey) -> (changed: Account)
    ensures
        changed@ == (AccountModel { owner, ..account@ }),
{
    let mut changed = account.copy();
    changed.owner = owner;
    changed
}

/// An account as the rollup takes it over.
pub fn effective_delegated_account(
    l1: &Snapshot,
    portal: &Pubkey,
    grid_id: u64,
    key: &Pubkey,
    account: &Account,
) -> (r: Option<Account>)
    requires
        l1.well_formed(),
    ensures
        crate::accounts::account_model(r) == effective(l1@, *portal, grid_id, *key, account@),
{
    if !same_array(&account.owner, portal) {
        return None;
    }
    match find_delegated_owner(l1, portal, grid_id, key) {
        Some(owner) => Some(with_owner(account, owner)),
        None => None,
    }
}

/// The account at an address as the rollup takes it over.
pub open spec fn taken_over(
    l1: SnapshotModel,
    portal: Pubkey,
    grid_id: u64,
    key: Pubkey,
) -> Option<AccountModel> {
    match l1.account(key) {
        Some(account) => effective(l1, portal, grid_id, key, account),
        None => None,
    }
}

/// The accounts to be stored for the first `n` accounts of a list.
pub open spec fn listed_writes(
    l1: SnapshotModel,
    portal: Pubkey,
    grid_id: u64,
    accounts: Seq<Pubkey>,
    n: nat,
) -> UpdateModel
    decreases n,
{
    if n == 0 {
        no_update()
    } else {
        let before = listed_writes(l1, portal, grid_id, accounts, (n - 1) as nat);
        match taken_over(l1, portal, grid_id, accounts[n - 1]) {
            Some(account) => before.and_write(accounts[n - 1], account),
            None => before,
        }
    }
}

/// The accounts of a list that the rollup takes over.
pub open spec fn taken_of(
    l1: SnapshotModel,
    portal: Pubkey,
    grid_id: u64,
    accounts: Seq<Pubkey>,
) -> Set<Pubkey> {
    Set::new(
        |key: Pubkey| accounts.contains(key) && taken_over(l1, portal, grid_id, key) is Some,
    )
}

/// A new rollup on a layer-one bank.
pub open spec fn new_model(
    anchor_slot: u64,
    l1: SnapshotModel,
    settings: EphemeralRollupSettings,
    portal: Pubkey,
) -> RuntimeModel {
    let taken = taken_of(l1, portal, settings.grid_id, settings.delegated_accounts@);
    RuntimeModel {
        portal_program_id: portal,
        grid_id: settings.grid_id,
        ttl_slots: settings.ttl_slots,
        fee_cap: settings.fee_cap,
        working_slot: next_slot(root_slot(anchor_slot)),
        active: false,
        advancing: false,
        session: None,
        snapshots: Map::new(|key: Pubkey| taken.contains(key), |key: Pubkey| l1.accounts[key]),
        delegated: taken,
        touched: Set::empty(),
        overlay: Map::new(
            |key: Pubkey| taken.contains(key),
            |key: Pubkey| taken_over(l1, portal, settings.grid_id, key)->0,
        ),
        anchor_slot,
        anchor: l1,
    }
}

proof fn lemma_take_contains(keys: Seq<Pubkey>, i: int)
    requires
        0 <= i < keys.len(),
    ensures
        forall|k: Pubkey| #[trigger]
            keys.take(i + 1).contains(k) <==> keys.take(i).contains(k) || k == keys[i],
{
    assert forall|k: Pubkey| #[trigger]
        keys.take(i + 1).contains(k) <==> keys.take(i).contains(k) || k == keys[i] by {
        if keys.take(i).contains(k) {
            let j = choose|j: int| 0 <= j < i && keys.take(i)[j] == k;
            assert(keys.take(i + 1)[j] == k);
        }
        if k == keys[i] {
            assert(keys.take(i + 1)[i] == k);
        }
        if keys.take(i + 1).contains(k) {
            let longer = keys.take(i + 1);
            let j = choose|j: int| 0 <= j < longer.len() && longer[j] == k;
            if j < i {
                assert(keys.take(i)[j] == k);
            }
        }
    }
}

/// What was taken over of the accounts whose addresses are in `keys`.
spec fn holds_taken(
    l1: SnapshotModel,
    portal: Pubkey,
    grid_id: u64,
    keys: Seq<Pubkey>,
    snapshots: Map<Pubkey, AccountModel>,
    delegated: Set<Pubkey>,
    overlay: Map<Pubkey, AccountModel>,
) -> bool {
    &&& forall|k: Pubkey| #[trigger]
        delegated.contains(k) <==> keys.contains(k) && taken_over(l1, portal, grid_id, k) is Some
    &&& forall|k: Pubkey| #[trigger] snapshots.contains_key(k) <==> delegated.contains(k)
    &&& forall|k: Pubkey| #[trigger] overlay.contains_key(k) <==> delegated.contains(k)
    &&& forall|k: Pubkey| delegated.contains(k) ==> #[trigger] snapshots[k] == l1.accounts[k]
    &&& forall|k: Pubkey|
        delegated.contains(k) ==> Some(#[trigger] overlay[k]) == taken_over(l1, portal, grid_id, k)
}

proof fn lemma_holds_next(
    l1: SnapshotModel,
    portal: Pubkey,
    grid_id: u64,
    keys: Seq<Pubkey>,
    i: int,
    snapshots: Map<Pubkey, AccountModel>,
    delegated: Set<Pubkey>,
    overlay: Map<Pubkey, AccountModel>,
)
    requires
        0 <= i < keys.len(),
        holds_taken(l1, portal, grid_id, keys.take(i), snapshots, delegated, overlay),
    ensures
        match taken_over(l1, portal, grid_id, keys[i]) {
            Some(account) => holds_taken(
                l1,
                portal,
                grid_id,
                keys.take(i + 1),
                snapshots.insert(keys[i], l1.accounts[keys[i]]),
                delegated.insert(keys[i]),
                overlay.insert(keys[i], account),
            ),
            None => holds_taken(
                l1,
                portal,
                grid_id,
                keys.take(i + 1),
                snapshots,
                delegated,
                overlay,
            ),
        },
{
    lemma_take_contains(keys, i);
}

proof fn lemma_holds_all(
    l1: SnapshotModel,
    portal: Pubkey,
    grid_id: u64,
    keys: Seq<Pubkey>,
    snapshots: Map<Pubkey, AccountModel>,
    delegated: Set<Pubkey>,
    overlay: Map<Pubkey, AccountModel>,
)
    requires
        holds_taken(l1, portal, grid_id, keys.take(keys.len() as int), snapshots, delegated, overlay),
    ensures
        delegated == taken_of(l1, portal, grid_id, keys),
        snapshots == Map::new(|k: Pubkey| delegated.contains(k), |k: Pubkey| l1.accounts[k]),
        overlay == Map::new(
            |k: Pubkey| delegated.contains(k),
            |k: Pubkey| taken_over(l1, portal, grid_id, k)->0,
        ),
{
    assert(keys.take(keys.len() as int) =~= keys);
    assert(delegated =~= taken_of(l1, portal, grid_id, keys));
    assert(snapshots =~= Map::new(|k: Pubkey| delegated.contains(k), |k: Pubkey| l1.accounts[k]));
    let wanted = Map::new(
        |k: Pubkey| delegated.contains(k),
        |k: Pubkey| taken_over(l1, portal, grid_id, k)->0,
    );
    assert forall|k: Pubkey| wanted.contains_key(k) implies wanted[k] == #[trigger] overlay[k] by {
        assert(Some(overlay[k]) == taken_over(l1, portal, grid_id, k));
    }
    assert(overlay =~= wanted);
}

impl EphemeralRuntime {
    /// A rollup on a layer-one bank: of the accounts in the settings, those that
    /// are delegated to the grid are taken over. It is not active.
    pub fn new(anchor: Anchor, settings: &EphemeralRollupSettings, portal_program_id: Pubkey) -> (r: (
        EphemeralRuntime,
        BankUpdate,
    ))
        requires
            anchor.snapshot.well_formed(),
        ensures
            r.0.well_formed(),
            r.0@ == new_model(anchor.slot, anchor.snapshot@, *settings, portal_program_id),
            r.1@ == listed_writes(
                anchor.snapshot@,
                portal_program_id,
                settings.grid_id,
                settings.delegated_accounts@,
                settings.delegated_accounts@.len(),
            ),
    {
        let l1 = anchor.snapshot;
        let mut update = BankUpdate::new();
        let mut snapshots: AccountMap = KeyMap::new();
        let mut delegated: KeySet<32> = KeySet::new();
        let mut overlay: AccountMap = KeyMap::new();
        let ghost keys = settings.delegated_accounts@;
        let mut i: usize = 0;
        proof {
            assert(held(snapshots@) =~= Map::<Pubkey, AccountModel>::empty());
            assert(held(overlay@) =~= Map::<Pubkey, AccountModel>::empty());
        }
        while i < settings.delegated_accounts.len()
            invariant
                l1.well_formed(),
                keys == settings.delegated_accounts@,
                i <= settings.delegated_accounts@.len(),
                snapshots.well_formed(),
                delegated.well_formed(),
                overlay.well_formed(),
                update@ == listed_writes(
                    l1@,
                    portal_program_id,
                    settings.grid_id,
                    keys,
                    i as nat,
                ),
                holds_taken(
                    l1@,
                    portal_program_id,
                    settings.grid_id,
                    keys.take(i as int),
                    held(snapshots@),
                    delegated@,
                    held(overlay@),
                ),
            decreases settings.delegated_accounts@.len() - i,
        {
            let key = settings.delegated_accounts[i];
            proof {
                lemma_holds_next(
                    l1@,
                    portal_program_id,
                    settings.grid_id,
                    keys,
                    i as int,
                    held(snapshots@),
                    delegated@,
                    held(overlay@),
                );
            }
            if let Some(account) = l1.account(&key) {
                if let Some(taken) = effective_delegated_account(
                    &l1,
                    &portal_program_id,
                    settings.grid_id,
                    &key,
                    account,
                ) {
                    let snapshot = account.copy();
                    proof {
                        lemma_held_insert(snapshots@, key, snapshot);
                        lemma_held_insert(overlay@, key, taken);
                    }
                    update.push_write(key, taken.copy());
                    snapshots.insert(key, snapshot);
                    let _ = delegated.insert(key);
                    overlay.insert(key, taken);
                }
            }
            i += 1;
        }
        proof {
            lemma_holds_all(
                l1@,
                portal_program_id,
                settings.grid_id,
                keys,
                held(snapshots@),
                delegated@,
                held(overlay@),
            );
        }
        let root: u64 = er_slot_for(anchor.slot);
        let runtime = EphemeralRuntime {
            portal_program_id,
            grid_id: settings.grid_id,
            ttl_slots: settings.ttl_slots,
            fee_cap: settings.fee_cap,
            working_slot: root.saturating_add(1),
            active: false,
            advancing: false,
            session: None,
            initial_account_snapshots: snapshots,
            delegated_accounts: delegated,
            touched_accounts: KeySet::new(),
            er_account_overlay: overlay,
            anchor_slot: anchor.slot,
            anchor: l1,
        };
        (runtime, update)
    }
}

/// The programs of the first `n` accounts of layer one that the rollup takes
/// over, as far as they exist.
pub open spec fn owner_programs(
    l1: SnapshotModel,
    portal: Pubkey,
    grid_id: u64,
    n: nat,
) -> Set<Pubkey>
    decreases n,
{
    if n == 0 {
        Set::empty()
    } else {
        let before = owner_programs(l1, portal, grid_id, (n - 1) as nat);
        match taken_over(l1, portal, grid_id, l1.keys[n - 1]) {
            Some(account) => if program_on(l1, account.owner) is Some {
                before.insert(account.owner)
            } else {
                before
            },
            None => before,
        }
    }
}

/// What a reset does to the bank for the first `n` accounts of layer one: each
/// account that is taken over is stored, followed by its program, the first time
/// that the program occurs. The programs are loaded anew.
pub open spec fn reset_update(
    l1: SnapshotModel,
    portal: Pubkey,
    grid_id: u64,
    n: nat,
) -> UpdateModel
    decreases n,
{
    if n == 0 {
        no_update()
    } else {
        let before = reset_update(l1, portal, grid_id, (n - 1) as nat);
        let key = l1.keys[n - 1];
        match taken_over(l1, portal, grid_id, key) {
            None => before,
            Some(account) => {
                let stored = before.and_write(key, account);
                match program_on(l1, account.owner) {
                    None => stored,
                    Some(program) => with_reload(
                        if owner_programs(l1, portal, grid_id, (n - 1) as nat).contains(
                            account.owner,
                        ) {
                            stored
                        } else {
                            with_program(stored, account.owner, program)
                        },
                        account.owner,
                        program.account,
                    ),
                }
            },
        }
    }
}

/// The rollup after a reset onto a layer-one bank.
pub open spec fn reset_model(
    before: RuntimeModel,
    anchor_slot: u64,
    l1: SnapshotModel,
) -> RuntimeModel {
    let portal = before.portal_program_id;
    let taken = Set::new(|key: Pubkey| taken_over(l1, portal, before.grid_id, key) is Some);
    RuntimeModel {
        working_slot: next_slot(reset_slot(anchor_slot, before.working_slot)),
        advancing: true,
        snapshots: Map::new(|key: Pubkey| taken.contains(key), |key: Pubkey| l1.accounts[key]),
        delegated: taken,
        touched: taken,
        overlay: Map::new(
            |key: Pubkey| taken.contains(key),
            |key: Pubkey| taken_over(l1, portal, before.grid_id, key)->0,
        ),
        anchor_slot,
        anchor: l1,
        ..before
    }
}

/// The account that the rollup stores for a new delegation.
pub open spec fn received(account: AccountModel, owner_program: Option<Pubkey>) -> AccountModel {
    match owner_program {
        Some(owner) => AccountModel { owner, ..account },
        None => account,
    }
}

/// What a new delegation does to the bank, given the program that owns the
/// account as far as it is found.
pub open spec fn received_update(
    key: Pubkey,
    account: AccountModel,
    owner_program: Option<Pubkey>,
    program: Option<ProgramModel>,
) -> UpdateModel {
    let before = match (owner_program, program) {
        (Some(owner), Some(program)) => with_reload(
            with_program(no_update(), owner, program),
            owner,
            program.account,
        ),
        _ => no_update(),
    };
    before.and_write(key, received(account, owner_program))
}

/// The program of a new delegation, if layer one is given and has it.
pub open spec fn program_of(owner_program: Option<Pubkey>, l1: Option<SnapshotModel>) -> Option<
    ProgramModel,
> {
    match (owner_program, l1) {
        (Some(owner), Some(l1)) => program_on(l1, owner),
        _ => None,
    }
}

/// What a new delegation does to the bank.
pub open spec fn delegation_update(
    key: Pubkey,
    account: AccountModel,
    owner_program: Option<Pubkey>,
    l1: Option<SnapshotModel>,
) -> UpdateModel {
    received_update(key, account, owner_program, program_of(owner_program, l1))
}

/// The rollup after a new delegation.
pub open spec fn delegation_model(
    before: RuntimeModel,
    key: Pubkey,
    account: AccountModel,
    owner_program: Option<Pubkey>,
) -> RuntimeModel {
    RuntimeModel {
        working_slot: next_slot(before.working_slot),
        overlay: before.overlay.insert(key, received(account, owner_program)),
        delegated: before.delegated.insert(key),
        touched: before.touched.insert(key),
        ..before
    }
}

/// What an optional snapshot holds.
pub open spec fn snapshot_model(snapshot: Option<&Snapshot>) -> Option<SnapshotModel> {
    match snapshot {
        Some(snapshot) => Some(snapshot@),
        None => None,
    }
}

impl EphemeralRuntime {
    /// Starts anew on a layer-one bank: what the rollup held is forgotten, and
    /// every account that layer one has delegated to the grid is taken over, with
    /// the programs that own them.
    pub fn reset_to_new_parent(&mut self, anchor: Anchor) -> (update: BankUpdate)
        requires
            old(self).well_formed(),
            anchor.snapshot.well_formed(),
        ensures
            final(self).well_formed(),
            final(self)@ == reset_model(old(self)@, anchor.slot, anchor.snapshot@),
            update@ == reset_update(
                anchor.snapshot@,
                old(self)@.portal_program_id,
                old(self)@.grid_id,
                anchor.snapshot@.keys.len(),
            ),
    {
        let l1 = anchor.snapshot;
        let portal = self.portal_program_id;
        let grid_id: u64 = self.grid_id;
        let mut update = BankUpdate::new();
        let mut snapshots: AccountMap = KeyMap::new();
        let mut delegated: KeySet<32> = KeySet::new();
        let mut overlay: AccountMap = KeyMap::new();
        let mut programs: KeySet<32> = KeySet::new();
        let ghost keys = l1@.keys;
        let mut i: usize = 0;
        proof {
            assert(held(snapshots@) =~= Map::<Pubkey, AccountModel>::empty());
            assert(held(overlay@) =~= Map::<Pubkey, AccountModel>::empty());
        }
        while i < l1.accounts.len()
            invariant
                l1.well_formed(),
                keys == l1@.keys,
                i <= l1@.keys.len(),
                snapshots.well_formed(),
                delegated.well_formed(),
                overlay.well_formed(),
                programs.well_formed(),
                programs@ == owner_programs(l1@, portal, grid_id, i as nat),
                update@ == reset_update(l1@, portal, grid_id, i as nat),
                holds_taken(
                    l1@,
                    portal,
                    grid_id,
                    keys.take(i as int),
                    held(snapshots@),
                    delegated@,
                    held(overlay@),
                ),
            decreases l1@.keys.len() - i,
        {
            let key = l1.accounts.key_at(i);
            let account = l1.accounts.value_at(i);
            assert(l1@.account(key) == Some(account@));
            proof {
                lemma_holds_next(
                    l1@,
                    portal,
                    grid_id,
                    keys,
                    i as int,
                    held(snapshots@),
                    delegated@,
                    held(overlay@),
                );
            }
            if let Some(taken) = effective_delegated_account(&l1, &portal, grid_id, &key, account) {
                let owner = taken.owner;
                update.push_write(key, taken.copy());
                if let Some(program) = find_program_on(&l1, &owner) {
                    if programs.insert(owner) {
                        push_program(&mut update, owner, &program);
                    } else {
                        assert(programs@ =~= owner_programs(l1@, portal, grid_id, i as nat));
                    }
                    push_reload_of(&mut update, owner, &program.account);
                }
                let snapshot = account.copy();
                proof {
                    lemma_held_insert(snapshots@, key, snapshot);
                    lemma_held_insert(overlay@, key, taken);
                }
                snapshots.insert(key, snapshot);
                let _ = delegated.insert(key);
                overlay.insert(key, taken);
            }
            i += 1;
        }
        proof {
            lemma_holds_all(
                l1@,
                portal,
                grid_id,
                keys,
                held(snapshots@),
                delegated@,
                held(overlay@),
            );
            l1.accounts.lemma_listed();
            let taken = Set::new(|key: Pubkey| taken_over(l1@, portal, grid_id, key) is Some);
            assert forall|k: Pubkey| taken.contains(k) implies keys.contains(k) by {
                assert(l1.accounts@.contains_key(k));
            }
            assert(delegated@ =~= taken);
        }
        self.working_slot = er_slot_after_reset(anchor.slot, self.working_slot).saturating_add(1);
        self.advancing = true;
        self.initial_account_snapshots = snapshots;
        self.touched_accounts = delegated.copy();
        self.delegated_accounts = delegated;
        self.er_account_overlay = overlay;
        self.anchor_slot = anchor.slot;
        self.anchor = l1;
        update
    }

    /// Takes over an account that was delegated on layer one: under the program
    /// that owns it, if that is given, which is stored too if `l1` has it. From
    /// then on transactions can write the account, and its balance is the
    /// rollup's own.
    pub fn handle_delegation_inner(
        &mut self,
        delegated_account: &Pubkey,
        account: &Account,
        owner_program: Option<Pubkey>,
        l1: Option<&Snapshot>,
    ) -> (update: BankUpdate)
        requires
            old(self).well_formed(),
            l1 matches Some(l1) ==> l1.well_formed(),
        ensures
            final(self).well_formed(),
            final(self)@ == delegation_model(
                old(self)@,
                *delegated_account,
                account@,
                owner_program,
            ),
            update@ == delegation_update(
                *delegated_account,
                account@,
                owner_program,
                snapshot_model(l1),
            ),
    {
        let program = match (owner_program, l1) {
            (Some(owner), Some(l1)) => find_program_on(l1, &owner),
            _ => None,
        };
        self.receive_delegation(delegated_account, account, owner_program, &program)
    }

    /// Takes over an account with the program that owns it.
    pub fn receive_delegation(
        &mut self,
        delegated_account: &Pubkey,
        account: &Account,
        owner_program: Option<Pubkey>,
        program: &Option<OwnerProgram>,
    ) -> (update: BankUpdate)
        requires
            old(self).well_formed(),
        ensures
            final(self).well_formed(),
            final(self)@ == delegation_model(
                old(self)@,
                *delegated_account,
                account@,
                owner_program,
            ),
            update@ == received_update(
                *delegated_account,
                account@,
                owner_program,
                program_model(*program),
            ),
    {
        let mut update = BankUpdate::new();
        let mut stored = account.copy();
        if let Some(owner) = owner_program {
            stored.owner = owner;
            if let Some(program) = program {
                push_program(&mut update, owner, program);
                push_reload_of(&mut update, owner, &program.account);
            }
        }
        assert(stored@ == received(account@, owner_program));
        update.push_write(*delegated_account, stored.copy());
        proof {
            lemma_held_insert(self.er_account_overlay@, *delegated_account, stored);
        }
        self.er_account_overlay.insert(*delegated_account, stored);
        let _ = self.delegated_accounts.insert(*delegated_account);
        let _ = self.touched_accounts.insert(*delegated_account);
        self.working_slot = self.working_slot.saturating_add(1);
        update
    }

    /// Takes over an account as it is.
    pub fn handle_delegation(&mut self, delegated_account: &Pubkey, account: &Account) -> (update:
        BankUpdate)
        requires
            old(self).well_formed(),
        ensures
            final(self).well_formed(),
            final(self)@ == delegation_model(old(self)@, *delegated_account, account@, None),
            update@ == delegation_update(*delegated_account, account@, None, None),
    {
        self.handle_delegation_inner(delegated_account, account, None, None)
    }

    /// Takes over an account under the program that owns it.
    pub fn handle_delegation_with_owner_program(
        &mut self,
        delegated_account: &Pubkey,
        account: &Account,
        owner_program: Option<Pubkey>,
    ) -> (update: BankUpdate)
        requires
            old(self).well_formed(),
        ensures
            final(self).well_formed(),
            final(self)@ == delegation_model(
                old(self)@,
                *delegated_account,
                account@,
                owner_program,
            ),
            update@ == delegation_update(*delegated_account, account@, owner_program, None),
    {
        self.handle_delegation_inner(delegated_account, account, owner_program, None)
    }
}

/// After a reset the rollup holds nothing but what layer one has delegated to
/// its grid, whatever it held before.
pub proof fn resets_forget_the_past(
    a: RuntimeModel,
    b: RuntimeModel,
    anchor_slot: u64,
    l1: SnapshotModel,
)
    requires
        a.portal_program_id == b.portal_program_id,
        a.grid_id == b.grid_id,
    ensures
        reset_model(a, anchor_slot, l1).overlay == reset_model(b, anchor_slot, l1).overlay,
        reset_model(a, anchor_slot, l1).delegated == reset_model(b, anchor_slot, l1).delegated,
        reset_model(a, anchor_slot, l1).touched == reset_model(b, anchor_slot, l1).touched,
        reset_model(a, anchor_slot, l1).snapshots == reset_model(b, anchor_slot, l1).snapshots,
{
}

/// Every account that a reset takes over is owned by the portal program on layer
/// one, has a delegation record for the grid there, and differs from what layer
/// one has in nothing but its owner.
pub proof fn resets_take_over_delegations_only(
    before: RuntimeModel,
    anchor_slot: u64,
    l1: SnapshotModel,
    key: Pubkey,
)
    requires
        reset_model(before, anchor_slot, l1).delegated.contains(key),
    ensures
        l1.owned_by(key, before.portal_program_id),
        delegated_owner(l1, before.portal_program_id, before.grid_id, key) matches Some(owner)
            && reset_model(before, anchor_slot, l1).overlay[key] == (AccountModel {
            owner,
            ..l1.accounts[key]
        }),
{
}

} // verus!
