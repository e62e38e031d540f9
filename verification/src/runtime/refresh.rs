//! Anchoring anew, and keeping the programs of delegated accounts up to date.

use vstd::prelude::*;

use crate::accounts::{Account, AccountModel, Pubkey};
use crate::codec::{same_array, same_bytes};
use crate::keyed::{ordered, KeySet};
use crate::ledger::{account_at, held, AccountMap, Snapshot, SnapshotModel};
use crate::runtime::delegation::{delegated_owner, find_delegated_owner};
use crate::runtime::programs::{
    code_address, find_code_address, find_program_on, program_on, push_program, push_reload_of,
    with_program, with_reload, OwnerProgram, ProgramModel,
};
use crate::runtime::slots::{anchored_slot, er_slot_after_reanchor, next_slot};
use crate::runtime::{no_update, Anchor, BankUpdate, EphemeralRuntime, RuntimeModel, UpdateModel};

verus! {

/// The programs that own delegated accounts, as layer one has them recorded.
pub open spec fn owners_on(runtime: RuntimeModel, l1: SnapshotModel) -> Set<Pubkey> {
    Set::new(
        |program: Pubkey|
            exists|key: Pubkey| #[trigger]
                runtime.delegated.contains(key) && delegated_owner(
                    l1,
                    runtime.portal_program_id,
                    runtime.grid_id,
                    key,
                ) == Some(program),
    )
}

/// Whether the bank has this account at an address.
pub open spec fn has_account(
    bank: Map<Pubkey, AccountModel>,
    key: Pubkey,
    account: AccountModel,
) -> bool {
    bank.contains_key(key) && bank[key] == account
}

/// The program as layer one has it, if the bank has to be brought up to date: the
/// bank has another program or other code. A program whose code is missing on
/// layer one is left alone.
pub open spec fn stale(
    l1: SnapshotModel,
    bank: Map<Pubkey, AccountModel>,
    program: Pubkey,
) -> Option<ProgramModel> {
    match program_on(l1, program) {
        None => None,
        Some(found) => if code_address(found.account) is Some && found.programdata is None {
            None
        } else if !has_account(bank, program, found.account) || (found.programdata matches Some(
            (address, code),
        ) && !has_account(bank, address, code)) {
            Some(found)
        } else {
            None
        },
    }
}

/// What brings the first `n` programs up to date.
pub open spec fn refresh_update(
    l1: SnapshotModel,
    bank: Map<Pubkey, AccountModel>,
    programs: Seq<Pubkey>,
    n: nat,
) -> UpdateModel
    decreases n,
{
    if n == 0 {
        no_update()
    } else {
        let before = refresh_update(l1, bank, programs, (n - 1) as nat);
        match stale(l1, bank, programs[n - 1]) {
            Some(found) => with_reload(
                with_program(before, programs[n - 1], found),
                programs[n - 1],
                found.account,
            ),
            None => before,
        }
    }
}

/// How many of the first `n` programs are brought up to date.
pub open spec fn refreshed(
    l1: SnapshotModel,
    bank: Map<Pubkey, AccountModel>,
    programs: Seq<Pubkey>,
    n: nat,
) -> nat
    decreases n,
{
    if n == 0 {
        0
    } else {
        refreshed(l1, bank, programs, (n - 1) as nat) + if stale(l1, bank, programs[n - 1]) is Some {
            1nat
        } else {
            0
        }
    }
}

/// What stores everything that the rollup has written.
pub open spec fn overlay_update(runtime: RuntimeModel) -> UpdateModel {
    let keys = ordered(runtime.overlay.dom());
    UpdateModel {
        writes: Seq::new(keys.len(), |i: int| (keys[i], runtime.overlay[keys[i]])),
        reload_programs: Seq::empty(),
    }
}

/// The rollup once it is anchored to another layer-one bank: what it has written
/// stays.
pub open spec fn anchored_model(
    before: RuntimeModel,
    anchor_slot: u64,
    l1: SnapshotModel,
) -> RuntimeModel {
    RuntimeModel {
        working_slot: anchored_slot(anchor_slot, before.working_slot),
        advancing: true,
        anchor_slot,
        anchor: l1,
        ..before
    }
}

fn same_account(a: &Account, b: &Account) -> (same: bool)
    ensures
        same == (a@ == b@),
{
    let same = a.lamports == b.lamports && a.executable == b.executable && a.rent_epoch
        == b.rent_epoch && same_array(&a.owner, &b.owner) && same_bytes(&a.data, &b.data);
    proof {
        if same {
            assert(a@ =~= b@);
        }
    }
    same
}

fn bank_has(bank: &AccountMap, key: &Pubkey, account: &Account) -> (has: bool)
    requires
        bank.well_formed(),
    ensures
        has == has_account(held(bank@), *key, account@),
{
    match account_at(bank, key) {
        Some(found) => same_account(found, account),
        None => false,
    }
}

fn find_stale(l1: &Snapshot, bank: &AccountMap, program: &Pubkey) -> (r: Option<OwnerProgram>)
    requires
        l1.well_formed(),
        bank.well_formed(),
    ensures
        crate::runtime::programs::program_model(r) == stale(l1@, held(bank@), *program),
{
    let found = match find_program_on(l1, program) {
        Some(found) => found,
        None => {
            return None;
        },
    };
    if found.programdata.is_none() && find_code_address(&found.account).is_some() {
        return None;
    }
    let changed = !bank_has(bank, program, &found.account) || match &found.programdata {
        Some((address, code)) => !bank_has(bank, address, code),
        None => false,
    };
    if changed {
        Some(found)
    } else {
        None
    }
}

impl EphemeralRuntime {
    fn owner_programs_on(&self, l1: &Snapshot) -> (programs: KeySet<32>)
        requires
            self.well_formed(),
            l1.well_formed(),
        ensures
            programs.well_formed(),
            programs@ == owners_on(self@, l1@),
    {
        let ghost keys = self.delegated_accounts.listed();
        let mut programs: KeySet<32> = KeySet::new();
        let mut i: usize = 0;
        while i < self.delegated_accounts.len()
            invariant
                self.well_formed(),
                l1.well_formed(),
                programs.well_formed(),
                keys == self.delegated_accounts.listed(),
                i <= self.delegated_accounts.listed().len(),
                forall|p: Pubkey| #[trigger]
                    programs@.contains(p) <==> exists|j: int|
                        0 <= j < i && delegated_owner(
                            l1@,
                            self@.portal_program_id,
                            self@.grid_id,
                            #[trigger] keys[j],
                        ) == Some(p),
            decreases self.delegated_accounts.listed().len() - i,
        {
            let key = self.delegated_accounts.key_at(i);
            let ghost before = programs@;
            if let Some(program) = find_delegated_owner(
                l1,
                &self.portal_program_id,
                self.grid_id,
                &key,
            ) {
                let _ = programs.insert(program);
            }
            proof {
                assert forall|p: Pubkey| #[trigger]
                    programs@.contains(p) <==> exists|j: int|
                        0 <= j < i + 1 && delegated_owner(
                            l1@,
                            self@.portal_program_id,
                            self@.grid_id,
                            #[trigger] keys[j],
                        ) == Some(p) by {
                    if before.contains(p) {
                        let j = choose|j: int|
                            0 <= j < i && delegated_owner(
                                l1@,
                                self@.portal_program_id,
                                self@.grid_id,
                                #[trigger] keys[j],
                            ) == Some(p);
                        assert(0 <= j < i + 1 && keys[j] == keys[j]);
                    }
                    if delegated_owner(l1@, self@.portal_program_id, self@.grid_id, keys[i as int])
                        == Some(p) {
                        assert(0 <= i < i + 1);
                    }
                }
            }
            i += 1;
        }
        proof {
            self.delegated_accounts.lemma_listed();
            let wanted = owners_on(self@, l1@);
            assert forall|p: Pubkey| programs@.contains(p) <==> wanted.contains(p) by {
                if programs@.contains(p) {
                    let j = choose|j: int|
                        0 <= j < keys.len() && delegated_owner(
                            l1@,
                            self@.portal_program_id,
                            self@.grid_id,
                            #[trigger] keys[j],
                        ) == Some(p);
                    assert(keys.contains(keys[j]));
                    assert(self@.delegated.contains(keys[j]));
                }
                if wanted.contains(p) {
                    let key = choose|key: Pubkey| #[trigger]
                        self@.delegated.contains(key) && delegated_owner(
                            l1@,
                            self@.portal_program_id,
                            self@.grid_id,
                            key,
                        ) == Some(p);
                    assert(keys.contains(key));
                    let j = choose|j: int| 0 <= j < keys.len() && keys[j] == key;
                    assert(keys[j] == key);
                }
            }
            assert(programs@ =~= wanted);
        }
        programs
    }

    /// What brings the programs of delegated accounts up to date with layer one,
    /// and how many of them that concerns. `bank` is what the rollup's bank has.
    pub fn hydrate_delegated_owner_programs_from_l1(&self, l1: &Snapshot, bank: &AccountMap) -> (r: (
        BankUpdate,
        usize,
    ))
        requires
            self.well_formed(),
            l1.well_formed(),
            bank.well_formed(),
        ensures
            ({
                let programs = ordered(owners_on(self@, l1@));
                &&& r.0@ == refresh_update(l1@, held(bank@), programs, programs.len())
                &&& r.1 == refreshed(l1@, held(bank@), programs, programs.len())
            }),
    {
        let programs = self.owner_programs_on(l1);
        proof {
            programs.lemma_listed();
        }
        let ghost listed = programs.listed();
        let mut update = BankUpdate::new();
        let mut count: usize = 0;
        let mut i: usize = 0;
        while i < programs.len()
            invariant
                l1.well_formed(),
                bank.well_formed(),
                listed == programs.listed(),
                i <= programs.listed().len(),
                count <= i,
                count == refreshed(l1@, held(bank@), listed, i as nat),
                update@ == refresh_update(l1@, held(bank@), listed, i as nat),
            decreases programs.listed().len() - i,
        {
            let program = programs.key_at(i);
            if let Some(found) = find_stale(l1, bank, &program) {
                push_program(&mut update, program, &found);
                push_reload_of(&mut update, program, &found.account);
                count += 1;
            }
            i += 1;
        }
        (update, count)
    }

    /// Brings the programs of delegated accounts up to date with layer one. If
    /// that changes anything, the rollup goes on with the next slot.
    pub fn refresh_delegated_owner_programs_from_l1(&mut self, l1: &Snapshot, bank: &AccountMap) -> (update:
        BankUpdate)
        requires
            old(self).well_formed(),
            l1.well_formed(),
            bank.well_formed(),
        ensures
            final(self).well_formed(),
            ({
                let programs = ordered(owners_on(old(self)@, l1@));
                &&& update@ == refresh_update(l1@, held(bank@), programs, programs.len())
                &&& final(self)@ == if refreshed(l1@, held(bank@), programs, programs.len()) > 0 {
                    RuntimeModel {
                        working_slot: next_slot(old(self)@.working_slot),
                        ..old(self)@
                    }
                } else {
                    old(self)@
                }
            }),
    {
        let (update, count) = self.hydrate_delegated_owner_programs_from_l1(l1, bank);
        if count > 0 {
            self.working_slot = self.working_slot.saturating_add(1);
        }
        update
    }

    /// Anchors an active rollup to another layer-one bank. What the rollup has
    /// written stays, and is to be stored in the new bank. A rollup that is not
    /// active is left as it is.
    pub fn reanchor_to_l1_parent(&mut self, anchor: Anchor) -> (update: BankUpdate)
        requires
            old(self).well_formed(),
            anchor.snapshot.well_formed(),
        ensures
            final(self).well_formed(),
            old(self)@.active ==> {
                &&& final(self)@ == anchored_model(old(self)@, anchor.slot, anchor.snapshot@)
                &&& update@ == overlay_update(old(self)@)
            },
            !old(self)@.active ==> final(self)@ == old(self)@ && update@ == no_update(),
    {
        let mut update = BankUpdate::new();
        if !self.active {
            return update;
        }
        self.working_slot = er_slot_after_reanchor(anchor.slot, self.working_slot);
        self.advancing = true;
        self.anchor_slot = anchor.slot;
        self.anchor = anchor.snapshot;
        let ghost keys = self.er_account_overlay.listed();
        let ghost overlay = self@.overlay;
        proof {
            self.er_account_overlay.lemma_listed();
            assert(self.er_account_overlay@.dom() =~= self@.overlay.dom());
        }
        let mut i: usize = 0;
        while i < self.er_account_overlay.len()
            invariant
                self.er_account_overlay.well_formed(),
                keys == self.er_account_overlay.listed(),
                overlay == held(self.er_account_overlay@),
                i <= self.er_account_overlay.listed().len(),
                update@.reload_programs == Seq::<Pubkey>::empty(),
                update@.writes == Seq::new(i as nat, |j: int| (keys[j], overlay[keys[j]])),
            decreases self.er_account_overlay.listed().len() - i,
        {
            let account = self.er_account_overlay.value_at(i);
            update.push_write(self.er_account_overlay.key_at(i), account.copy());
            i += 1;
            assert(update@.writes =~= Seq::new(i as nat, |j: int| (keys[j], overlay[keys[j]])));
        }
        assert(update@ =~= overlay_update(old(self)@));
        update
    }
}

/// Anchoring anew loses nothing: what the rollup has written, what is delegated
/// and what is touched stay, and everything that was written is stored in the
/// new bank.
pub proof fn reanchoring_loses_nothing(
    runtime: &EphemeralRuntime,
    anchor_slot: u64,
    l1: SnapshotModel,
    key: Pubkey,
)
    requires
        runtime.well_formed(),
        runtime@.overlay.contains_key(key),
    ensures
        anchored_model(runtime@, anchor_slot, l1).overlay == runtime@.overlay,
        anchored_model(runtime@, anchor_slot, l1).delegated == runtime@.delegated,
        anchored_model(runtime@, anchor_slot, l1).touched == runtime@.touched,
        overlay_update(runtime@).writes.contains((key, runtime@.overlay[key])),
{
    let keys = runtime.er_account_overlay.listed();
    runtime.er_account_overlay.lemma_listed();
    assert(runtime.er_account_overlay@.dom() =~= runtime@.overlay.dom());
    assert(runtime.er_account_overlay@.contains_key(key));
    let i = choose|i: int| 0 <= i < keys.len() && keys[i] == key;
    assert(overlay_update(runtime@).writes[i] == (key, runtime@.overlay[key]));
}

} // verus!
