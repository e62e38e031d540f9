//! Which accounts and programs a rollup takes over, told by layer one alone.

use vstd::prelude::*;

use crate::accounts::{AccountModel, Pubkey};
use crate::addresses::{program_address, DELEGATION_SEED};
use crate::keyed::{lemma_order_exists, ordered};
use crate::ledger::SnapshotModel;
use crate::portal_state::PortalAccount;
use crate::runtime::delegation::{
    delegated_owner, delegation_model, delegation_update, listed_writes, new_model,
    owner_programs, reset_model, reset_update, taken_over,
};
use crate::runtime::programs::{program_on, with_program, with_reload, ProgramModel};
use crate::runtime::refresh::{
    anchored_model, overlay_update, owners_on, refresh_update, refreshed, stale,
};
use crate::runtime::{EphemeralRollupSettings, RuntimeModel, UpdateModel};
use crate::well_known::{
    BPF_LOADER_DEPRECATED_ID, BPF_LOADER_ID, BPF_LOADER_UPGRADEABLE_ID, LOADER_V4_ID,
};

verus! {

/// Layer one has delegated the account to the grid: the portal program owns it, and its
/// record names the grid and the owner.
pub open spec fn is_delegated_on(
    l1: SnapshotModel,
    portal: Pubkey,
    grid_id: u64,
    key: Pubkey,
    owner: Pubkey,
) -> bool {
    let found = program_address(seq![DELEGATION_SEED@, key@], portal);
    &&& l1.accounts.contains_key(key)
    &&& l1.accounts[key].owner == portal
    &&& found is Some
    &&& l1.accounts.contains_key((found->0).0)
    &&& l1.portal.contains_key((found->0).0)
    &&& l1.portal[(found->0).0] matches PortalAccount::DelegationRecord(record)
    &&& record.grid_id == grid_id
    &&& record.owner_program == owner
}

/// The rollup takes over exactly what layer one has delegated to its grid, as it is but
/// under the owner that the record names.
pub proof fn delegated_accounts_are_taken_over(
    l1: SnapshotModel,
    portal: Pubkey,
    grid_id: u64,
    key: Pubkey,
    owner: Pubkey,
)
    ensures
        is_delegated_on(l1, portal, grid_id, key, owner) <==> (taken_over(
            l1,
            portal,
            grid_id,
            key,
        ) matches Some(account) && {
            &&& account.owner == owner
            &&& account.lamports == l1.accounts[key].lamports
            &&& account.data == l1.accounts[key].data
            &&& account.executable == l1.accounts[key].executable
            &&& account.rent_epoch == l1.accounts[key].rent_epoch
        }),
        taken_over(l1, portal, grid_id, key) matches Some(account) ==> is_delegated_on(
            l1,
            portal,
            grid_id,
            key,
            account.owner,
        ),
{
}

/// A new rollup has taken over those of the listed accounts that layer one has
/// delegated to the grid, has written nothing else, owns no balance, accepts nothing yet
/// and has no session. It remembers each account as it was on layer one.
pub proof fn new_rollups_hold_delegated_accounts(
    anchor_slot: u64,
    l1: SnapshotModel,
    settings: EphemeralRollupSettings,
    portal: Pubkey,
    key: Pubkey,
    owner: Pubkey,
)
    ensures
        ({
            let rollup = new_model(anchor_slot, l1, settings, portal);
            let grid_id = settings.grid_id;
            &&& settings.delegated_accounts@.contains(key) && is_delegated_on(
                l1,
                portal,
                grid_id,
                key,
                owner,
            ) ==> rollup.delegated.contains(key) && rollup.overlay[key].owner == owner
            &&& rollup.delegated.contains(key) ==> {
                &&& settings.delegated_accounts@.contains(key)
                &&& is_delegated_on(l1, portal, grid_id, key, rollup.overlay[key].owner)
                &&& rollup.overlay[key].lamports == l1.accounts[key].lamports
                &&& rollup.overlay[key].data == l1.accounts[key].data
                &&& rollup.overlay[key].executable == l1.accounts[key].executable
                &&& rollup.overlay[key].rent_epoch == l1.accounts[key].rent_epoch
                &&& rollup.snapshots[key] == l1.accounts[key]
            }
            &&& rollup.overlay.contains_key(key) <==> rollup.delegated.contains(key)
            &&& rollup.snapshots.contains_key(key) <==> rollup.delegated.contains(key)
            &&& !rollup.touched.contains(key)
            &&& !rollup.active
            &&& !rollup.advancing
            &&& rollup.session is None
            &&& rollup.portal_program_id == portal
            &&& rollup.grid_id == settings.grid_id
            &&& rollup.ttl_slots == settings.ttl_slots
            &&& rollup.fee_cap == settings.fee_cap
            &&& rollup.anchor == l1
            &&& rollup.anchor_slot == anchor_slot
            &&& anchor_slot + 1_099_511_627_777 <= u64::MAX ==> rollup.working_slot == anchor_slot
                + 1_099_511_627_777
        }),
{
    delegated_accounts_are_taken_over(l1, portal, settings.grid_id, key, owner);
}

/// A reset takes over exactly the accounts that layer one has delegated to the grid, and
/// forgets everything else that the rollup has written or owns. Each of them counts as
/// the rollup's own, and is remembered as it was on layer one. Session, terms and
/// activity stay.
pub proof fn resets_hold_delegated_accounts(
    before: RuntimeModel,
    anchor_slot: u64,
    l1: SnapshotModel,
    key: Pubkey,
    owner: Pubkey,
)
    ensures
        ({
            let after = reset_model(before, anchor_slot, l1);
            let portal = before.portal_program_id;
            let grid_id = before.grid_id;
            &&& is_delegated_on(l1, portal, grid_id, key, owner) ==> after.delegated.contains(key)
                && after.overlay[key].owner == owner
            &&& after.delegated.contains(key) ==> {
                &&& is_delegated_on(l1, portal, grid_id, key, after.overlay[key].owner)
                &&& after.overlay[key].lamports == l1.accounts[key].lamports
                &&& after.overlay[key].data == l1.accounts[key].data
                &&& after.overlay[key].executable == l1.accounts[key].executable
                &&& after.overlay[key].rent_epoch == l1.accounts[key].rent_epoch
                &&& after.snapshots[key] == l1.accounts[key]
            }
            &&& after.overlay.contains_key(key) <==> after.delegated.contains(key)
            &&& after.snapshots.contains_key(key) <==> after.delegated.contains(key)
            &&& after.touched.contains(key) <==> after.delegated.contains(key)
            &&& after.anchor == l1
            &&& after.anchor_slot == anchor_slot
            &&& after.advancing
            &&& after.active == before.active
            &&& after.session == before.session
            &&& after.grid_id == before.grid_id
            &&& after.ttl_slots == before.ttl_slots
            &&& after.fee_cap == before.fee_cap
            &&& after.portal_program_id == before.portal_program_id
            &&& before.working_slot < u64::MAX - 1 ==> after.working_slot > before.working_slot + 1
            &&& anchor_slot + 1_099_511_627_777 <= u64::MAX ==> after.working_slot >= anchor_slot
                + 1_099_511_627_777
        }),
{
    delegated_accounts_are_taken_over(
        l1,
        before.portal_program_id,
        before.grid_id,
        key,
        owner,
    );
}

/// A new delegation is written under its owner program, or as it is if that is not
/// known; the account is delegated and the rollup's own from now on. Nothing else about
/// the rollup changes but its slot.
pub proof fn delegations_are_written_and_owned(
    before: RuntimeModel,
    key: Pubkey,
    account: AccountModel,
    owner_program: Option<Pubkey>,
    other: Pubkey,
)
    ensures
        ({
            let after = delegation_model(before, key, account, owner_program);
            let stored = after.overlay[key];
            &&& after.overlay.contains_key(key)
            &&& owner_program matches Some(owner) ==> stored.owner == owner
            &&& owner_program is None ==> stored.owner == account.owner
            &&& stored.lamports == account.lamports
            &&& stored.data == account.data
            &&& stored.executable == account.executable
            &&& stored.rent_epoch == account.rent_epoch
            &&& after.delegated.contains(other) <==> before.delegated.contains(other) || other
                == key
            &&& after.touched.contains(other) <==> before.touched.contains(other) || other == key
            &&& other != key ==> {
                &&& after.overlay.contains_key(other) <==> before.overlay.contains_key(other)
                &&& before.overlay.contains_key(other) ==> after.overlay[other]
                    == before.overlay[other]
            }
            &&& after.snapshots == before.snapshots
            &&& after.session == before.session
            &&& after.active == before.active
            &&& after.anchor == before.anchor
            &&& before.working_slot < u64::MAX ==> after.working_slot == before.working_slot + 1
        }),
{
}

/// A program that one of the loaders loads.
pub open spec fn is_loaded(program: AccountModel) -> bool {
    ||| program.owner == BPF_LOADER_UPGRADEABLE_ID
    ||| program.owner == BPF_LOADER_ID
    ||| program.owner == BPF_LOADER_DEPRECATED_ID
    ||| program.owner == LOADER_V4_ID
}

/// An upgradeable program whose code is at an address: its data starts with the number
/// two in four bytes, and the address follows.
pub open spec fn has_code_at(program: AccountModel, address: Pubkey) -> bool {
    &&& program.owner == BPF_LOADER_UPGRADEABLE_ID
    &&& program.data.len() >= 36
    &&& program.data[0] == 2
    &&& program.data[1] == 0
    &&& program.data[2] == 0
    &&& program.data[3] == 0
    &&& program.data.subrange(4, 36) == address@
}

/// A program is found as layer one has it, with its code if it is upgradeable and the
/// code is there.
pub proof fn programs_are_found_with_their_code(
    l1: SnapshotModel,
    program: Pubkey,
    address: Pubkey,
)
    ensures
        program_on(l1, program) is Some <==> l1.accounts.contains_key(program),
        program_on(l1, program) matches Some(found) ==> {
            &&& found.account == l1.accounts[program]
            &&& has_code_at(found.account, address) && l1.accounts.contains_key(address)
                ==> found.programdata == Some((address, l1.accounts[address]))
            &&& has_code_at(found.account, address) && !l1.accounts.contains_key(address)
                ==> found.programdata is None
            &&& found.account.owner != BPF_LOADER_UPGRADEABLE_ID ==> found.programdata is None
            &&& found.programdata matches Some((at, code)) ==> has_code_at(found.account, at)
                && l1.accounts.contains_key(at) && code == l1.accounts[at]
        },
{
    if let Some(found) = program_on(l1, program) {
        let data = found.account.data;
        if has_code_at(found.account, address) {
            let at = crate::runtime::programs::programdata_in(data);
            assert(at@ == data.subrange(4, 36));
            assert(at =~= address);
        }
        if found.programdata is Some {
            let bytes = data.subrange(4, 36);
            let at = crate::runtime::programs::programdata_in(data);
            lemma_address_exists(bytes);
            assert(at@ == bytes);
        }
    }
}

/// Every 32 bytes are an address.
pub proof fn lemma_address_exists(bytes: Seq<u8>)
    requires
        bytes.len() == 32,
    ensures
        exists|address: Pubkey| address@ == bytes,
{
    let b = bytes;
    let address: Pubkey = [
        b[0], b[1], b[2], b[3], b[4], b[5], b[6], b[7],
        b[8], b[9], b[10], b[11], b[12], b[13], b[14], b[15],
        b[16], b[17], b[18], b[19], b[20], b[21], b[22], b[23],
        b[24], b[25], b[26], b[27], b[28], b[29], b[30], b[31],
    ];
    assert(address@ =~= bytes);
}

/// A new delegation stores the account last, under its owner program. If layer one is
/// given and has that program, the program and its code are stored first, and the
/// program is loaded anew if a loader loads it. Nothing else is done to the bank.
pub proof fn delegations_store_the_account_and_its_program(
    key: Pubkey,
    account: AccountModel,
    owner_program: Option<Pubkey>,
    l1: Option<SnapshotModel>,
)
    ensures
        ({
            let update = delegation_update(key, account, owner_program, l1);
            let n = update.writes.len();
            let owner = owner_program->0;
            let found = owner_program is Some && l1 is Some && (l1->0).accounts.contains_key(owner);
            let program = program_on(l1->0, owner)->0;
            &&& n >= 1
            &&& update.writes[n - 1].0 == key
            &&& update.writes[n - 1].1 == (AccountModel {
                owner: if owner_program is Some {
                    owner
                } else {
                    account.owner
                },
                ..account
            })
            &&& !found ==> n == 1 && update.reload_programs.len() == 0
            &&& found ==> {
                &&& update.writes[0] == (owner, (l1->0).accounts[owner])
                &&& program.programdata is None ==> n == 2
                &&& program.programdata matches Some((at, code)) ==> n == 3 && update.writes[1] == (
                    at,
                    code,
                )
                &&& is_loaded((l1->0).accounts[owner]) ==> update.reload_programs =~= seq![owner]
                &&& !is_loaded((l1->0).accounts[owner]) ==> update.reload_programs.len() == 0
            }
        }),
{
}

/// The bank has the account just so.
pub open spec fn is_in_bank(
    bank: Map<Pubkey, AccountModel>,
    key: Pubkey,
    account: AccountModel,
) -> bool {
    bank.contains_key(key) && bank[key] == account
}

/// A program has to be brought up to date if and only if layer one has it, with its code
/// if it is upgradeable, and the bank has another program or other code.
pub proof fn stale_programs_are_those_that_differ(
    l1: SnapshotModel,
    bank: Map<Pubkey, AccountModel>,
    program: Pubkey,
    address: Pubkey,
)
    ensures
        !l1.accounts.contains_key(program) ==> stale(l1, bank, program) is None,
        l1.accounts.contains_key(program) && l1.accounts[program].owner
            != BPF_LOADER_UPGRADEABLE_ID ==> (stale(l1, bank, program) is Some <==> !is_in_bank(
            bank,
            program,
            l1.accounts[program],
        )),
        l1.accounts.contains_key(program) && has_code_at(l1.accounts[program], address) ==> (stale(
            l1,
            bank,
            program,
        ) is Some <==> l1.accounts.contains_key(address) && (!is_in_bank(
            bank,
            program,
            l1.accounts[program],
        ) || !is_in_bank(bank, address, l1.accounts[address]))),
        stale(l1, bank, program) is Some ==> stale(l1, bank, program) == program_on(l1, program),
{
    programs_are_found_with_their_code(l1, program, address);
    if l1.accounts.contains_key(program) && has_code_at(l1.accounts[program], address) {
        let at = crate::runtime::programs::programdata_in(l1.accounts[program].data);
        assert(at@ == l1.accounts[program].data.subrange(4, 36));
        assert(at =~= address);
    }
}

/// The update stores the program and its code, and loads the program anew if a loader
/// loads it.
pub open spec fn brings_program(
    update: UpdateModel,
    program: Pubkey,
    found: ProgramModel,
) -> bool {
    &&& update.writes.contains((program, found.account))
    &&& found.programdata matches Some((at, code)) ==> update.writes.contains((at, code))
    &&& is_loaded(found.account) ==> update.reload_programs.contains(program)
}

spec fn extends(before: UpdateModel, after: UpdateModel) -> bool {
    &&& before.writes.len() <= after.writes.len()
    &&& after.writes.take(before.writes.len() as int) == before.writes
    &&& before.reload_programs.len() <= after.reload_programs.len()
    &&& after.reload_programs.take(before.reload_programs.len() as int) == before.reload_programs
}

proof fn lemma_added_program(before: UpdateModel, program: Pubkey, found: ProgramModel)
    ensures
        ({
            let after = with_reload(with_program(before, program, found), program, found.account);
            &&& brings_program(after, program, found)
            &&& extends(before, after)
        }),
{
    let after = with_reload(with_program(before, program, found), program, found.account);
    let n = before.writes.len() as int;
    assert(after.writes[n] == (program, found.account));
    if let Some((at, code)) = found.programdata {
        assert(after.writes[n + 1] == (at, code));
    }
    if is_loaded(found.account) {
        assert(after.reload_programs[before.reload_programs.len() as int] == program);
    }
    assert(after.writes.take(n) =~= before.writes);
    assert(after.reload_programs.take(before.reload_programs.len() as int)
        =~= before.reload_programs);
}

proof fn lemma_added_write(
    before: UpdateModel,
    program: Pubkey,
    found: ProgramModel,
    write: (Pubkey, AccountModel),
)
    requires
        with_reload(
            with_program(before, program, found),
            program,
            found.account,
        ).writes.contains(write),
    ensures
        before.writes.contains(write) || is_write_of(write, program, found),
{
    let after = with_reload(with_program(before, program, found), program, found.account);
    let i = choose|i: int| 0 <= i < after.writes.len() && after.writes[i] == write;
    if i < before.writes.len() {
        assert(before.writes[i] == write);
    }
}

proof fn lemma_still_brings(
    before: UpdateModel,
    after: UpdateModel,
    program: Pubkey,
    found: ProgramModel,
)
    requires
        brings_program(before, program, found),
        extends(before, after),
    ensures
        brings_program(after, program, found),
{
    lemma_still_written(before, after, (program, found.account));
    if let Some(code) = found.programdata {
        lemma_still_written(before, after, code);
    }
    if is_loaded(found.account) {
        let k = choose|k: int|
            0 <= k < before.reload_programs.len() && before.reload_programs[k] == program;
        assert(after.reload_programs.take(before.reload_programs.len() as int)[k] == program);
        assert(after.reload_programs[k] == program);
    }
}

proof fn lemma_still_written(
    before: UpdateModel,
    after: UpdateModel,
    write: (Pubkey, AccountModel),
)
    requires
        before.writes.contains(write),
        extends(before, after),
    ensures
        after.writes.contains(write),
{
    let i = choose|i: int| 0 <= i < before.writes.len() && before.writes[i] == write;
    assert(after.writes.take(before.writes.len() as int)[i] == write);
    assert(after.writes[i] == write);
}

/// The write is that of a program that has to be brought up to date, or of its code.
pub open spec fn is_write_of(
    write: (Pubkey, AccountModel),
    program: Pubkey,
    found: ProgramModel,
) -> bool {
    write == (program, found.account) || found.programdata == Some(write)
}

proof fn lemma_refresh_brings(
    l1: SnapshotModel,
    bank: Map<Pubkey, AccountModel>,
    programs: Seq<Pubkey>,
    n: nat,
    i: int,
)
    requires
        0 <= i < n <= programs.len(),
        stale(l1, bank, programs[i]) is Some,
    ensures
        brings_program(
            refresh_update(l1, bank, programs, n),
            programs[i],
            stale(l1, bank, programs[i])->0,
        ),
        refreshed(l1, bank, programs, n) > 0,
    decreases n,
{
    let before = refresh_update(l1, bank, programs, (n - 1) as nat);
    let last = programs[n - 1];
    if let Some(found) = stale(l1, bank, last) {
        lemma_added_program(before, last, found);
    }
    if i < n - 1 {
        lemma_refresh_brings(l1, bank, programs, (n - 1) as nat, i);
        if stale(l1, bank, last) is Some {
            lemma_still_brings(
                before,
                refresh_update(l1, bank, programs, n),
                programs[i],
                stale(l1, bank, programs[i])->0,
            );
        }
    }
}

proof fn lemma_refresh_source(
    l1: SnapshotModel,
    bank: Map<Pubkey, AccountModel>,
    programs: Seq<Pubkey>,
    n: nat,
    write: (Pubkey, AccountModel),
) -> (i: int)
    requires
        n <= programs.len(),
        refresh_update(l1, bank, programs, n).writes.contains(write),
    ensures
        0 <= i < n,
        stale(l1, bank, programs[i]) is Some,
        is_write_of(write, programs[i], stale(l1, bank, programs[i])->0),
        refreshed(l1, bank, programs, n) > 0,
    decreases n,
{
    if n == 0 {
        0
    } else {
        let before = refresh_update(l1, bank, programs, (n - 1) as nat);
        let last = programs[n - 1];
        if let Some(found) = stale(l1, bank, last) {
            lemma_added_write(before, last, found, write);
        }
        if before.writes.contains(write) {
            lemma_refresh_source(l1, bank, programs, (n - 1) as nat, write)
        } else {
            n - 1
        }
    }
}

/// Bringing programs up to date stores every program that owns a delegated account and
/// has to be brought up to date, with its code, and loads it anew if a loader loads it.
/// It stores no other account. It counts as a change if and only if some program had to
/// be brought up to date.
pub proof fn refreshes_bring_stale_programs(
    runtime: RuntimeModel,
    l1: SnapshotModel,
    bank: Map<Pubkey, AccountModel>,
    key: Pubkey,
    owner: Pubkey,
)
    requires
        owners_on(runtime, l1).finite(),
    ensures
        ({
            let programs = ordered(owners_on(runtime, l1));
            let update = refresh_update(l1, bank, programs, programs.len());
            let portal = runtime.portal_program_id;
            &&& runtime.delegated.contains(key) && delegated_owner(
                l1,
                portal,
                runtime.grid_id,
                key,
            ) == Some(owner) ==> (stale(l1, bank, owner) matches Some(found) ==> {
                &&& brings_program(update, owner, found)
                &&& refreshed(l1, bank, programs, programs.len()) > 0
            })
            &&& forall|w: (Pubkey, AccountModel)| #[trigger]
                update.writes.contains(w) ==> exists|p: Pubkey|
                    #[trigger] owners_on(runtime, l1).contains(p) && (stale(
                        l1,
                        bank,
                        p,
                    ) matches Some(found) && is_write_of(w, p, found))
            &&& refreshed(l1, bank, programs, programs.len()) == 0 ==> update.writes.len() == 0
        }),
{
    let programs = ordered(owners_on(runtime, l1));
    let update = refresh_update(l1, bank, programs, programs.len());
    lemma_order_exists(owners_on(runtime, l1));
    if runtime.delegated.contains(key) && delegated_owner(
        l1,
        runtime.portal_program_id,
        runtime.grid_id,
        key,
    ) == Some(owner) {
        assert(owners_on(runtime, l1).contains(owner));
        assert(programs.to_set().contains(owner));
        let i = choose|i: int| 0 <= i < programs.len() && programs[i] == owner;
        if stale(l1, bank, owner) is Some {
            lemma_refresh_brings(l1, bank, programs, programs.len(), i);
        }
    }
    assert forall|w: (Pubkey, AccountModel)| #[trigger]
        update.writes.contains(w) implies exists|p: Pubkey|
        #[trigger] owners_on(runtime, l1).contains(p) && (stale(l1, bank, p) matches Some(found)
            && is_write_of(w, p, found)) by {
        let i = lemma_refresh_source(l1, bank, programs, programs.len(), w);
        assert(programs.to_set().contains(programs[i]));
        assert(owners_on(runtime, l1).contains(programs[i]));
    }
    if update.writes.len() > 0 {
        assert(update.writes.contains(update.writes[0]));
        let _ = lemma_refresh_source(l1, bank, programs, programs.len(), update.writes[0]);
    }
}

/// Anchoring anew changes the anchor and the slot, and nothing else that the rollup
/// holds. Exactly what the rollup has written is stored in the new bank, each account
/// once.
pub proof fn new_anchors_change_nothing_else(
    runtime: RuntimeModel,
    anchor_slot: u64,
    l1: SnapshotModel,
    key: Pubkey,
    account: AccountModel,
)
    requires
        runtime.overlay.dom().finite(),
    ensures
        ({
            let after = anchored_model(runtime, anchor_slot, l1);
            &&& after.anchor == l1
            &&& after.anchor_slot == anchor_slot
            &&& after.advancing
            &&& after.overlay == runtime.overlay
            &&& after.delegated == runtime.delegated
            &&& after.touched == runtime.touched
            &&& after.snapshots == runtime.snapshots
            &&& after.session == runtime.session
            &&& after.active == runtime.active
            &&& after.grid_id == runtime.grid_id
            &&& 1_099_511_627_776 <= runtime.working_slot < u64::MAX ==> after.working_slot
                == runtime.working_slot + 1
        }),
        overlay_update(runtime).writes.contains((key, account)) <==> runtime.overlay.contains_key(
            key,
        ) && runtime.overlay[key] == account,
        overlay_update(runtime).writes.len() == runtime.overlay.dom().len(),
        overlay_update(runtime).reload_programs.len() == 0,
{
    let keys = ordered(runtime.overlay.dom());
    let writes = overlay_update(runtime).writes;
    lemma_order_exists(runtime.overlay.dom());
    if runtime.overlay.contains_key(key) && runtime.overlay[key] == account {
        assert(keys.to_set().contains(key));
        let i = choose|i: int| 0 <= i < keys.len() && keys[i] == key;
        assert(writes[i] == (key, account));
    }
    if writes.contains((key, account)) {
        let i = choose|i: int| 0 <= i < writes.len() && writes[i] == (key, account);
        assert(keys.to_set().contains(keys[i]));
        assert(runtime.overlay.dom().contains(key));
    }
    assert(keys.no_duplicates()) by {
        assert forall|i: int, j: int| 0 <= i < j < keys.len() implies keys[i] != keys[j] by {
            crate::order::lex_order_is_total(keys[i], keys[j]);
        }
    }
    keys.unique_seq_to_set();
}

proof fn lemma_listed_writes(
    l1: SnapshotModel,
    portal: Pubkey,
    grid_id: u64,
    accounts: Seq<Pubkey>,
    n: nat,
    w: (Pubkey, AccountModel),
)
    requires
        n <= accounts.len(),
    ensures
        listed_writes(l1, portal, grid_id, accounts, n).reload_programs.len() == 0,
        listed_writes(l1, portal, grid_id, accounts, n).writes.contains(w) <==> taken_over(
            l1,
            portal,
            grid_id,
            w.0,
        ) == Some(w.1) && accounts.take(n as int).contains(w.0),
    decreases n,
{
    let update = listed_writes(l1, portal, grid_id, accounts, n);
    let taken = accounts.take(n as int);
    if n > 0 {
        let m = (n - 1) as nat;
        lemma_listed_writes(l1, portal, grid_id, accounts, m, w);
        let before = listed_writes(l1, portal, grid_id, accounts, m);
        let earlier = accounts.take(m as int);
        if update.writes.contains(w) {
            let a = choose|a: int| 0 <= a < update.writes.len() && update.writes[a] == w;
            if a < before.writes.len() {
                assert(before.writes[a] == w);
                let i = choose|i: int| 0 <= i < earlier.len() && earlier[i] == w.0;
                assert(taken[i] == w.0);
            } else {
                assert(taken[n - 1] == w.0);
            }
        }
        if taken.contains(w.0) && taken_over(l1, portal, grid_id, w.0) == Some(w.1) {
            let i = choose|i: int| 0 <= i < taken.len() && taken[i] == w.0;
            if i == n - 1 {
                assert(update.writes[before.writes.len() as int] == w);
            } else {
                assert(earlier[i] == w.0);
                let a = choose|a: int| 0 <= a < before.writes.len() && before.writes[a] == w;
                assert(update.writes[a] == w);
            }
        }
    }
}

/// A new rollup's bank is given exactly the listed accounts that are taken over, as the
/// rollup holds them.
pub proof fn new_banks_are_given_delegated_accounts(
    anchor_slot: u64,
    l1: SnapshotModel,
    settings: EphemeralRollupSettings,
    portal: Pubkey,
    key: Pubkey,
    account: AccountModel,
)
    ensures
        ({
            let accounts = settings.delegated_accounts@;
            let update = listed_writes(l1, portal, settings.grid_id, accounts, accounts.len());
            let rollup = new_model(anchor_slot, l1, settings, portal);
            &&& update.reload_programs.len() == 0
            &&& update.writes.contains((key, account)) <==> rollup.delegated.contains(key)
                && rollup.overlay[key] == account
        }),
{
    let accounts = settings.delegated_accounts@;
    lemma_listed_writes(
        l1,
        portal,
        settings.grid_id,
        accounts,
        accounts.len(),
        (key, account),
    );
    assert(accounts.take(accounts.len() as int) =~= accounts);
}

proof fn lemma_owner_known(
    l1: SnapshotModel,
    portal: Pubkey,
    grid_id: u64,
    n: nat,
    owner: Pubkey,
) -> (i: int)
    requires
        n <= l1.keys.len(),
        owner_programs(l1, portal, grid_id, n).contains(owner),
    ensures
        0 <= i < n,
        taken_over(l1, portal, grid_id, l1.keys[i]) is Some,
        (taken_over(l1, portal, grid_id, l1.keys[i])->0).owner == owner,
    decreases n,
{
    if n == 0 {
        0
    } else if owner_programs(l1, portal, grid_id, (n - 1) as nat).contains(owner) {
        lemma_owner_known(l1, portal, grid_id, (n - 1) as nat, owner)
    } else {
        n - 1
    }
}

proof fn lemma_reset_extends(l1: SnapshotModel, portal: Pubkey, grid_id: u64, n: nat)
    requires
        0 < n <= l1.keys.len(),
    ensures
        extends(
            reset_update(l1, portal, grid_id, (n - 1) as nat),
            reset_update(l1, portal, grid_id, n),
        ),
{
    let before = reset_update(l1, portal, grid_id, (n - 1) as nat);
    let update = reset_update(l1, portal, grid_id, n);
    if let Some(account) = taken_over(l1, portal, grid_id, l1.keys[n - 1]) {
        let stored = before.and_write(l1.keys[n - 1], account);
        assert(stored.writes.take(before.writes.len() as int) =~= before.writes);
        if let Some(found) = program_on(l1, account.owner) {
            lemma_added_program(stored, account.owner, found);
        }
    }
    assert(update.writes.take(before.writes.len() as int) =~= before.writes);
    assert(update.reload_programs.take(before.reload_programs.len() as int)
        =~= before.reload_programs);
}

proof fn lemma_reset_brings(l1: SnapshotModel, portal: Pubkey, grid_id: u64, n: nat, i: int)
    requires
        0 <= i < n <= l1.keys.len(),
        taken_over(l1, portal, grid_id, l1.keys[i]) is Some,
    ensures
        ({
            let account = taken_over(l1, portal, grid_id, l1.keys[i])->0;
            let update = reset_update(l1, portal, grid_id, n);
            &&& update.writes.contains((l1.keys[i], account))
            &&& program_on(l1, account.owner) matches Some(found) ==> brings_program(
                update,
                account.owner,
                found,
            )
        }),
    decreases n,
{
    let m = (n - 1) as nat;
    let before = reset_update(l1, portal, grid_id, m);
    let update = reset_update(l1, portal, grid_id, n);
    let account = taken_over(l1, portal, grid_id, l1.keys[i])->0;
    let program = program_on(l1, account.owner);
    lemma_reset_extends(l1, portal, grid_id, n);
    if i < m {
        lemma_reset_brings(l1, portal, grid_id, m, i);
        lemma_still_written(before, update, (l1.keys[i], account));
        if let Some(found) = program {
            lemma_still_brings(before, update, account.owner, found);
        }
    } else {
        let stored = before.and_write(l1.keys[i], account);
        assert(stored.writes[before.writes.len() as int] == (l1.keys[i], account));
        assert(update.writes[before.writes.len() as int] == (l1.keys[i], account));
        if let Some(found) = program {
            if owner_programs(l1, portal, grid_id, m).contains(account.owner) {
                let j = lemma_owner_known(l1, portal, grid_id, m, account.owner);
                lemma_reset_brings(l1, portal, grid_id, m, j);
                lemma_still_brings(before, update, account.owner, found);
            } else {
                lemma_added_program(stored, account.owner, found);
            }
        }
    }
}

proof fn lemma_reset_source(
    l1: SnapshotModel,
    portal: Pubkey,
    grid_id: u64,
    n: nat,
    write: (Pubkey, AccountModel),
) -> (i: int)
    requires
        n <= l1.keys.len(),
        reset_update(l1, portal, grid_id, n).writes.contains(write),
    ensures
        0 <= i < n,
        taken_over(l1, portal, grid_id, l1.keys[i]) is Some,
        ({
            let account = taken_over(l1, portal, grid_id, l1.keys[i])->0;
            write == (l1.keys[i], account) || (program_on(l1, account.owner) matches Some(found)
                && is_write_of(write, account.owner, found))
        }),
    decreases n,
{
    if n == 0 {
        0
    } else {
        let m = (n - 1) as nat;
        let before = reset_update(l1, portal, grid_id, m);
        let update = reset_update(l1, portal, grid_id, n);
        let key = l1.keys[n - 1];
        if let Some(account) = taken_over(l1, portal, grid_id, key) {
            let stored = before.and_write(key, account);
            if let Some(found) = program_on(l1, account.owner) {
                if !owner_programs(l1, portal, grid_id, m).contains(account.owner) {
                    lemma_added_write(stored, account.owner, found, write);
                }
            }
            if stored.writes.contains(write) {
                let a = choose|a: int| 0 <= a < stored.writes.len() && stored.writes[a] == write;
                if a < before.writes.len() {
                    assert(before.writes[a] == write);
                }
            }
        }
        if before.writes.contains(write) {
            lemma_reset_source(l1, portal, grid_id, m, write)
        } else {
            n - 1
        }
    }
}

/// A reset stores every account that is taken over, and the program that owns it with
/// the program's code, as layer one has them; a program is loaded anew if a loader loads
/// it. No other account is stored.
pub proof fn resets_store_accounts_and_programs(
    l1: SnapshotModel,
    portal: Pubkey,
    grid_id: u64,
    i: int,
    write: (Pubkey, AccountModel),
)
    ensures
        ({
            let update = reset_update(l1, portal, grid_id, l1.keys.len());
            &&& 0 <= i < l1.keys.len() ==> (taken_over(l1, portal, grid_id, l1.keys[i]) matches Some(
                account,
            ) ==> {
                &&& update.writes.contains((l1.keys[i], account))
                &&& program_on(l1, account.owner) matches Some(found) ==> brings_program(
                    update,
                    account.owner,
                    found,
                )
            })
            &&& update.writes.contains(write) ==> exists|j: int|
                0 <= j < l1.keys.len() && (taken_over(
                    l1,
                    portal,
                    grid_id,
                    #[trigger] l1.keys[j],
                ) matches Some(account) && (write == (l1.keys[j], account) || (program_on(
                    l1,
                    account.owner,
                ) matches Some(found) && is_write_of(write, account.owner, found))))
        }),
{
    let n = l1.keys.len();
    if 0 <= i < n && taken_over(l1, portal, grid_id, l1.keys[i]) is Some {
        lemma_reset_brings(l1, portal, grid_id, n, i);
    }
    if reset_update(l1, portal, grid_id, n).writes.contains(write) {
        let j = lemma_reset_source(l1, portal, grid_id, n, write);
        assert(taken_over(l1, portal, grid_id, l1.keys[j]) is Some);
    }
}

} // verus!
