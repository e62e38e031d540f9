use std::collections::BTreeMap;

use northstar::accounts::{Account, Pubkey};
use northstar::addresses::{find_delegation_record_pda, find_deposit_receipt_pda};
use northstar::keyed::KeyMap;
use northstar::ledger::Snapshot;
use northstar::portal_state::{DelegationRecord, DepositReceipt, PortalAccount};
use northstar::rent::deposit_receipt_escrow_lamports;
use northstar::runtime::deposits::WithdrawalSink;
use northstar::runtime::slots::{
    er_slot_after_reanchor, er_slot_after_reset, er_slot_for, ER_SLOT_OFFSET,
};
use northstar::runtime::{
    Anchor, BankUpdate, EphemeralRollupSettings, EphemeralRuntime, FeeStructure,
};
use northstar::state_diff::{ErStateDiff, LtHash};
use northstar::timing::{
    er_recent_blockhash_max_age_for_slot_duration, er_transaction_max_age_for_slot_duration,
    scale_l1_slot_age_for_er, DEFAULT_ER_SLOT_DURATION_MS, DEFAULT_ER_TRANSACTION_MAX_AGE,
    DEFAULT_MS_PER_SLOT, MAX_PROCESSING_AGE, MAX_RECENT_BLOCKHASHES,
};
use northstar::well_known::{
    BPF_LOADER_DEPRECATED_ID, BPF_LOADER_ID, BPF_LOADER_UPGRADEABLE_ID, CLOCK_SYSVAR_ID,
    LOADER_V4_ID, SYSTEM_PROGRAM_ID, SYSVAR_PROGRAM_ID,
};
use northstar::withdrawal::er_withdrawal_instruction;
use solana_accounts_db::accounts_db::AccountsDb;
use solana_loader_v3_interface::state::UpgradeableLoaderState;

const PORTAL: Pubkey = [90; 32];

const SESSION: Pubkey = [91; 32];

const SINK: Pubkey = [92; 32];

/// A bank: what it has from its parent, and what was stored in it.
#[derive(Clone)]
struct Bank {
    slot: u64,
    accounts: BTreeMap<Pubkey, Account>,
    portal: BTreeMap<Pubkey, PortalAccount>,
}

impl Bank {
    fn new() -> Bank {
        Bank {
            slot: 0,
            accounts: BTreeMap::new(),
            portal: BTreeMap::new(),
        }
    }

    fn child(&self, slot: u64) -> Bank {
        Bank {
            slot,
            ..self.clone()
        }
    }

    fn store(&mut self, key: Pubkey, account: Account) {
        self.accounts.insert(key, account);
    }

    fn fund(&mut self, key: Pubkey, lamports: u64) {
        self.store(key, account(lamports, &[], SYSTEM_PROGRAM_ID));
    }

    fn apply(&mut self, update: &BankUpdate) {
        for write in &update.writes {
            self.store(write.pubkey, write.account.clone());
        }
    }

    fn balance(&self, key: &Pubkey) -> u64 {
        self.accounts.get(key).map_or(0, |account| account.lamports)
    }

    fn snapshot(&self) -> Snapshot {
        let mut snapshot = Snapshot::new();
        for (key, account) in &self.accounts {
            snapshot.accounts.insert(*key, account.clone());
        }
        for (key, portal) in &self.portal {
            snapshot.portal.insert(*key, *portal);
        }
        snapshot
    }

    fn anchor(&self) -> Anchor {
        Anchor {
            slot: self.slot,
            snapshot: self.snapshot(),
        }
    }

    fn store_delegation_record(&mut self, key: &Pubkey, owner_program: Pubkey, grid_id: u64) {
        let record = find_delegation_record_pda(&PORTAL, key).unwrap();
        self.store(record, account(1_000_000, &[1], PORTAL));
        self.portal.insert(
            record,
            PortalAccount::DelegationRecord(DelegationRecord {
                valid: true,
                owner_program,
                grid_id,
            }),
        );
    }

    fn store_deposit_receipt(&mut self, recipient: Pubkey, balance: u64, withdrawn: u64) {
        let receipt = find_deposit_receipt_pda(&PORTAL, &SESSION, &recipient).unwrap();
        self.store(receipt, account(5_000_000 + balance, &[2], PORTAL));
        self.portal.insert(
            receipt,
            PortalAccount::DepositReceipt(DepositReceipt {
                session: SESSION,
                recipient,
                balance,
                withdrawn,
            }),
        );
    }

    fn store_upgradeable_owner_program(
        &mut self,
        owner_program: Pubkey,
        programdata_address: Pubkey,
        deployment_slot: u64,
        program_bytes: &[u8],
    ) {
        let program = UpgradeableLoaderState::Program {
            programdata_address: programdata_address.into(),
        };
        let mut data = bincode::serialize(&program).unwrap();
        data.resize(UpgradeableLoaderState::size_of_program(), 0);
        let mut stored = account(1_000_000, &data, BPF_LOADER_UPGRADEABLE_ID);
        stored.executable = true;
        self.store(owner_program, stored);

        let programdata = UpgradeableLoaderState::ProgramData {
            slot: deployment_slot,
            upgrade_authority_address: None,
        };
        let mut data = bincode::serialize(&programdata).unwrap();
        data.resize(UpgradeableLoaderState::size_of_programdata_metadata(), 0);
        data.extend_from_slice(program_bytes);
        self.store(
            programdata_address,
            account(1_000_000, &data, BPF_LOADER_UPGRADEABLE_ID),
        );
    }
}

fn account(lamports: u64, data: &[u8], owner: Pubkey) -> Account {
    Account {
        lamports,
        data: data.to_vec(),
        owner,
        executable: false,
        rent_epoch: 0,
    }
}

fn settings(grid_id: u64, delegated_accounts: Vec<Pubkey>) -> EphemeralRollupSettings {
    EphemeralRollupSettings {
        session_pda: SESSION,
        grid_id,
        ttl_slots: 100,
        er_fee_structure: EphemeralRollupSettings::zero_fee_structure(),
        fee_cap: 1000,
        delegated_accounts,
    }
}

/// A rollup and its bank on a layer-one bank.
fn rollup_on(l1: &Bank, grid_id: u64, delegated: Vec<Pubkey>) -> (EphemeralRuntime, Bank) {
    let (runtime, update) = EphemeralRuntime::new(l1.anchor(), &settings(grid_id, delegated), PORTAL);
    let mut bank = l1.clone();
    bank.apply(&update);
    (runtime, bank)
}

fn deposit(runtime: &mut EphemeralRuntime, bank: &mut Bank, depositor: Pubkey, lamports: u64) {
    let sink = WithdrawalSink {
        address: SINK,
        exists: bank.accounts.contains_key(&SINK),
    };
    let update = runtime.credit_deposit(
        &depositor,
        lamports,
        bank.accounts.get(&depositor),
        &sink,
    );
    bank.apply(&update);
}

/// Anchors a rollup to another layer-one bank, which becomes the base of its own.
fn reanchor(runtime: &mut EphemeralRuntime, l1: &Bank) -> Bank {
    let update = runtime.reanchor_to_l1_parent(l1.anchor());
    let mut bank = l1.clone();
    bank.apply(&update);
    let mut stored = KeyMap::new();
    for (key, account) in &bank.accounts {
        stored.insert(*key, account.clone());
    }
    let (hydrated, _) = runtime.hydrate_delegated_owner_programs_from_l1(&l1.snapshot(), &stored);
    bank.apply(&hydrated);
    bank
}

fn no_sinks() -> KeyMap<Pubkey, 32> {
    KeyMap::new()
}

fn rollup_with_delegated_account(lamports: u64) -> (Pubkey, EphemeralRuntime, Bank) {
    let delegated = [1; 32];
    let mut l1 = Bank::new();
    l1.store(delegated, account(lamports, &[1, 2, 3, 4], PORTAL));
    l1.store_delegation_record(&delegated, SYSTEM_PROGRAM_ID, 0);
    let (runtime, bank) = rollup_on(&l1, 0, vec![delegated]);
    (delegated, runtime, bank)
}

fn crate_hash(key: &Pubkey, account: &Account) -> solana_lattice_hash::lt_hash::LtHash {
    let stored = solana_account::Account {
        lamports: account.lamports,
        data: account.data.clone(),
        owner: account.owner.into(),
        executable: account.executable,
        rent_epoch: account.rent_epoch,
    };
    AccountsDb::lt_hash_account(&stored, &(*key).into()).0
}

#[test]
fn test_state_diff_from_l1_ignores_unchanged_delegated_account() {
    let (delegated_account, runtime, _) = rollup_with_delegated_account(10);

    let diff = runtime.state_diff_from_l1();

    assert!(runtime.delegated_accounts().contains(&delegated_account));
    assert!(diff.accounts.is_empty());
    assert_eq!(diff.lt_hash, LtHash::identity());
}

#[test]
fn test_state_diff_from_l1_hashes_delegated_account_delta() {
    let (delegated_account, mut runtime, mut bank) = rollup_with_delegated_account(10);

    deposit(&mut runtime, &mut bank, delegated_account, 5);
    let diff = runtime.state_diff_from_l1();

    assert_eq!(diff.accounts.len(), 1);
    let account_diff = &diff.accounts[0];
    assert_eq!(account_diff.pubkey, delegated_account);
    assert_eq!(account_diff.l1_account.as_ref().unwrap().lamports, 10);
    assert_eq!(
        account_diff.l1_account.as_ref().unwrap().owner,
        SYSTEM_PROGRAM_ID
    );
    assert_eq!(account_diff.er_account.lamports, 15);

    let mut expected_lt_hash = solana_lattice_hash::lt_hash::LtHash::identity();
    expected_lt_hash.mix_out(&crate_hash(
        &delegated_account,
        account_diff.l1_account.as_ref().unwrap(),
    ));
    expected_lt_hash.mix_in(&crate_hash(&delegated_account, &account_diff.er_account));
    assert_eq!(diff.lt_hash.elements, expected_lt_hash.0);
    assert_eq!(diff.checksum(), expected_lt_hash.checksum().0);
    assert_ne!(
        diff.checksum(),
        solana_lattice_hash::lt_hash::LtHash::identity().checksum().0
    );
}

#[test]
fn test_state_diff_from_l1_hashes_new_er_account() {
    let (mut runtime, mut bank) = rollup_on(&Bank::new(), 0, vec![]);
    let depositor = [3; 32];

    deposit(&mut runtime, &mut bank, depositor, 7);
    let diff = runtime.state_diff_from_l1();

    assert_eq!(diff.accounts.len(), 1);
    let account_diff = &diff.accounts[0];
    assert_eq!(account_diff.pubkey, depositor);
    assert!(account_diff.l1_account.is_none());
    assert_eq!(account_diff.l1_lt_hash, LtHash::identity());
    assert_eq!(account_diff.er_account.lamports, 7);
}

#[test]
fn test_er_withdrawal_transaction_settles_via_withdrawal_sink() {
    let recipient = [3; 32];
    let deposit_amount = 1_000u64;
    let withdraw_amount = 250u64;
    let rent = solana_rent::Rent::default().minimum_balance(0);
    let mut l1 = Bank::new();
    l1.store_deposit_receipt(recipient, deposit_amount, 0);
    l1.fund(SINK, rent);
    let (mut runtime, mut bank) = rollup_on(&l1, 0, vec![]);
    runtime.activate();
    deposit(&mut runtime, &mut bank, recipient, deposit_amount);

    let withdrawal =
        er_withdrawal_instruction(&PORTAL, &recipient, &recipient, &SINK, withdraw_amount);
    assert_eq!(withdrawal.accounts[0].pubkey, recipient);
    assert_eq!(withdrawal.accounts[2].pubkey, SINK);
    let mut source = bank.accounts[&recipient].clone();
    source.lamports -= withdraw_amount;
    let mut sink = bank.accounts[&SINK].clone();
    sink.lamports += withdraw_amount;
    runtime.er_account_overlay.insert(recipient, source);
    runtime.er_account_overlay.insert(SINK, sink);

    let mut sinks = no_sinks();
    sinks.insert(recipient, SINK);
    let receipt_balances = runtime.settlement_receipt_balances(&SESSION, &sinks);
    assert_eq!(receipt_balances.len(), 1);
    assert_eq!(receipt_balances[0].recipient, recipient);
    assert_eq!(
        receipt_balances[0].balance,
        deposit_amount - withdraw_amount
    );
    assert_eq!(receipt_balances[0].withdrawn, withdraw_amount);
}

#[test]
fn zero_fee_structures_charge_nothing() {
    assert_eq!(
        EphemeralRollupSettings::zero_fee_structure(),
        FeeStructure {
            lamports_per_signature: 0,
            lamports_per_write_lock: 0,
            compute_fee_bins: vec![],
        }
    );
}

#[test]
fn test_reanchor_picks_up_fresh_l1_readonly_state() {
    let readonly_account = [4; 32];
    let mut l1 = Bank::new();
    l1.fund(readonly_account, 1_000_000);
    let (mut runtime, _) = rollup_on(&l1, 0, vec![]);
    runtime.activate();

    let mut new_parent = l1.child(1);
    new_parent.fund(readonly_account, 2_000_000);
    let bank = reanchor(&mut runtime, &new_parent);

    assert_eq!(bank.balance(&readonly_account), 2_000_000);
}

#[test]
fn test_reanchor_preserves_er_touched_overlay() {
    let depositor = [3; 32];
    let mut l1 = Bank::new();
    l1.fund(depositor, 1_000_000);
    let (mut runtime, mut bank) = rollup_on(&l1, 0, vec![]);
    runtime.activate();
    deposit(&mut runtime, &mut bank, depositor, 50_000);
    assert_eq!(bank.balance(&depositor), 50_000);

    let mut new_parent = l1.child(1);
    new_parent.fund(depositor, 9_000_000);
    let bank = reanchor(&mut runtime, &new_parent);

    assert_eq!(bank.balance(&depositor), 50_000);
}

#[test]
fn test_reanchor_preserves_delegated_overlay_owner_remap() {
    let delegated_account = [1; 32];
    let owner_program = [2; 32];
    let grid_id = 42;
    let mut l1 = Bank::new();
    l1.store(delegated_account, account(1_000_000, &[0; 8], PORTAL));
    l1.store_delegation_record(&delegated_account, owner_program, grid_id);
    let (mut runtime, bank) = rollup_on(&l1, grid_id, vec![delegated_account]);
    runtime.activate();
    assert_eq!(bank.accounts[&delegated_account].owner, owner_program);

    let bank = reanchor(&mut runtime, &l1.child(1));

    assert_eq!(bank.accounts[&delegated_account].owner, owner_program);
}

#[test]
fn test_reset_to_new_parent_picks_up_fresh_l1_state() {
    let account_a = [5; 32];
    let account_b = [6; 32];
    let mut l1 = Bank::new();
    l1.fund(account_a, 10_000_000_000);
    let (mut runtime, bank) = rollup_on(&l1, 0, vec![]);
    assert_eq!(bank.balance(&account_a), 10_000_000_000);

    let mut new_parent = l1.child(1);
    new_parent.fund(account_b, 20_000_000_000);
    let update = runtime.reset_to_new_parent(new_parent.anchor());
    runtime.activate();
    let mut bank = new_parent.clone();
    bank.apply(&update);

    assert_eq!(bank.balance(&account_b), 20_000_000_000);
    assert_eq!(bank.balance(&account_a), 10_000_000_000);
    assert!(runtime.delegated_accounts().is_empty());
}

#[test]
fn delegations_keep_owner_data_and_flag() {
    let delegated_pubkey = [1; 32];
    let mut l1 = Bank::new();
    l1.fund(delegated_pubkey, 1_000_000);
    let (mut runtime, mut bank) = rollup_on(&l1, 0, vec![]);
    runtime.activate();

    let mut delegated_l1_snapshot = account(1_000_000, &[0xDE, 0xAD, 0xBE, 0xEF], PORTAL);
    delegated_l1_snapshot.executable = true;
    let update = runtime.handle_delegation(&delegated_pubkey, &delegated_l1_snapshot);
    bank.apply(&update);

    assert_eq!(bank.accounts[&delegated_pubkey], delegated_l1_snapshot);
}

#[test]
fn test_handle_delegation_with_owner_program_remaps_er_owner() {
    let owner_program = [2; 32];
    let delegated_pubkey = [1; 32];
    let mut delegated_l1_snapshot = account(1_000_000, &[0xCA, 0xFE, 0xBA, 0xBE], PORTAL);
    delegated_l1_snapshot.executable = true;
    let mut l1 = Bank::new();
    l1.store(delegated_pubkey, delegated_l1_snapshot.clone());
    let (mut runtime, mut bank) = rollup_on(&l1, 0, vec![]);
    runtime.activate();

    let update = runtime.handle_delegation_with_owner_program(
        &delegated_pubkey,
        &delegated_l1_snapshot,
        Some(owner_program),
    );
    bank.apply(&update);

    let er_account = &bank.accounts[&delegated_pubkey];
    assert_eq!(er_account.owner, owner_program);
    assert_eq!(er_account.data, delegated_l1_snapshot.data);
    assert_eq!(er_account.executable, delegated_l1_snapshot.executable);
    assert!(runtime.delegated_accounts().contains(&delegated_pubkey));
}

#[test]
fn test_handle_delegation_from_l1_hydrates_upgradeable_owner_program() {
    let l1 = Bank::new();
    let (mut runtime, mut bank) = rollup_on(&l1, 0, vec![]);
    runtime.activate();

    let mut l1_bank = l1.child(1);
    let owner_program = [2; 32];
    let programdata_address = [7; 32];
    let delegated_pubkey = [1; 32];
    let delegated_l1_snapshot = account(1_000_000, &[0x11, 0x22, 0x33, 0x44], PORTAL);
    l1_bank.store(delegated_pubkey, delegated_l1_snapshot.clone());
    l1_bank.store_upgradeable_owner_program(
        owner_program,
        programdata_address,
        1,
        &[0xAA, 0xBB, 0xCC, 0xDD],
    );
    assert!(!bank.accounts.contains_key(&owner_program));
    assert!(!bank.accounts.contains_key(&programdata_address));

    let update = runtime.handle_delegation_inner(
        &delegated_pubkey,
        &delegated_l1_snapshot,
        Some(owner_program),
        Some(&l1_bank.snapshot()),
    );
    bank.apply(&update);

    let er_program_account = &bank.accounts[&owner_program];
    assert_eq!(er_program_account.owner, BPF_LOADER_UPGRADEABLE_ID);
    assert_eq!(er_program_account.data, l1_bank.accounts[&owner_program].data);
    assert_eq!(
        bank.accounts[&programdata_address].data,
        l1_bank.accounts[&programdata_address].data
    );
    assert_eq!(bank.accounts[&delegated_pubkey].owner, owner_program);
    assert_eq!(update.reload_programs, vec![owner_program]);
}

#[test]
fn test_reset_to_new_parent_rehydrates_existing_delegations_from_l1() {
    let l1 = Bank::new();
    let (mut runtime, _) = rollup_on(&l1, 0, vec![]);
    runtime.activate();

    let mut l1_bank = l1.child(1);
    let owner_program = [2; 32];
    let programdata_address = [7; 32];
    let delegated_pubkey = [1; 32];
    let delegated_l1_snapshot = account(1_000_000, &[0x10, 0x20, 0x30, 0x40], PORTAL);
    l1_bank.store(delegated_pubkey, delegated_l1_snapshot.clone());
    l1_bank.store_delegation_record(&delegated_pubkey, owner_program, 0);
    l1_bank.store_upgradeable_owner_program(
        owner_program,
        programdata_address,
        1,
        &[0xCA, 0xFE, 0xBA, 0xBE],
    );

    let update = runtime.reset_to_new_parent(l1_bank.anchor());
    let mut bank = Bank::new();
    bank.apply(&update);

    assert!(runtime.delegated_accounts().contains(&delegated_pubkey));
    let er_delegated_account = &bank.accounts[&delegated_pubkey];
    assert_eq!(er_delegated_account.owner, owner_program);
    assert_eq!(er_delegated_account.data, delegated_l1_snapshot.data);
    assert!(runtime.initial_account_snapshot(&delegated_pubkey).is_some());
    assert!(bank.accounts.contains_key(&programdata_address));
}

#[test]
fn reanchoring_keeps_owner_programs() {
    let l1 = Bank::new();
    let (mut runtime, _) = rollup_on(&l1, 0, vec![]);
    runtime.activate();

    let owner_program = [2; 32];
    let programdata_address = [7; 32];
    let delegated_pubkey = [1; 32];
    let delegated_l1_snapshot = account(1_000_000, &[0; 4], PORTAL);
    let mut l1_bank = l1.child(1);
    l1_bank.store(delegated_pubkey, delegated_l1_snapshot.clone());
    l1_bank.store_delegation_record(&delegated_pubkey, owner_program, 0);
    l1_bank.store_upgradeable_owner_program(owner_program, programdata_address, 1, &[1, 2, 3]);
    runtime.handle_delegation_inner(
        &delegated_pubkey,
        &delegated_l1_snapshot,
        Some(owner_program),
        Some(&l1_bank.snapshot()),
    );

    let bank = reanchor(&mut runtime, &l1_bank.child(2));
    assert_eq!(
        bank.accounts[&owner_program],
        l1_bank.accounts[&owner_program]
    );
    assert_eq!(
        bank.accounts[&programdata_address],
        l1_bank.accounts[&programdata_address]
    );
    assert_eq!(bank.accounts[&delegated_pubkey].owner, owner_program);
}

#[test]
fn system_owned_delegations_reload_no_program() {
    let l1 = Bank::new();
    let (mut runtime, mut bank) = rollup_on(&l1, 0, vec![]);
    runtime.activate();

    let delegated_signer = [1; 32];
    let update = runtime.handle_delegation_inner(
        &delegated_signer,
        &account(1_000_000_000, &[], PORTAL),
        Some(SYSTEM_PROGRAM_ID),
        Some(&l1.snapshot()),
    );
    bank.apply(&update);

    assert_eq!(bank.accounts[&delegated_signer].owner, SYSTEM_PROGRAM_ID);
    assert!(update.reload_programs.is_empty());
}

#[test]
fn test_refresh_delegated_owner_programs_updates_programdata_and_invalidates_cache() {
    let l1 = Bank::new();
    let (mut runtime, mut bank) = rollup_on(&l1, 0, vec![]);
    runtime.activate();

    let owner_program = [2; 32];
    let programdata_address = [7; 32];
    let delegated_pubkey = [1; 32];
    let delegated_l1_snapshot = account(1_000_000, &[1, 2, 3, 4], PORTAL);
    let mut l1_bank = l1.child(1);
    l1_bank.store(delegated_pubkey, delegated_l1_snapshot.clone());
    l1_bank.store_delegation_record(&delegated_pubkey, owner_program, 0);
    l1_bank.store_upgradeable_owner_program(owner_program, programdata_address, 1, &[1, 2, 3]);
    let update = runtime.handle_delegation_inner(
        &delegated_pubkey,
        &delegated_l1_snapshot,
        Some(owner_program),
        Some(&l1_bank.snapshot()),
    );
    bank.apply(&update);

    let mut l1_upgrade_bank = l1_bank.child(2);
    l1_upgrade_bank.store_upgradeable_owner_program(
        owner_program,
        programdata_address,
        2,
        &[1, 2, 3],
    );
    let slot = runtime.working_slot;
    let update = runtime.refresh_delegated_owner_programs_from_l1(
        &l1_upgrade_bank.snapshot(),
        &bank.snapshot().accounts,
    );
    bank.apply(&update);
    assert_eq!(
        bank.accounts[&programdata_address].data,
        l1_upgrade_bank.accounts[&programdata_address].data
    );
    assert!(update.reload_programs.contains(&owner_program));
    assert_eq!(runtime.working_slot, slot + 1);

    let unchanged = runtime.refresh_delegated_owner_programs_from_l1(
        &l1_upgrade_bank.snapshot(),
        &bank.snapshot().accounts,
    );
    assert!(unchanged.writes.is_empty());
    assert_eq!(runtime.working_slot, slot + 1);
}

#[test]
fn test_delegation_validation_valid() {
    let owner_program = [2; 32];
    let delegated_pubkey = [1; 32];
    let grid_id = 7;
    let mut l1 = Bank::new();
    l1.store(delegated_pubkey, account(1_000_000, &[], PORTAL));
    l1.store_delegation_record(&delegated_pubkey, owner_program, grid_id);

    let (runtime, bank) = rollup_on(&l1, grid_id, vec![delegated_pubkey]);

    assert!(runtime.delegated_accounts().contains(&delegated_pubkey));
    let snapshot = runtime.initial_account_snapshot(&delegated_pubkey).unwrap();
    assert_eq!(snapshot.owner, PORTAL);
    assert_eq!(bank.accounts[&delegated_pubkey].owner, owner_program);
}

#[test]
fn test_delegation_validation_missing_record() {
    let delegated_pubkey = [1; 32];
    let mut l1 = Bank::new();
    l1.store(delegated_pubkey, account(1_000_000, &[], PORTAL));

    let (runtime, _) = rollup_on(&l1, 0, vec![delegated_pubkey]);

    assert!(!runtime.delegated_accounts().contains(&delegated_pubkey));
    assert!(runtime.initial_account_snapshot(&delegated_pubkey).is_none());
}

#[test]
fn test_delegation_validation_wrong_grid() {
    let owner_program = [2; 32];
    let delegated_pubkey = [1; 32];
    let mut l1 = Bank::new();
    l1.store(delegated_pubkey, account(1_000_000, &[], PORTAL));
    l1.store_delegation_record(&delegated_pubkey, owner_program, 41);

    let (runtime, _) = rollup_on(&l1, 42, vec![delegated_pubkey]);

    assert!(!runtime.delegated_accounts().contains(&delegated_pubkey));
    assert!(runtime.initial_account_snapshot(&delegated_pubkey).is_none());
}

#[test]
fn test_delegation_validation_wrong_owner() {
    let wrong_owner_program = [8; 32];
    let delegated_pubkey = [1; 32];
    let mut l1 = Bank::new();
    l1.store(delegated_pubkey, account(1_000_000, &[], wrong_owner_program));

    let (runtime, _) = rollup_on(&l1, 0, vec![delegated_pubkey]);

    assert!(!runtime.delegated_accounts().contains(&delegated_pubkey));
}

#[test]
fn test_delegation_validation_nonexistent() {
    let nonexistent_pubkey = [1; 32];

    let (runtime, _) = rollup_on(&Bank::new(), 0, vec![nonexistent_pubkey]);

    assert!(!runtime.delegated_accounts().contains(&nonexistent_pubkey));
}

#[test]
fn test_delegation_validation_multiple() {
    let owner_program1 = [21; 32];
    let owner_program2 = [22; 32];
    let delegated1 = [1; 32];
    let delegated2 = [2; 32];
    let wrong_owner = [3; 32];
    let mut l1 = Bank::new();
    l1.store(delegated1, account(1_000_000, &[], PORTAL));
    l1.store(delegated2, account(2_000_000, &[], PORTAL));
    l1.store(wrong_owner, account(3_000_000, &[], [23; 32]));
    l1.store_delegation_record(&delegated1, owner_program1, 0);
    l1.store_delegation_record(&delegated2, owner_program2, 0);

    let (runtime, bank) = rollup_on(
        &l1,
        0,
        vec![delegated1, delegated2, wrong_owner, [4; 32]],
    );

    assert_eq!(runtime.delegated_accounts().len(), 2);
    assert!(runtime.delegated_accounts().contains(&delegated1));
    assert!(runtime.delegated_accounts().contains(&delegated2));
    assert!(runtime.initial_account_snapshot(&delegated1).is_some());
    assert!(runtime.initial_account_snapshot(&delegated2).is_some());
    assert_eq!(bank.accounts[&delegated1].owner, owner_program1);
    assert_eq!(bank.accounts[&delegated2].owner, owner_program2);
}

#[test]
fn delegated_accounts_are_listed_in_order() {
    let delegated1 = [1; 32];
    let delegated2 = [2; 32];
    let mut l1 = Bank::new();
    l1.store(delegated1, account(1_000_000, &[], PORTAL));
    l1.store(delegated2, account(2_000_000, &[], PORTAL));
    l1.store_delegation_record(&delegated1, [21; 32], 0);
    l1.store_delegation_record(&delegated2, [22; 32], 0);

    let (runtime, _) = rollup_on(&l1, 0, vec![delegated1, delegated2]);

    let accounts = runtime.delegated_accounts();
    assert_eq!(accounts.len(), 2);
    assert_eq!(accounts.key_at(0), delegated1);
    assert_eq!(accounts.key_at(1), delegated2);
}

#[test]
fn test_er_slot_stays_far_ahead_of_parent() {
    const MIN_GAP: u64 = 1u64 << 30;

    let er_slot = er_slot_for(0);
    assert!(er_slot.saturating_sub(0) >= MIN_GAP);

    let slots_per_epoch = 32u64;
    let late_parent = slots_per_epoch - 4;
    assert!(late_parent > slots_per_epoch * 3 / 4);
    let er_slot = er_slot_for(late_parent);
    assert!(er_slot.saturating_sub(late_parent) >= MIN_GAP);
}

#[test]
fn resets_go_on_beyond_the_tip() {
    let l1 = Bank::new();
    let (mut runtime, _) = rollup_on(&l1, 0, vec![]);
    runtime.activate();
    runtime.rotate();
    runtime.deactivate();

    let old_er_tip = runtime.working_slot;
    let new_parent = l1.child(1);
    let expected_er_root_slot = er_slot_for(1).max(old_er_tip.saturating_add(1));
    let expected_er_slot = expected_er_root_slot.saturating_add(1);
    runtime.reset_to_new_parent(new_parent.anchor());

    assert_eq!(runtime.working_slot, expected_er_slot);
}

#[test]
fn rollup_slots_are_fixed_numbers() {
    assert_eq!(ER_SLOT_OFFSET, 1u64 << 40);
    assert_eq!(er_slot_for(7), (1u64 << 40) + 7);
    assert_eq!(er_slot_for(u64::MAX), u64::MAX);
    assert_eq!(er_slot_after_reset(7, 3), (1u64 << 40) + 7);
    assert_eq!(er_slot_after_reset(7, (1u64 << 40) + 20), (1u64 << 40) + 21);
    assert_eq!(er_slot_after_reanchor(7, (1u64 << 40) + 20), (1u64 << 40) + 21);
    assert_eq!(er_slot_after_reanchor(7, 3), (1u64 << 40) + 7);
}

#[test]
fn sessions_of_a_rollup_are_set_and_forgotten() {
    let (mut runtime, _) = rollup_on(&Bank::new(), 3, vec![]);
    assert!(!runtime.is_active());
    assert_eq!(runtime.session_pda(), None);
    runtime.activate();
    runtime.set_session_pda(SESSION);
    runtime.set_session_settings(5, 6, 7);
    assert!(runtime.is_active());
    assert_eq!(runtime.session_pda(), Some(SESSION));
    assert_eq!((runtime.grid_id, runtime.ttl_slots, runtime.fee_cap), (5, 6, 7));
    runtime.deactivate();
    assert!(!runtime.is_active());
    assert!(!runtime.advancing);
    assert_eq!(runtime.session_pda(), None);
}

#[test]
fn deposits_add_up_and_make_a_sink() {
    let depositor = [3; 32];
    let mut l1 = Bank::new();
    l1.fund(depositor, 1_000_000);
    let (mut runtime, mut bank) = rollup_on(&l1, 0, vec![]);
    runtime.set_session_pda(SESSION);
    deposit(&mut runtime, &mut bank, depositor, 10);
    deposit(&mut runtime, &mut bank, depositor, 20);
    assert_eq!(bank.balance(&depositor), 30);
    assert_eq!(
        bank.balance(&SINK),
        solana_rent::Rent::default().minimum_balance(0)
    );
    assert!(runtime.touched_accounts.contains(&depositor));
    assert!(runtime.touched_accounts.contains(&SINK));
    deposit(&mut runtime, &mut bank, depositor, u64::MAX);
    assert_eq!(bank.balance(&depositor), u64::MAX);
    assert_eq!(l1.balance(&depositor), 1_000_000);
}

#[test]
fn inactive_rollups_are_not_anchored_anew() {
    let (mut runtime, _) = rollup_on(&Bank::new(), 0, vec![]);
    let slot = runtime.working_slot;
    let update = runtime.reanchor_to_l1_parent(Bank::new().child(9).anchor());
    assert_eq!(update, BankUpdate::new());
    assert_eq!(runtime.anchor_slot, 0);
    assert_eq!(runtime.working_slot, slot);
}

#[test]
fn resets_forget_what_was_deposited() {
    let depositor = [3; 32];
    let (mut runtime, mut bank) = rollup_on(&Bank::new(), 0, vec![]);
    deposit(&mut runtime, &mut bank, depositor, 10);
    assert_eq!(runtime.state_diff_from_l1().accounts.len(), 1);
    runtime.reset_to_new_parent(Bank::new().child(1).anchor());
    assert!(runtime.state_diff_from_l1().accounts.is_empty());
    assert!(runtime.touched_accounts.is_empty());
}

#[test]
fn receipts_without_changes_are_left_alone() {
    let recipient = [3; 32];
    let mut l1 = Bank::new();
    l1.store_deposit_receipt(recipient, 40, 5);
    let (mut runtime, mut bank) = rollup_on(&l1, 0, vec![]);
    deposit(&mut runtime, &mut bank, recipient, 40);
    assert!(runtime
        .settlement_receipt_balances(&SESSION, &no_sinks())
        .is_empty());
    deposit(&mut runtime, &mut bank, recipient, 1);
    let balances = runtime.settlement_receipt_balances(&SESSION, &no_sinks());
    assert_eq!((balances[0].balance, balances[0].withdrawn), (41, 5));
    deposit(&mut runtime, &mut bank, [4; 32], 1);
    assert_eq!(
        runtime
            .settlement_receipt_balances(&SESSION, &no_sinks())
            .len(),
        1
    );
    assert!(runtime
        .settlement_receipt_balances(&[1; 32], &no_sinks())
        .is_empty());
}

#[test]
fn withdrawals_are_encoded_with_their_amount() {
    let instruction = er_withdrawal_instruction(&PORTAL, &[1; 32], &[2; 32], &SINK, 258);
    assert_eq!(instruction.data, vec![13, 2, 1, 0, 0, 0, 0, 0, 0]);
    assert_eq!(instruction.program_id, PORTAL);
    assert!(instruction.accounts[0].is_signer && instruction.accounts[0].is_writable);
    assert!(!instruction.accounts[1].is_writable);
    assert!(instruction.accounts[2].is_writable);
    assert_eq!(instruction.accounts[3].pubkey, SYSTEM_PROGRAM_ID);
    assert_eq!(instruction.accounts[4].pubkey, CLOCK_SYSVAR_ID);
}

#[test]
fn well_known_addresses_are_those_of_the_network() {
    assert_eq!(SYSTEM_PROGRAM_ID, solana_sdk_ids::system_program::id().to_bytes());
    assert_eq!(CLOCK_SYSVAR_ID, solana_sdk_ids::sysvar::clock::id().to_bytes());
    assert_eq!(SYSVAR_PROGRAM_ID, solana_sdk_ids::sysvar::id().to_bytes());
    assert_eq!(BPF_LOADER_ID, solana_sdk_ids::bpf_loader::id().to_bytes());
    assert_eq!(
        BPF_LOADER_DEPRECATED_ID,
        solana_sdk_ids::bpf_loader_deprecated::id().to_bytes()
    );
    assert_eq!(
        BPF_LOADER_UPGRADEABLE_ID,
        solana_sdk_ids::bpf_loader_upgradeable::id().to_bytes()
    );
    assert_eq!(LOADER_V4_ID, solana_sdk_ids::loader_v4::id().to_bytes());
}

#[test]
fn ages_are_scaled_to_rollup_slots() {
    assert_eq!(DEFAULT_MS_PER_SLOT, solana_clock::DEFAULT_MS_PER_SLOT);
    assert_eq!(MAX_PROCESSING_AGE, solana_clock::MAX_PROCESSING_AGE as u64);
    assert_eq!(
        MAX_RECENT_BLOCKHASHES,
        solana_clock::MAX_RECENT_BLOCKHASHES as u64
    );
    assert_eq!(
        er_transaction_max_age_for_slot_duration(DEFAULT_ER_SLOT_DURATION_MS),
        DEFAULT_ER_TRANSACTION_MAX_AGE
    );
    assert_eq!(er_transaction_max_age_for_slot_duration(400), 150);
    assert_eq!(er_recent_blockhash_max_age_for_slot_duration(50), 2400);
    assert_eq!(er_recent_blockhash_max_age_for_slot_duration(0), 120_000);
    assert_eq!(scale_l1_slot_age_for_er(1, 300), 2);
    assert_eq!(scale_l1_slot_age_for_er(0, 300), 0);
}

#[test]
fn receipts_hold_their_escrow_beyond_rent() {
    let rent = solana_rent::Rent::default().minimum_balance(90);
    assert_eq!(deposit_receipt_escrow_lamports(rent + 7, 90), 7);
    assert_eq!(deposit_receipt_escrow_lamports(rent, 90), 0);
    assert_eq!(deposit_receipt_escrow_lamports(rent - 1, 90), 0);
}

#[test]
fn hashes_of_accounts_without_lamports_are_left_out() {
    let key = [3; 32];
    let (mut runtime, mut bank) = rollup_on(&Bank::new(), 0, vec![]);
    deposit(&mut runtime, &mut bank, key, 0);
    let diff: ErStateDiff = runtime.state_diff_from_l1();
    assert!(diff.accounts.is_empty());
    assert!(LtHash::identity().same(&diff.lt_hash));
}
