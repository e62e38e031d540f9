use std::collections::BTreeMap;

use northstar::accounts::{Account, Pubkey};
use northstar::addresses::{
    find_delegation_record_pda, find_deposit_receipt_pda, find_session_pda,
};
use northstar::keyed::{KeyMap, KeySet};
use northstar::ledger::{L1Bank, ModifiedAccount, Snapshot};
use northstar::manager::checkpoints::{
    challenge_resolution_deadline, checkpoint_or_settlement, step_for_existing_checkpoint,
    CheckpointAddresses, CheckpointDecision, CheckpointStep,
};
use northstar::manager::due::{
    transactions_for_existing_checkpoint, DueOutcome, SettlementAction, SettlementSigner,
    StoredPlanId,
};
use northstar::manager::events::{L1Event, PortalConfig};
use northstar::manager::plans::{
    checkpoint_plan_bytes, checkpoint_plan_file_name, load_checkpoint_plan, PlanCache,
};
use northstar::manager::{Manager, ManagerConfig, NorthStarError};
use northstar::portal_state::{
    Checkpoint, CheckpointCursor, CheckpointStatus, DelegationRecord, DepositReceipt,
    PortalAccount, Session, SettlementStatus,
};
use northstar::runtime::deposits::WithdrawalSink;
use northstar::runtime::{Anchor, BankUpdate, EphemeralRollupSettings, EphemeralRuntime};
use northstar::settlement::chunks::SettlementChunk;
use northstar::settlement::plan::{build_settlement_plan, SettlementLimits};
use northstar::settlement::portal::PortalProtocol;
use northstar::settlement::{SettlementPlan, SettlementUnsupportedChange};
use northstar::state_diff::{ErStateDiff, ErStateDiffAccount, LtHash};
use northstar::well_known::SYSTEM_PROGRAM_ID;
use solana_keypair::Keypair;
use solana_signer::Signer;
use solana_transaction::Transaction;

const PORTAL: Pubkey = [90; 32];

const SECRET: [u8; 32] = [5; 32];

const RECEIPT_LEN: u32 = 90;

const BLOCKHASH: [u8; 32] = [33; 32];

const CHECKPOINT: Pubkey = [70; 32];

const CURSOR: Pubkey = [71; 32];

const ADDRESSES: CheckpointAddresses = CheckpointAddresses {
    checkpoint: CHECKPOINT,
    cursor: CURSOR,
};

const PROTOCOL: PortalProtocol = PortalProtocol {
    begin_settlement: 20,
    write_settlement_chunk: 21,
    settle_account_owner: 22,
    settle_account_lamports: 23,
    settle_deposit_receipt: 24,
    finish_settlement: 25,
    limits: SettlementLimits {
        max_chunk: 512,
        max_lamport_accounts: 8,
    },
};

#[derive(Clone)]
struct Bank {
    slot: u64,
    accounts: BTreeMap<Pubkey, Account>,
    portal: BTreeMap<Pubkey, PortalAccount>,
}

impl Bank {
    fn new() -> Bank {
        Bank {
            slot: 1,
            accounts: BTreeMap::new(),
            portal: BTreeMap::new(),
        }
    }

    fn child(&self, slot: u64) -> Bank {
        Bank {
            slot,
            ..self.clone()
        }
    }

    fn store(&mut self, key: Pubkey, account: Account) {
        self.accounts.insert(key, account);
    }

    fn store_portal(&mut self, key: Pubkey, lamports: u64, value: PortalAccount) {
        self.store(key, account(lamports, &[1, 2, 3], PORTAL));
        self.portal.insert(key, value);
    }

    fn apply(&mut self, update: &BankUpdate) {
        for write in &update.writes {
            self.store(write.pubkey, write.account.clone());
        }
    }

    fn snapshot(&self) -> Snapshot {
        let mut snapshot = Snapshot::new();
        for (key, account) in &self.accounts {
            snapshot.accounts.insert(*key, account.clone());
        }
        for (key, value) in &self.portal {
            snapshot.portal.insert(*key, *value);
        }
        snapshot
    }

    fn anchor(&self) -> Anchor {
        Anchor {
            slot: self.slot,
            snapshot: self.snapshot(),
        }
    }

    /// The bank as the manager sees it on top of its parent.
    fn on(&self, parent: &Bank) -> L1Bank {
        let mut modified = Vec::new();
        for (key, account) in &self.accounts {
            if parent.accounts.get(key) != Some(account) {
                modified.push(ModifiedAccount {
                    pubkey: *key,
                    account: account.clone(),
                    portal: self.portal.get(key).copied(),
                });
            }
        }
        L1Bank {
            slot: self.slot,
            now: self.snapshot(),
            parent: Some(parent.snapshot()),
            modified,
        }
    }

    fn store_delegation_record(&mut self, key: &Pubkey, owner_program: Pubkey, grid_id: u64) {
        let record = find_delegation_record_pda(&PORTAL, key).unwrap();
        self.store_portal(
            record,
            1_000_000,
            PortalAccount::DelegationRecord(DelegationRecord {
                valid: true,
                owner_program,
                grid_id,
            }),
        );
    }

    fn open_session(&mut self, grid_id: u64, ttl_slots: u64, fee_cap: u64) -> Pubkey {
        let session_pda = find_session_pda(&PORTAL).unwrap();
        let session = Session {
            grid_id,
            ttl_slots,
            fee_cap,
            ..session_of(manager_key(), self.slot)
        };
        self.store_portal(session_pda, 1_000_000, PortalAccount::Session(session));
        session_pda
    }

    fn deposit(&mut self, session: Pubkey, recipient: Pubkey, lamports: u64) {
        let receipt = find_deposit_receipt_pda(&PORTAL, &session, &recipient).unwrap();
        let rent = solana_rent::Rent::default().minimum_balance(RECEIPT_LEN as usize);
        let before = match self.accounts.get(&receipt) {
            Some(account) => account.lamports,
            None => rent,
        };
        self.store_portal(
            receipt,
            before + lamports,
            PortalAccount::DepositReceipt(DepositReceipt {
                session,
                recipient,
                balance: before + lamports - rent,
                withdrawn: 0,
            }),
        );
    }

    /// Applies the settlement chunks of a transaction, as the portal program does.
    fn process(&mut self, transaction: &[u8]) {
        let transaction: Transaction = bincode::deserialize(transaction).unwrap();
        for instruction in &transaction.message.instructions {
            if instruction.data[0] == PROTOCOL.write_settlement_chunk {
                let target = instruction.accounts[2] as usize;
                let key = transaction.message.account_keys[target].to_bytes();
                let offset = u32::from_le_bytes(instruction.data[41..45].try_into().unwrap());
                let len = u16::from_le_bytes(instruction.data[45..47].try_into().unwrap());
                let chunk = &instruction.data[47..47 + len as usize];
                let account = self.accounts.get_mut(&key).unwrap();
                account.data[offset as usize..offset as usize + chunk.len()]
                    .copy_from_slice(chunk);
            }
        }
    }
}

/// Settles the checkpoint of a finished transaction, as the portal program does.
fn finish_settlement(bank: &mut Bank, session_pda: Pubkey, transaction: &[u8]) {
    let transaction: Transaction = bincode::deserialize(transaction).unwrap();
    let last = transaction.message.instructions.last().unwrap();
    assert_eq!(last.data[0], PROTOCOL.finish_settlement);
    let er_slot = u64::from_le_bytes(last.data[1..9].try_into().unwrap());
    let (Some(PortalAccount::Session(session)), Some(PortalAccount::Checkpoint(checkpoint))) = (
        bank.portal.get(&session_pda).copied(),
        bank.portal.get(&CHECKPOINT).copied(),
    ) else {
        panic!("session and checkpoint should exist");
    };
    assert_eq!(checkpoint.effect_commitment, last.data[9..41]);
    bank.portal.insert(
        session_pda,
        PortalAccount::Session(Session {
            last_settled_er_slot: er_slot,
            last_settled_l1_slot: bank.slot,
            ..session
        }),
    );
    set_checkpoint(
        bank,
        Checkpoint {
            status: CheckpointStatus::Settled,
            ..checkpoint
        },
    );
}

fn account(lamports: u64, data: &[u8], owner: Pubkey) -> Account {
    Account {
        lamports,
        data: data.to_vec(),
        owner,
        executable: false,
        rent_epoch: 0,
    }
}

fn manager_key() -> Pubkey {
    Keypair::new_from_array(SECRET).pubkey().to_bytes()
}

fn session_of(validator: Pubkey, slot: u64) -> Session {
    Session {
        valid: true,
        grid_id: 7,
        ttl_slots: 1_000,
        fee_cap: 123_456,
        created_at: slot,
        nonce: 1,
        authority: [60; 32],
        validator,
        settlement_interval_slots: 10,
        last_settled_l1_slot: slot,
        last_settled_er_slot: 0,
        settlement_status: SettlementStatus::Idle,
        settlement_er_slot: 0,
        settlement_checksum: [0; 32],
        settlement_started_l1_slot: 0,
    }
}

fn config() -> ManagerConfig {
    ManagerConfig {
        portal: PortalConfig {
            program_id: PORTAL,
            deposit_receipt_len: RECEIPT_LEN,
        },
        protocol: PROTOCOL,
        manager_secret: SECRET,
    }
}

fn settings(session_pda: Pubkey, grid_id: u64, delegated: Vec<Pubkey>) -> EphemeralRollupSettings {
    EphemeralRollupSettings {
        session_pda,
        grid_id,
        ttl_slots: 1_000,
        er_fee_structure: EphemeralRollupSettings::zero_fee_structure(),
        fee_cap: 123_456,
        delegated_accounts: delegated,
    }
}

/// Gives a manager an active runtime on a layer-one bank.
fn create_runtime(manager: &mut Manager, l1: &Bank, settings: &EphemeralRollupSettings) -> Bank {
    let (mut runtime, update) = EphemeralRuntime::new(l1.anchor(), settings, PORTAL);
    runtime.activate();
    manager.runtime = Some(runtime);
    let mut bank = l1.clone();
    bank.apply(&update);
    bank
}

fn no_sinks() -> KeyMap<Pubkey, 32> {
    KeyMap::new()
}

fn due(manager: &mut Manager, l1: &Bank, stored: &Option<Vec<u8>>) -> DueOutcome {
    manager
        .settlement_transactions_if_due(&l1.on(l1), &BLOCKHASH, stored, &no_sinks(), &ADDRESSES)
        .unwrap()
}

#[test]
fn test_e2e_portal_to_l1_events() {
    let parent = Bank::new();
    let mut bank = parent.child(2);
    let session_pda = bank.open_session(1, 1000, 5_000_000_000);
    let manager = Manager::new(config(), 100);

    let events = manager.get_l1_events(&bank.on(&parent));

    assert_eq!(
        events,
        vec![L1Event::SessionOpened {
            session_pda,
            grid_id: 1,
            ttl_slots: 1000,
            fee_cap: 5_000_000_000,
        }]
    );
}

#[test]
fn test_e2e_delegation_detected() {
    let owner_program = [2; 32];
    let delegated_account = [1; 32];
    let parent = Bank::new();
    let mut bank = parent.child(2);
    bank.open_session(1, 1000, 5_000_000_000);
    bank.store(delegated_account, account(1_000_000, &[0; 100], PORTAL));
    bank.store_delegation_record(&delegated_account, owner_program, 1);
    let manager = Manager::new(config(), 100);

    let events = manager.get_l1_events(&bank.on(&parent));

    let delegations: Vec<_> = events
        .iter()
        .filter(|event| matches!(event, L1Event::AccountDelegated { .. }))
        .collect();
    assert_eq!(
        delegations,
        vec![&L1Event::AccountDelegated {
            delegation_record_pda: find_delegation_record_pda(&PORTAL, &delegated_account).unwrap(),
            delegated_account,
            owner_program,
            grid_id: 1,
        }]
    );
}

#[test]
fn test_e2e_deposit_fee_detected() {
    let owner_pubkey = [4; 32];
    let deposit_amount = 2_000_000_000u64;
    let parent = Bank::new();
    let mut bank = parent.child(2);
    let session_pda = bank.open_session(1, 1000, 5_000_000_000);
    bank.deposit(session_pda, owner_pubkey, deposit_amount);
    let manager = Manager::new(config(), 100);

    let events = manager.get_l1_events(&bank.on(&parent));

    assert!(events.contains(&L1Event::FeeDeposited {
        session_pda,
        amount: deposit_amount,
        delta: deposit_amount,
        depositor: owner_pubkey,
    }));
}

#[test]
fn test_e2e_third_party_deposit_detected() {
    let depositor_pubkey = [4; 32];
    let deposit_amount = 3_000_000_000u64;
    let mut parent = Bank::new();
    let session_pda = parent.open_session(1, 1000, 5_000_000_000);
    let mut bank = parent.child(2);
    bank.deposit(session_pda, depositor_pubkey, deposit_amount);
    let manager = Manager::new(config(), 100);

    let events = manager.get_l1_events(&bank.on(&parent));

    assert_eq!(
        events,
        vec![L1Event::FeeDeposited {
            session_pda,
            amount: deposit_amount,
            delta: deposit_amount,
            depositor: depositor_pubkey,
        }]
    );
}

#[test]
fn test_e2e_deposit_delta_computed_correctly() {
    let owner_pubkey = [4; 32];
    let deposit1_amount = 2_000_000_000u64;
    let deposit2_amount = 3_000_000_000u64;
    let mut parent = Bank::new();
    let session_pda = parent.open_session(1, 1000, 5_000_000_000);
    parent.deposit(session_pda, owner_pubkey, deposit1_amount);
    let mut bank = parent.child(2);
    bank.deposit(session_pda, owner_pubkey, deposit2_amount);
    let manager = Manager::new(config(), 100);

    let events = manager.get_l1_events(&bank.on(&parent));

    assert_eq!(
        events,
        vec![L1Event::FeeDeposited {
            session_pda,
            amount: deposit1_amount + deposit2_amount,
            delta: deposit2_amount,
            depositor: owner_pubkey,
        }]
    );
}

#[test]
fn test_e2e_no_events_without_portal_activity() {
    let parent = Bank::new();
    let mut bank = parent.child(2);
    bank.store([4; 32], account(1_000_000_000, &[], SYSTEM_PROGRAM_ID));
    let manager = Manager::new(config(), 100);

    assert!(manager.get_l1_events(&bank.on(&parent)).is_empty());
}

#[test]
fn closed_sessions_and_undelegations_are_reported() {
    let delegated_account = [1; 32];
    let mut parent = Bank::new();
    let session_pda = parent.open_session(1, 1000, 5);
    parent.store(delegated_account, account(1_000_000, &[9], PORTAL));
    parent.store_delegation_record(&delegated_account, [2; 32], 1);
    let record = find_delegation_record_pda(&PORTAL, &delegated_account).unwrap();

    let mut bank = parent.child(2);
    bank.store(session_pda, account(0, &[], SYSTEM_PROGRAM_ID));
    bank.portal.remove(&session_pda);
    bank.store(record, account(1, &[0, 0], PORTAL));
    bank.portal.remove(&record);
    bank.store(delegated_account, account(1_000_000, &[9], [2; 32]));
    let manager = Manager::new(config(), 100);

    let events = manager.get_l1_events(&bank.on(&parent));
    assert_eq!(events.len(), 2);
    assert!(events.contains(&L1Event::SessionClosed {
        session_pda,
        grid_id: 1,
    }));
    assert!(events.contains(&L1Event::AccountUndelegated {
        delegation_record_pda: record,
        delegated_account,
    }));
}

#[test]
fn changed_sessions_are_not_opened_again() {
    let mut parent = Bank::new();
    parent.open_session(1, 1000, 5);
    let mut bank = parent.child(2);
    let session_pda = bank.open_session(1, 2000, 5);
    bank.accounts.get_mut(&session_pda).unwrap().lamports += 1;
    let manager = Manager::new(config(), 100);
    assert!(manager.get_l1_events(&bank.on(&parent)).is_empty());
}

#[test]
fn test_e2e_delegated_account_visible_on_l2() {
    let owner_program = [2; 32];
    let delegated_account = [1; 32];
    let data: Vec<u8> = (0..100).map(|i| (i as u8) ^ 0xAB).collect();
    let parent = Bank::new();
    let mut bank = parent.child(2);
    let session_pda = bank.open_session(1, 1000, 5_000_000_000);
    bank.store(delegated_account, account(1_000_000, &data, PORTAL));
    bank.store_delegation_record(&delegated_account, owner_program, 1);
    let mut manager = Manager::new(config(), 100);

    let events = manager.get_l1_events(&bank.on(&parent));
    assert!(events
        .iter()
        .any(|event| matches!(event, L1Event::SessionOpened { .. })));
    assert!(events.iter().any(|event| matches!(
        event,
        L1Event::AccountDelegated { owner_program: found, .. } if *found == owner_program
    )));

    let er_bank = create_runtime(
        &mut manager,
        &bank,
        &settings(session_pda, 1, vec![delegated_account]),
    );
    let runtime = manager.runtime.as_ref().unwrap();
    assert!(runtime.delegated_accounts().contains(&delegated_account));
    assert_eq!(er_bank.accounts[&delegated_account].owner, owner_program);
    assert_eq!(er_bank.accounts[&delegated_account].data, data);
    assert_eq!(bank.accounts[&delegated_account].owner, PORTAL);
    assert_eq!(bank.accounts[&delegated_account].data, data);
}

#[test]
fn test_e2e_handle_delegation_at_runtime() {
    let owner_program = [2; 32];
    let delegated_account = [1; 32];
    let delegated_data = vec![0xDE; 64];
    let mut bank = Bank::new();
    let session_pda = bank.open_session(1, 1000, 5_000_000_000);
    bank.store(delegated_account, account(5_000_000_000, &delegated_data, PORTAL));
    let mut manager = Manager::new(config(), 100);
    let mut er_bank = create_runtime(&mut manager, &bank, &settings(session_pda, 1, vec![]));
    assert!(!manager
        .runtime
        .as_ref()
        .unwrap()
        .delegated_accounts()
        .contains(&delegated_account));

    let update = manager
        .handle_delegation_with_owner_program(
            &bank.snapshot(),
            &delegated_account,
            Some(owner_program),
        )
        .unwrap();
    er_bank.apply(&update);

    assert!(manager
        .runtime
        .as_ref()
        .unwrap()
        .delegated_accounts()
        .contains(&delegated_account));
    let er_account = &er_bank.accounts[&delegated_account];
    assert_eq!(er_account.data, delegated_data);
    assert_eq!(er_account.owner, owner_program);
    assert_eq!(er_account.lamports, 5_000_000_000);
}

#[test]
fn test_startup_resume_hydrates_delegated_accounts_from_l1_in_progress() {
    let owner_program = [2; 32];
    let delegated_account = [1; 32];
    let committed_data = vec![0xC0, 0xFF, 0xEE, 0x42];
    let committed_lamports = 5_000_000_000;
    let session_pda = find_session_pda(&PORTAL).unwrap();
    let mut bank = Bank::new();
    bank.store_portal(
        session_pda,
        1_000_000,
        PortalAccount::Session(Session {
            last_settled_er_slot: 55,
            settlement_status: SettlementStatus::InProgress,
            settlement_er_slot: 55,
            settlement_checksum: [9; 32],
            ..session_of(manager_key(), 1)
        }),
    );
    bank.store(
        delegated_account,
        account(committed_lamports, &committed_data, PORTAL),
    );
    bank.store_delegation_record(&delegated_account, owner_program, 7);

    let mut manager = Manager::new(config(), 100);
    manager.init_runtime(bank.anchor()).unwrap();
    let updates = manager
        .resume_active_session_from_l1(bank.anchor(), false)
        .unwrap();
    assert!(manager.has_active_runtime());

    let mut er_bank = bank.clone();
    for update in &updates {
        er_bank.apply(update);
    }
    assert_eq!(manager.session_pda(), Some(session_pda));
    let runtime = manager.runtime.as_ref().unwrap();
    assert!(runtime.delegated_accounts().contains(&delegated_account));
    assert_eq!(
        (runtime.grid_id, runtime.ttl_slots, runtime.fee_cap),
        (7, 1_000, 123_456)
    );
    let er_account = &er_bank.accounts[&delegated_account];
    assert_eq!(er_account.owner, owner_program);
    assert_eq!(er_account.data, committed_data);
    assert_eq!(er_account.lamports, committed_lamports);
    assert!(manager.shutdown_runtime().is_some());
    assert!(!manager.has_runtime());
}

#[test]
fn sessions_of_others_are_not_resumed() {
    let session_pda = find_session_pda(&PORTAL).unwrap();
    let mut bank = Bank::new();
    bank.store_portal(
        session_pda,
        1_000_000,
        PortalAccount::Session(session_of([61; 32], 1)),
    );
    let mut manager = Manager::new(config(), 100);
    assert!(manager
        .resume_active_session_from_l1(bank.anchor(), false)
        .is_none());
    manager.init_runtime(bank.anchor()).unwrap();
    assert!(manager.init_runtime(bank.anchor()).is_none());
    assert!(manager
        .resume_active_session_from_l1(bank.anchor(), false)
        .is_none());

    bank.open_session(1, 2, 3);
    assert!(manager
        .resume_active_session_from_l1(bank.anchor(), true)
        .is_none());
    assert!(manager
        .resume_active_session_from_l1(bank.anchor(), false)
        .is_some());
    assert!(manager
        .resume_active_session_from_l1(bank.anchor(), false)
        .is_none());
}

#[test]
fn test_manager_handle_delegation_infers_owner_program() {
    let owner_program = [2; 32];
    let delegated_account = [1; 32];
    let delegated_data = vec![0xAB; 32];
    let mut bank = Bank::new();
    bank.store(delegated_account, account(5_000_000_000, &delegated_data, PORTAL));
    bank.store_delegation_record(&delegated_account, owner_program, 1);
    let mut manager = Manager::new(config(), 100);
    let mut er_bank = create_runtime(&mut manager, &bank, &settings([50; 32], 1, vec![]));

    let update = manager
        .handle_delegation(&bank.snapshot(), &delegated_account)
        .unwrap();
    er_bank.apply(&update);

    assert_eq!(er_bank.accounts[&delegated_account].owner, owner_program);
    assert_eq!(er_bank.accounts[&delegated_account].data, delegated_data);
}

#[test]
fn managers_without_a_session_do_nothing() {
    let bank = Bank::new();
    let mut manager = Manager::new(config(), 100);
    let sink = WithdrawalSink {
        address: [92; 32],
        exists: false,
    };
    assert!(manager
        .settlement_transactions_if_due(
            &bank.on(&bank),
            &BLOCKHASH,
            &None,
            &no_sinks(),
            &ADDRESSES
        )
        .is_none());
    assert!(manager.settlement_plan(&no_sinks()).is_none());
    assert!(manager.settlement_instructions(&no_sinks()).is_none());
    assert!(manager.state_diff_from_l1().is_none());
    assert!(manager.credit_deposit(&[1; 32], 5, None, &sink).is_none());
    assert!(!manager.deactivate_session());
    assert!(manager
        .activate_session(bank.anchor(), [1; 32], 1, 2, 3)
        .is_none());
    manager.init_runtime(bank.anchor()).unwrap();
    assert!(!manager.has_active_runtime());
    assert!(manager.credit_deposit(&[1; 32], 5, None, &sink).is_none());
    assert!(manager.reanchor_to_l1_parent(bank.anchor()).is_none());
    assert!(manager
        .refresh_delegated_owner_programs(&bank.snapshot(), &KeyMap::new())
        .is_none());
}

#[test]
fn sessions_are_activated_and_credited() {
    let bank = Bank::new();
    let mut manager = Manager::new(config(), 100);
    manager.set_slot_duration(25);
    manager.set_er_history_max_retained_slots(9);
    assert_eq!(manager.slot_duration_ms, 25);
    assert_eq!(manager.er_history_max_retained_slots, 9);
    manager.init_runtime(bank.anchor()).unwrap();
    manager
        .activate_session(bank.anchor(), [50; 32], 1, 2, 3)
        .unwrap();
    assert!(manager.has_active_runtime());
    assert_eq!(manager.session_pda(), Some([50; 32]));
    assert!(manager.settlement_plan(&no_sinks()).is_none());
    let sink = WithdrawalSink {
        address: [92; 32],
        exists: false,
    };
    let update = manager.credit_deposit(&[1; 32], 5, None, &sink).unwrap();
    assert_eq!(update.writes.len(), 2);
    assert_eq!(manager.state_diff_from_l1().unwrap().accounts.len(), 2);
    assert!(manager.reanchor_to_l1_parent(bank.anchor()).is_some());
    assert!(manager.deactivate_session());
    assert!(!manager.has_active_runtime());
    assert_eq!(manager.session_pda(), None);
}

struct Flow {
    bank: Bank,
    manager: Manager,
    session_pda: Pubkey,
    delegated: Pubkey,
    l1_data: Vec<u8>,
    er_data: Vec<u8>,
}

fn checkpoint_flow() -> Flow {
    let delegated = [1; 32];
    let owner_program = [2; 32];
    let l1_data = vec![0x10, 0x11, 0x12, 0x13];
    let er_data = vec![0x20, 0x21, 0x22, 0x23];
    let mut bank = Bank::new();
    let session_pda = bank.open_session(7, 1_000, 123_456);
    bank.store(delegated, account(1_000_000, &l1_data, PORTAL));
    bank.store_delegation_record(&delegated, owner_program, 7);
    let mut manager = Manager::new(config(), 100);
    create_runtime(
        &mut manager,
        &bank,
        &settings(session_pda, 7, vec![delegated]),
    );
    let runtime = manager.runtime.as_mut().unwrap();
    runtime.set_session_pda(session_pda);
    runtime.handle_delegation_with_owner_program(
        &delegated,
        &account(1_000_000, &er_data, PORTAL),
        Some(owner_program),
    );
    Flow {
        bank,
        manager,
        session_pda,
        delegated,
        l1_data,
        er_data,
    }
}

/// Writes the checkpoint that the portal program makes of a proposal.
fn propose(bank: &mut Bank, session: Pubkey, plan: &SettlementPlan, window: u64) -> Checkpoint {
    let checkpoint = Checkpoint {
        valid: true,
        session,
        er_slot: plan.er_slot,
        previous_state_root: [0; 32],
        new_state_root: [1; 32],
        effect_commitment: plan.checksum,
        proposer: manager_key(),
        proposed_at_l1_slot: bank.slot,
        challenge_deadline_l1_slot: bank.slot + window,
        status: CheckpointStatus::Pending,
        challenged_at_l1_slot: 0,
    };
    bank.store_portal(CHECKPOINT, 1_000_000, PortalAccount::Checkpoint(checkpoint));
    checkpoint
}

fn set_checkpoint(bank: &mut Bank, checkpoint: Checkpoint) {
    bank.portal
        .insert(CHECKPOINT, PortalAccount::Checkpoint(checkpoint));
}

#[test]
fn validator_checkpoint_flow_waits_then_settles() {
    let mut flow = checkpoint_flow();
    let mut bank = flow.bank.child(flow.bank.slot + 10);
    let outcome = due(&mut flow.manager, &bank, &None);
    let (plan, action) = outcome.due.unwrap();
    assert_eq!(
        action,
        SettlementAction::Propose {
            challenge_window_slots: 10,
            previous_state_root: [0; 32],
        }
    );
    let checkpoint = propose(&mut bank, flow.session_pda, &plan, 10);
    assert_eq!(bank.accounts[&flow.delegated].data, flow.l1_data);
    let stored = checkpoint_plan_bytes(&plan);
    assert!(stored.is_some());

    let mut manager = Manager::new(config(), 100);
    manager.init_runtime(bank.anchor()).unwrap();
    assert!(manager
        .resume_active_session_from_l1(bank.anchor(), false)
        .is_some());

    let mut waiting = bank.child(checkpoint.challenge_deadline_l1_slot - 1);
    assert!(due(&mut manager, &waiting, &stored).due.is_none());

    let challenged = Checkpoint {
        status: CheckpointStatus::Challenged,
        challenged_at_l1_slot: waiting.slot,
        ..checkpoint
    };
    set_checkpoint(&mut waiting, challenged);
    let at_deadline = waiting.child(checkpoint.challenge_deadline_l1_slot);
    assert!(due(&mut manager, &at_deadline, &stored).due.is_none());

    let mut expired = at_deadline.child(challenge_resolution_deadline(&challenged).unwrap());
    let outcome = due(&mut manager, &expired, &stored);
    assert!(!outcome.discard_stored);
    let (settled, action) = outcome.due.unwrap();
    assert_eq!(settled, plan);
    let SettlementAction::Submit {
        commit_first,
        transactions,
    } = action
    else {
        panic!("expected a submission");
    };
    assert!(commit_first);
    let first: Transaction = bincode::deserialize(&transactions[0]).unwrap();
    assert_eq!(
        first.message.instructions[0].data[0],
        PROTOCOL.begin_settlement
    );
    assert_eq!(expired.accounts[&flow.delegated].data, flow.l1_data);
    for transaction in &transactions {
        expired.process(transaction);
    }
    assert_eq!(expired.accounts[&flow.delegated].data, flow.er_data);

    set_checkpoint(
        &mut expired,
        Checkpoint {
            status: CheckpointStatus::Settled,
            ..checkpoint
        },
    );
    let outcome = due(&mut manager, &expired, &stored);
    assert_eq!(
        outcome.finished,
        vec![StoredPlanId {
            proposer: manager_key(),
            er_slot: plan.er_slot,
        }]
    );
    assert!(manager
        .checkpoint_plans
        .get(&flow.session_pda, plan.er_slot)
        .is_none());
}

#[test]
fn validator_settlement_requires_finalized_checkpoint() {
    let grid_id = 1;
    let mut bank = Bank::new();
    let session_pda = bank.open_session(grid_id, 1000, 5_000_000_000);
    let delegated_account = [1; 32];
    let owner_program = [2; 32];
    let l1_data = vec![0, 0, 0, 0];
    let er_data = vec![1, 2, 3, 4];
    let l1_account = account(1_000_000, &l1_data, PORTAL);
    let er_account = account(1_000_000, &er_data, PORTAL);
    bank.store(delegated_account, l1_account.clone());
    bank.store_delegation_record(&delegated_account, owner_program, grid_id);
    let mut manager = Manager::new(config(), 100);
    create_runtime(
        &mut manager,
        &bank,
        &settings(session_pda, grid_id, vec![delegated_account]),
    );
    let runtime = manager.runtime.as_mut().unwrap();
    runtime.set_session_pda(session_pda);
    runtime.handle_delegation_with_owner_program(
        &delegated_account,
        &er_account,
        Some(owner_program),
    );

    let mut settlement_bank = bank.child(bank.slot + 11);
    let diff = ErStateDiff {
        accounts: vec![ErStateDiffAccount {
            pubkey: delegated_account,
            l1_account: Some(l1_account),
            er_account,
            l1_lt_hash: LtHash::identity(),
            er_lt_hash: LtHash::identity(),
        }],
        lt_hash: LtHash::identity(),
    };
    let mut delegated_accounts = KeySet::new();
    delegated_accounts.insert(delegated_account);
    let plan =
        build_settlement_plan(&diff, &delegated_accounts, 7, vec![], &PROTOCOL.limits).unwrap();
    assert_eq!(plan.er_slot, 7);

    let checkpoint = propose(&mut settlement_bank, session_pda, &plan, 2);
    manager.cache_checkpoint_plan(&session_pda, plan.clone());
    assert!(due(&mut manager, &settlement_bank, &None).due.is_none());
    assert_eq!(settlement_bank.accounts[&delegated_account].data, l1_data);

    let mut finalized_bank = settlement_bank.child(bank.slot + 14);
    set_checkpoint(
        &mut finalized_bank,
        Checkpoint {
            status: CheckpointStatus::Committed,
            ..checkpoint
        },
    );
    let (settled, action) = due(&mut manager, &finalized_bank, &None).due.unwrap();
    assert_eq!(settled, plan);
    let transactions = plan
        .portal_transactions(&PROTOCOL, PORTAL, session_pda, &SECRET, &BLOCKHASH)
        .unwrap();
    assert_eq!(transactions.len(), 1);
    assert_eq!(
        action,
        SettlementAction::Submit {
            commit_first: false,
            transactions: transactions.clone(),
        }
    );
    finalized_bank.process(&transactions[0]);
    finish_settlement(&mut finalized_bank, session_pda, &transactions[0]);
    assert_eq!(finalized_bank.accounts[&delegated_account].data, er_data);
    let Some(PortalAccount::Session(session)) = finalized_bank.portal.get(&session_pda) else {
        panic!("session should exist");
    };
    assert_eq!(session.last_settled_er_slot, plan.er_slot);
    let Some(PortalAccount::Checkpoint(checkpoint)) = finalized_bank.portal.get(&CHECKPOINT) else {
        panic!("checkpoint should exist");
    };
    assert_eq!(checkpoint.status, CheckpointStatus::Settled);

    let reuse_bank = finalized_bank.child(bank.slot + 15);
    let reuse_transactions = plan
        .portal_transactions(&PROTOCOL, PORTAL, session_pda, &SECRET, &[34; 32])
        .unwrap();
    assert_eq!(reuse_transactions.len(), 1);
    let outcome = due(&mut manager, &reuse_bank, &None);
    assert!(outcome.due.is_none());
    assert_eq!(
        outcome.finished,
        vec![StoredPlanId {
            proposer: manager_key(),
            er_slot: plan.er_slot,
        }]
    );
}

#[test]
fn settlements_keep_to_the_checkpoint_they_started_with() {
    let mut flow = checkpoint_flow();
    let mut bank = flow.bank.child(flow.bank.slot + 10);
    let (plan, _) = due(&mut flow.manager, &bank, &None).due.unwrap();
    let checkpoint = propose(&mut bank, flow.session_pda, &plan, 10);
    flow.manager
        .cache_checkpoint_plan(&flow.session_pda, plan.clone());
    flow.manager
        .runtime
        .as_mut()
        .unwrap()
        .handle_delegation_with_owner_program(
            &flow.delegated,
            &account(1_000_000, &[0x30, 0x31, 0x32, 0x33], PORTAL),
            Some([2; 32]),
        );
    let mut expired = bank.child(checkpoint.challenge_deadline_l1_slot);
    let (settled, action) = due(&mut flow.manager, &expired, &None).due.unwrap();
    assert_eq!(settled, plan);
    let SettlementAction::Submit { transactions, .. } = action else {
        panic!("expected a submission");
    };
    for transaction in &transactions {
        expired.process(transaction);
    }
    assert_eq!(expired.accounts[&flow.delegated].data, flow.er_data);
}

#[test]
fn tampered_plans_are_discarded() {
    let mut flow = checkpoint_flow();
    let mut bank = flow.bank.child(flow.bank.slot + 10);
    let (mut plan, _) = due(&mut flow.manager, &bank, &None).due.unwrap();
    let checkpoint = propose(&mut bank, flow.session_pda, &plan, 10);
    plan.chunks[0].data[0] ^= 0xFF;
    let stored = checkpoint_plan_bytes(&plan);

    let mut manager = Manager::new(config(), 100);
    manager.init_runtime(bank.anchor()).unwrap();
    manager
        .resume_active_session_from_l1(bank.anchor(), false)
        .unwrap();
    let expired = bank.child(checkpoint.challenge_deadline_l1_slot);
    let outcome = due(&mut manager, &expired, &stored);
    assert!(outcome.due.is_none());
    assert!(outcome.discard_stored);
}

#[test]
fn settlements_in_progress_are_retried_without_their_beginning() {
    let mut flow = checkpoint_flow();
    let mut bank = flow.bank.child(flow.bank.slot + 10);
    let (plan, _) = due(&mut flow.manager, &bank, &None).due.unwrap();
    flow.manager
        .cache_checkpoint_plan(&flow.session_pda, plan.clone());
    bank.portal.insert(
        flow.session_pda,
        PortalAccount::Session(Session {
            settlement_status: SettlementStatus::InProgress,
            settlement_er_slot: plan.er_slot,
            settlement_checksum: plan.checksum,
            ..session_of(manager_key(), 1)
        }),
    );
    let (_, action) = due(&mut flow.manager, &bank, &None).due.unwrap();
    let SettlementAction::Submit {
        commit_first,
        transactions,
    } = action
    else {
        panic!("expected a submission");
    };
    assert!(!commit_first);
    let first: Transaction = bincode::deserialize(&transactions[0]).unwrap();
    assert_eq!(
        first.message.instructions[0].data[0],
        PROTOCOL.write_settlement_chunk
    );

    let blocked = SettlementPlan {
        unsupported_changes: vec![SettlementUnsupportedChange::MissingL1Account {
            account: flow.delegated,
        }],
        ..plan.clone()
    };
    flow.manager
        .cache_checkpoint_plan(&flow.session_pda, blocked);
    assert!(due(&mut flow.manager, &bank, &None).due.is_none());

    bank.portal.insert(
        flow.session_pda,
        PortalAccount::Session(Session {
            settlement_status: SettlementStatus::InProgress,
            settlement_er_slot: plan.er_slot,
            settlement_checksum: [0; 32],
            ..session_of(manager_key(), 1)
        }),
    );
    assert!(due(&mut flow.manager, &bank, &None).due.is_none());
}

#[test]
fn settlements_wait_for_their_interval() {
    let mut flow = checkpoint_flow();
    let early = flow.bank.child(flow.bank.slot + 9);
    assert!(due(&mut flow.manager, &early, &None).due.is_none());
    let mut closed = flow.bank.child(flow.bank.slot + 10);
    closed.accounts.remove(&flow.session_pda);
    assert!(due(&mut flow.manager, &closed, &None).due.is_none());
    let list = flow.manager.settlement_instructions(&no_sinks()).unwrap();
    assert_eq!(list[0].data[0], PROTOCOL.begin_settlement);
    assert_eq!(list.len(), 3);
}

#[test]
fn managers_sign_anew() {
    let mut flow = checkpoint_flow();
    let plan = flow.manager.settlement_plan(&no_sinks()).unwrap();
    let signed = |blockhash: &[u8; 32]| {
        plan.portal_transactions(&PROTOCOL, PORTAL, flow.session_pda, &SECRET, blockhash)
            .unwrap()
            .remove(0)
    };
    assert_eq!(
        flow.manager
            .resign_settlement_transaction(&signed(&BLOCKHASH), &[44; 32]),
        Some(signed(&[44; 32]))
    );
    assert!(flow.manager.shutdown_runtime().is_some());
}

fn small_plan() -> SettlementPlan {
    let mut plan = SettlementPlan {
        er_slot: 9,
        checksum: [0; 32],
        chunks: vec![SettlementChunk {
            account: [1; 32],
            account_data_offset: 3,
            data: vec![7, 8],
        }],
        owner_changes: vec![],
        lamport_changes: vec![],
        receipt_balances: vec![],
        unsupported_changes: vec![],
    };
    plan.checksum = plan.recomputed_checksum();
    plan
}

#[test]
fn stored_plans_are_read_back_for_their_commitment_only() {
    let plan = small_plan();
    let bytes = checkpoint_plan_bytes(&plan).unwrap();
    let mut expected = 9u64.to_le_bytes().to_vec();
    expected.extend_from_slice(&plan.checksum);
    expected.extend_from_slice(&1u32.to_le_bytes());
    expected.extend_from_slice(&[1; 32]);
    expected.extend_from_slice(&3u32.to_le_bytes());
    expected.extend_from_slice(&2u32.to_le_bytes());
    expected.extend_from_slice(&[7, 8]);
    expected.extend_from_slice(&[0; 12]);
    assert_eq!(bytes, expected);
    assert_eq!(load_checkpoint_plan(&bytes, &plan.checksum), Some(plan.clone()));
    assert_eq!(load_checkpoint_plan(&bytes, &[0; 32]), None);
    assert_eq!(load_checkpoint_plan(&bytes[1..], &plan.checksum), None);
    let mut changed = plan.clone();
    changed.chunks[0].data[0] ^= 1;
    let bytes = checkpoint_plan_bytes(&changed).unwrap();
    assert_eq!(load_checkpoint_plan(&bytes, &plan.checksum), None);
}

#[test]
fn plans_are_kept_by_session_and_slot() {
    let mut plans = PlanCache::new();
    plans.insert(&[1; 32], 9, small_plan());
    assert_eq!(plans.get(&[1; 32], 9), Some(&small_plan()));
    assert_eq!(plans.get(&[1; 32], 8), None);
    assert_eq!(plans.get(&[2; 32], 9), None);
    plans.remove(&[1; 32], 8);
    assert!(plans.get(&[1; 32], 9).is_some());
    plans.remove(&[1; 32], 9);
    assert_eq!(plans.get(&[1; 32], 9), None);
}

#[test]
fn plan_files_are_named_by_addresses_and_slot() {
    let text = |key: Pubkey| solana_pubkey::Pubkey::new_from_array(key).to_string();
    assert_eq!(
        checkpoint_plan_file_name(&PORTAL, &[50; 32], &[3; 32], 1_234_567_890),
        format!(
            "{}-{}-{}-1234567890.borsh",
            text(PORTAL),
            text([50; 32]),
            text([3; 32])
        )
    );
    assert!(checkpoint_plan_file_name(&PORTAL, &[50; 32], &[3; 32], 0).ends_with("-0.borsh"));
}

fn checkpoint(status: CheckpointStatus) -> Checkpoint {
    let plan = small_plan();
    Checkpoint {
        valid: true,
        session: [50; 32],
        er_slot: plan.er_slot,
        previous_state_root: [0; 32],
        new_state_root: [1; 32],
        effect_commitment: plan.checksum,
        proposer: manager_key(),
        proposed_at_l1_slot: 100,
        challenge_deadline_l1_slot: 110,
        status,
        challenged_at_l1_slot: 105,
    }
}

#[test]
fn checkpoints_decide_the_next_step() {
    let plan = small_plan();
    let step = |slot: u64, checkpoint: Checkpoint| {
        step_for_existing_checkpoint(slot, &[50; 32], &plan, &checkpoint)
    };
    let pending = checkpoint(CheckpointStatus::Pending);
    assert_eq!(step(109, pending), CheckpointStep::Wait);
    assert_eq!(step(110, pending), CheckpointStep::CommitThenSettle);
    assert_eq!(step(0, checkpoint(CheckpointStatus::Committed)), CheckpointStep::Settle);
    let challenged = checkpoint(CheckpointStatus::Challenged);
    assert_eq!(challenge_resolution_deadline(&challenged), Some(115));
    assert_eq!(step(114, challenged), CheckpointStep::Wait);
    assert_eq!(step(115, challenged), CheckpointStep::CommitThenSettle);
    for status in [
        CheckpointStatus::Settled,
        CheckpointStatus::Cancelled,
        CheckpointStatus::Invalid,
    ] {
        assert_eq!(step(500, checkpoint(status)), CheckpointStep::Forget);
    }
    for refused in [
        Checkpoint { valid: false, ..pending },
        Checkpoint { session: [1; 32], ..pending },
        Checkpoint { er_slot: 10, ..pending },
        Checkpoint { effect_commitment: [0; 32], ..pending },
        Checkpoint { challenge_deadline_l1_slot: 99, ..challenged },
        Checkpoint { challenged_at_l1_slot: u64::MAX, ..challenged },
    ] {
        assert_eq!(step(500, refused), CheckpointStep::Refuse);
    }
}

#[test]
fn plans_with_nothing_to_send_are_not_due() {
    let signer = SettlementSigner {
        protocol: PROTOCOL,
        portal_program_id: PORTAL,
        validator_secret: SECRET,
        recent_blockhash: BLOCKHASH,
    };
    let empty = SettlementPlan {
        chunks: vec![],
        owner_changes: vec![],
        lamport_changes: vec![],
        receipt_balances: vec![],
        ..small_plan()
    };
    let blocked = SettlementPlan {
        unsupported_changes: vec![SettlementUnsupportedChange::MissingL1Account {
            account: [1; 32],
        }],
        ..small_plan()
    };
    for plan in [empty, blocked] {
        let mut plans = PlanCache::new();
        let mut action = |slot: u64, status: CheckpointStatus| {
            transactions_for_existing_checkpoint(
                &signer,
                slot,
                &[50; 32],
                &plan,
                &checkpoint(status),
                &mut plans,
            )
        };
        assert_eq!(
            action(0, CheckpointStatus::Committed),
            Some(SettlementAction::Submit {
                commit_first: false,
                transactions: vec![],
            })
        );
        assert_eq!(
            action(110, CheckpointStatus::Pending),
            Some(SettlementAction::Submit {
                commit_first: true,
                transactions: vec![],
            })
        );
        assert_eq!(action(109, CheckpointStatus::Pending), None);
        assert_eq!(action(110, CheckpointStatus::Settled), None);
    }
}

#[test]
fn proposals_follow_the_last_final_checkpoint() {
    let plan = small_plan();
    let mut bank = Bank::new();
    bank.store_portal(
        CURSOR,
        1,
        PortalAccount::CheckpointCursor(CheckpointCursor {
            session: [50; 32],
            latest_finalized_er_slot: 8,
            latest_finalized_state_root: [6; 32],
        }),
    );
    let decide = |bank: &Bank, interval: u64| {
        checkpoint_or_settlement(&PORTAL, &bank.on(bank), &[50; 32], &plan, interval, &ADDRESSES)
    };
    assert_eq!(
        decide(&bank, 3),
        CheckpointDecision::Propose {
            challenge_window_slots: 10,
            previous_state_root: [6; 32],
        }
    );
    set_checkpoint(&mut bank, checkpoint(CheckpointStatus::Settled));
    bank.store(CHECKPOINT, account(1, &[1], PORTAL));
    assert_eq!(
        decide(&bank, 30),
        CheckpointDecision::Propose {
            challenge_window_slots: 30,
            previous_state_root: [6; 32],
        }
    );
    set_checkpoint(&mut bank, checkpoint(CheckpointStatus::Committed));
    assert_eq!(
        decide(&bank, 3),
        CheckpointDecision::Existing(CheckpointStep::Settle)
    );
    bank.portal.remove(&CHECKPOINT);
    assert_eq!(
        decide(&bank, 3),
        CheckpointDecision::Existing(CheckpointStep::Refuse)
    );
}

#[test]
fn creation_errors_say_why() {
    let error = NorthStarError::RuntimeCreationFailed(String::from("no port"));
    assert_eq!(
        error.message(),
        "Failed to create ephemeral runtime: no port"
    );
}
