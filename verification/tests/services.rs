use northstar::accounts::{Account, Pubkey};
use northstar::addresses::find_delegation_record_pda;
use northstar::instructions::AccountMeta;
use northstar::keyed::{KeyMap, KeySet};
use northstar::ledger::{AccountMap, Snapshot};
use northstar::network::{
    advertise_addr, rpc_url, wire_transactions, ws_url, IpAddress, NodeAddress, ReceivedPacket,
};
use northstar::order::{is_canonical_scalar, is_zero32, lex_less_than};
use northstar::portal_state::{
    portal_account_kind, try_parse_raw_portal_account, DelegationRecord, Discriminators,
    PortalAccount, PortalAccountKind, Readings,
};
use northstar::runtime::slots::er_slot_for;
use northstar::runtime::token_deposit::{
    has_pending_token_deposit, is_token_deposit_credited, token_deposit_of, ErTokenAccount,
    ProgressKind, TokenCredit, TokenDepositProgress, TokenProtocol, TokenView,
};
use northstar::runtime::{Anchor, EphemeralRollupSettings, EphemeralRuntime};
use northstar::slot_advancer::{
    advance_slot, initial_tick_height, publish_bank, publish_processed_slot, CommitmentSlots,
    Config, WorkingBank,
};
use northstar::well_known::SYSTEM_PROGRAM_ID;

fn all_at(slot: u64) -> CommitmentSlots {
    CommitmentSlots {
        slot,
        root: slot,
        highest_confirmed_slot: slot,
        highest_super_majority_root: slot,
    }
}

#[test]
fn rounds_advance_one_slot_and_root_it() {
    let initial = er_slot_for(100);
    let mut bank = WorkingBank {
        slot: initial,
        tick_height: 3,
        max_tick_height: 64,
        parent_slot: Some(100),
    };
    let advance = advance_slot(false, &bank).unwrap();
    assert_eq!(advance.ticks, 61);
    assert_eq!(advance.frozen_slot, initial);
    assert_eq!(advance.next_slot, initial + 1);
    assert!(!advance.disconnect_parent);
    assert_eq!(advance.commitment, all_at(initial));

    bank.slot = advance.next_slot;
    bank.parent_slot = Some(advance.frozen_slot);
    let next = advance_slot(false, &bank).unwrap();
    assert!(next.disconnect_parent);
    assert_eq!(next.commitment.root, initial + 1);
    assert_eq!(advance_slot(true, &bank), None);
}

#[test]
fn published_banks_let_go_of_grandparents_on_the_rollup() {
    let bank = WorkingBank {
        slot: er_slot_for(100) + 5,
        tick_height: 0,
        max_tick_height: 64,
        parent_slot: Some(er_slot_for(100) + 4),
    };
    let publication = publish_bank(&bank);
    assert_eq!(publication.frozen_slot, bank.slot);
    assert_eq!(publication.next_slot, bank.slot + 1);
    assert!(publication.disconnect_grandparent);
    assert_eq!(publication.commitment, all_at(bank.slot));
    let first = WorkingBank {
        parent_slot: Some(100),
        ..bank
    };
    assert!(!publish_bank(&first).disconnect_grandparent);
    let alone = WorkingBank {
        parent_slot: None,
        ..bank
    };
    assert!(!publish_bank(&alone).disconnect_grandparent);
}

#[test]
fn processed_slots_move_nothing_else() {
    let moved = publish_processed_slot(&all_at(7), 9);
    assert_eq!(moved, CommitmentSlots { slot: 9, ..all_at(7) });
    assert_eq!(initial_tick_height(64 * 8, 64), 64 * 7);
    let config = Config::default();
    assert_eq!(config.slot_duration_ms, 10);
    assert_eq!(config.manager_account, [0; 32]);
}

#[test]
fn services_on_no_host_are_advertised_locally() {
    let everywhere = NodeAddress {
        ip: IpAddress::V4([0; 4]),
        port: 8899,
    };
    let local = NodeAddress {
        ip: IpAddress::V4([127, 0, 0, 1]),
        port: 8899,
    };
    assert_eq!(advertise_addr(everywhere), local);
    assert_eq!(
        advertise_addr(NodeAddress {
            ip: IpAddress::V6([0; 16]),
            port: 8899,
        }),
        local
    );
    let named = NodeAddress {
        ip: IpAddress::V4([10, 0, 0, 7]),
        port: 1,
    };
    assert_eq!(advertise_addr(named), named);
    assert_eq!(rpc_url(&String::from("10.0.0.7:1")), "http://10.0.0.7:1");
    assert_eq!(ws_url(&String::from("10.0.0.7:2")), "ws://10.0.0.7:2");
}

#[test]
fn discarded_packets_are_left_out() {
    let packets = vec![
        ReceivedPacket {
            discard: false,
            data: Some(vec![1, 2]),
        },
        ReceivedPacket {
            discard: true,
            data: Some(vec![3]),
        },
        ReceivedPacket {
            discard: false,
            data: None,
        },
    ];
    assert_eq!(wire_transactions(&packets), vec![vec![1, 2], vec![]]);
}

fn discriminators() -> Discriminators {
    Discriminators {
        session: vec![1, 1],
        fee_vault: vec![2, 2],
        delegation_record: vec![3, 3],
        deposit_receipt: vec![4, 4],
        checkpoint: vec![5, 5],
        checkpoint_cursor: vec![6, 6],
        challenge: vec![7, 7],
        data_availability_proof: vec![8, 8],
        step_proof_account: vec![9, 9],
        session_bridge: vec![10, 10],
        token_withdrawal_authorization: vec![11, 11],
        undelegation_request: vec![12, 12],
    }
}

fn no_readings() -> Readings {
    Readings {
        session: None,
        fee_vault: false,
        delegation_record: None,
        deposit_receipt: None,
        checkpoint: None,
        checkpoint_cursor: None,
        challenge: false,
        data_availability_proof: false,
        step_proof_account: false,
        session_bridge: false,
        token_withdrawal_authorization: false,
        undelegation_request: false,
    }
}

#[test]
fn portal_accounts_are_told_apart_by_their_first_bytes() {
    let kinds = [
        PortalAccountKind::Session,
        PortalAccountKind::FeeVault,
        PortalAccountKind::DelegationRecord,
        PortalAccountKind::DepositReceipt,
        PortalAccountKind::Checkpoint,
        PortalAccountKind::CheckpointCursor,
        PortalAccountKind::Challenge,
        PortalAccountKind::DataAvailabilityProof,
        PortalAccountKind::StepProofAccount,
        PortalAccountKind::SessionBridge,
        PortalAccountKind::TokenWithdrawalAuthorization,
        PortalAccountKind::UndelegationRequest,
    ];
    for (index, kind) in kinds.iter().enumerate() {
        let byte = index as u8 + 1;
        assert_eq!(
            portal_account_kind(&[byte, byte, 0], &discriminators()),
            Some(*kind)
        );
    }
    assert_eq!(portal_account_kind(&[1], &discriminators()), None);
    assert_eq!(portal_account_kind(&[1, 2], &discriminators()), None);
}

#[test]
fn portal_accounts_are_read_by_the_layout_of_their_kind() {
    let record = DelegationRecord {
        valid: true,
        owner_program: [2; 32],
        grid_id: 5,
    };
    let readings = Readings {
        delegation_record: Some(record),
        fee_vault: true,
        ..no_readings()
    };
    let read = |data: &[u8]| try_parse_raw_portal_account(data, &discriminators(), &readings);
    assert_eq!(read(&[3, 3, 9]), Some(PortalAccount::DelegationRecord(record)));
    assert_eq!(read(&[2, 2]), Some(PortalAccount::FeeVault));
    assert_eq!(read(&[1, 1]), None);
    assert_eq!(read(&[7, 7]), None);
    assert_eq!(read(&[0, 0]), None);
}

const BRIDGE_PROGRAM: Pubkey = [20; 32];

const TOKEN_ACCOUNT: Pubkey = [21; 32];

const RECEIPT: Pubkey = [22; 32];

const PAYER: Pubkey = [23; 32];

const PORTAL: Pubkey = [90; 32];

const SESSION: Pubkey = [91; 32];

fn account(lamports: u64, data: &[u8], owner: Pubkey) -> Account {
    Account {
        lamports,
        data: data.to_vec(),
        owner,
        executable: false,
        rent_epoch: 0,
    }
}

fn protocol() -> TokenProtocol {
    TokenProtocol {
        origin_seed: b"origin".to_vec(),
        cursor_seed: b"cursor".to_vec(),
        apply_tag: 6,
    }
}

fn bridge_address(seeds: &[&[u8]]) -> (Pubkey, u8) {
    let (address, bump) =
        solana_pubkey::Pubkey::find_program_address(seeds, &BRIDGE_PROGRAM.into());
    (address.to_bytes(), bump)
}

fn view() -> TokenView {
    TokenView {
        accounts: KeyMap::new(),
        tokens: KeyMap::new(),
        progress: KeyMap::new(),
        receipts: KeyMap::new(),
    }
}

/// Layer one with an origin of 100 and a receipt.
fn layer_one(balance: u64) -> TokenView {
    let mut l1 = view();
    let (origin, bump) = bridge_address(&[b"origin", &TOKEN_ACCOUNT]);
    l1.accounts.insert(origin, account(1, &[1], BRIDGE_PROGRAM));
    l1.progress.insert(
        origin,
        TokenDepositProgress {
            kind: ProgressKind::Origin,
            bump,
            balance: 100,
        },
    );
    l1.accounts.insert(RECEIPT, account(1, &[1], BRIDGE_PROGRAM));
    l1.receipts.insert(RECEIPT, balance);
    l1
}

fn cursor() -> (Pubkey, u8) {
    bridge_address(&[b"cursor", &TOKEN_ACCOUNT, &100u64.to_le_bytes()])
}

/// The rollup with the token account, and a cursor if one is given.
fn rollup(credited: Option<u64>) -> TokenView {
    let mut er = view();
    er.accounts
        .insert(TOKEN_ACCOUNT, account(1, &[1], BRIDGE_PROGRAM));
    er.accounts
        .insert(PAYER, account(1, &[], SYSTEM_PROGRAM_ID));
    er.tokens.insert(
        TOKEN_ACCOUNT,
        ErTokenAccount {
            valid: true,
            session_bridge: [24; 32],
        },
    );
    if let Some(balance) = credited {
        let (address, bump) = cursor();
        er.accounts.insert(address, account(1, &[1], BRIDGE_PROGRAM));
        er.progress.insert(
            address,
            TokenDepositProgress {
                kind: ProgressKind::Cursor,
                bump,
                balance,
            },
        );
    }
    er
}

fn runtime() -> EphemeralRuntime {
    let anchor = Anchor {
        slot: 0,
        snapshot: Snapshot::new(),
    };
    let settings = EphemeralRollupSettings {
        session_pda: SESSION,
        grid_id: 0,
        ttl_slots: 100,
        er_fee_structure: EphemeralRollupSettings::zero_fee_structure(),
        fee_cap: 1000,
        delegated_accounts: vec![],
    };
    let (mut runtime, _) = EphemeralRuntime::new(anchor, &settings, PORTAL);
    runtime.activate();
    runtime.set_session_pda(SESSION);
    runtime.handle_delegation(&TOKEN_ACCOUNT, &account(1, &[1], BRIDGE_PROGRAM));
    runtime
}

#[test]
fn token_deposits_are_credited_by_one_instruction() {
    let l1 = layer_one(150);
    let er = rollup(Some(120));
    let deposit = token_deposit_of(&l1, &er, &TOKEN_ACCOUNT, &RECEIPT).unwrap();
    assert_eq!(deposit.balance, 150);
    assert_eq!(deposit.program, BRIDGE_PROGRAM);
    assert_eq!(deposit.bridge, [24; 32]);
    let credit =
        runtime().credit_token_deposit(&l1, &er, &protocol(), false, &PAYER, &deposit);
    let TokenCredit::Apply {
        cursor: found,
        instruction,
    } = credit
    else {
        panic!("expected an instruction");
    };
    assert_eq!(found, cursor().0);
    assert_eq!(instruction.program_id, BRIDGE_PROGRAM);
    let mut data = vec![6];
    data.extend_from_slice(&150u64.to_le_bytes());
    assert_eq!(instruction.data, data);
    assert_eq!(
        instruction.accounts,
        vec![
            AccountMeta::new(PAYER, true),
            AccountMeta::new(TOKEN_ACCOUNT, false),
            AccountMeta::new_readonly([24; 32], false),
            AccountMeta::new_readonly(PORTAL, false),
            AccountMeta::new_readonly(SESSION, false),
            AccountMeta::new_readonly(
                find_delegation_record_pda(&PORTAL, &TOKEN_ACCOUNT).unwrap(),
                false
            ),
            AccountMeta::new_readonly(RECEIPT, false),
            AccountMeta::new_readonly(bridge_address(&[b"origin", &TOKEN_ACCOUNT]).0, false),
            AccountMeta::new(cursor().0, false),
            AccountMeta::new_readonly(SYSTEM_PROGRAM_ID, false),
        ]
    );
    let after = rollup(Some(150));
    assert!(is_token_deposit_credited(&after, &found, 150));
    assert!(!is_token_deposit_credited(&er, &found, 150));
    assert_eq!(
        runtime().credit_token_deposit(&l1, &after, &protocol(), false, &PAYER, &deposit),
        TokenCredit::Credited
    );
}

#[test]
fn token_deposits_wait_for_a_rollup_that_can_take_them() {
    let l1 = layer_one(150);
    let er = rollup(None);
    let deposit = token_deposit_of(&l1, &er, &TOKEN_ACCOUNT, &RECEIPT).unwrap();
    let refused = |runtime: &EphemeralRuntime, l1: &TokenView, er: &TokenView, frozen: bool| {
        runtime.credit_token_deposit(l1, er, &protocol(), frozen, &PAYER, &deposit)
            == TokenCredit::Refused
    };
    assert!(!refused(&runtime(), &l1, &er, false));
    assert!(refused(&runtime(), &l1, &er, true));
    let mut inactive = runtime();
    inactive.deactivate();
    assert!(refused(&inactive, &l1, &er, false));
    let mut undelegated = runtime();
    undelegated.delegated_accounts = KeySet::new();
    assert!(refused(&undelegated, &l1, &er, false));
    assert!(refused(&runtime(), &view(), &er, false));
    assert!(refused(&runtime(), &l1, &rollup(Some(99)), false));
    let mut unpaid = rollup(None);
    let mut accounts: AccountMap = KeyMap::new();
    accounts.insert(TOKEN_ACCOUNT, account(1, &[1], BRIDGE_PROGRAM));
    unpaid.accounts = accounts;
    assert!(refused(&runtime(), &l1, &unpaid, false));
}

#[test]
fn deposits_are_pending_until_the_cursor_has_them() {
    let pending = |l1: &TokenView, er: &TokenView| {
        has_pending_token_deposit(l1, er, &protocol(), &TOKEN_ACCOUNT, &RECEIPT)
    };
    assert!(pending(&layer_one(150), &rollup(None)));
    assert!(pending(&layer_one(150), &rollup(Some(149))));
    assert!(!pending(&layer_one(150), &rollup(Some(150))));
    assert!(!pending(&layer_one(100), &rollup(None)));
    assert!(!pending(&view(), &rollup(None)));
    assert!(!pending(&layer_one(150), &view()));
    let mut stray = layer_one(150);
    stray.accounts.insert(RECEIPT, account(1, &[1], [1; 32]));
    assert!(pending(&stray, &rollup(Some(150))));
    assert!(token_deposit_of(&layer_one(150), &view(), &TOKEN_ACCOUNT, &RECEIPT).is_none());
}

#[test]
fn sets_and_maps_are_ordered_by_key() {
    let mut set: KeySet<2> = KeySet::new();
    assert!(set.insert([2, 1]));
    assert!(set.insert([1, 9]));
    assert!(!set.insert([2, 1]));
    assert_eq!(set.len(), 2);
    assert_eq!((set.key_at(0), set.key_at(1)), ([1, 9], [2, 1]));
    let mut map: KeyMap<u8, 2> = KeyMap::new();
    map.insert([2, 1], 5);
    map.insert([1, 9], 6);
    map.insert([2, 1], 7);
    assert_eq!(map.len(), 2);
    assert_eq!(map.get(&[2, 1]), Some(&7));
    assert_eq!(map.key_at(0), [1, 9]);
    assert_eq!(map.value_at(1), &7);
    assert_eq!(map.get(&[0, 0]), None);
}

#[test]
fn bytes_are_compared_from_the_front() {
    assert!(lex_less_than(&[1, 9], &[2, 0]));
    assert!(!lex_less_than(&[2, 0], &[1, 9]));
    assert!(!lex_less_than(&[2, 0], &[2, 0]));
    assert!(is_zero32(&[0; 32]));
    assert!(!is_zero32(&[1; 32]));
    let order = [
        0x30, 0x64, 0x4e, 0x72, 0xe1, 0x31, 0xa0, 0x29, 0xb8, 0x50, 0x45, 0xb6, 0x81, 0x81, 0x58,
        0x5d, 0x28, 0x33, 0xe8, 0x48, 0x79, 0xb9, 0x70, 0x91, 0x43, 0xe1, 0xf5, 0x93, 0xf0, 0x00,
        0x00, 0x01,
    ];
    assert!(!is_canonical_scalar(&order));
    let mut below = order;
    below[31] = 0;
    assert!(is_canonical_scalar(&below));
}

#[test]
fn token_deposits_are_looked_for_in_order_of_the_accounts() {
    let mut several = runtime();
    several.handle_delegation(&[3; 32], &account(1, &[], BRIDGE_PROGRAM));
    several.handle_delegation(&[200; 32], &account(1, &[], BRIDGE_PROGRAM));
    assert_eq!(
        several.process_token_deposits(false),
        vec![[3; 32], TOKEN_ACCOUNT, [200; 32]]
    );
    assert!(several.process_token_deposits(true).is_empty());
    several.deactivate();
    assert!(several.process_token_deposits(false).is_empty());
}
