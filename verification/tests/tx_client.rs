use northstar::accounts::{Account, Pubkey};
use northstar::keyed::{KeyMap, KeySet};
use northstar::ledger::{AccountMap, Snapshot};
use northstar::runtime::{
    Anchor, BankUpdate, EphemeralRollupSettings, EphemeralRuntime,
};
use northstar::timing::{
    er_recent_blockhash_max_age_for_slot_duration, er_transaction_max_age_for_slot_duration,
    DEFAULT_ER_SLOT_DURATION_MS, DEFAULT_ER_TRANSACTION_MAX_AGE,
};
use northstar::tx_client::{
    capture_overlay_accounts, decode_batch, is_allowed_writable, is_transaction_allowed,
    mark_writable_as_touched_for_batch, report_batch, split_by_age, transaction_record,
    writable_accounts_for_batch, zero_untouched_writable_accounts_for_batch, BatchReport,
    BatchTransaction, CollectedBalances, Committed, Executed, TransactionRecord,
};
use northstar::well_known::{
    BPF_LOADER_ID, BPF_LOADER_UPGRADEABLE_ID, CLOCK_SYSVAR_ID, SYSTEM_PROGRAM_ID,
    SYSVAR_PROGRAM_ID,
};
use solana_instruction::{AccountMeta, Instruction};
use solana_keypair::Keypair;
use solana_message::v0::{Message as MessageV0, MessageAddressTableLookup};
use solana_message::{Message, MessageHeader, VersionedMessage};
use solana_signature::Signature;
use solana_signer::Signer;
use solana_transaction::versioned::VersionedTransaction;

const BLOCKHASH: [u8; 32] = [17; 32];

fn account(lamports: u64, owner: Pubkey) -> Account {
    Account {
        lamports,
        data: vec![],
        owner,
        executable: false,
        rent_epoch: 0,
    }
}

fn bank_with(accounts: &[(Pubkey, u64)]) -> AccountMap {
    let mut bank = KeyMap::new();
    for (key, lamports) in accounts {
        bank.insert(*key, account(*lamports, SYSTEM_PROGRAM_ID));
    }
    bank
}

fn keys(list: &[Pubkey]) -> KeySet<32> {
    let mut set = KeySet::new();
    for key in list {
        set.insert(*key);
    }
    set
}

fn apply(bank: &mut AccountMap, update: &BankUpdate) {
    for write in &update.writes {
        bank.insert(write.pubkey, write.account.clone());
    }
}

fn balance(bank: &AccountMap, key: &Pubkey) -> u64 {
    bank.get(key).map_or(0, |account| account.lamports)
}

fn transfer(from: &Pubkey, to: &Pubkey, lamports: u64) -> Instruction {
    let mut data = vec![2, 0, 0, 0];
    data.extend_from_slice(&lamports.to_le_bytes());
    Instruction {
        program_id: SYSTEM_PROGRAM_ID.into(),
        accounts: vec![
            AccountMeta::new((*from).into(), true),
            AccountMeta::new((*to).into(), false),
        ],
        data,
    }
}

fn serialized(message: VersionedMessage) -> Vec<u8> {
    bincode::serialize(&VersionedTransaction {
        signatures: vec![Signature::from([8; 64])],
        message,
    })
    .unwrap()
}

/// The wire bytes of a transaction of these instructions.
fn unsigned(instructions: &[Instruction], payer: &Pubkey) -> Vec<u8> {
    serialized(VersionedMessage::Legacy(Message::new_with_blockhash(
        instructions,
        Some(&(*payer).into()),
        &solana_hash::Hash::new_from_array(BLOCKHASH),
    )))
}

/// The transaction in the bytes, with the accounts that its tables resolve to.
fn resolved(bytes: Vec<u8>, loaded: Option<Vec<Pubkey>>) -> BatchTransaction {
    let mut transactions = decode_batch(&vec![bytes]);
    BatchTransaction {
        transaction: transactions.remove(0),
        loaded_writable: loaded,
    }
}

fn transfer_tx(payer: &Pubkey, from: &Pubkey, to: &Pubkey) -> BatchTransaction {
    resolved(
        unsigned(&[transfer(from, to, 1_000_000)], payer),
        Some(vec![]),
    )
}

fn lookup_message(payer: &Pubkey) -> VersionedMessage {
    VersionedMessage::V0(MessageV0 {
        header: MessageHeader {
            num_required_signatures: 1,
            num_readonly_signed_accounts: 0,
            num_readonly_unsigned_accounts: 0,
        },
        recent_blockhash: solana_hash::Hash::new_from_array(BLOCKHASH),
        account_keys: vec![(*payer).into()],
        instructions: vec![],
        address_table_lookups: vec![MessageAddressTableLookup {
            account_key: [66; 32].into(),
            writable_indexes: vec![0],
            readonly_indexes: vec![],
        }],
    })
}

#[test]
fn test_untouched_account_zeroed_before_execution() {
    let delegated_pubkey = [1; 32];
    let user_pubkey = [2; 32];
    let mut bank = bank_with(&[(user_pubkey, 100_000_000_000)]);
    bank.insert(delegated_pubkey, account(1_000_000, [3; 32]));
    let mut touched = keys(&[]);
    let tx = transfer_tx(&user_pubkey, &user_pubkey, &[4; 32]);

    let update = zero_untouched_writable_accounts_for_batch(
        &bank,
        &vec![tx],
        &mut touched,
        &keys(&[delegated_pubkey]),
    );
    apply(&mut bank, &update);

    assert_eq!(balance(&bank, &user_pubkey), 0);
}

#[test]
fn test_touched_account_keeps_balance() {
    let delegated_pubkey = [1; 32];
    let user_pubkey = [2; 32];
    let mut bank = bank_with(&[(user_pubkey, 100_000_000_000)]);
    bank.insert(delegated_pubkey, account(1_000_000, [3; 32]));
    let mut touched = keys(&[user_pubkey]);
    let tx = transfer_tx(&user_pubkey, &user_pubkey, &[4; 32]);

    let update = zero_untouched_writable_accounts_for_batch(
        &bank,
        &vec![tx],
        &mut touched,
        &keys(&[delegated_pubkey]),
    );
    apply(&mut bank, &update);

    assert_eq!(balance(&bank, &user_pubkey), 100_000_000_000);
}

#[test]
fn test_delegated_account_not_zeroed() {
    let delegated_pubkey = [1; 32];
    let mut bank = bank_with(&[]);
    bank.insert(delegated_pubkey, account(50_000_000_000, [3; 32]));
    let mut touched = keys(&[]);
    let tx = resolved(unsigned(&[], &delegated_pubkey), Some(vec![]));

    let update = zero_untouched_writable_accounts_for_batch(
        &bank,
        &vec![tx],
        &mut touched,
        &keys(&[delegated_pubkey]),
    );
    apply(&mut bank, &update);

    assert_eq!(balance(&bank, &delegated_pubkey), 50_000_000_000);
}

#[test]
fn test_unrestricted_mode_skips_zeroing() {
    let user_pubkey = [2; 32];
    let mut bank = bank_with(&[(user_pubkey, 100_000_000_000)]);
    let mut touched = keys(&[]);
    let tx = transfer_tx(&user_pubkey, &user_pubkey, &[4; 32]);

    let update =
        zero_untouched_writable_accounts_for_batch(&bank, &vec![tx], &mut touched, &keys(&[]));
    apply(&mut bank, &update);

    assert_eq!(balance(&bank, &user_pubkey), 100_000_000_000);
}

#[test]
fn test_zeroing_marks_zeroed_account_touched() {
    let delegated_pubkey = [1; 32];
    let user_pubkey = [2; 32];
    let mut bank = bank_with(&[(user_pubkey, 100_000_000_000)]);
    bank.insert(delegated_pubkey, account(1_000_000, [3; 32]));
    let mut touched = keys(&[]);
    let tx = transfer_tx(&user_pubkey, &user_pubkey, &[4; 32]);

    zero_untouched_writable_accounts_for_batch(
        &bank,
        &vec![tx],
        &mut touched,
        &keys(&[delegated_pubkey]),
    );

    assert!(touched.contains(&user_pubkey));
}

#[test]
fn reserved_accounts_are_not_zeroed() {
    let user_pubkey = [2; 32];
    let reserved = solana_sdk_ids::vote::id().to_bytes();
    let bank = bank_with(&[(user_pubkey, 5), (reserved, 7), (CLOCK_SYSVAR_ID, 8)]);
    let writes = [reserved, CLOCK_SYSVAR_ID].map(|key| AccountMeta::new(key.into(), false));
    let bytes = unsigned(
        &[Instruction {
            program_id: [6; 32].into(),
            accounts: writes.to_vec(),
            data: vec![],
        }],
        &user_pubkey,
    );
    let tx = resolved(bytes, Some(vec![]));
    assert!(tx.transaction.static_keys.contains(&reserved));
    let mut touched = keys(&[]);
    let update = zero_untouched_writable_accounts_for_batch(
        &bank,
        &vec![tx],
        &mut touched,
        &keys(&[[1; 32]]),
    );
    assert_eq!(update.writes.len(), 1);
    assert_eq!(update.writes[0].pubkey, user_pubkey);
    assert_eq!(update.writes[0].account.lamports, 0);
    assert!(!touched.contains(&reserved));
    assert!(!touched.contains(&CLOCK_SYSVAR_ID));
}

#[test]
fn test_allowed_transaction_passes() {
    let delegated_a = [1; 32];
    let delegated_b = [2; 32];
    let bank = bank_with(&[(delegated_a, 10_000_000), (delegated_b, 10_000_000)]);
    let fee_payer = [5; 32];
    let tx = transfer_tx(&fee_payer, &fee_payer, &delegated_b);

    assert!(is_transaction_allowed(
        &tx,
        &keys(&[delegated_a, delegated_b]),
        &keys(&[]),
        &bank
    ));
}

#[test]
fn test_disallowed_transaction_rejected() {
    let delegated_a = [1; 32];
    let non_delegated_c = [3; 32];
    let bank = bank_with(&[(delegated_a, 10_000_000), (non_delegated_c, 10_000_000)]);
    let fee_payer = [5; 32];
    let tx = transfer_tx(&fee_payer, &fee_payer, &non_delegated_c);

    assert!(!is_transaction_allowed(
        &tx,
        &keys(&[delegated_a]),
        &keys(&[]),
        &bank
    ));
}

#[test]
fn test_read_only_non_delegated_allowed() {
    let delegated_a = [1; 32];
    let bank = bank_with(&[(delegated_a, 10_000_000)]);
    let fee_payer = [5; 32];
    let tx = transfer_tx(&fee_payer, &fee_payer, &fee_payer);

    assert!(is_transaction_allowed(
        &tx,
        &keys(&[delegated_a]),
        &keys(&[]),
        &bank
    ));
}

#[test]
fn test_system_program_always_allowed() {
    let delegated_a = [1; 32];
    let bank = bank_with(&[(delegated_a, 10_000_000)]);
    let fee_payer = [5; 32];
    let tx = transfer_tx(&fee_payer, &fee_payer, &SYSTEM_PROGRAM_ID);

    assert!(is_transaction_allowed(
        &tx,
        &keys(&[delegated_a]),
        &keys(&[]),
        &bank
    ));
}

#[test]
fn test_empty_delegation_allows_all() {
    let some_account = [1; 32];
    let receiver = [2; 32];
    let bank = bank_with(&[(some_account, 10_000_000), (receiver, 10_000_000)]);
    let fee_payer = [5; 32];
    let tx = transfer_tx(&fee_payer, &fee_payer, &receiver);

    assert!(is_transaction_allowed(&tx, &keys(&[]), &keys(&[]), &bank));
}

#[test]
fn test_fee_payer_auto_allowed() {
    let delegated_a = [1; 32];
    let bank = bank_with(&[(delegated_a, 10_000_000)]);
    let fee_payer = [5; 32];
    let tx = transfer_tx(&fee_payer, &fee_payer, &fee_payer);

    assert!(is_transaction_allowed(
        &tx,
        &keys(&[delegated_a]),
        &keys(&[]),
        &bank
    ));
    let funded = bank_with(&[(delegated_a, 10_000_000), (fee_payer, 10_000_000)]);
    assert!(is_transaction_allowed(
        &tx,
        &keys(&[delegated_a]),
        &keys(&[]),
        &funded
    ));
}

#[test]
fn test_new_account_creation_allowed() {
    let delegated_a = [1; 32];
    let bank = bank_with(&[(delegated_a, 10_000_000)]);
    let fee_payer = [5; 32];
    let new_account = [6; 32];
    let tx = transfer_tx(&fee_payer, &fee_payer, &new_account);

    assert!(is_transaction_allowed(
        &tx,
        &keys(&[delegated_a]),
        &keys(&[]),
        &bank
    ));
}

#[test]
fn test_unresolvable_alt_rejected() {
    let fee_payer = [5; 32];
    let delegated_a = [1; 32];
    let bank = bank_with(&[(fee_payer, 10_000_000), (delegated_a, 10_000_000)]);
    let tx = resolved(serialized(lookup_message(&fee_payer)), None);

    assert!(!is_transaction_allowed(
        &tx,
        &keys(&[delegated_a]),
        &keys(&[]),
        &bank
    ));
}

#[test]
fn test_writable_alt_non_delegated_existing_account_rejected() {
    let fee_payer = [5; 32];
    let delegated_a = [1; 32];
    let existing_non_delegated = [3; 32];
    let bank = bank_with(&[
        (fee_payer, 10_000_000),
        (delegated_a, 10_000_000),
        (existing_non_delegated, 10_000_000),
    ]);
    let tx = resolved(
        serialized(lookup_message(&fee_payer)),
        Some(vec![existing_non_delegated]),
    );

    assert!(!is_transaction_allowed(
        &tx,
        &keys(&[delegated_a]),
        &keys(&[]),
        &bank
    ));
}

#[test]
fn test_non_delegated_existing_account_rejected() {
    let delegated_a = [1; 32];
    let existing_non_delegated = [3; 32];
    let bank = bank_with(&[
        (delegated_a, 10_000_000),
        (existing_non_delegated, 10_000_000),
    ]);
    let fee_payer = [5; 32];
    let tx = transfer_tx(&fee_payer, &fee_payer, &existing_non_delegated);

    assert!(!is_transaction_allowed(
        &tx,
        &keys(&[delegated_a]),
        &keys(&[]),
        &bank
    ));
}

#[derive(Debug, Clone, PartialEq)]
enum Failure {
    BlockhashNotFound,
    InsufficientFundsForRent,
}

fn no_balances() -> CollectedBalances<u64> {
    CollectedBalances {
        pre_balances: None,
        post_balances: None,
        pre_token_balances: None,
        post_token_balances: None,
    }
}

#[test]
fn test_failed_transaction_recorded_in_er_history() {
    let record: TransactionRecord<Failure, (), u64> =
        transaction_record(Err(Failure::BlockhashNotFound), no_balances());
    assert_eq!(record.status, Err(Failure::BlockhashNotFound));
    assert_eq!(record.fee, 0);
    assert!(record.details.is_none());
}

#[test]
fn test_commit_error_transaction_recorded_in_er_history() {
    let record: TransactionRecord<Failure, (), u64> = transaction_record(
        Err(Failure::InsufficientFundsForRent),
        CollectedBalances {
            pre_balances: Some(vec![1]),
            ..no_balances()
        },
    );
    assert!(record.status.is_err());
    assert!(record.pre_balances.is_empty());
    assert_eq!(record.compute_units_consumed, 0);
}

#[test]
fn committed_transactions_are_recorded_with_their_details() {
    let record: TransactionRecord<Failure, &str, u64> = transaction_record(
        Ok(Committed {
            status: Ok(()),
            fee: 5_000,
            executed_units: 123,
            details: "logs",
        }),
        CollectedBalances {
            pre_balances: Some(vec![10, 20]),
            post_balances: Some(vec![9, 21]),
            ..no_balances()
        },
    );
    assert_eq!(record.status, Ok(()));
    assert_eq!(record.fee, 5_000);
    assert_eq!(record.compute_units_consumed, 123);
    assert_eq!(record.details, Some("logs"));
    assert_eq!(record.pre_balances, vec![10, 20]);
    assert_eq!(record.post_balances, vec![9, 21]);
    assert!(record.pre_token_balances.is_empty());
}

/// Executes a batch of transfers of 1,000,000 lamports from funded payers, as the
/// bank does, and reports it.
fn execute_transfers(
    bank: &mut AccountMap,
    transfers: &[(Pubkey, Pubkey)],
    ages: Vec<Option<u64>>,
) -> BatchReport<Failure, (), u64> {
    let split = split_by_age(&ages, DEFAULT_ER_TRANSACTION_MAX_AGE);
    let mut executed = Vec::new();
    for position in &split.valid {
        let (payer, recipient) = transfers[*position];
        let before = vec![balance(bank, &payer), balance(bank, &recipient)];
        let after = vec![before[0] - 1_000_000, before[1] + 1_000_000];
        bank.insert(payer, account(after[0], SYSTEM_PROGRAM_ID));
        bank.insert(recipient, account(after[1], SYSTEM_PROGRAM_ID));
        executed.push(Executed {
            outcome: Ok(Committed {
                status: Ok(()),
                fee: 0,
                executed_units: 150,
                details: (),
            }),
            balances: CollectedBalances {
                pre_balances: Some(before),
                post_balances: Some(after),
                ..no_balances()
            },
        });
    }
    report_batch(&split, Ok(executed), Failure::BlockhashNotFound)
}

fn record_at(
    report: &BatchReport<Failure, (), u64>,
    position: usize,
) -> &TransactionRecord<Failure, (), u64> {
    let mut found = report
        .records
        .iter()
        .filter(|record| record.position == position);
    let record = found.next().expect("transaction should be recorded");
    assert!(found.next().is_none());
    &record.record
}

#[test]
fn test_send_transactions_in_batch_executes_multiple_transfers_and_records_history() {
    let fee_payer_a = [1; 32];
    let fee_payer_b = [2; 32];
    let recipient_a = [3; 32];
    let recipient_b = [4; 32];
    let mut bank = bank_with(&[(fee_payer_a, 10_000_000), (fee_payer_b, 10_000_000)]);

    let report = execute_transfers(
        &mut bank,
        &[(fee_payer_a, recipient_a), (fee_payer_b, recipient_b)],
        vec![Some(0), Some(0)],
    );

    assert_eq!(balance(&bank, &recipient_a), 1_000_000);
    assert_eq!(balance(&bank, &recipient_b), 1_000_000);
    assert_eq!(record_at(&report, 0).status, Ok(()));
    assert_eq!(record_at(&report, 1).status, Ok(()));
    assert_eq!(record_at(&report, 1).pre_balances, vec![10_000_000, 0]);
    assert_eq!(
        record_at(&report, 1).post_balances,
        vec![9_000_000, 1_000_000]
    );
    assert_eq!(record_at(&report, 1).compute_units_consumed, 150);
    assert_eq!(report.outcome, Ok(()));
}

#[test]
fn test_send_transactions_in_batch_rejects_expired_recent_blockhash() {
    let fee_payer = [1; 32];
    let recipient = [2; 32];
    let mut bank = bank_with(&[(fee_payer, 10_000_000)]);

    assert_eq!(DEFAULT_ER_SLOT_DURATION_MS, 50);
    let recent_blockhash_max_age =
        er_recent_blockhash_max_age_for_slot_duration(DEFAULT_ER_SLOT_DURATION_MS);
    assert_eq!(DEFAULT_ER_TRANSACTION_MAX_AGE, 1200);
    assert_eq!(
        er_transaction_max_age_for_slot_duration(DEFAULT_ER_SLOT_DURATION_MS),
        DEFAULT_ER_TRANSACTION_MAX_AGE
    );
    assert_eq!(recent_blockhash_max_age, 2400);
    let age = DEFAULT_ER_TRANSACTION_MAX_AGE + 1;
    assert!(age <= recent_blockhash_max_age);

    let report = execute_transfers(&mut bank, &[(fee_payer, recipient)], vec![Some(age)]);

    assert_eq!(balance(&bank, &recipient), 0);
    assert_eq!(
        record_at(&report, 0).status,
        Err(Failure::BlockhashNotFound)
    );
    assert_eq!(report.records.len(), 1);
    assert_eq!(report.outcome, Err(Failure::BlockhashNotFound));
}

#[test]
fn test_send_transactions_in_batch_records_expired_blockhash_and_executes_valid_siblings() {
    let expired_fee_payer = [1; 32];
    let valid_fee_payer = [2; 32];
    let expired_recipient = [3; 32];
    let valid_recipient = [4; 32];
    let mut bank = bank_with(&[
        (expired_fee_payer, 10_000_000),
        (valid_fee_payer, 10_000_000),
    ]);

    let report = execute_transfers(
        &mut bank,
        &[
            (expired_fee_payer, expired_recipient),
            (valid_fee_payer, valid_recipient),
        ],
        vec![Some(DEFAULT_ER_TRANSACTION_MAX_AGE + 1), Some(0)],
    );

    assert_eq!(balance(&bank, &expired_recipient), 0);
    assert_eq!(balance(&bank, &valid_recipient), 1_000_000);
    assert_eq!(
        record_at(&report, 0).status,
        Err(Failure::BlockhashNotFound)
    );
    assert_eq!(record_at(&report, 1).status, Ok(()));
    assert_eq!(report.outcome, Ok(()));
}

#[test]
fn refused_batches_are_recorded_with_their_error() {
    let split = split_by_age(&vec![Some(3), None, Some(0)], 1200);
    let report: BatchReport<Failure, (), u64> = report_batch(
        &split,
        Err(Failure::InsufficientFundsForRent),
        Failure::BlockhashNotFound,
    );
    let recorded: Vec<_> = report
        .records
        .iter()
        .map(|record| (record.position, record.record.status.clone()))
        .collect();
    assert_eq!(
        recorded,
        vec![
            (1, Err(Failure::BlockhashNotFound)),
            (0, Err(Failure::InsufficientFundsForRent)),
            (2, Err(Failure::InsufficientFundsForRent)),
        ]
    );
    assert_eq!(report.outcome, Err(Failure::InsufficientFundsForRent));
}

#[test]
fn failed_transactions_do_not_fail_their_batch() {
    let split = split_by_age(&vec![Some(0), Some(0)], 1200);
    let executed = vec![
        Executed {
            outcome: Err(Failure::InsufficientFundsForRent),
            balances: no_balances(),
        },
        Executed {
            outcome: Ok(Committed {
                status: Err(Failure::BlockhashNotFound),
                fee: 5_000,
                executed_units: 7,
                details: (),
            }),
            balances: no_balances(),
        },
    ];
    let report = report_batch(&split, Ok(executed), Failure::BlockhashNotFound);
    let first = record_at(&report, 0);
    assert_eq!(first.status, Err(Failure::InsufficientFundsForRent));
    assert_eq!((first.fee, first.details), (0, None));
    let second = record_at(&report, 1);
    assert_eq!(second.status, Err(Failure::BlockhashNotFound));
    assert_eq!((second.fee, second.details), (5_000, Some(())));
    assert_eq!(report.outcome, Ok(()));
}

#[test]
fn empty_batches_have_nothing_to_execute() {
    let report: BatchReport<Failure, (), u64> = report_batch(
        &split_by_age(&vec![], 1200),
        Ok(vec![]),
        Failure::BlockhashNotFound,
    );
    assert!(report.records.is_empty());
    assert_eq!(report.outcome, Err(Failure::BlockhashNotFound));
}

#[test]
fn unknown_blockhashes_count_as_expired() {
    let split = split_by_age(&vec![None, Some(1200), Some(1201), Some(3)], 1200);
    assert_eq!(split.valid, vec![1, 3]);
    assert_eq!(split.expired, vec![0, 2]);
}

#[test]
fn messages_that_are_no_transactions_are_passed_over() {
    let payer = Keypair::new_from_array([9; 32]).pubkey().to_bytes();
    let good = unsigned(&[transfer(&payer, &[4; 32], 5)], &payer);
    let decoded = decode_batch(&vec![vec![1, 2, 3], good.clone(), vec![]]);
    assert_eq!(decoded.len(), 1);
    assert_eq!(decoded[0].signature, Some([8; 64]));
    assert_eq!(decoded[0].recent_blockhash, BLOCKHASH);
    assert_eq!(
        decoded[0].static_keys,
        vec![payer, [4; 32], SYSTEM_PROGRAM_ID]
    );
    assert_eq!(decoded[0].writable, vec![true, true, false]);
}

#[test]
fn writable_accounts_include_those_of_tables() {
    let payer = [5; 32];
    let batch = vec![
        transfer_tx(&payer, &payer, &[4; 32]),
        resolved(serialized(lookup_message(&[7; 32])), Some(vec![[8; 32]])),
        resolved(serialized(lookup_message(&[9; 32])), None),
    ];
    let all = writable_accounts_for_batch(&batch);
    for key in [payer, [4; 32], [7; 32], [8; 32], [9; 32]] {
        assert!(all.contains(&key));
    }
    assert_eq!(all.len(), 5);
    let mut touched = keys(&[[1; 32]]);
    mark_writable_as_touched_for_batch(&batch, &mut touched);
    assert!(touched.contains(&[1; 32]) && touched.contains(&[4; 32]));
    assert!(touched.contains(&[8; 32]));
    assert_eq!(touched.len(), 6);
}

#[test]
fn accounts_of_tables_lose_inherited_balances() {
    let payer = [7; 32];
    let mut bank = bank_with(&[(payer, 10), ([8; 32], 20), ([9; 32], 30)]);
    let batch = vec![resolved(
        serialized(lookup_message(&payer)),
        Some(vec![[8; 32], [9; 32]]),
    )];
    let mut touched = keys(&[[9; 32]]);
    let update = zero_untouched_writable_accounts_for_batch(
        &bank,
        &batch,
        &mut touched,
        &keys(&[[1; 32]]),
    );
    apply(&mut bank, &update);
    assert_eq!(balance(&bank, &payer), 0);
    assert_eq!(balance(&bank, &[8; 32]), 0);
    assert_eq!(balance(&bank, &[9; 32]), 30);
    assert!(touched.contains(&payer) && touched.contains(&[8; 32]));
}

#[test]
fn programs_of_the_bank_may_always_be_written() {
    let bank = bank_with(&[
        (SYSTEM_PROGRAM_ID, 1),
        (SYSVAR_PROGRAM_ID, 1),
        (BPF_LOADER_ID, 1),
        (BPF_LOADER_UPGRADEABLE_ID, 1),
        ([4; 32], 1),
        ([5; 32], 1),
    ]);
    let delegated = keys(&[[9; 32]]);
    let touched = keys(&[[5; 32]]);
    for key in [
        SYSTEM_PROGRAM_ID,
        SYSVAR_PROGRAM_ID,
        BPF_LOADER_ID,
        BPF_LOADER_UPGRADEABLE_ID,
        [5; 32],
        [6; 32],
        [9; 32],
    ] {
        assert!(is_allowed_writable(&key, &delegated, &touched, &bank));
    }
    assert!(!is_allowed_writable(&[4; 32], &delegated, &touched, &bank));
}

#[test]
fn overlays_take_what_the_bank_has() {
    let bank = bank_with(&[([1; 32], 5)]);
    let mut overlay = bank_with(&[([2; 32], 6), ([3; 32], 7)]);
    capture_overlay_accounts(&mut overlay, &bank, &keys(&[[1; 32], [2; 32]]));
    assert_eq!(balance(&overlay, &[1; 32]), 5);
    assert_eq!(balance(&overlay, &[2; 32]), 0);
    assert_eq!(balance(&overlay, &[3; 32]), 7);
    assert_eq!(overlay.len(), 3);
}

fn rollup() -> EphemeralRuntime {
    let anchor = Anchor {
        slot: 0,
        snapshot: Snapshot::new(),
    };
    let settings = EphemeralRollupSettings {
        session_pda: [91; 32],
        grid_id: 0,
        ttl_slots: 100,
        er_fee_structure: EphemeralRollupSettings::zero_fee_structure(),
        fee_cap: 1000,
        delegated_accounts: vec![],
    };
    EphemeralRuntime::new(anchor, &settings, [90; 32]).0
}

#[test]
fn inactive_rollups_admit_nothing() {
    let user = [5; 32];
    let bank = bank_with(&[(user, 10)]);
    let batch = vec![transfer_tx(&user, &user, &[6; 32])];
    let mut runtime = rollup();
    assert!(runtime.begin_batch(&batch, &bank).is_none());
    runtime.activate();
    assert!(runtime.begin_batch(&batch, &bank).is_some());
}

#[test]
fn batches_are_prepared_and_taken_into_the_rollup() {
    let user = [5; 32];
    let delegated = [1; 32];
    let stranger = [3; 32];
    let mut bank = bank_with(&[(user, 10), (delegated, 20), (stranger, 30)]);
    let mut runtime = rollup();
    runtime.activate();
    runtime.handle_delegation(&delegated, &account(20, SYSTEM_PROGRAM_ID));
    let fresh = [6; 32];
    let batch = vec![
        transfer_tx(&user, &user, &stranger),
        BatchTransaction {
            loaded_writable: Some(vec![fresh]),
            ..transfer_tx(&user, &user, &delegated)
        },
    ];
    let prepared = runtime.begin_batch(&batch, &bank).unwrap();
    assert_eq!(prepared.transactions, vec![batch[1].clone()]);
    assert_eq!(prepared.update.writes.len(), 1);
    assert_eq!(prepared.update.writes[0].pubkey, user);
    apply(&mut bank, &prepared.update);
    bank.insert(delegated, account(25, SYSTEM_PROGRAM_ID));
    runtime.finish_batch(&prepared, &bank);
    assert!(runtime.touched_accounts.contains(&user));
    assert!(runtime.touched_accounts.contains(&delegated));
    assert!(runtime.touched_accounts.contains(&fresh));
    assert!(!runtime.touched_accounts.contains(&stranger));
    assert_eq!(balance(&runtime.er_account_overlay, &delegated), 25);
    assert_eq!(balance(&runtime.er_account_overlay, &user), 0);
    assert!(runtime.er_account_overlay.get(&stranger).is_none());
}
