use northstar::accounts::{Account, Pubkey};
use northstar::addresses::{
    find_delegation_record_pda, find_deposit_receipt_pda, find_session_pda,
};
use northstar::instructions::{AccountMeta, Instruction};
use northstar::keyed::KeySet;
use northstar::replay::{CapturedAccount, ReplayCapture};
use northstar::settlement::batches::{
    resign_settlement_transaction, split_settlement_instruction_batches,
};
use northstar::settlement::captured::{
    changed_accounts, settlement_plan_of_changes, ChangedAccount,
};
use northstar::settlement::checksum::{
    accumulate_data_chunk_checksum, accumulate_lamports_checksum, accumulate_owner_checksum,
    accumulate_receipt_checksum, initial_settlement_checksum,
};
use northstar::settlement::chunks::{data_chunks_for_account, SettlementChunk};
use northstar::settlement::plan::{build_settlement_plan, SettlementLimits};
use northstar::settlement::portal::{PortalProtocol, SettlementTarget};
use northstar::settlement::{
    AccountLamportsSettlement, AccountOwnerSettlement, ReceiptBalanceSettlement, SettlementPlan,
    SettlementUnsupportedChange,
};
use northstar::state_diff::{ErStateDiff, ErStateDiffAccount, LtHash};
use solana_keypair::Keypair;
use solana_sha256_hasher::hashv;
use solana_signer::Signer;
use solana_transaction::Transaction;

const MAX_SETTLEMENT_CHUNK: usize = 512;

const PACKET_DATA_SIZE: usize = solana_packet::PACKET_DATA_SIZE;

const LIMITS: SettlementLimits = SettlementLimits {
    max_chunk: MAX_SETTLEMENT_CHUNK,
    max_lamport_accounts: 8,
};

const PROTOCOL: PortalProtocol = PortalProtocol {
    begin_settlement: 20,
    write_settlement_chunk: 21,
    settle_account_owner: 22,
    settle_account_lamports: 23,
    settle_deposit_receipt: 24,
    finish_settlement: 25,
    limits: LIMITS,
};

const SECRET: [u8; 32] = [5; 32];

const PORTAL: Pubkey = [200; 32];

const SESSION: Pubkey = [201; 32];

const BLOCKHASH: [u8; 32] = [33; 32];

fn validator() -> Pubkey {
    Keypair::new_from_array(SECRET).pubkey().to_bytes()
}

fn account(data: &[u8], lamports: u64, owner: &Pubkey) -> Account {
    Account {
        lamports,
        data: data.to_vec(),
        owner: *owner,
        executable: false,
        rent_epoch: 0,
    }
}

fn difference(pubkey: Pubkey, l1_account: Option<Account>, er_account: Account) -> ErStateDiffAccount {
    ErStateDiffAccount {
        pubkey,
        l1_account,
        er_account,
        l1_lt_hash: LtHash::identity(),
        er_lt_hash: LtHash::identity(),
    }
}

fn diff_for_account(
    pubkey: Pubkey,
    l1_account: Option<Account>,
    er_account: Account,
) -> ErStateDiff {
    ErStateDiff {
        accounts: vec![difference(pubkey, l1_account, er_account)],
        lt_hash: LtHash::identity(),
    }
}

fn keys(list: &[Pubkey]) -> KeySet<32> {
    let mut set = KeySet::new();
    for key in list {
        set.insert(*key);
    }
    set
}

fn plan_with(chunks: Vec<SettlementChunk>, receipts: Vec<ReceiptBalanceSettlement>) -> SettlementPlan {
    SettlementPlan {
        er_slot: 42,
        checksum: [7; 32],
        chunks,
        owner_changes: vec![],
        lamport_changes: vec![],
        receipt_balances: receipts,
        unsupported_changes: vec![],
    }
}

fn transactions(plan: &SettlementPlan) -> Vec<Transaction> {
    plan.portal_transactions(&PROTOCOL, PORTAL, SESSION, &SECRET, &BLOCKHASH)
        .unwrap()
        .iter()
        .map(|bytes| bincode::deserialize(bytes).unwrap())
        .collect()
}

fn program_address(seeds: &[&[u8]]) -> Pubkey {
    solana_pubkey::Pubkey::find_program_address(
        seeds,
        &solana_pubkey::Pubkey::new_from_array(PORTAL),
    )
    .0
    .to_bytes()
}

#[test]
fn unchanged_data_produces_no_chunks() {
    let pubkey = [1; 32];
    assert!(
        data_chunks_for_account(pubkey, &[1, 2, 3], &[1, 2, 3], MAX_SETTLEMENT_CHUNK).is_empty()
    );
}

#[test]
fn chunks_only_changed_ranges() {
    let pubkey = [1; 32];
    let chunks = data_chunks_for_account(
        pubkey,
        &[0, 0, 0, 0, 0],
        &[0, 7, 8, 0, 9],
        MAX_SETTLEMENT_CHUNK,
    );
    assert_eq!(chunks.len(), 2);
    assert_eq!(chunks[0].account, pubkey);
    assert_eq!(chunks[0].account_data_offset, 1);
    assert_eq!(chunks[0].data, vec![7, 8]);
    assert_eq!(chunks[1].account_data_offset, 4);
    assert_eq!(chunks[1].data, vec![9]);
}

#[test]
fn large_changed_range_is_split() {
    let pubkey = [1; 32];
    let l1_data = vec![0; MAX_SETTLEMENT_CHUNK + 1];
    let er_data = vec![1; MAX_SETTLEMENT_CHUNK + 1];
    let chunks = data_chunks_for_account(pubkey, &l1_data, &er_data, MAX_SETTLEMENT_CHUNK);
    assert_eq!(chunks.len(), 2);
    assert_eq!(chunks[0].account_data_offset, 0);
    assert_eq!(chunks[0].data.len(), MAX_SETTLEMENT_CHUNK);
    assert_eq!(chunks[1].account_data_offset, MAX_SETTLEMENT_CHUNK as u32);
    assert_eq!(chunks[1].data.len(), 1);
}

#[test]
fn data_only_diff_builds_chunks_without_unsupported_changes() {
    let pubkey = [1; 32];
    let owner = [2; 32];
    let diff = diff_for_account(
        pubkey,
        Some(account(&[0, 0, 0], 10, &owner)),
        account(&[0, 7, 8], 10, &owner),
    );
    let delegated_accounts = keys(&[pubkey]);

    let plan = build_settlement_plan(&diff, &delegated_accounts, 5, vec![], &LIMITS).unwrap();

    assert_eq!(plan.chunks.len(), 1);
    assert_eq!(plan.owner_changes, vec![]);
    assert_eq!(plan.lamport_changes, vec![]);
    assert_eq!(plan.unsupported_changes, vec![]);
}

#[test]
fn owner_diff_builds_owner_settlement() {
    let pubkey = [1; 32];
    let l1_owner = [2; 32];
    let er_owner = [3; 32];
    let diff = diff_for_account(
        pubkey,
        Some(account(&[1], 10, &l1_owner)),
        account(&[1], 10, &er_owner),
    );
    let delegated_accounts = keys(&[pubkey]);

    let plan = build_settlement_plan(&diff, &delegated_accounts, 5, vec![], &LIMITS).unwrap();

    assert_eq!(plan.chunks, vec![]);
    assert_eq!(
        plan.owner_changes,
        vec![AccountOwnerSettlement {
            account: pubkey,
            owner: er_owner,
        }]
    );
    assert_eq!(plan.unsupported_changes, vec![]);
}

#[test]
fn net_zero_lamport_diff_builds_lamport_settlement() {
    let first = [1; 32];
    let second = [2; 32];
    let owner = [3; 32];
    let diff = ErStateDiff {
        accounts: vec![
            difference(
                first,
                Some(account(&[1], 10, &owner)),
                account(&[1], 7, &owner),
            ),
            difference(
                second,
                Some(account(&[2], 20, &owner)),
                account(&[2], 23, &owner),
            ),
        ],
        lt_hash: LtHash::identity(),
    };
    let delegated_accounts = keys(&[first, second]);

    let plan = build_settlement_plan(&diff, &delegated_accounts, 5, vec![], &LIMITS).unwrap();

    assert_eq!(plan.chunks, vec![]);
    assert_eq!(plan.owner_changes, vec![]);
    assert_eq!(
        plan.lamport_changes,
        vec![
            AccountLamportsSettlement {
                account: first,
                lamports: 7,
            },
            AccountLamportsSettlement {
                account: second,
                lamports: 23,
            },
        ]
    );
    assert_eq!(plan.unsupported_changes, vec![]);
}

#[test]
fn unsupported_non_data_diff_is_reported_and_not_partially_settled() {
    let pubkey = [1; 32];
    let owner = [2; 32];
    let diff = diff_for_account(
        pubkey,
        Some(account(&[0], 10, &owner)),
        account(&[9], 11, &owner),
    );
    let delegated_accounts = keys(&[pubkey]);

    let plan = build_settlement_plan(&diff, &delegated_accounts, 5, vec![], &LIMITS).unwrap();

    assert_eq!(plan.chunks, vec![]);
    assert_eq!(
        plan.unsupported_changes,
        vec![SettlementUnsupportedChange::LamportsChanged {
            account: pubkey,
            l1_lamports: 10,
            er_lamports: 11,
        }]
    );
    assert!(plan
        .portal_instructions(&PROTOCOL, PORTAL, SESSION, [4; 32])
        .unwrap()
        .is_empty());
}

#[test]
fn unsupported_realloc_and_new_accounts_are_reported() {
    let reallocated = [1; 32];
    let created = [2; 32];
    let owner = [3; 32];
    let diff = ErStateDiff {
        accounts: vec![
            difference(
                reallocated,
                Some(account(&[0], 10, &owner)),
                account(&[0, 1], 10, &owner),
            ),
            difference(created, None, account(&[1], 10, &owner)),
        ],
        lt_hash: LtHash::identity(),
    };
    let delegated_accounts = keys(&[reallocated, created]);

    let plan = build_settlement_plan(&diff, &delegated_accounts, 5, vec![], &LIMITS).unwrap();

    assert_eq!(plan.chunks, vec![]);
    assert_eq!(
        plan.unsupported_changes,
        vec![
            SettlementUnsupportedChange::DataLengthChanged {
                account: reallocated,
                l1_len: 1,
                er_len: 2,
            },
            SettlementUnsupportedChange::MissingL1Account { account: created },
        ]
    );
}

#[test]
fn empty_plan_emits_no_instructions() {
    let plan = SettlementPlan {
        er_slot: 1,
        checksum: [0; 32],
        chunks: vec![],
        owner_changes: vec![],
        lamport_changes: vec![],
        receipt_balances: vec![],
        unsupported_changes: vec![],
    };
    assert!(plan
        .portal_instructions(&PROTOCOL, PORTAL, SESSION, [4; 32])
        .unwrap()
        .is_empty());
}

#[test]
fn unsupported_changes_block_portal_submission() {
    let account = [1; 32];
    let plan = SettlementPlan {
        er_slot: 42,
        checksum: [7; 32],
        chunks: vec![SettlementChunk {
            account,
            account_data_offset: 0,
            data: vec![1],
        }],
        owner_changes: vec![],
        lamport_changes: vec![],
        receipt_balances: vec![],
        unsupported_changes: vec![SettlementUnsupportedChange::LamportsChanged {
            account,
            l1_lamports: 1,
            er_lamports: 2,
        }],
    };

    assert!(plan
        .portal_instructions(&PROTOCOL, PORTAL, SESSION, validator())
        .unwrap()
        .is_empty());
    assert!(plan
        .portal_transactions(&PROTOCOL, PORTAL, SESSION, &SECRET, &BLOCKHASH)
        .unwrap()
        .is_empty());
}

#[test]
fn oversized_single_settlement_instruction_blocks_batches() {
    let oversized_instruction = Instruction {
        program_id: PORTAL,
        accounts: vec![AccountMeta::new_readonly(validator(), true)],
        data: vec![0; PACKET_DATA_SIZE],
    };

    assert!(
        split_settlement_instruction_batches(&vec![oversized_instruction], &validator())
            .is_empty()
    );
}

#[test]
fn large_settlement_plan_must_not_build_oversized_transaction() {
    let plan = plan_with(
        (0..3)
            .map(|index| SettlementChunk {
                account: [index as u8 + 1; 32],
                account_data_offset: (index * MAX_SETTLEMENT_CHUNK) as u32,
                data: vec![index as u8; MAX_SETTLEMENT_CHUNK],
            })
            .collect(),
        vec![],
    );

    let transactions = plan
        .portal_transactions(&PROTOCOL, PORTAL, SESSION, &SECRET, &BLOCKHASH)
        .unwrap();

    assert!(transactions.len() > 1, "large settlement should be split");
    for transaction in transactions {
        let transaction_size = transaction.len();
        assert!(
            transaction_size <= PACKET_DATA_SIZE,
            "settlement transaction size {transaction_size} exceeds packet limit \
             {PACKET_DATA_SIZE}"
        );
    }
}

#[test]
fn portal_transaction_keeps_settlement_instructions_atomic_and_ordered() {
    let plan = plan_with(
        vec![
            SettlementChunk {
                account: [1; 32],
                account_data_offset: 0,
                data: vec![1, 2, 3],
            },
            SettlementChunk {
                account: [2; 32],
                account_data_offset: MAX_SETTLEMENT_CHUNK as u32,
                data: vec![4],
            },
        ],
        vec![ReceiptBalanceSettlement {
            recipient: [3; 32],
            balance: 9,
            withdrawn: 0,
        }],
    );

    let transactions = transactions(&plan);
    assert!(transactions
        .iter()
        .all(|transaction| transaction.signatures.len() == 1));
    let instructions = transactions
        .iter()
        .flat_map(|transaction| transaction.message.instructions.iter())
        .collect::<Vec<_>>();

    assert_eq!(instructions.len(), 5);
    assert_eq!(instructions[0].data[0], PROTOCOL.begin_settlement);
    assert_eq!(instructions[1].data[0], PROTOCOL.write_settlement_chunk);
    assert_eq!(instructions[2].data[0], PROTOCOL.write_settlement_chunk);
    assert_eq!(instructions[3].data[0], PROTOCOL.settle_deposit_receipt);
    assert_eq!(instructions[4].data[0], PROTOCOL.finish_settlement);
}

#[test]
fn settlement_transactions_are_signed_by_the_validator() {
    let plan = plan_with(
        vec![],
        vec![ReceiptBalanceSettlement {
            recipient: [3; 32],
            balance: 9,
            withdrawn: 4,
        }],
    );
    let signed = transactions(&plan);
    assert_eq!(signed.len(), 1);
    assert_eq!(
        signed[0].signatures[0],
        Keypair::new_from_array(SECRET).sign_message(&signed[0].message_data())
    );
    assert_eq!(signed[0].message.account_keys[0].to_bytes(), validator());
    assert_eq!(signed[0].message.recent_blockhash.to_bytes(), BLOCKHASH);

    let retried = plan
        .portal_retry_transactions_after_begin(&PROTOCOL, PORTAL, SESSION, &SECRET, &BLOCKHASH)
        .unwrap();
    let retried: Transaction = bincode::deserialize(&retried[0]).unwrap();
    assert_eq!(retried.message.instructions.len(), 2);
    assert_eq!(
        retried.message.instructions[0].data[0],
        PROTOCOL.settle_deposit_receipt
    );
}

#[test]
fn resigning_changes_the_blockhash_only() {
    let plan = plan_with(
        vec![],
        vec![ReceiptBalanceSettlement {
            recipient: [3; 32],
            balance: 9,
            withdrawn: 4,
        }],
    );
    let before = plan
        .portal_transactions(&PROTOCOL, PORTAL, SESSION, &SECRET, &BLOCKHASH)
        .unwrap();
    let fresh = plan
        .portal_transactions(&PROTOCOL, PORTAL, SESSION, &SECRET, &[44; 32])
        .unwrap();
    assert_ne!(before, fresh);
    assert_eq!(
        resign_settlement_transaction(&before[0], &SECRET, &[44; 32]),
        Some(fresh[0].clone())
    );
    assert_eq!(
        resign_settlement_transaction(&before[0], &[6; 32], &[44; 32]),
        None
    );
    assert_eq!(
        resign_settlement_transaction(&vec![1, 2, 3], &SECRET, &[44; 32]),
        None
    );
}

#[test]
fn batches_keep_every_instruction_in_order() {
    let instructions: Vec<Instruction> = (0..5)
        .map(|index| Instruction {
            program_id: PORTAL,
            accounts: vec![AccountMeta::new_readonly(validator(), true)],
            data: vec![index; 400],
        })
        .collect();
    let batches = split_settlement_instruction_batches(&instructions, &validator());
    assert_eq!(
        batches.iter().map(|batch| batch.len()).collect::<Vec<_>>(),
        vec![2, 2, 1]
    );
    assert_eq!(
        batches.into_iter().flatten().collect::<Vec<_>>(),
        instructions
    );
    assert!(split_settlement_instruction_batches(&Vec::new(), &validator()).is_empty());
}

#[test]
fn repeated_accounts_count_once() {
    let repeated = Instruction {
        program_id: PORTAL,
        accounts: vec![AccountMeta::new(SESSION, false); 300],
        data: vec![1],
    };
    let batches = split_settlement_instruction_batches(&vec![repeated.clone()], &validator());
    assert_eq!(batches, vec![vec![repeated]]);
}

#[test]
fn instructions_with_too_many_accounts_block_batches() {
    for count in [60u16, 255, 256, 700] {
        let crowded = Instruction {
            program_id: PORTAL,
            accounts: (0..count)
                .map(|index| {
                    let mut key = [7; 32];
                    key[..2].copy_from_slice(&index.to_le_bytes());
                    AccountMeta::new_readonly(key, false)
                })
                .collect(),
            data: vec![],
        };
        assert!(split_settlement_instruction_batches(&vec![crowded], &validator()).is_empty());
    }
}

#[test]
fn instructions_beyond_the_wire_format_block_batches() {
    let endless = Instruction {
        program_id: PORTAL,
        accounts: vec![AccountMeta::new_readonly(validator(), true)],
        data: vec![0; 70_000],
    };
    let fitting = Instruction {
        data: vec![2; 10],
        ..endless.clone()
    };
    assert!(
        split_settlement_instruction_batches(&vec![fitting, endless], &validator()).is_empty()
    );
}

#[test]
fn portal_instructions_carry_the_plan() {
    let plan = SettlementPlan {
        er_slot: 42,
        checksum: [7; 32],
        chunks: vec![SettlementChunk {
            account: [1; 32],
            account_data_offset: 6,
            data: vec![8, 9],
        }],
        owner_changes: vec![AccountOwnerSettlement {
            account: [2; 32],
            owner: [12; 32],
        }],
        lamport_changes: vec![
            AccountLamportsSettlement {
                account: [3; 32],
                lamports: 5,
            },
            AccountLamportsSettlement {
                account: [4; 32],
                lamports: 6,
            },
        ],
        receipt_balances: vec![ReceiptBalanceSettlement {
            recipient: [5; 32],
            balance: 70,
            withdrawn: 80,
        }],
        unsupported_changes: vec![],
    };
    let list = plan
        .portal_instructions(&PROTOCOL, PORTAL, SESSION, validator())
        .unwrap();
    assert_eq!(list.len(), 6);
    let header = |tag: u8| {
        let mut bytes = vec![tag];
        bytes.extend_from_slice(&42u64.to_le_bytes());
        bytes.extend_from_slice(&[7; 32]);
        bytes
    };
    let signer = AccountMeta::new_readonly(validator(), true);
    let session = AccountMeta::new(SESSION, false);
    let record = |key: &Pubkey| program_address(&[b"delegation", key]);

    assert_eq!(list[0].data, header(20));
    assert_eq!(list[0].accounts, vec![signer, session]);

    let mut chunk = header(21);
    chunk.extend_from_slice(&6u32.to_le_bytes());
    chunk.extend_from_slice(&2u16.to_le_bytes());
    chunk.extend_from_slice(&[8, 9]);
    chunk.extend_from_slice(&vec![0; MAX_SETTLEMENT_CHUNK - 2]);
    assert_eq!(list[1].data, chunk);
    assert_eq!(
        list[1].accounts,
        vec![
            signer,
            session,
            AccountMeta::new([1; 32], false),
            AccountMeta::new_readonly(record(&[1; 32]), false),
        ]
    );

    let mut owner = header(22);
    owner.extend_from_slice(&[12; 32]);
    assert_eq!(list[2].data, owner);
    assert_eq!(
        list[2].accounts,
        vec![
            signer,
            session,
            AccountMeta::new([2; 32], false),
            AccountMeta::new(record(&[2; 32]), false),
        ]
    );

    let mut lamports = header(23);
    lamports.push(2);
    lamports.extend_from_slice(&5u64.to_le_bytes());
    lamports.extend_from_slice(&6u64.to_le_bytes());
    lamports.extend_from_slice(&[0; 48]);
    assert_eq!(list[3].data, lamports);
    assert_eq!(list[3].accounts.len(), 6);

    let mut receipt = header(24);
    receipt.extend_from_slice(&70u64.to_le_bytes());
    receipt.extend_from_slice(&80u64.to_le_bytes());
    assert_eq!(list[4].data, receipt);
    assert_eq!(
        list[4].accounts[2].pubkey,
        program_address(&[b"deposit_receipt", &SESSION, &[5; 32]])
    );
    assert_eq!(list[4].accounts[3].pubkey, [5; 32]);

    assert_eq!(list[5].data, header(25));

    let target = SettlementTarget {
        program_id: PORTAL,
        session: SESSION,
        validator: validator(),
    };
    let retry = plan
        .portal_instructions_inner(&PROTOCOL, &target, false)
        .unwrap();
    assert_eq!(retry, list[1..].to_vec());
}

#[test]
fn portal_addresses_are_program_addresses() {
    assert_eq!(
        find_delegation_record_pda(&PORTAL, &[9; 32]),
        Some(program_address(&[b"delegation", &[9; 32]]))
    );
    assert_eq!(
        find_deposit_receipt_pda(&PORTAL, &SESSION, &[9; 32]),
        Some(program_address(&[b"deposit_receipt", &SESSION, &[9; 32]]))
    );
    assert_eq!(
        find_session_pda(&PORTAL),
        Some(program_address(&[b"session"]))
    );
}

#[test]
fn checksums_chain_every_part() {
    let start = hashv(&[b"northstar-settlement-v0", &5u64.to_le_bytes()]).to_bytes();
    assert_eq!(initial_settlement_checksum(5), start);

    let data = hashv(&[
        &start[..],
        b"data",
        &[1; 32],
        &6u32.to_le_bytes(),
        &2u32.to_le_bytes(),
        &[8, 9],
    ])
    .to_bytes();
    let owner = hashv(&[&data[..], b"owner", &[2; 32], &[12; 32]]).to_bytes();
    let lamports = hashv(&[&owner[..], b"lamports", &[3; 32], &5u64.to_le_bytes()]).to_bytes();
    let receipt = hashv(&[
        &lamports[..],
        b"receipt",
        &[5; 32],
        &70u64.to_le_bytes(),
        &80u64.to_le_bytes(),
    ])
    .to_bytes();
    let chunk = SettlementChunk {
        account: [1; 32],
        account_data_offset: 6,
        data: vec![8, 9],
    };
    assert_eq!(accumulate_data_chunk_checksum(start, &chunk.account, 6, &[8, 9]), data);
    assert_eq!(accumulate_owner_checksum(data, &[2; 32], &[12; 32]), owner);
    assert_eq!(accumulate_lamports_checksum(owner, &[3; 32], 5), lamports);
    assert_eq!(accumulate_receipt_checksum(lamports, &[5; 32], 70, 80), receipt);

    let plan = SettlementPlan {
        er_slot: 5,
        checksum: [0; 32],
        chunks: vec![chunk],
        owner_changes: vec![AccountOwnerSettlement {
            account: [2; 32],
            owner: [12; 32],
        }],
        lamport_changes: vec![AccountLamportsSettlement {
            account: [3; 32],
            lamports: 5,
        }],
        receipt_balances: vec![ReceiptBalanceSettlement {
            recipient: [5; 32],
            balance: 70,
            withdrawn: 80,
        }],
        unsupported_changes: vec![],
    };
    assert_eq!(plan.recomputed_checksum(), receipt);
}

#[test]
fn plans_leave_out_what_is_not_delegated() {
    let owner = [3; 32];
    let diff = diff_for_account(
        [1; 32],
        Some(account(&[0], 10, &owner)),
        account(&[9], 11, &owner),
    );
    assert_eq!(
        build_settlement_plan(&diff, &keys(&[]), 5, vec![], &LIMITS),
        None
    );
    let receipt = ReceiptBalanceSettlement {
        recipient: [1; 32],
        balance: 11,
        withdrawn: 0,
    };
    let plan = build_settlement_plan(&diff, &keys(&[]), 5, vec![receipt], &LIMITS).unwrap();
    assert_eq!(plan.receipt_balances, vec![receipt]);
    assert!(plan.chunks.is_empty());
    assert_eq!(plan.checksum, plan.recomputed_checksum());
}

#[test]
fn flags_and_rent_epochs_cannot_be_settled() {
    let owner = [3; 32];
    let before = account(&[0], 10, &owner);
    let mut after = account(&[0], 10, &owner);
    after.executable = true;
    after.rent_epoch = 7;
    let diff = diff_for_account([1; 32], Some(before), after);
    let plan = build_settlement_plan(&diff, &keys(&[[1; 32]]), 5, vec![], &LIMITS).unwrap();
    assert_eq!(
        plan.unsupported_changes,
        vec![
            SettlementUnsupportedChange::ExecutableChanged {
                account: [1; 32],
                l1_executable: false,
                er_executable: true,
            },
            SettlementUnsupportedChange::RentEpochChanged {
                account: [1; 32],
                l1_rent_epoch: 0,
                er_rent_epoch: 7,
            },
        ]
    );
    assert!(plan.has_unsupported_changes());
}

#[test]
fn too_many_lamport_changes_are_reported() {
    let owner = [3; 32];
    let accounts: Vec<ErStateDiffAccount> = (1..=10u8)
        .map(|index| {
            let er = if index % 2 == 0 { 11 } else { 9 };
            difference(
                [index; 32],
                Some(account(&[], 10, &owner)),
                account(&[], er, &owner),
            )
        })
        .collect();
    let delegated: Vec<Pubkey> = (1..=10u8).map(|index| [index; 32]).collect();
    let diff = ErStateDiff {
        accounts,
        lt_hash: LtHash::identity(),
    };
    let plan = build_settlement_plan(&diff, &keys(&delegated), 5, vec![], &LIMITS).unwrap();
    assert!(plan.lamport_changes.is_empty());
    assert_eq!(
        plan.unsupported_changes,
        vec![SettlementUnsupportedChange::TooManyLamportChanges { count: 10, max: 8 }]
    );
}

#[test]
fn chunks_written_to_layer_one_give_the_rollup_data() {
    let l1: Vec<u8> = (0..100).map(|index| (index % 3) as u8).collect();
    let er: Vec<u8> = (0..100).map(|index| (index % 5) as u8).collect();
    let mut written = l1.clone();
    let chunks = data_chunks_for_account([1; 32], &l1, &er, 4);
    for chunk in &chunks {
        let start = chunk.account_data_offset as usize;
        assert!(chunk.data.len() <= 4);
        for (index, byte) in chunk.data.iter().enumerate() {
            assert_ne!(l1[start + index], *byte);
            written[start + index] = *byte;
        }
    }
    assert_eq!(written, er);
}

fn capture(key: Pubkey, pre_account: Account, post_account: Account) -> ReplayCapture {
    ReplayCapture {
        accounts: vec![CapturedAccount {
            transaction_index: 0,
            key,
            pre_account,
            post_account,
        }],
        snapshot_len: None,
        loaded_accounts_data_size: 0,
        transaction_fee: 0,
        prioritization_fee: 0,
    }
}

#[test]
fn captured_changes_become_a_plan() {
    let owner = [9; 32];
    let before = account(&[0, 0], 5, &owner);
    let after = account(&[0, 1], 5, &owner);
    let changes = changed_accounts(&vec![
        capture([2; 32], before.clone(), after.clone()),
        capture([1; 32], before.clone(), after.clone()),
    ])
    .unwrap();
    assert_eq!(changes.len(), 2);
    assert_eq!(
        changes.get(&[1; 32]),
        Some(&ChangedAccount {
            pre: before.clone(),
            post: after.clone(),
        })
    );
    let plan = settlement_plan_of_changes(8, &changes);
    assert_eq!(plan.er_slot, 8);
    assert_eq!(
        plan.chunks,
        vec![
            SettlementChunk {
                account: [1; 32],
                account_data_offset: 0,
                data: vec![0, 1],
            },
            SettlementChunk {
                account: [2; 32],
                account_data_offset: 0,
                data: vec![0, 1],
            },
        ]
    );
    assert_eq!(plan.checksum, plan.recomputed_checksum());
}

#[test]
fn captures_that_change_more_than_data_are_refused() {
    let owner = [9; 32];
    let before = account(&[0, 0], 5, &owner);
    let after = account(&[0, 1], 5, &owner);
    let refused = [
        account(&[0, 1], 6, &owner),
        account(&[0, 1], 5, &[8; 32]),
        account(&[0, 1, 2], 5, &owner),
        before.clone(),
    ];
    for other in refused {
        assert!(changed_accounts(&vec![capture([2; 32], before.clone(), other)]).is_none());
    }
    assert!(changed_accounts(&vec![
        capture([2; 32], before.clone(), after.clone()),
        capture([2; 32], after, before),
    ])
    .is_none());
}
