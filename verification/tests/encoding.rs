use std::collections::{BTreeMap, BTreeSet};

use northstar::checkpoint::{
    build_checkpoint_artifact_v1, CheckpointAccountEffectV1, CheckpointArtifactV1,
    CheckpointStepInputV1, CheckpointTransactionEffectV1, DaStepPageV1, ReadonlyL1ValueV1,
    StateAccountValueV1, CANONICAL_CHECKPOINT_STEPS_V1,
};
use northstar::codec::{from_bytes, to_bytes};
use northstar::manager::plans::checkpoint_plan_bytes;
use northstar::merkle::MerkleAuthenticationPathV1;
use northstar::settlement::chunks::SettlementChunk;
use northstar::settlement::{
    AccountLamportsSettlement, AccountOwnerSettlement, ReceiptBalanceSettlement, SettlementPlan,
};
use northstar::unsettled_state::records::{
    AccountEntry, JournalRecord, Mutation, MutationKind, PersistedAccount, PersistedSignature,
    Snapshot, StateImage, UnsettledSessionIdentity, WithdrawalPayoutEvent,
};

fn root(value: u8) -> [u8; 32] {
    let mut bytes = [0u8; 32];
    bytes[31] = value;
    bytes
}

fn artifact() -> CheckpointArtifactV1 {
    let steps = (0..CANONICAL_CHECKPOINT_STEPS_V1)
        .map(|index| CheckpointStepInputV1 {
            step_index: index as u32,
            transaction: vec![index as u8, 1, 2],
            transaction_effect: vec![index as u8, 3],
            pre_state_root: root(index as u8 + 1),
            post_state_root: root(index as u8 + 2),
            readonly_l1_values: vec![ReadonlyL1ValueV1 {
                account: [index as u8 + 1; 32],
                owner: [index as u8 + 2; 32],
                lamports: 10,
                data_hash: [9; 32],
                observed_l1_slot: 900,
            }],
            settlement_effects: vec![vec![index as u8, 4]],
        })
        .collect();
    build_checkpoint_artifact_v1([77; 32], 42, steps).unwrap()
}

type PathFields = (u32, u32, Vec<[u8; 32]>);

fn path_fields(path: &MerkleAuthenticationPathV1) -> PathFields {
    (path.leaf_index, path.leaf_count, path.siblings.clone())
}

fn page_bytes(page: &DaStepPageV1) -> Vec<u8> {
    let values: Vec<_> = page
        .readonly_l1_values
        .iter()
        .map(|entry| {
            let value = &entry.value;
            (
                entry.global_index,
                entry.value_index,
                (
                    value.account,
                    value.owner,
                    value.lamports,
                    value.data_hash,
                    value.observed_l1_slot,
                ),
                path_fields(&entry.path),
            )
        })
        .collect();
    let effects: Vec<_> = page
        .settlement_effects
        .iter()
        .map(|entry| {
            (
                entry.global_index,
                entry.effect_index,
                entry.effect.clone(),
                path_fields(&entry.path),
            )
        })
        .collect();
    borsh::to_vec(&(
        page.version,
        page.page_index,
        page.step_index,
        page.transaction.clone(),
        page.transaction_effect.clone(),
        page.transaction_effect_commitment,
        page.pre_state_root,
        page.post_state_root,
        path_fields(&page.pre_state_path),
        path_fields(&page.post_state_path),
        path_fields(&page.transaction_effect_path),
        values,
        effects,
    ))
    .unwrap()
}

fn artifact_bytes(artifact: &CheckpointArtifactV1) -> Vec<u8> {
    let checkpoint = &artifact.checkpoint;
    let manifest = &artifact.da.manifest;
    let descriptors: Vec<_> = manifest
        .pages
        .iter()
        .map(|page| {
            (
                page.page_index,
                page.step_index,
                page.uncompressed_len,
                page.encoded_len,
                page.payload_hash,
            )
        })
        .collect();
    let mut bytes = borsh::to_vec(&(
        checkpoint.version,
        checkpoint.session,
        checkpoint.er_slot,
        checkpoint.step_count,
        checkpoint.previous_state_root,
        checkpoint.new_state_root,
        checkpoint.trace_root,
        checkpoint.transaction_effect_root,
        checkpoint.readonly_l1_root,
        checkpoint.da_commitment,
        checkpoint.effect_commitment,
    ))
    .unwrap();
    bytes.extend(
        borsh::to_vec(&(
            manifest.version,
            manifest.session,
            manifest.er_slot,
            manifest.step_count,
            0u8,
            manifest.dictionary_hash,
            manifest.trace_root,
            manifest.transaction_effect_root,
            manifest.readonly_l1_root,
            manifest.effect_commitment,
            descriptors,
        ))
        .unwrap(),
    );
    bytes.extend(borsh::to_vec(&(artifact.da.pages.len() as u32)).unwrap());
    for page in &artifact.da.pages {
        bytes.extend(page_bytes(page));
    }
    bytes
}

#[test]
fn artifacts_are_encoded_in_borsh() {
    let artifact = artifact();
    let page = &artifact.da.pages[3];
    assert_eq!(to_bytes(page), Some(page_bytes(page)));
    let bytes = artifact.canonical_bytes().unwrap();
    assert_eq!(bytes, artifact_bytes(&artifact));
    assert_eq!(from_bytes::<CheckpointArtifactV1>(&bytes), Some(artifact));
}

#[test]
fn transaction_effects_are_encoded_in_borsh() {
    let value = StateAccountValueV1 {
        account: [1; 32],
        owner: [2; 32],
        lamports: 3,
        executable: true,
        rent_epoch: u64::MAX,
        data_hash: [4; 32],
    };
    let effect = CheckpointTransactionEffectV1 {
        version: 1,
        step_index: 7,
        transaction_hash: [5; 32],
        executed_units: 1_000,
        account_effects: vec![CheckpointAccountEffectV1 {
            step_index: 7,
            value,
            deleted: false,
        }],
    };
    let expected = borsh::to_vec(&(
        1u8,
        7u32,
        [5u8; 32],
        1_000u64,
        vec![(
            7u32,
            ([1u8; 32], [2u8; 32], 3u64, true, u64::MAX, [4u8; 32]),
            false,
        )],
    ))
    .unwrap();
    assert_eq!(to_bytes(&effect), Some(expected.clone()));
    assert_eq!(from_bytes::<CheckpointTransactionEffectV1>(&expected), Some(effect));
    assert_eq!(from_bytes::<CheckpointTransactionEffectV1>(&expected[1..]), None);
}

#[test]
fn plans_are_stored_in_borsh() {
    let plan = SettlementPlan {
        er_slot: 5,
        checksum: [6; 32],
        chunks: vec![SettlementChunk {
            account: [1; 32],
            account_data_offset: 16,
            data: vec![7, 8, 9],
        }],
        owner_changes: vec![AccountOwnerSettlement {
            account: [1; 32],
            owner: [2; 32],
        }],
        lamport_changes: vec![AccountLamportsSettlement {
            account: [1; 32],
            lamports: 11,
        }],
        receipt_balances: vec![ReceiptBalanceSettlement {
            recipient: [3; 32],
            balance: 12,
            withdrawn: 13,
        }],
        unsupported_changes: vec![],
    };
    let expected = borsh::to_vec(&(
        5u64,
        [6u8; 32],
        vec![([1u8; 32], 16u32, vec![7u8, 8, 9])],
        vec![([1u8; 32], [2u8; 32])],
        vec![([1u8; 32], 11u64)],
        vec![([3u8; 32], 12u64, 13u64)],
    ))
    .unwrap();
    assert_eq!(checkpoint_plan_bytes(&plan), Some(expected));
}

fn stored_account(byte: u8) -> PersistedAccount {
    PersistedAccount {
        pubkey: [byte; 32],
        lamports: byte as u64,
        data: vec![byte; 3],
        owner: [9; 32],
        executable: false,
        rent_epoch: 1,
    }
}

type AccountFields = ([u8; 32], u64, Vec<u8>, [u8; 32], bool, u64);

fn account_fields(byte: u8) -> AccountFields {
    ([byte; 32], byte as u64, vec![byte; 3], [9; 32], false, 1)
}

fn payout() -> WithdrawalPayoutEvent {
    WithdrawalPayoutEvent {
        er_source: [1; 32],
        l1_recipient: [2; 32],
        lamports: 3,
        cumulative_withdrawn: 4,
        signature: [5; 64],
        er_slot: 6,
    }
}

type PayoutFields = ([u8; 32], [u8; 32], u64, u64, [u8; 64], u64);

const PAYOUT: PayoutFields = ([1; 32], [2; 32], 3, 4, [5; 64], 6);

#[test]
fn journal_records_are_encoded_in_borsh() {
    let record = |payout_events: Option<Vec<WithdrawalPayoutEvent>>| JournalRecord {
        sequence: 8,
        mutation: Mutation {
            kind: MutationKind::Update,
            accounts: vec![stored_account(2), stored_account(1)],
            touched_accounts: vec![[3; 32]],
            payout_events,
            processed_signatures: vec![PersistedSignature {
                signature: [4; 64],
                slot: 5,
            }],
        },
    };
    let expected = |payout_events: Option<Vec<PayoutFields>>| {
        borsh::to_vec(&(
            8u64,
            (
                0u8,
                vec![account_fields(2), account_fields(1)],
                vec![[3u8; 32]],
                payout_events,
                vec![([4u8; 64], 5u64)],
            ),
        ))
        .unwrap()
    };
    for (found, wanted) in [
        (record(None), expected(None)),
        (record(Some(vec![payout()])), expected(Some(vec![PAYOUT]))),
    ] {
        assert_eq!(to_bytes(&found), Some(wanted.clone()));
        assert_eq!(from_bytes::<JournalRecord>(&wanted), Some(found));
        assert_eq!(from_bytes::<JournalRecord>(&wanted[..wanted.len() - 1]), None);
    }
}

#[test]
fn snapshots_are_encoded_in_borsh() {
    let snapshot = Snapshot {
        identity: UnsettledSessionIdentity {
            format_version: 1,
            portal_program_id: [1; 32],
            session_pda: [2; 32],
            nonce: u128::MAX - 1,
            created_at: 3,
            authority: [4; 32],
            validator: [5; 32],
            grid_id: 6,
            ttl_slots: 7,
            fee_cap: 8,
            settlement_interval_slots: 9,
            bump: 255,
        },
        last_sequence: 10,
        state: StateImage {
            accounts: vec![
                AccountEntry {
                    key: [1; 32],
                    account: stored_account(1),
                },
                AccountEntry {
                    key: [2; 32],
                    account: stored_account(2),
                },
            ],
            touched_accounts: vec![[3; 32], [4; 32]],
            payout_events: vec![payout()],
            processed_signatures: vec![PersistedSignature {
                signature: [6; 64],
                slot: 7,
            }],
        },
    };
    let expected = borsh::to_vec(&(
        (
            1u16,
            [1u8; 32],
            [2u8; 32],
            u128::MAX - 1,
            3u64,
            [4u8; 32],
            [5u8; 32],
            6u64,
            7u64,
            8u64,
            9u64,
            255u8,
        ),
        10u64,
        (
            BTreeMap::from([
                ([2u8; 32], account_fields(2)),
                ([1u8; 32], account_fields(1)),
            ]),
            BTreeSet::from([[4u8; 32], [3u8; 32]]),
            vec![PAYOUT],
            BTreeMap::from([([6u8; 64], 7u64)]),
        ),
    ))
    .unwrap();
    assert_eq!(to_bytes(&snapshot), Some(expected.clone()));
    assert_eq!(from_bytes::<Snapshot>(&expected), Some(snapshot));
}
