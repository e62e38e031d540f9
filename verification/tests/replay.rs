use northstar::accounts::{Account, Pubkey};
use northstar::checkpoint::{
    build_checkpoint_artifact_v1, CheckpointAccountEffectV1, CheckpointArtifactV1,
    CheckpointStepInputV1, CheckpointTransactionEffectV1, CommitmentHash, ReadonlyL1ValueV1,
    StateAccountValueV1, CANONICAL_CHECKPOINT_STEPS_V1,
};
use northstar::codec::{from_bytes, to_bytes};
use northstar::replay::{
    check_public_inputs, extract_replay_witness_v1, prepare_replay, replay_signature,
    CapturedAccount, KeyedAccount, ReplayCapture, ReplayContextV1, ReplayError, ReplayExecution,
    ReplaySnapshot,
};
use northstar::well_known::{BPF_LOADER_UPGRADEABLE_ID, SYSTEM_PROGRAM_ID};
use solana_instruction::{AccountMeta, Instruction};
use solana_loader_v3_interface::state::UpgradeableLoaderState;
use solana_message::{Message, VersionedMessage};
use solana_sha256_hasher::hashv;
use solana_signature::Signature;
use solana_transaction::versioned::VersionedTransaction;

const PAYER: Pubkey = [11; 32];

const TARGET: Pubkey = [12; 32];

const PROGRAM: Pubkey = [13; 32];

const PROGRAMDATA: Pubkey = [14; 32];

const LIMIT: usize = 1_000;

fn root(value: u64) -> CommitmentHash {
    let mut bytes = [0u8; 32];
    bytes[24..].copy_from_slice(&value.to_be_bytes());
    bytes
}

fn account(lamports: u64, data: &[u8], owner: Pubkey) -> Account {
    Account {
        lamports,
        data: data.to_vec(),
        owner,
        executable: false,
        rent_epoch: 0,
    }
}

fn transaction(step: u8, signatures: Vec<Signature>) -> Vec<u8> {
    let instruction = Instruction {
        program_id: PROGRAM.into(),
        accounts: vec![AccountMeta::new(TARGET.into(), false)],
        data: vec![step],
    };
    bincode::serialize(&VersionedTransaction {
        signatures,
        message: VersionedMessage::Legacy(Message::new_with_blockhash(
            &[instruction],
            Some(&PAYER.into()),
            &solana_hash::Hash::new_from_array([17; 32]),
        )),
    })
    .unwrap()
}

fn effect(step: u32, executed_units: u64) -> CheckpointTransactionEffectV1 {
    CheckpointTransactionEffectV1 {
        version: 1,
        step_index: step,
        transaction_hash: [3; 32],
        executed_units,
        account_effects: vec![CheckpointAccountEffectV1 {
            step_index: step,
            value: StateAccountValueV1 {
                account: TARGET,
                owner: PROGRAM,
                lamports: 5,
                executable: false,
                rent_epoch: 0,
                data_hash: [4; 32],
            },
            deleted: false,
        }],
    }
}

fn steps() -> Vec<CheckpointStepInputV1> {
    (0..CANONICAL_CHECKPOINT_STEPS_V1)
        .map(|index| CheckpointStepInputV1 {
            step_index: index as u32,
            transaction: transaction(index as u8, vec![Signature::from([index as u8; 64])]),
            transaction_effect: to_bytes(&effect(index as u32, 700 + index as u64)).unwrap(),
            pre_state_root: root(index as u64 + 1),
            post_state_root: root(index as u64 + 2),
            readonly_l1_values: vec![ReadonlyL1ValueV1 {
                account: [index as u8 + 1; 32],
                owner: [2; 32],
                lamports: 1,
                data_hash: [6; 32],
                observed_l1_slot: 900 + index as u64,
            }],
            settlement_effects: vec![],
        })
        .collect()
}

fn built(steps: Vec<CheckpointStepInputV1>) -> CheckpointArtifactV1 {
    build_checkpoint_artifact_v1([77; 32], 42, steps).unwrap()
}

fn program() -> Account {
    let state = UpgradeableLoaderState::Program {
        programdata_address: PROGRAMDATA.into(),
    };
    account(
        1,
        &bincode::serialize(&state).unwrap(),
        BPF_LOADER_UPGRADEABLE_ID,
    )
}

fn programdata() -> Account {
    let mut data = vec![0; UpgradeableLoaderState::size_of_programdata_metadata()];
    data.extend_from_slice(b"ELF");
    account(1, &data, BPF_LOADER_UPGRADEABLE_ID)
}

fn captured(index: u32, key: Pubkey, pre: Account, post: Account) -> CapturedAccount {
    CapturedAccount {
        transaction_index: index,
        key,
        pre_account: pre,
        post_account: post,
    }
}

fn capture() -> ReplayCapture {
    ReplayCapture {
        accounts: vec![
            captured(
                0,
                PAYER,
                account(100, &[], SYSTEM_PROGRAM_ID),
                account(95, &[], SYSTEM_PROGRAM_ID),
            ),
            captured(1, TARGET, account(5, &[0], PROGRAM), account(5, &[9], PROGRAM)),
            captured(2, PROGRAM, program(), program()),
        ],
        snapshot_len: Some(LIMIT),
        loaded_accounts_data_size: 64,
        transaction_fee: 5,
        prioritization_fee: 1,
    }
}

fn keyed(pubkey: Pubkey, account: Account) -> KeyedAccount {
    KeyedAccount { pubkey, account }
}

fn snapshot() -> ReplaySnapshot {
    ReplaySnapshot {
        accounts: vec![
            keyed(PAYER, account(100, &[], SYSTEM_PROGRAM_ID)),
            keyed(TARGET, account(5, &[0], PROGRAM)),
            keyed(PROGRAM, program()),
            keyed(PROGRAMDATA, programdata()),
        ],
        features: Some(vec![1, 2, 3]),
        lamports_per_signature: 5_000,
    }
}

fn execution(step: u64) -> ReplayExecution {
    ReplayExecution {
        succeeded: true,
        executed_units: 700 + step,
        loaded_accounts_data_size: 64,
        transaction_fee: 5,
        prioritization_fee: 1,
        accounts: capture()
            .accounts
            .into_iter()
            .map(|captured| keyed(captured.key, captured.post_account))
            .collect(),
        trace_supported: true,
    }
}

fn context() -> ReplayContextV1 {
    ReplayContextV1 {
        session_context: vec![8, 8],
        agave_revision: [1; 20],
        northstar_revision: [2; 20],
        vm_config_hash: [3; 32],
        syscall_registry_hash: [4; 32],
    }
}

fn refusal(
    artifact: &CheckpointArtifactV1,
    step: usize,
    capture: Option<&ReplayCapture>,
    snapshot: Option<&ReplaySnapshot>,
    execution: Option<&ReplayExecution>,
) -> ReplayError {
    extract_replay_witness_v1(artifact, step, capture, LIMIT, snapshot, execution, context())
        .unwrap_err()
}

#[test]
fn replays_are_bound_to_their_step() {
    let artifact = built(steps());
    assert_eq!(replay_signature(&artifact, 3), Ok([3; 64]));
    let bound = extract_replay_witness_v1(
        &artifact,
        3,
        Some(&capture()),
        LIMIT,
        Some(&snapshot()),
        Some(&execution(3)),
        context(),
    )
    .unwrap();
    assert_eq!(bound.er_slot, 42);
    assert_eq!(bound.step_index, 3);
    assert_eq!(bound.slot, 903);
    assert_eq!(bound.fee_payer, PAYER);
    assert_eq!(bound.target, TARGET);
    assert_eq!(bound.program_id, PROGRAM);
    assert_eq!(bound.programdata_id, PROGRAMDATA);
    assert_eq!(bound.program_elf, b"ELF".to_vec());
    assert_eq!(bound.recent_blockhash, [17; 32]);
    assert_eq!(bound.lamports_per_signature, 5_000);
    assert_eq!(bound.feature_set_hash, hashv(&[&[1, 2, 3]]).to_bytes());
    assert_eq!(bound.session_context, vec![8, 8]);
    assert_eq!(
        bound.checkpoint_transaction_effect_root,
        artifact.checkpoint.transaction_effect_root
    );
    assert_eq!(bound.readonly_l1_root, artifact.checkpoint.readonly_l1_root);
    assert_eq!(
        bound.settlement_effect_root,
        artifact.checkpoint.effect_commitment
    );
    assert_eq!(bound.transaction_effect, to_bytes(&effect(3, 703)).unwrap());
    let page = &artifact.da.pages[3];
    assert_eq!(bound.transaction_effect_path, page.transaction_effect_path);
    assert_eq!(bound.readonly_l1_values, page.readonly_l1_values);
    assert_eq!(bound.settlement_effects, page.settlement_effects);
}

#[test]
fn prepared_steps_name_their_accounts() {
    let prepared = prepare_replay(
        &built(steps()),
        2,
        Some(&capture()),
        LIMIT,
        Some(&snapshot()),
    )
    .unwrap();
    assert_eq!(prepared.fee_payer, PAYER);
    assert_eq!(prepared.target, TARGET);
    assert_eq!(prepared.program, PROGRAM);
    assert_eq!(prepared.executed_units, 702);
}

#[test]
fn artifacts_that_do_not_verify_are_not_replayed() {
    let mut artifact = built(steps());
    artifact.checkpoint.er_slot = 43;
    assert_eq!(
        replay_signature(&artifact, 0),
        Err(ReplayError::CheckpointAuthentication)
    );
    assert_eq!(
        replay_signature(&built(steps()), 16),
        Err(ReplayError::StepMissing)
    );
    let mut garbled = steps();
    garbled[1].transaction = vec![1, 2, 3];
    assert_eq!(
        replay_signature(&built(garbled), 1),
        Err(ReplayError::TransactionEncoding)
    );
    let mut unsigned = steps();
    unsigned[1].transaction = transaction(1, vec![]);
    assert_eq!(
        replay_signature(&built(unsigned), 1),
        Err(ReplayError::SignatureMissing)
    );
}

#[test]
fn missing_captures_and_snapshots_are_told_apart() {
    let artifact = built(steps());
    let full = capture();
    assert_eq!(
        refusal(&artifact, 0, None, Some(&snapshot()), Some(&execution(0))),
        ReplayError::CaptureMissing
    );
    let no_snapshot = ReplayCapture {
        snapshot_len: None,
        ..capture()
    };
    assert_eq!(
        refusal(&artifact, 0, Some(&no_snapshot), Some(&snapshot()), None),
        ReplayError::SnapshotMissing
    );
    let large = ReplayCapture {
        snapshot_len: Some(LIMIT + 1),
        ..capture()
    };
    assert_eq!(
        refusal(&artifact, 0, Some(&large), Some(&snapshot()), None),
        ReplayError::SnapshotTooLarge
    );
    assert_eq!(
        refusal(&artifact, 0, Some(&full), None, None),
        ReplayError::SnapshotEncoding
    );
    let mut short = capture();
    short.accounts.pop();
    assert_eq!(
        refusal(&artifact, 0, Some(&short), Some(&snapshot()), None),
        ReplayError::AccountShape
    );
    assert_eq!(
        refusal(&artifact, 0, Some(&full), Some(&snapshot()), None),
        ReplayError::ReexecutionFailed
    );
}

#[test]
fn states_that_do_not_match_are_refused() {
    let artifact = built(steps());
    let full = capture();
    let mut changed = snapshot();
    changed.accounts[1].account.lamports += 1;
    assert_eq!(
        refusal(&artifact, 0, Some(&full), Some(&changed), Some(&execution(0))),
        ReplayError::PreStateMismatch
    );
    let mut misnumbered = capture();
    misnumbered.accounts[1].transaction_index = 2;
    assert_eq!(
        refusal(&artifact, 0, Some(&misnumbered), Some(&snapshot()), None),
        ReplayError::PreStateMismatch
    );
    let mut no_effect = steps();
    no_effect[0].transaction_effect = vec![1];
    assert_eq!(
        refusal(&built(no_effect), 0, Some(&full), Some(&snapshot()), None),
        ReplayError::TransactionEffectEncoding
    );
    let others = [
        ReplayExecution {
            succeeded: false,
            ..execution(0)
        },
        execution(1),
        ReplayExecution {
            loaded_accounts_data_size: 65,
            ..execution(0)
        },
        ReplayExecution {
            transaction_fee: 6,
            ..execution(0)
        },
        ReplayExecution {
            prioritization_fee: 0,
            ..execution(0)
        },
        ReplayExecution {
            accounts: vec![],
            ..execution(0)
        },
    ];
    for other in others {
        assert_eq!(
            refusal(&artifact, 0, Some(&full), Some(&snapshot()), Some(&other)),
            ReplayError::ExecutionMismatch
        );
    }
    let mut drifted = execution(0);
    drifted.accounts[0].account.lamports += 1;
    assert_eq!(
        refusal(&artifact, 0, Some(&full), Some(&snapshot()), Some(&drifted)),
        ReplayError::PostStateMismatch
    );
}

#[test]
fn programs_without_code_are_refused() {
    let artifact = built(steps());
    let mut full = capture();
    let mut no_code = snapshot();
    no_code.accounts.pop();
    assert_eq!(
        refusal(&artifact, 0, Some(&full), Some(&no_code), Some(&execution(0))),
        ReplayError::ProgramdataMissing
    );
    let mut short = snapshot();
    short.accounts[3].account.data.truncate(44);
    assert_eq!(
        refusal(&artifact, 0, Some(&full), Some(&short), Some(&execution(0))),
        ReplayError::ElfMissing
    );
    let plain = account(1, &[1, 0, 0, 0], BPF_LOADER_UPGRADEABLE_ID);
    let mut other = snapshot();
    other.accounts[2].account = plain.clone();
    full.accounts[2].pre_account = plain.clone();
    assert_eq!(
        refusal(&artifact, 0, Some(&full), Some(&other), Some(&execution(0))),
        ReplayError::ProgramState
    );
    let mut unobserved = steps();
    unobserved[0].readonly_l1_values.clear();
    assert_eq!(
        refusal(
            &built(unobserved),
            0,
            Some(&capture()),
            Some(&snapshot()),
            Some(&execution(0))
        ),
        ReplayError::ReadonlyObservationMissing
    );
}

#[test]
fn replays_without_a_proof_are_refused() {
    let artifact = built(steps());
    let untraced = ReplayExecution {
        trace_supported: false,
        ..execution(0)
    };
    let unencoded = ReplaySnapshot {
        features: None,
        ..snapshot()
    };
    assert_eq!(
        refusal(&artifact, 0, Some(&capture()), Some(&unencoded), Some(&untraced)),
        ReplayError::UnsupportedTrace
    );
    assert_eq!(
        refusal(&artifact, 0, Some(&capture()), Some(&unencoded), Some(&execution(0))),
        ReplayError::FeatureEncoding
    );
    assert_eq!(
        check_public_inputs(None, &[7; 256]),
        Err(ReplayError::RelationRejected)
    );
    assert_eq!(ReplayError::UnsupportedTrace.message(), "unsupported replay trace");
    assert_eq!(ReplayError::FeatureEncoding.message(), "feature encoding");
    assert_eq!(ReplayError::RelationRejected.message(), "replay relation rejected");
}

#[test]
fn public_inputs_are_compared_whole() {
    let mut public = [7u8; 256];
    assert_eq!(check_public_inputs(Some(&public), &[7; 256]), Ok(()));
    public[255] = 8;
    assert_eq!(
        check_public_inputs(Some(&public), &[7; 256]),
        Err(ReplayError::PublicInputsMismatch)
    );
}

#[test]
fn replay_errors_are_put_into_words() {
    let words = [
        (ReplayError::CheckpointAuthentication, "checkpoint authentication"),
        (ReplayError::StepMissing, "step missing"),
        (ReplayError::CaptureMissing, "finalized replay capture missing"),
        (ReplayError::SnapshotTooLarge, "runtime snapshot too large"),
        (ReplayError::ProgramMissing, "program missing"),
        (ReplayError::PublicInputsMismatch, "checkpoint public inputs mismatch"),
    ];
    for (error, text) in words {
        assert_eq!(error.message(), text);
    }
}

#[test]
fn transaction_effects_have_one_encoding() {
    let value = effect(3, 703);
    let bytes = to_bytes(&value).unwrap();
    let mut expected = vec![1];
    expected.extend_from_slice(&3u32.to_le_bytes());
    expected.extend_from_slice(&[3; 32]);
    expected.extend_from_slice(&703u64.to_le_bytes());
    expected.extend_from_slice(&1u32.to_le_bytes());
    expected.extend_from_slice(&3u32.to_le_bytes());
    expected.extend_from_slice(&TARGET);
    expected.extend_from_slice(&PROGRAM);
    expected.extend_from_slice(&5u64.to_le_bytes());
    expected.push(0);
    expected.extend_from_slice(&0u64.to_le_bytes());
    expected.extend_from_slice(&[4; 32]);
    expected.push(0);
    assert_eq!(bytes, expected);
    assert_eq!(from_bytes::<CheckpointTransactionEffectV1>(&bytes), Some(value));
    let mut flagged = bytes.clone();
    let last = flagged.len() - 1;
    flagged[last] = 2;
    assert_eq!(from_bytes::<CheckpointTransactionEffectV1>(&flagged), None);
    let mut longer = bytes;
    longer.push(0);
    assert_eq!(from_bytes::<CheckpointTransactionEffectV1>(&longer), None);
}
