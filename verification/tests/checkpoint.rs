use std::collections::HashSet;

use northstar::checkpoint::leaves::{
    readonly_l1_leaf_hash, settlement_effect_leaf_hash, state_account_leaf_hash, trace_leaf_hash,
    transaction_effect_leaf_hash,
};
use northstar::checkpoint::{
    build_checkpoint_artifact_v1, state_root_v1, CheckpointArtifactError, CheckpointArtifactV1,
    CheckpointStepInputV1, CommitmentHash, Pubkey, ReadonlyL1ValueV1, StateAccountValueV1,
    CANONICAL_CHECKPOINT_STEPS_V1, MAX_READONLY_L1_VALUES_PER_STEP_V1,
    MAX_SETTLEMENT_EFFECTS_PER_STEP_V1, MAX_SETTLEMENT_EFFECT_BYTES_V1, MAX_TRANSACTION_BYTES_V1,
    MAX_TRANSACTION_EFFECT_BYTES_V1,
};
use northstar::merkle::{
    empty_leaf_hash, node_hash, root_hash, typed_hash, MerkleTree, TreeKind,
};
use northstar::order::is_canonical_scalar;
use solana_sha256_hasher::hashv;

const DOMAIN: &[u8] = b"northstar-checkpoint-v1";

const SESSION: Pubkey = [77; 32];

fn root(value: u64) -> CommitmentHash {
    let mut bytes = [0u8; 32];
    bytes[24..].copy_from_slice(&value.to_be_bytes());
    bytes
}

fn steps() -> Vec<CheckpointStepInputV1> {
    (0..CANONICAL_CHECKPOINT_STEPS_V1)
        .map(|index| CheckpointStepInputV1 {
            step_index: index as u32,
            transaction: vec![index as u8, 1, 2],
            transaction_effect: vec![index as u8, 3],
            pre_state_root: root(index as u64 + 1),
            post_state_root: root(index as u64 + 2),
            readonly_l1_values: vec![ReadonlyL1ValueV1 {
                account: [index as u8 + 1; 32],
                owner: [index as u8 + 2; 32],
                lamports: index as u64 + 10,
                data_hash: hashv(&[b"readonly", &[index as u8]]).to_bytes(),
                observed_l1_slot: index as u64 + 900,
            }],
            settlement_effects: vec![vec![index as u8, 4]],
        })
        .collect()
}

fn artifact() -> CheckpointArtifactV1 {
    build_checkpoint_artifact_v1(SESSION, 42, steps()).unwrap()
}

fn state_account(index: u8) -> StateAccountValueV1 {
    StateAccountValueV1 {
        account: [index; 32],
        owner: [2; 32],
        lamports: 3,
        executable: true,
        rent_epoch: 4,
        data_hash: hashv(&[b"state-data"]).to_bytes(),
    }
}

fn refusal(steps: Vec<CheckpointStepInputV1>) -> CheckpointArtifactError {
    build_checkpoint_artifact_v1(SESSION, 42, steps).unwrap_err()
}

#[test]
fn sixteen_step_artifact_is_deterministic_and_authenticated() {
    let first = build_checkpoint_artifact_v1(SESSION, 42, steps()).unwrap();
    let second = build_checkpoint_artifact_v1(SESSION, 42, steps()).unwrap();
    let third = build_checkpoint_artifact_v1(SESSION, 42, steps()).unwrap();
    let first_bytes = first.canonical_bytes().unwrap();
    assert_eq!(first_bytes, second.canonical_bytes().unwrap());
    assert_eq!(first_bytes, third.canonical_bytes().unwrap());
    assert_eq!(first.checkpoint.step_count, 16);
    assert_eq!(first.da.pages.len(), 16);
    assert!(first
        .da
        .pages
        .iter()
        .all(|page| page.verify_authentication_paths(&first.checkpoint)));
    assert_eq!(
        CheckpointArtifactV1::decode_verified(&first_bytes),
        Ok(first)
    );
}

#[test]
fn commitments_are_distinct_and_field_roots_are_canonical() {
    let artifact = artifact();
    let roots = [
        artifact.checkpoint.trace_root,
        artifact.checkpoint.transaction_effect_root,
        artifact.checkpoint.readonly_l1_root,
        artifact.checkpoint.da_commitment,
        artifact.checkpoint.effect_commitment,
    ];
    assert!(roots.iter().all(|root| *root != [0; 32]));
    assert_eq!(
        roots.iter().copied().collect::<HashSet<_>>().len(),
        roots.len()
    );
    assert!(is_canonical_scalar(&artifact.checkpoint.readonly_l1_root));
    assert!(is_canonical_scalar(&artifact.checkpoint.effect_commitment));
}

#[test]
fn missing_reordered_changed_and_duplicate_pages_fail_closed() {
    let artifact = artifact();

    let mut missing = artifact.clone();
    missing.da.pages.pop();
    assert!(missing.verify().is_err());

    let mut reordered = artifact.clone();
    reordered.da.pages.swap(0, 1);
    assert!(reordered.verify().is_err());

    let mut changed = artifact.clone();
    changed.da.pages[7].transaction[1] ^= 1;
    assert!(changed.verify().is_err());

    let mut duplicate = artifact;
    duplicate.da.pages[8] = duplicate.da.pages[7].clone();
    assert!(duplicate.verify().is_err());
}

#[test]
fn duplicate_or_noncanonical_step_inputs_fail_closed() {
    let mut duplicate_transaction = steps();
    duplicate_transaction[1].transaction = duplicate_transaction[0].transaction.clone();
    assert_eq!(
        build_checkpoint_artifact_v1(SESSION, 42, duplicate_transaction),
        Err(CheckpointArtifactError::InvalidTransaction)
    );

    let mut duplicate_readonly = steps();
    let duplicate_value = duplicate_readonly[0].readonly_l1_values[0];
    duplicate_readonly[0]
        .readonly_l1_values
        .push(duplicate_value);
    assert_eq!(
        build_checkpoint_artifact_v1(SESSION, 42, duplicate_readonly),
        Err(CheckpointArtifactError::InvalidReadonlyL1Values)
    );

    let mut broken_chain = steps();
    broken_chain[8].pre_state_root = root(999);
    assert_eq!(
        build_checkpoint_artifact_v1(SESSION, 42, broken_chain),
        Err(CheckpointArtifactError::InvalidStateRoot)
    );
}

#[test]
fn trailing_bytes_and_changed_authentication_path_fail_closed() {
    let artifact = artifact();
    let mut encoded = artifact.canonical_bytes().unwrap();
    encoded.push(0);
    assert_eq!(
        CheckpointArtifactV1::decode_verified(&encoded),
        Err(CheckpointArtifactError::Encoding)
    );

    let mut changed = artifact;
    changed.da.pages[4].pre_state_path.siblings[0][0] ^= 1;
    assert!(!changed.da.pages[4].verify_authentication_paths(&changed.checkpoint));
    assert!(changed.verify().is_err());
}

#[test]
fn empty_readonly_and_settlement_trees_have_nonzero_field_roots() {
    let mut inputs = steps();
    for step in &mut inputs {
        step.readonly_l1_values.clear();
        step.settlement_effects.clear();
    }
    let artifact = build_checkpoint_artifact_v1(SESSION, 42, inputs).unwrap();
    assert_ne!(artifact.checkpoint.readonly_l1_root, [0; 32]);
    assert_ne!(artifact.checkpoint.effect_commitment, [0; 32]);
    assert!(is_canonical_scalar(&artifact.checkpoint.readonly_l1_root));
    assert!(is_canonical_scalar(&artifact.checkpoint.effect_commitment));
    assert!(artifact.verify().is_ok());
}

#[test]
fn step_errors_name_the_first_fault() {
    let mut short = steps();
    short.pop();
    assert_eq!(refusal(short), CheckpointArtifactError::InvalidStepCount);
    assert_eq!(refusal(Vec::new()), CheckpointArtifactError::InvalidStepCount);

    let mut misnumbered = steps();
    misnumbered[3].step_index = 4;
    assert_eq!(refusal(misnumbered), CheckpointArtifactError::InvalidStepIndex);

    let mut zero_root = steps();
    zero_root[0].pre_state_root = [0; 32];
    assert_eq!(refusal(zero_root), CheckpointArtifactError::InvalidStateRoot);

    let mut no_field_element = steps();
    no_field_element[0].pre_state_root = [0xff; 32];
    assert_eq!(refusal(no_field_element), CheckpointArtifactError::InvalidStateRoot);

    let mut empty_transaction = steps();
    empty_transaction[2].transaction.clear();
    assert_eq!(refusal(empty_transaction), CheckpointArtifactError::InvalidTransaction);

    let mut long_transaction = steps();
    long_transaction[2].transaction = vec![9; MAX_TRANSACTION_BYTES_V1 + 1];
    assert_eq!(refusal(long_transaction), CheckpointArtifactError::InvalidTransaction);

    let mut empty_effect = steps();
    empty_effect[2].transaction_effect.clear();
    assert_eq!(refusal(empty_effect), CheckpointArtifactError::InvalidTransactionEffect);

    let mut long_effect = steps();
    long_effect[2].transaction_effect = vec![9; MAX_TRANSACTION_EFFECT_BYTES_V1 + 1];
    assert_eq!(refusal(long_effect), CheckpointArtifactError::InvalidTransactionEffect);

    let mut many_values = steps();
    let value = many_values[0].readonly_l1_values[0];
    many_values[0].readonly_l1_values = (0..=MAX_READONLY_L1_VALUES_PER_STEP_V1)
        .map(|index| ReadonlyL1ValueV1 {
            observed_l1_slot: index as u64,
            ..value
        })
        .collect();
    assert_eq!(refusal(many_values), CheckpointArtifactError::InvalidReadonlyL1Values);

    let mut many_effects = steps();
    many_effects[0].settlement_effects = (0..=MAX_SETTLEMENT_EFFECTS_PER_STEP_V1)
        .map(|index| vec![200, (index / 256) as u8, index as u8])
        .collect();
    assert_eq!(refusal(many_effects), CheckpointArtifactError::InvalidSettlementEffects);

    let mut long_settlement = steps();
    long_settlement[0].settlement_effects = vec![vec![1; MAX_SETTLEMENT_EFFECT_BYTES_V1 + 1]];
    assert_eq!(refusal(long_settlement), CheckpointArtifactError::InvalidSettlementEffects);

    let mut repeated_settlement = steps();
    repeated_settlement[5].settlement_effects = vec![vec![0, 4]];
    assert_eq!(refusal(repeated_settlement), CheckpointArtifactError::InvalidSettlementEffects);
}

#[test]
fn limits_are_inclusive() {
    let mut full = steps();
    full[0].transaction = vec![9; MAX_TRANSACTION_BYTES_V1];
    full[0].transaction_effect = vec![9; 4096];
    full[0].settlement_effects = vec![vec![1; MAX_SETTLEMENT_EFFECT_BYTES_V1]];
    let built = build_checkpoint_artifact_v1(SESSION, 42, full).unwrap();
    assert_eq!(built.verify(), Ok(()));
}

#[test]
fn changed_artifacts_are_refused_with_their_error() {
    let mut version = artifact();
    version.checkpoint.version = 2;
    assert_eq!(version.verify(), Err(CheckpointArtifactError::UnsupportedVersion));

    let mut manifest_version = artifact();
    manifest_version.da.manifest.version = 0;
    assert_eq!(manifest_version.verify(), Err(CheckpointArtifactError::UnsupportedVersion));

    let mut missing_descriptor = artifact();
    missing_descriptor.da.manifest.pages.pop();
    assert_eq!(missing_descriptor.verify(), Err(CheckpointArtifactError::InvalidStepCount));

    let mut other_session = artifact();
    other_session.checkpoint.session = [3; 32];
    assert_eq!(other_session.verify(), Err(CheckpointArtifactError::CommitmentMismatch));

    let mut other_commitment = artifact();
    other_commitment.checkpoint.da_commitment[5] ^= 1;
    assert_eq!(other_commitment.verify(), Err(CheckpointArtifactError::CommitmentMismatch));

    let mut other_step = artifact();
    other_step.da.pages[2].step_index = 9;
    assert_eq!(other_step.verify(), Err(CheckpointArtifactError::InvalidStepIndex));
}

#[test]
fn truncated_encodings_are_refused() {
    let bytes = artifact().canonical_bytes().unwrap();
    assert_eq!(
        CheckpointArtifactV1::decode_verified(&bytes[..bytes.len() - 1]),
        Err(CheckpointArtifactError::Encoding)
    );
    assert_eq!(
        CheckpointArtifactV1::decode_verified(&[]),
        Err(CheckpointArtifactError::Encoding)
    );
}

#[test]
fn checkpoint_commitment_is_encoded_field_by_field() {
    let built = artifact();
    let bytes = built.canonical_bytes().unwrap();
    let checkpoint = built.checkpoint;
    let mut head = vec![1u8];
    head.extend_from_slice(&SESSION);
    head.extend_from_slice(&42u64.to_le_bytes());
    head.extend_from_slice(&16u32.to_le_bytes());
    head.extend_from_slice(&root(1));
    head.extend_from_slice(&root(17));
    head.extend_from_slice(&checkpoint.trace_root);
    head.extend_from_slice(&checkpoint.transaction_effect_root);
    head.extend_from_slice(&checkpoint.readonly_l1_root);
    head.extend_from_slice(&checkpoint.da_commitment);
    head.extend_from_slice(&checkpoint.effect_commitment);
    head.push(1);
    head.extend_from_slice(&SESSION);
    assert_eq!(&bytes[..head.len()], &head[..]);
}

#[test]
fn pages_hold_the_steps_they_were_built_from() {
    let built = artifact();
    for (step, page) in steps().iter().zip(&built.da.pages) {
        assert_eq!(page.step_index, step.step_index);
        assert_eq!(page.transaction, step.transaction);
        assert_eq!(page.transaction_effect, step.transaction_effect);
        assert_eq!(page.pre_state_root, step.pre_state_root);
        assert_eq!(page.post_state_root, step.post_state_root);
        assert_eq!(page.readonly_l1_values[0].value, step.readonly_l1_values[0]);
        assert_eq!(page.settlement_effects[0].effect, step.settlement_effects[0]);
    }
    assert_eq!(built.checkpoint.previous_state_root, root(1));
    assert_eq!(built.checkpoint.new_state_root, root(17));
}

#[test]
fn typed_hashes_cover_domain_kind_label_and_length() {
    let expected = hashv(&[DOMAIN, b"trace", b"leaf", &3u64.to_le_bytes(), &[7, 8, 9]]).to_bytes();
    assert_eq!(typed_hash(TreeKind::Trace, b"leaf", &[7, 8, 9]), expected);

    let index = 5u32.to_le_bytes();
    let empty = hashv(&[DOMAIN, b"state", b"empty-leaf", &4u64.to_le_bytes(), &index]).to_bytes();
    assert_eq!(empty_leaf_hash(TreeKind::State, 5), Ok(empty));

    let node = hashv(&[
        DOMAIN,
        b"data-availability",
        b"node",
        &2u32.to_le_bytes(),
        &[1; 32],
        &[2; 32],
    ])
    .to_bytes();
    assert_eq!(
        node_hash(TreeKind::DataAvailability, 2, &[1; 32], &[2; 32]),
        node
    );

    let trace = hashv(&[DOMAIN, b"trace", b"root", &3u32.to_le_bytes(), &[4; 32]]).to_bytes();
    assert_eq!(root_hash(TreeKind::Trace, 3, &[4; 32]), trace);

    let mut readonly =
        hashv(&[DOMAIN, b"readonly-l1", b"root", &3u32.to_le_bytes(), &[4; 32]]).to_bytes();
    readonly[0] &= 0x1f;
    assert_eq!(root_hash(TreeKind::ReadonlyL1, 3, &[4; 32]), readonly);
}

#[test]
fn leaves_are_encoded_before_they_are_hashed() {
    let mut trace = 6u32.to_le_bytes().to_vec();
    trace.extend_from_slice(&[9; 32]);
    assert_eq!(
        trace_leaf_hash(6, &[9; 32]),
        Ok(typed_hash(TreeKind::Trace, b"leaf", &trace))
    );

    let mut effect = 1u32.to_le_bytes().to_vec();
    effect.extend_from_slice(&2u32.to_le_bytes());
    effect.extend_from_slice(&[5, 6]);
    effect.extend_from_slice(&1u32.to_le_bytes());
    effect.push(7);
    let mut masked = typed_hash(TreeKind::TransactionEffect, b"leaf", &effect);
    masked[0] &= 0x1f;
    assert_eq!(transaction_effect_leaf_hash(1, &[5, 6], &[7]), Ok(masked));

    let value = steps()[0].readonly_l1_values[0];
    let mut readonly = Vec::new();
    for index in [1u32, 2, 3] {
        readonly.extend_from_slice(&index.to_le_bytes());
    }
    readonly.extend_from_slice(&value.account);
    readonly.extend_from_slice(&value.owner);
    readonly.extend_from_slice(&value.lamports.to_le_bytes());
    readonly.extend_from_slice(&value.data_hash);
    readonly.extend_from_slice(&value.observed_l1_slot.to_le_bytes());
    assert_eq!(
        readonly_l1_leaf_hash(1, 2, 3, &value),
        Ok(typed_hash(TreeKind::ReadonlyL1, b"leaf", &readonly))
    );

    let mut settlement = Vec::new();
    for index in [4u32, 5, 6, 2] {
        settlement.extend_from_slice(&index.to_le_bytes());
    }
    settlement.extend_from_slice(&[8, 9]);
    assert_eq!(
        settlement_effect_leaf_hash(4, 5, 6, &[8, 9]),
        Ok(typed_hash(TreeKind::SettlementEffect, b"leaf", &settlement))
    );

    let account = state_account(1);
    let mut state = 3u32.to_le_bytes().to_vec();
    state.extend_from_slice(&[1; 32]);
    state.extend_from_slice(&[2; 32]);
    state.extend_from_slice(&3u64.to_le_bytes());
    state.push(1);
    state.extend_from_slice(&4u64.to_le_bytes());
    state.extend_from_slice(&account.data_hash);
    assert_eq!(
        state_account_leaf_hash(3, &account),
        Ok(typed_hash(TreeKind::State, b"leaf", &state))
    );
}

#[test]
fn state_roots_are_roots_of_ordered_accounts() {
    let first = state_account(1);
    let second = state_account(2);
    let leaves = vec![
        state_account_leaf_hash(0, &first).unwrap(),
        state_account_leaf_hash(1, &second).unwrap(),
    ];
    let inner = node_hash(TreeKind::State, 0, &leaves[0], &leaves[1]);
    assert_eq!(
        state_root_v1(&[first, second]),
        Ok(root_hash(TreeKind::State, 2, &inner))
    );
    assert_eq!(
        state_root_v1(&[second, first]),
        Err(CheckpointArtifactError::InvalidStateAccounts)
    );
    assert_eq!(
        state_root_v1(&[first, first]),
        Err(CheckpointArtifactError::InvalidStateAccounts)
    );
    let mut unhashed = first;
    unhashed.data_hash = [0; 32];
    assert_eq!(
        state_root_v1(&[unhashed]),
        Err(CheckpointArtifactError::InvalidStateAccounts)
    );
    assert!(is_canonical_scalar(&state_root_v1(&[]).unwrap()));
}

#[test]
fn every_leaf_of_a_tree_has_a_path_to_its_root() {
    let leaves: Vec<CommitmentHash> = (1..=5).map(|index| [index; 32]).collect();
    let tree = MerkleTree::new(TreeKind::Trace, leaves.clone()).unwrap();
    for (index, leaf) in leaves.iter().enumerate() {
        let path = tree.path(index).unwrap();
        assert_eq!(path.leaf_index, index as u32);
        assert_eq!(path.leaf_count, 5);
        assert_eq!(path.siblings.len(), 3);
        assert!(path.verify(TreeKind::Trace, *leaf, tree.root()));
        assert!(!path.verify(TreeKind::State, *leaf, tree.root()));
        assert!(!path.verify(TreeKind::Trace, [99; 32], tree.root()));
        let mut short = path.clone();
        short.siblings.pop();
        assert!(!short.verify(TreeKind::Trace, *leaf, tree.root()));
    }
    assert!(tree.path(5).is_err());
}
