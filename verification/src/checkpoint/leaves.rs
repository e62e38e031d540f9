//! The leaves that a checkpoint's trees commit to.

use vstd::prelude::*;

use crate::checkpoint::{CheckpointArtifactError, ReadonlyL1ValueV1, StateAccountValueV1};
use crate::codec::{le, put_bytes, put_le, Codec};
use crate::merkle::{mask, masked, typed_digest, typed_hash, CommitmentHash, TreeKind};

verus! {

/// `leaf`
pub const LEAF_LABEL: [u8; 4] = [108u8, 101u8, 97u8, 102u8];

/// `page`
pub const PAGE_LABEL: [u8; 4] = [112u8, 97u8, 103u8, 101u8];

/// `dictionary`
pub const DICTIONARY_LABEL: [u8; 10] = [
    100u8, 105u8, 99u8, 116u8, 105u8, 111u8, 110u8, 97u8, 114u8, 121u8,
];

/// `manifest`
pub const MANIFEST_LABEL: [u8; 8] = [109u8, 97u8, 110u8, 105u8, 102u8, 101u8, 115u8, 116u8];

/// A byte string with its length in front of it.
pub open spec fn wire_bytes(bytes: Seq<u8>) -> Seq<u8> {
    le(bytes.len(), 4) + bytes
}

/// The leaf of a state root in the trace tree.
pub open spec fn trace_leaf(index: nat, state_root: CommitmentHash) -> CommitmentHash {
    typed_digest(TreeKind::Trace, LEAF_LABEL@, le(index, 4) + state_root@)
}

/// The leaf of a transaction and its effect, read as a scalar-field element.
pub open spec fn transaction_effect_leaf(
    index: nat,
    transaction: Seq<u8>,
    transaction_effect: Seq<u8>,
) -> CommitmentHash {
    masked(
        typed_digest(
            TreeKind::TransactionEffect,
            LEAF_LABEL@,
            le(index, 4) + wire_bytes(transaction) + wire_bytes(transaction_effect),
        ),
    )
}

/// The leaf of a value read from layer one.
pub open spec fn readonly_l1_leaf(
    global_index: nat,
    step_index: nat,
    value_index: nat,
    value: ReadonlyL1ValueV1,
) -> CommitmentHash {
    typed_digest(
        TreeKind::ReadonlyL1,
        LEAF_LABEL@,
        le(global_index, 4) + le(step_index, 4) + le(value_index, 4) + ReadonlyL1ValueV1::wire(
            value,
        ),
    )
}

/// The leaf of a settlement effect.
pub open spec fn settlement_effect_leaf(
    global_index: nat,
    step_index: nat,
    effect_index: nat,
    effect: Seq<u8>,
) -> CommitmentHash {
    typed_digest(
        TreeKind::SettlementEffect,
        LEAF_LABEL@,
        le(global_index, 4) + le(step_index, 4) + le(effect_index, 4) + wire_bytes(effect),
    )
}

/// The leaf of an account in the state tree.
pub open spec fn state_account_leaf(index: nat, account: StateAccountValueV1) -> CommitmentHash {
    typed_digest(TreeKind::State, LEAF_LABEL@, le(index, 4) + StateAccountValueV1::wire(account))
}

pub fn trace_leaf_hash(index: u32, state_root: &CommitmentHash) -> (r: Result<
    CommitmentHash,
    CheckpointArtifactError,
>)
    ensures
        r == Ok::<CommitmentHash, CheckpointArtifactError>(trace_leaf(index as nat, *state_root)),
{
    let mut bytes: Vec<u8> = Vec::new();
    put_le(&mut bytes, index as u64, 4);
    put_bytes(&mut bytes, state_root);
    assert(bytes@ =~= le(index as nat, 4) + state_root@);
    Ok(typed_hash(TreeKind::Trace, &LEAF_LABEL, bytes.as_slice()))
}

pub fn transaction_effect_leaf_hash(
    index: u32,
    transaction: &[u8],
    transaction_effect: &[u8],
) -> (r: Result<CommitmentHash, CheckpointArtifactError>)
    ensures
        r == (if transaction@.len() <= u32::MAX && transaction_effect@.len() <= u32::MAX {
            Ok::<CommitmentHash, CheckpointArtifactError>(
                transaction_effect_leaf(index as nat, transaction@, transaction_effect@),
            )
        } else {
            Err(CheckpointArtifactError::Encoding)
        }),
{
    if transaction.len() as u64 > u32::MAX as u64 || transaction_effect.len() as u64
        > u32::MAX as u64 {
        return Err(CheckpointArtifactError::Encoding);
    }
    let mut bytes: Vec<u8> = Vec::new();
    put_le(&mut bytes, index as u64, 4);
    put_le(&mut bytes, transaction.len() as u64, 4);
    put_bytes(&mut bytes, transaction);
    put_le(&mut bytes, transaction_effect.len() as u64, 4);
    put_bytes(&mut bytes, transaction_effect);
    assert(bytes@ =~= le(index as nat, 4) + wire_bytes(transaction@) + wire_bytes(
        transaction_effect@,
    ));
    Ok(mask(typed_hash(TreeKind::TransactionEffect, &LEAF_LABEL, bytes.as_slice())))
}

pub fn readonly_l1_leaf_hash(
    global_index: u32,
    step_index: u32,
    value_index: u32,
    value: &ReadonlyL1ValueV1,
) -> (r: Result<CommitmentHash, CheckpointArtifactError>)
    ensures
        r == Ok::<CommitmentHash, CheckpointArtifactError>(
            readonly_l1_leaf(global_index as nat, step_index as nat, value_index as nat, *value),
        ),
{
    let mut bytes: Vec<u8> = Vec::new();
    put_le(&mut bytes, global_index as u64, 4);
    put_le(&mut bytes, step_index as u64, 4);
    put_le(&mut bytes, value_index as u64, 4);
    if !value.encode(&mut bytes) {
        return Err(CheckpointArtifactError::Encoding);
    }
    assert(Seq::<u8>::empty() + le(global_index as nat, 4) =~= le(global_index as nat, 4));
    Ok(typed_hash(TreeKind::ReadonlyL1, &LEAF_LABEL, bytes.as_slice()))
}

pub fn settlement_effect_leaf_hash(
    global_index: u32,
    step_index: u32,
    effect_index: u32,
    effect: &[u8],
) -> (r: Result<CommitmentHash, CheckpointArtifactError>)
    ensures
        r == (if effect@.len() <= u32::MAX {
            Ok::<CommitmentHash, CheckpointArtifactError>(
                settlement_effect_leaf(
                    global_index as nat,
                    step_index as nat,
                    effect_index as nat,
                    effect@,
                ),
            )
        } else {
            Err(CheckpointArtifactError::Encoding)
        }),
{
    if effect.len() as u64 > u32::MAX as u64 {
        return Err(CheckpointArtifactError::Encoding);
    }
    let mut bytes: Vec<u8> = Vec::new();
    put_le(&mut bytes, global_index as u64, 4);
    put_le(&mut bytes, step_index as u64, 4);
    put_le(&mut bytes, effect_index as u64, 4);
    put_le(&mut bytes, effect.len() as u64, 4);
    put_bytes(&mut bytes, effect);
    assert(bytes@ =~= le(global_index as nat, 4) + le(step_index as nat, 4) + le(
        effect_index as nat,
        4,
    ) + wire_bytes(effect@));
    Ok(typed_hash(TreeKind::SettlementEffect, &LEAF_LABEL, bytes.as_slice()))
}

pub fn state_account_leaf_hash(index: u32, account: &StateAccountValueV1) -> (r: Result<
    CommitmentHash,
    CheckpointArtifactError,
>)
    ensures
        r == Ok::<CommitmentHash, CheckpointArtifactError>(
            state_account_leaf(index as nat, *account),
        ),
{
    let mut bytes: Vec<u8> = Vec::new();
    put_le(&mut bytes, index as u64, 4);
    if !account.encode(&mut bytes) {
        return Err(CheckpointArtifactError::Encoding);
    }
    assert(Seq::<u8>::empty() + le(index as nat, 4) =~= le(index as nat, 4));
    Ok(typed_hash(TreeKind::State, &LEAF_LABEL, bytes.as_slice()))
}

} // verus!
