//! Checkpoint artifacts.

use vstd::prelude::*;

pub use crate::accounts::Pubkey;
pub use crate::merkle::{CommitmentHash, MerkleAuthenticationPathV1};
pub use artifact::{build_checkpoint_artifact_v1, state_root_v1};
pub use steps::CheckpointStepInputV1;

use crate::merkle::PathModel;

pub mod acceptance;
pub mod artifact;
pub mod binding;
pub mod checks;
pub mod encoding;
pub mod leaves;
pub mod steps;

verus! {

pub const CHECKPOINT_FORMAT_VERSION_V1: u8 = 1;

pub const CANONICAL_CHECKPOINT_STEPS_V1: usize = 16;

pub const MAX_TRANSACTION_BYTES_V1: usize = 1_232;

pub const MAX_TRANSACTION_EFFECT_BYTES_V1: usize = 1_048_576;

pub const MAX_SETTLEMENT_EFFECT_BYTES_V1: usize = 16_384;

pub const MAX_READONLY_L1_VALUES_PER_STEP_V1: usize = 256;

pub const MAX_SETTLEMENT_EFFECTS_PER_STEP_V1: usize = 256;

/// Why a checkpoint artifact is refused.
#[derive(Debug, Clone, Copy, PartialEq, Eq, Structural)]
pub enum CheckpointArtifactError {
    Encoding,
    UnsupportedVersion,
    InvalidStepCount,
    InvalidStepIndex,
    InvalidStateRoot,
    InvalidStateAccounts,
    InvalidTransaction,
    InvalidTransactionEffect,
    InvalidReadonlyL1Values,
    InvalidSettlementEffects,
    InvalidManifest,
    InvalidPage,
    CommitmentMismatch,
}

/// How the pages of a data-availability package are compressed.
#[derive(Debug, Clone, Copy, PartialEq, Eq, Structural)]
pub enum DaCodecV1 {
    Raw,
}

/// A layer-one account that a step read, as it was seen.
#[derive(Debug, Clone, Copy, PartialEq, Eq, PartialOrd, Ord)]
pub struct ReadonlyL1ValueV1 {
    pub account: Pubkey,
    pub owner: Pubkey,
    pub lamports: u64,
    pub data_hash: CommitmentHash,
    pub observed_l1_slot: u64,
}

/// An account of the rollup state.
#[derive(Debug, Clone, Copy, PartialEq, Eq, PartialOrd, Ord)]
pub struct StateAccountValueV1 {
    pub account: Pubkey,
    pub owner: Pubkey,
    pub lamports: u64,
    pub executable: bool,
    pub rent_epoch: u64,
    pub data_hash: CommitmentHash,
}

/// What a step did to one account.
#[derive(Debug, Clone, Copy, PartialEq, Eq)]
pub struct CheckpointAccountEffectV1 {
    pub step_index: u32,
    pub value: StateAccountValueV1,
    pub deleted: bool,
}

/// What a step's transaction did.
#[derive(Debug, Clone, PartialEq, Eq)]
pub struct CheckpointTransactionEffectV1 {
    pub version: u8,
    pub step_index: u32,
    pub transaction_hash: CommitmentHash,
    pub executed_units: u64,
    pub account_effects: Vec<CheckpointAccountEffectV1>,
}

/// A read value with its path to the tree of read values.
#[derive(Debug, Clone, PartialEq, Eq)]
pub struct AuthenticatedReadonlyL1ValueV1 {
    pub global_index: u32,
    pub value_index: u32,
    pub value: ReadonlyL1ValueV1,
    pub path: MerkleAuthenticationPathV1,
}

/// A settlement effect with its path to the tree of effects.
#[derive(Debug, Clone, PartialEq, Eq)]
pub struct AuthenticatedSettlementEffectV1 {
    pub global_index: u32,
    pub effect_index: u32,
    pub effect: Vec<u8>,
    pub path: MerkleAuthenticationPathV1,
}

/// Everything a verifier needs to check one step.
#[derive(Debug, Clone, PartialEq, Eq)]
pub struct DaStepPageV1 {
    pub version: u8,
    pub page_index: u32,
    pub step_index: u32,
    pub transaction: Vec<u8>,
    pub transaction_effect: Vec<u8>,
    pub transaction_effect_commitment: CommitmentHash,
    pub pre_state_root: CommitmentHash,
    pub post_state_root: CommitmentHash,
    pub pre_state_path: MerkleAuthenticationPathV1,
    pub post_state_path: MerkleAuthenticationPathV1,
    pub transaction_effect_path: MerkleAuthenticationPathV1,
    pub readonly_l1_values: Vec<AuthenticatedReadonlyL1ValueV1>,
    pub settlement_effects: Vec<AuthenticatedSettlementEffectV1>,
}

/// One page of a data-availability package.
#[derive(Debug, Clone, Copy, PartialEq, Eq)]
pub struct DaPageDescriptorV1 {
    pub page_index: u32,
    pub step_index: u32,
    pub uncompressed_len: u32,
    pub encoded_len: u32,
    pub payload_hash: CommitmentHash,
}

/// The table of contents of a data-availability package.
#[derive(Debug, Clone, PartialEq, Eq)]
pub struct DaManifestV1 {
    pub version: u8,
    pub session: Pubkey,
    pub er_slot: u64,
    pub step_count: u32,
    pub codec: DaCodecV1,
    pub dictionary_hash: CommitmentHash,
    pub trace_root: CommitmentHash,
    pub transaction_effect_root: CommitmentHash,
    pub readonly_l1_root: CommitmentHash,
    pub effect_commitment: CommitmentHash,
    pub pages: Vec<DaPageDescriptorV1>,
}

/// The published data of a checkpoint.
#[derive(Debug, Clone, PartialEq, Eq)]
pub struct DaPackageV1 {
    pub manifest: DaManifestV1,
    pub pages: Vec<DaStepPageV1>,
}

/// What a checkpoint commits to.
#[derive(Debug, Clone, Copy, PartialEq, Eq)]
pub struct CheckpointCommitmentV1 {
    pub version: u8,
    pub session: Pubkey,
    pub er_slot: u64,
    pub step_count: u32,
    pub previous_state_root: CommitmentHash,
    pub new_state_root: CommitmentHash,
    pub trace_root: CommitmentHash,
    pub transaction_effect_root: CommitmentHash,
    pub readonly_l1_root: CommitmentHash,
    pub da_commitment: CommitmentHash,
    pub effect_commitment: CommitmentHash,
}

/// A checkpoint with its published data.
#[derive(Debug, Clone, PartialEq, Eq)]
pub struct CheckpointArtifactV1 {
    pub checkpoint: CheckpointCommitmentV1,
    pub da: DaPackageV1,
}

/// What a `CheckpointTransactionEffectV1` holds.
#[verifier::ext_equal]
pub struct TransactionEffectModel {
    pub version: u8,
    pub step_index: u32,
    pub transaction_hash: [u8; 32],
    pub executed_units: u64,
    pub account_effects: Seq<CheckpointAccountEffectV1>,
}

impl View for CheckpointTransactionEffectV1 {
    type V = TransactionEffectModel;

    open spec fn view(&self) -> TransactionEffectModel {
        TransactionEffectModel {
            version: self.version,
            step_index: self.step_index,
            transaction_hash: self.transaction_hash,
            executed_units: self.executed_units,
            account_effects: self.account_effects@,
        }
    }
}

/// What a `AuthenticatedReadonlyL1ValueV1` holds.
#[verifier::ext_equal]
pub struct AuthenticatedReadonlyModel {
    pub global_index: u32,
    pub value_index: u32,
    pub value: ReadonlyL1ValueV1,
    pub path: PathModel,
}

impl View for AuthenticatedReadonlyL1ValueV1 {
    type V = AuthenticatedReadonlyModel;

    open spec fn view(&self) -> AuthenticatedReadonlyModel {
        AuthenticatedReadonlyModel {
            global_index: self.global_index,
            value_index: self.value_index,
            value: self.value,
            path: self.path@,
        }
    }
}

/// What a `AuthenticatedSettlementEffectV1` holds.
#[verifier::ext_equal]
pub struct AuthenticatedSettlementModel {
    pub global_index: u32,
    pub effect_index: u32,
    pub effect: Seq<u8>,
    pub path: PathModel,
}

impl View for AuthenticatedSettlementEffectV1 {
    type V = AuthenticatedSettlementModel;

    open spec fn view(&self) -> AuthenticatedSettlementModel {
        AuthenticatedSettlementModel {
            global_index: self.global_index,
            effect_index: self.effect_index,
            effect: self.effect@,
            path: self.path@,
        }
    }
}

/// What a `DaStepPageV1` holds.
#[verifier::ext_equal]
pub struct PageModel {
    pub version: u8,
    pub page_index: u32,
    pub step_index: u32,
    pub transaction: Seq<u8>,
    pub transaction_effect: Seq<u8>,
    pub transaction_effect_commitment: [u8; 32],
    pub pre_state_root: [u8; 32],
    pub post_state_root: [u8; 32],
    pub pre_state_path: PathModel,
    pub post_state_path: PathModel,
    pub transaction_effect_path: PathModel,
    pub readonly_l1_values: Seq<AuthenticatedReadonlyModel>,
    pub settlement_effects: Seq<AuthenticatedSettlementModel>,
}

impl View for DaStepPageV1 {
    type V = PageModel;

    open spec fn view(&self) -> PageModel {
        PageModel {
            version: self.version,
            page_index: self.page_index,
            step_index: self.step_index,
            transaction: self.transaction@,
            transaction_effect: self.transaction_effect@,
            transaction_effect_commitment: self.transaction_effect_commitment,
            pre_state_root: self.pre_state_root,
            post_state_root: self.post_state_root,
            pre_state_path: self.pre_state_path@,
            post_state_path: self.post_state_path@,
            transaction_effect_path: self.transaction_effect_path@,
            readonly_l1_values: self.readonly_l1_values@.map_values(|item: AuthenticatedReadonlyL1ValueV1| item@),
            settlement_effects: self.settlement_effects@.map_values(|item: AuthenticatedSettlementEffectV1| item@),
        }
    }
}

/// What a `DaManifestV1` holds.
#[verifier::ext_equal]
pub struct ManifestModel {
    pub version: u8,
    pub session: [u8; 32],
    pub er_slot: u64,
    pub step_count: u32,
    pub codec: DaCodecV1,
    pub dictionary_hash: [u8; 32],
    pub trace_root: [u8; 32],
    pub transaction_effect_root: [u8; 32],
    pub readonly_l1_root: [u8; 32],
    pub effect_commitment: [u8; 32],
    pub pages: Seq<DaPageDescriptorV1>,
}

impl View for DaManifestV1 {
    type V = ManifestModel;

    open spec fn view(&self) -> ManifestModel {
        ManifestModel {
            version: self.version,
            session: self.session,
            er_slot: self.er_slot,
            step_count: self.step_count,
            codec: self.codec,
            dictionary_hash: self.dictionary_hash,
            trace_root: self.trace_root,
            transaction_effect_root: self.transaction_effect_root,
            readonly_l1_root: self.readonly_l1_root,
            effect_commitment: self.effect_commitment,
            pages: self.pages@,
        }
    }
}

/// What a `DaPackageV1` holds.
#[verifier::ext_equal]
pub struct PackageModel {
    pub manifest: ManifestModel,
    pub pages: Seq<PageModel>,
}

impl View for DaPackageV1 {
    type V = PackageModel;

    open spec fn view(&self) -> PackageModel {
        PackageModel {
            manifest: self.manifest@,
            pages: self.pages@.map_values(|item: DaStepPageV1| item@),
        }
    }
}

/// What a `CheckpointArtifactV1` holds.
#[verifier::ext_equal]
pub struct ArtifactModel {
    pub checkpoint: CheckpointCommitmentV1,
    pub da: PackageModel,
}

impl View for CheckpointArtifactV1 {
    type V = ArtifactModel;

    open spec fn view(&self) -> ArtifactModel {
        ArtifactModel {
            checkpoint: self.checkpoint,
            da: self.da@,
        }
    }
}

} // verus!
