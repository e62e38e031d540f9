//! Building and checking checkpoint artifacts.

use vstd::prelude::*;

use crate::checkpoint::leaves::{
    readonly_l1_leaf, readonly_l1_leaf_hash, settlement_effect_leaf, settlement_effect_leaf_hash,
    state_account_leaf, state_account_leaf_hash, trace_leaf, trace_leaf_hash,
    transaction_effect_leaf, transaction_effect_leaf_hash, DICTIONARY_LABEL, MANIFEST_LABEL,
    PAGE_LABEL,
};
use crate::checkpoint::steps::{
    lemma_no_step_error, state_account_is_less, state_account_less, step_error, step_models,
    steps_error, validate_steps, StepModel,
};
use crate::checkpoint::{
    ArtifactModel, AuthenticatedReadonlyL1ValueV1, AuthenticatedReadonlyModel,
    AuthenticatedSettlementEffectV1, AuthenticatedSettlementModel, CheckpointArtifactError,
    CheckpointArtifactV1, CheckpointCommitmentV1, CheckpointStepInputV1, DaCodecV1, DaManifestV1,
    DaPackageV1, DaPageDescriptorV1, DaStepPageV1, ManifestModel, PackageModel, PageModel, Pubkey,
    StateAccountValueV1, CANONICAL_CHECKPOINT_STEPS_V1, CHECKPOINT_FORMAT_VERSION_V1,
    MAX_READONLY_L1_VALUES_PER_STEP_V1, MAX_SETTLEMENT_EFFECTS_PER_STEP_V1,
    MAX_SETTLEMENT_EFFECT_BYTES_V1, MAX_TRANSACTION_BYTES_V1, MAX_TRANSACTION_EFFECT_BYTES_V1,
};
use crate::codec::{lemma_le_len, lemma_wire_items_bound, lemma_wire_items_bytes, Codec};
use crate::merkle::{
    lemma_halvings_bound, lemma_siblings_len, lemma_width, merkle_path, merkle_root, padded,
    tree_fits, typed_digest, typed_hash, width, CommitmentHash, MerkleAuthenticationPathV1,
    MerkleTree, PathModel, TreeKind,
};
use crate::order::{all_zero, is_zero32};

verus! {

/// The state roots of the trace: the first, and then the one after each step.
pub open spec fn trace_leaves(steps: Seq<StepModel>) -> Seq<CommitmentHash> {
    Seq::new(
        steps.len() + 1,
        |i: int|
            if i == 0 {
                trace_leaf(0, steps[0].pre_state_root)
            } else {
                trace_leaf((steps[i - 1].step_index + 1) as nat, steps[i - 1].post_state_root)
            },
    )
}

pub open spec fn transaction_leaves(steps: Seq<StepModel>) -> Seq<CommitmentHash> {
    Seq::new(
        steps.len(),
        |i: int|
            transaction_effect_leaf(
                steps[i].step_index as nat,
                steps[i].transaction,
                steps[i].transaction_effect,
            ),
    )
}

/// How many values the first `k` steps read.
pub open spec fn readonly_offset(steps: Seq<StepModel>, k: int) -> nat
    decreases k,
{
    if k <= 0 {
        0
    } else {
        readonly_offset(steps, k - 1) + steps[k - 1].readonly_l1_values.len()
    }
}

/// The leaves of the values that step `i` read.
pub open spec fn readonly_leaves_of(steps: Seq<StepModel>, i: int) -> Seq<CommitmentHash> {
    Seq::new(
        steps[i].readonly_l1_values.len(),
        |v: int|
            readonly_l1_leaf(
                (readonly_offset(steps, i) + v) as nat,
                steps[i].step_index as nat,
                v as nat,
                steps[i].readonly_l1_values[v],
            ),
    )
}

/// The leaves of the values that the first `k` steps read.
pub open spec fn readonly_leaves(steps: Seq<StepModel>, k: int) -> Seq<CommitmentHash>
    decreases k,
{
    if k <= 0 {
        Seq::empty()
    } else {
        readonly_leaves(steps, k - 1) + readonly_leaves_of(steps, k - 1)
    }
}

/// How many effects the first `k` steps settle.
pub open spec fn settlement_offset(steps: Seq<StepModel>, k: int) -> nat
    decreases k,
{
    if k <= 0 {
        0
    } else {
        settlement_offset(steps, k - 1) + steps[k - 1].settlement_effects.len()
    }
}

/// The leaves of the effects of step `i`.
pub open spec fn settlement_leaves_of(steps: Seq<StepModel>, i: int) -> Seq<CommitmentHash> {
    Seq::new(
        steps[i].settlement_effects.len(),
        |e: int|
            settlement_effect_leaf(
                (settlement_offset(steps, i) + e) as nat,
                steps[i].step_index as nat,
                e as nat,
                steps[i].settlement_effects[e],
            ),
    )
}

/// The leaves of the effects of the first `k` steps.
pub open spec fn settlement_leaves(steps: Seq<StepModel>, k: int) -> Seq<CommitmentHash>
    decreases k,
{
    if k <= 0 {
        Seq::empty()
    } else {
        settlement_leaves(steps, k - 1) + settlement_leaves_of(steps, k - 1)
    }
}

/// The values that step `i` read, each with its path.
pub open spec fn readonly_entries(steps: Seq<StepModel>, i: int) -> Seq<
    AuthenticatedReadonlyModel,
> {
    Seq::new(
        steps[i].readonly_l1_values.len(),
        |v: int|
            AuthenticatedReadonlyModel {
                global_index: (readonly_offset(steps, i) + v) as u32,
                value_index: v as u32,
                value: steps[i].readonly_l1_values[v],
                path: merkle_path(
                    TreeKind::ReadonlyL1,
                    readonly_leaves(steps, steps.len() as int),
                    readonly_offset(steps, i) + v,
                ),
            },
    )
}

/// The effects of step `i`, each with its path.
pub open spec fn settlement_entries(steps: Seq<StepModel>, i: int) -> Seq<
    AuthenticatedSettlementModel,
> {
    Seq::new(
        steps[i].settlement_effects.len(),
        |e: int|
            AuthenticatedSettlementModel {
                global_index: (settlement_offset(steps, i) + e) as u32,
                effect_index: e as u32,
                effect: steps[i].settlement_effects[e],
                path: merkle_path(
                    TreeKind::SettlementEffect,
                    settlement_leaves(steps, steps.len() as int),
                    settlement_offset(steps, i) + e,
                ),
            },
    )
}

/// The page of step `i`.
pub open spec fn page_model(steps: Seq<StepModel>, i: int) -> PageModel {
    PageModel {
        version: CHECKPOINT_FORMAT_VERSION_V1,
        page_index: i as u32,
        step_index: steps[i].step_index,
        transaction: steps[i].transaction,
        transaction_effect: steps[i].transaction_effect,
        transaction_effect_commitment: transaction_leaves(steps)[i],
        pre_state_root: steps[i].pre_state_root,
        post_state_root: steps[i].post_state_root,
        pre_state_path: merkle_path(TreeKind::Trace, trace_leaves(steps), i),
        post_state_path: merkle_path(TreeKind::Trace, trace_leaves(steps), i + 1),
        transaction_effect_path: merkle_path(
            TreeKind::TransactionEffect,
            transaction_leaves(steps),
            i,
        ),
        readonly_l1_values: readonly_entries(steps, i),
        settlement_effects: settlement_entries(steps, i),
    }
}

/// The hash of the encoded page of step `i`.
pub open spec fn page_digest(steps: Seq<StepModel>, i: int) -> CommitmentHash {
    typed_digest(
        TreeKind::DataAvailability,
        PAGE_LABEL@,
        DaStepPageV1::wire(page_model(steps, i)),
    )
}

pub open spec fn page_descriptor(steps: Seq<StepModel>, i: int) -> DaPageDescriptorV1 {
    let len = DaStepPageV1::wire(page_model(steps, i)).len() as u32;
    DaPageDescriptorV1 {
        page_index: i as u32,
        step_index: steps[i].step_index,
        uncompressed_len: len,
        encoded_len: len,
        payload_hash: page_digest(steps, i),
    }
}

pub open spec fn readonly_root(steps: Seq<StepModel>) -> CommitmentHash {
    merkle_root(TreeKind::ReadonlyL1, readonly_leaves(steps, steps.len() as int))
}

pub open spec fn settlement_root(steps: Seq<StepModel>) -> CommitmentHash {
    merkle_root(TreeKind::SettlementEffect, settlement_leaves(steps, steps.len() as int))
}

pub open spec fn manifest_model(
    session: Pubkey,
    er_slot: u64,
    steps: Seq<StepModel>,
) -> ManifestModel {
    ManifestModel {
        version: CHECKPOINT_FORMAT_VERSION_V1,
        session,
        er_slot,
        step_count: steps.len() as u32,
        codec: DaCodecV1::Raw,
        dictionary_hash: typed_digest(
            TreeKind::DataAvailability,
            DICTIONARY_LABEL@,
            Seq::empty(),
        ),
        trace_root: merkle_root(TreeKind::Trace, trace_leaves(steps)),
        transaction_effect_root: merkle_root(
            TreeKind::TransactionEffect,
            transaction_leaves(steps),
        ),
        readonly_l1_root: readonly_root(steps),
        effect_commitment: settlement_root(steps),
        pages: Seq::new(steps.len(), |i: int| page_descriptor(steps, i)),
    }
}

/// The leaves of the data-availability tree: the manifest, and behind it the
/// pages.
pub open spec fn da_leaves(session: Pubkey, er_slot: u64, steps: Seq<StepModel>) -> Seq<
    CommitmentHash,
> {
    Seq::new(
        steps.len() + 1,
        |i: int|
            if i == 0 {
                typed_digest(
                    TreeKind::DataAvailability,
                    MANIFEST_LABEL@,
                    DaManifestV1::wire(manifest_model(session, er_slot, steps)),
                )
            } else {
                page_digest(steps, i - 1)
            },
    )
}

pub open spec fn commitment_model(
    session: Pubkey,
    er_slot: u64,
    steps: Seq<StepModel>,
) -> CheckpointCommitmentV1 {
    CheckpointCommitmentV1 {
        version: CHECKPOINT_FORMAT_VERSION_V1,
        session,
        er_slot,
        step_count: steps.len() as u32,
        previous_state_root: steps[0].pre_state_root,
        new_state_root: steps.last().post_state_root,
        trace_root: merkle_root(TreeKind::Trace, trace_leaves(steps)),
        transaction_effect_root: merkle_root(
            TreeKind::TransactionEffect,
            transaction_leaves(steps),
        ),
        readonly_l1_root: readonly_root(steps),
        da_commitment: merkle_root(
            TreeKind::DataAvailability,
            da_leaves(session, er_slot, steps),
        ),
        effect_commitment: settlement_root(steps),
    }
}

/// The artifact of accepted steps.
pub open spec fn artifact_model(
    session: Pubkey,
    er_slot: u64,
    steps: Seq<StepModel>,
) -> ArtifactModel {
    ArtifactModel {
        checkpoint: commitment_model(session, er_slot, steps),
        da: PackageModel {
            manifest: manifest_model(session, er_slot, steps),
            pages: Seq::new(steps.len(), |i: int| page_model(steps, i)),
        },
    }
}

pub proof fn lemma_readonly_leaves_len(steps: Seq<StepModel>, k: int)
    requires
        0 <= k <= steps.len(),
    ensures
        readonly_leaves(steps, k).len() == readonly_offset(steps, k),
    decreases k,
{
    if k > 0 {
        lemma_readonly_leaves_len(steps, k - 1);
    }
}

pub proof fn lemma_settlement_leaves_len(steps: Seq<StepModel>, k: int)
    requires
        0 <= k <= steps.len(),
    ensures
        settlement_leaves(steps, k).len() == settlement_offset(steps, k),
    decreases k,
{
    if k > 0 {
        lemma_settlement_leaves_len(steps, k - 1);
    }
}

pub proof fn lemma_readonly_leaf_at(steps: Seq<StepModel>, k: int, i: int, v: int)
    requires
        0 <= i < k <= steps.len(),
        0 <= v < steps[i].readonly_l1_values.len(),
    ensures
        readonly_offset(steps, i) + v < readonly_leaves(steps, k).len(),
        readonly_leaves(steps, k)[readonly_offset(steps, i) + v] == readonly_leaves_of(steps, i)[v],
    decreases k,
{
    lemma_readonly_leaves_len(steps, k - 1);
    lemma_readonly_leaves_len(steps, k);
    if i < k - 1 {
        lemma_readonly_leaf_at(steps, k - 1, i, v);
    }
}

pub proof fn lemma_settlement_leaf_at(steps: Seq<StepModel>, k: int, i: int, e: int)
    requires
        0 <= i < k <= steps.len(),
        0 <= e < steps[i].settlement_effects.len(),
    ensures
        settlement_offset(steps, i) + e < settlement_leaves(steps, k).len(),
        settlement_leaves(steps, k)[settlement_offset(steps, i) + e] == settlement_leaves_of(
            steps,
            i,
        )[e],
    decreases k,
{
    lemma_settlement_leaves_len(steps, k - 1);
    lemma_settlement_leaves_len(steps, k);
    if i < k - 1 {
        lemma_settlement_leaf_at(steps, k - 1, i, e);
    }
}

/// The steps are accepted.
pub open spec fn accepted(steps: Seq<StepModel>) -> bool {
    steps_error(steps) is None
}

pub proof fn lemma_accepted(steps: Seq<StepModel>)
    requires
        accepted(steps),
    ensures
        steps.len() == CANONICAL_CHECKPOINT_STEPS_V1,
        forall|i: int|
            0 <= i < steps.len() ==> {
                &&& (#[trigger] steps[i]).step_index == i
                &&& 0 < steps[i].transaction.len() <= MAX_TRANSACTION_BYTES_V1
                &&& 0 < steps[i].transaction_effect.len() <= MAX_TRANSACTION_EFFECT_BYTES_V1
                &&& steps[i].readonly_l1_values.len() <= MAX_READONLY_L1_VALUES_PER_STEP_V1
                &&& steps[i].settlement_effects.len() <= MAX_SETTLEMENT_EFFECTS_PER_STEP_V1
            },
        forall|i: int, e: int|
            0 <= i < steps.len() && 0 <= e < steps[i].settlement_effects.len() ==> (
            #[trigger] steps[i].settlement_effects[e]).len() <= MAX_SETTLEMENT_EFFECT_BYTES_V1,
        forall|k: int|
            0 <= k <= steps.len() ==> #[trigger] readonly_offset(steps, k) <= 256 * k,
        forall|k: int|
            0 <= k <= steps.len() ==> #[trigger] settlement_offset(steps, k) <= 256 * k,
{
    lemma_no_step_error(steps, 0);
    assert forall|i: int| 0 <= i < steps.len() implies {
        &&& (#[trigger] steps[i]).step_index == i
        &&& 0 < steps[i].transaction.len() <= MAX_TRANSACTION_BYTES_V1
        &&& 0 < steps[i].transaction_effect.len() <= MAX_TRANSACTION_EFFECT_BYTES_V1
        &&& steps[i].readonly_l1_values.len() <= MAX_READONLY_L1_VALUES_PER_STEP_V1
        &&& steps[i].settlement_effects.len() <= MAX_SETTLEMENT_EFFECTS_PER_STEP_V1
    } by {
        assert(step_error(steps, i) is None);
    }
    assert forall|i: int, e: int|
        0 <= i < steps.len() && 0 <= e < steps[i].settlement_effects.len() implies (
    #[trigger] steps[i].settlement_effects[e]).len() <= MAX_SETTLEMENT_EFFECT_BYTES_V1 by {
        assert(step_error(steps, i) is None);
        assert(crate::checkpoint::steps::effect_ok(steps, i, e));
    }
    assert forall|k: int| 0 <= k <= steps.len() implies #[trigger] readonly_offset(steps, k)
        <= 256 * k by {
        lemma_readonly_offset_bound(steps, k);
    }
    assert forall|k: int| 0 <= k <= steps.len() implies #[trigger] settlement_offset(steps, k)
        <= 256 * k by {
        lemma_settlement_offset_bound(steps, k);
    }
}

proof fn lemma_readonly_offset_bound(steps: Seq<StepModel>, k: int)
    requires
        0 <= k <= steps.len(),
        forall|i: int| 0 <= i < steps.len() ==> (#[trigger] steps[i]).readonly_l1_values.len() <= 256,
    ensures
        readonly_offset(steps, k) <= 256 * k,
    decreases k,
{
    if k > 0 {
        lemma_readonly_offset_bound(steps, k - 1);
        assert(steps[k - 1].readonly_l1_values.len() <= 256);
    }
}

proof fn lemma_settlement_offset_bound(steps: Seq<StepModel>, k: int)
    requires
        0 <= k <= steps.len(),
        forall|i: int| 0 <= i < steps.len() ==> (#[trigger] steps[i]).settlement_effects.len() <= 256,
    ensures
        settlement_offset(steps, k) <= 256 * k,
    decreases k,
{
    if k > 0 {
        lemma_settlement_offset_bound(steps, k - 1);
        assert(steps[k - 1].settlement_effects.len() <= 256);
    }
}


proof fn lemma_path_wire(path: PathModel, bound: nat)
    requires
        path.siblings.len() <= bound <= u32::MAX,
    ensures
        MerkleAuthenticationPathV1::encodable(path),
        MerkleAuthenticationPathV1::wire(path).len() <= 12 + 32 * bound,
{
    lemma_le_len(path.leaf_index as nat, 4);
    lemma_le_len(path.leaf_count as nat, 4);
    lemma_le_len(path.siblings.len(), 4);
    lemma_wire_items_bound::<[u8; 32]>(path.siblings, 32);
}

proof fn lemma_path_depth(kind: TreeKind, leaves: Seq<CommitmentHash>, index: int)
    ensures
        merkle_path(kind, leaves, index).siblings.len() <= leaves.len(),
{
    lemma_width(leaves.len());
    lemma_siblings_len(kind, 0, padded(kind, leaves), index);
    lemma_halvings_bound(width(leaves.len()));
}

proof fn lemma_bytes_wire(bytes: Seq<u8>)
    requires
        bytes.len() <= u32::MAX,
    ensures
        <Vec<u8> as Codec>::encodable(bytes),
        <Vec<u8> as Codec>::wire(bytes).len() == 4 + bytes.len(),
{
    lemma_le_len(bytes.len(), 4);
    lemma_wire_items_bytes(bytes);
}

proof fn lemma_readonly_entries_wire(steps: Seq<StepModel>, i: int)
    requires
        accepted(steps),
        0 <= i < steps.len(),
    ensures
        <Vec<AuthenticatedReadonlyL1ValueV1> as Codec>::encodable(readonly_entries(steps, i)),
        <Vec<AuthenticatedReadonlyL1ValueV1> as Codec>::wire(readonly_entries(steps, i)).len()
            <= 0x0800_0000,
{
    lemma_accepted(steps);
    let entries = readonly_entries(steps, i);
    let n = steps.len() as int;
    let leaves = readonly_leaves(steps, n);
    lemma_readonly_leaves_len(steps, n);
    assert(readonly_offset(steps, n) <= 256 * n);
    assert forall|v: int| 0 <= v < entries.len() implies {
        &&& AuthenticatedReadonlyL1ValueV1::encodable(#[trigger] entries[v])
        &&& AuthenticatedReadonlyL1ValueV1::wire(entries[v]).len() <= 0x0004_0000
    } by {
        let entry = entries[v];
        lemma_path_depth(TreeKind::ReadonlyL1, leaves, readonly_offset(steps, i) + v);
        lemma_path_wire(entry.path, 4096);
        lemma_le_len(entry.global_index as nat, 4);
        lemma_le_len(entry.value_index as nat, 4);
        lemma_le_len(entry.value.lamports as nat, 8);
        lemma_le_len(entry.value.observed_l1_slot as nat, 8);
    }
    lemma_wire_items_bound::<AuthenticatedReadonlyL1ValueV1>(entries, 0x0004_0000);
    assert(entries.len() <= 256);
    lemma_le_len(entries.len(), 4);
}

proof fn lemma_settlement_entries_wire(steps: Seq<StepModel>, i: int)
    requires
        accepted(steps),
        0 <= i < steps.len(),
    ensures
        <Vec<AuthenticatedSettlementEffectV1> as Codec>::encodable(settlement_entries(steps, i)),
        <Vec<AuthenticatedSettlementEffectV1> as Codec>::wire(settlement_entries(steps, i)).len()
            <= 0x0800_0000,
{
    lemma_accepted(steps);
    let entries = settlement_entries(steps, i);
    let n = steps.len() as int;
    let leaves = settlement_leaves(steps, n);
    lemma_settlement_leaves_len(steps, n);
    assert(settlement_offset(steps, n) <= 256 * n);
    assert forall|e: int| 0 <= e < entries.len() implies {
        &&& AuthenticatedSettlementEffectV1::encodable(#[trigger] entries[e])
        &&& AuthenticatedSettlementEffectV1::wire(entries[e]).len() <= 0x0004_0000
    } by {
        let entry = entries[e];
        lemma_path_depth(TreeKind::SettlementEffect, leaves, settlement_offset(steps, i) + e);
        lemma_path_wire(entry.path, 4096);
        lemma_le_len(entry.global_index as nat, 4);
        lemma_le_len(entry.effect_index as nat, 4);
        assert(steps[i].settlement_effects[e].len() <= MAX_SETTLEMENT_EFFECT_BYTES_V1);
        lemma_bytes_wire(entry.effect);
    }
    lemma_wire_items_bound::<AuthenticatedSettlementEffectV1>(entries, 0x0004_0000);
    assert(entries.len() <= 256);
    lemma_le_len(entries.len(), 4);
}

/// The page of an accepted step has an encoding, whose length fits in the
/// page's descriptor.
pub proof fn lemma_page_wire(steps: Seq<StepModel>, i: int)
    requires
        accepted(steps),
        0 <= i < steps.len(),
    ensures
        DaStepPageV1::encodable(page_model(steps, i)),
        DaStepPageV1::wire(page_model(steps, i)).len() <= u32::MAX,
{
    lemma_accepted(steps);
    let page = page_model(steps, i);
    assert(steps[i].step_index == i);
    lemma_bytes_wire(page.transaction);
    lemma_bytes_wire(page.transaction_effect);
    lemma_path_depth(TreeKind::Trace, trace_leaves(steps), i);
    lemma_path_depth(TreeKind::Trace, trace_leaves(steps), i + 1);
    lemma_path_depth(TreeKind::TransactionEffect, transaction_leaves(steps), i);
    lemma_path_wire(page.pre_state_path, 17);
    lemma_path_wire(page.post_state_path, 17);
    lemma_path_wire(page.transaction_effect_path, 17);
    lemma_readonly_entries_wire(steps, i);
    lemma_settlement_entries_wire(steps, i);
    lemma_le_len(page.page_index as nat, 4);
    lemma_le_len(page.step_index as nat, 4);
}

/// The artifact of accepted steps has an encoding.
pub proof fn lemma_artifact_encodable(session: Pubkey, er_slot: u64, steps: Seq<StepModel>)
    requires
        accepted(steps),
    ensures
        DaManifestV1::encodable(manifest_model(session, er_slot, steps)),
        CheckpointArtifactV1::encodable(artifact_model(session, er_slot, steps)),
{
    lemma_accepted(steps);
    let artifact = artifact_model(session, er_slot, steps);
    assert forall|i: int| 0 <= i < artifact.da.pages.len() implies DaStepPageV1::encodable(
        #[trigger] artifact.da.pages[i],
    ) by {
        lemma_page_wire(steps, i);
    }
}

fn trace_leaf_hashes(steps: &Vec<CheckpointStepInputV1>) -> (r: Result<
    Vec<CommitmentHash>,
    CheckpointArtifactError,
>)
    requires
        accepted(step_models(steps@)),
    ensures
        r matches Ok(leaves) && leaves@ == trace_leaves(step_models(steps@)),
{
    let ghost ms = step_models(steps@);
    proof {
        lemma_accepted(ms);
    }
    let mut leaves: Vec<CommitmentHash> = Vec::new();
    leaves.push(trace_leaf_hash(0, &steps[0].pre_state_root)?);
    let mut i: usize = 0;
    assert(leaves@ =~= trace_leaves(ms).take(1));
    while i < steps.len()
        invariant
            i <= steps@.len() == ms.len(),
            ms == step_models(steps@),
            forall|j: int| 0 <= j < ms.len() ==> (#[trigger] ms[j]).step_index == j,
            ms.len() == 16,
            leaves@ == trace_leaves(ms).take(i + 1),
        decreases steps@.len() - i,
    {
        let step = &steps[i];
        assert(ms[i as int] == step@);
        let post_index: u32 = match step.step_index.checked_add(1) {
            Some(index) => index,
            None => {
                return Err(CheckpointArtifactError::InvalidStepIndex);
            },
        };
        leaves.push(trace_leaf_hash(post_index, &step.post_state_root)?);
        i += 1;
        assert(leaves@ =~= trace_leaves(ms).take(i + 1));
    }
    assert(leaves@ =~= trace_leaves(ms));
    Ok(leaves)
}

fn transaction_leaf_hashes(steps: &Vec<CheckpointStepInputV1>) -> (r: Result<
    Vec<CommitmentHash>,
    CheckpointArtifactError,
>)
    requires
        accepted(step_models(steps@)),
    ensures
        r matches Ok(leaves) && leaves@ == transaction_leaves(step_models(steps@)),
{
    let ghost ms = step_models(steps@);
    proof {
        lemma_accepted(ms);
    }
    let mut leaves: Vec<CommitmentHash> = Vec::new();
    let mut i: usize = 0;
    assert(leaves@ =~= transaction_leaves(ms).take(0));
    while i < steps.len()
        invariant
            i <= steps@.len() == ms.len(),
            ms == step_models(steps@),
            forall|j: int|
                0 <= j < ms.len() ==> (#[trigger] ms[j]).transaction.len() <= u32::MAX
                    && ms[j].transaction_effect.len() <= u32::MAX,
            leaves@ == transaction_leaves(ms).take(i as int),
        decreases steps@.len() - i,
    {
        let step = &steps[i];
        assert(ms[i as int] == step@);
        leaves.push(
            transaction_effect_leaf_hash(
                step.step_index,
                step.transaction.as_slice(),
                step.transaction_effect.as_slice(),
            )?,
        );
        i += 1;
        assert(leaves@ =~= transaction_leaves(ms).take(i as int));
    }
    assert(leaves@ =~= transaction_leaves(ms));
    Ok(leaves)
}

/// Appends the leaves of the values that step `i` read.
fn push_readonly_leaves(
    steps: &Vec<CheckpointStepInputV1>,
    i: usize,
    leaves: &mut Vec<CommitmentHash>,
) -> (r: Result<(), CheckpointArtifactError>)
    requires
        accepted(step_models(steps@)),
        i < steps@.len(),
        old(leaves)@ == readonly_leaves(step_models(steps@), i as int),
    ensures
        r is Ok,
        final(leaves)@ == readonly_leaves(step_models(steps@), i + 1),
{
    let ghost ms = step_models(steps@);
    let ghost part = readonly_leaves_of(ms, i as int);
    let step = &steps[i];
    proof {
        lemma_accepted(ms);
        lemma_readonly_leaves_len(ms, i as int);
        assert(ms[i as int] == step@);
        assert(readonly_offset(ms, i as int) <= 256 * i);
    }
    let mut v: usize = 0;
    assert(leaves@ =~= readonly_leaves(ms, i as int) + part.take(0));
    while v < step.readonly_l1_values.len()
        invariant
            i < steps@.len() == ms.len(),
            ms.len() == 16,
            ms[i as int] == step@,
            v <= step.readonly_l1_values@.len() <= 256,
            part == readonly_leaves_of(ms, i as int),
            readonly_leaves(ms, i as int).len() == readonly_offset(ms, i as int) <= 256 * i,
            leaves@ == readonly_leaves(ms, i as int) + part.take(v as int),
        decreases step.readonly_l1_values@.len() - v,
    {
        let global_index: u32 = leaves.len() as u32;
        let leaf = readonly_l1_leaf_hash(
            global_index,
            step.step_index,
            v as u32,
            &step.readonly_l1_values[v],
        )?;
        leaves.push(leaf);
        assert(leaf == part[v as int]);
        v += 1;
        assert(leaves@ =~= readonly_leaves(ms, i as int) + part.take(v as int));
    }
    assert(part.take(v as int) =~= part);
    Ok(())
}

/// Appends the leaves of the effects of step `i`.
fn push_settlement_leaves(
    steps: &Vec<CheckpointStepInputV1>,
    i: usize,
    leaves: &mut Vec<CommitmentHash>,
) -> (r: Result<(), CheckpointArtifactError>)
    requires
        accepted(step_models(steps@)),
        i < steps@.len(),
        old(leaves)@ == settlement_leaves(step_models(steps@), i as int),
    ensures
        r is Ok,
        final(leaves)@ == settlement_leaves(step_models(steps@), i + 1),
{
    let ghost ms = step_models(steps@);
    let ghost part = settlement_leaves_of(ms, i as int);
    let step = &steps[i];
    proof {
        lemma_accepted(ms);
        lemma_settlement_leaves_len(ms, i as int);
        assert(ms[i as int] == step@);
        assert(settlement_offset(ms, i as int) <= 256 * i);
    }
    let mut e: usize = 0;
    assert(leaves@ =~= settlement_leaves(ms, i as int) + part.take(0));
    while e < step.settlement_effects.len()
        invariant
            i < steps@.len() == ms.len(),
            ms.len() == 16,
            ms[i as int] == step@,
            e <= step.settlement_effects@.len() <= 256,
            part == settlement_leaves_of(ms, i as int),
            settlement_leaves(ms, i as int).len() == settlement_offset(ms, i as int) <= 256 * i,
            forall|x: int|
                0 <= x < ms[i as int].settlement_effects.len() ==> (
                #[trigger] ms[i as int].settlement_effects[x]).len() <= u32::MAX,
            leaves@ == settlement_leaves(ms, i as int) + part.take(e as int),
        decreases step.settlement_effects@.len() - e,
    {
        let global_index: u32 = leaves.len() as u32;
        assert(ms[i as int].settlement_effects[e as int] == step.settlement_effects@[e as int]@);
        let leaf = settlement_effect_leaf_hash(
            global_index,
            step.step_index,
            e as u32,
            step.settlement_effects[e].as_slice(),
        )?;
        leaves.push(leaf);
        assert(leaf == part[e as int]);
        e += 1;
        assert(leaves@ =~= settlement_leaves(ms, i as int) + part.take(e as int));
    }
    assert(part.take(e as int) =~= part);
    Ok(())
}

/// What the entries stand for.
pub open spec fn readonly_entry_models(entries: Seq<AuthenticatedReadonlyL1ValueV1>) -> Seq<
    AuthenticatedReadonlyModel,
> {
    entries.map_values(|entry: AuthenticatedReadonlyL1ValueV1| entry@)
}

/// What the entries stand for.
pub open spec fn settlement_entry_models(entries: Seq<AuthenticatedSettlementEffectV1>) -> Seq<
    AuthenticatedSettlementModel,
> {
    entries.map_values(|entry: AuthenticatedSettlementEffectV1| entry@)
}

fn readonly_entries_of(
    steps: &Vec<CheckpointStepInputV1>,
    i: usize,
    offset: usize,
    tree: &MerkleTree,
) -> (r: Result<Vec<AuthenticatedReadonlyL1ValueV1>, CheckpointArtifactError>)
    requires
        accepted(step_models(steps@)),
        i < steps@.len(),
        offset == readonly_offset(step_models(steps@), i as int),
        tree.well_formed(),
        tree.kind() == TreeKind::ReadonlyL1,
        tree.leaves() == readonly_leaves(step_models(steps@), steps@.len() as int),
    ensures
        r matches Ok(entries) && readonly_entry_models(entries@) == readonly_entries(
            step_models(steps@),
            i as int,
        ),
{
    let ghost ms = step_models(steps@);
    let ghost all = readonly_entries(ms, i as int);
    let step = &steps[i];
    proof {
        lemma_accepted(ms);
        assert(ms[i as int] == step@);
        assert(readonly_offset(ms, i as int) <= 256 * i);
    }
    let mut entries: Vec<AuthenticatedReadonlyL1ValueV1> = Vec::new();
    let mut v: usize = 0;
    assert(readonly_entry_models(entries@) =~= all.take(0));
    while v < step.readonly_l1_values.len()
        invariant
            i < steps@.len() == ms.len(),
            ms.len() == 16,
            ms[i as int] == step@,
            all == readonly_entries(ms, i as int),
            v <= step.readonly_l1_values@.len() <= 256,
            offset == readonly_offset(ms, i as int) <= 256 * i,
            tree.well_formed(),
            tree.kind() == TreeKind::ReadonlyL1,
            tree.leaves() == readonly_leaves(ms, ms.len() as int),
            readonly_entry_models(entries@) == all.take(v as int),
        decreases step.readonly_l1_values@.len() - v,
    {
        proof {
            lemma_readonly_leaf_at(ms, ms.len() as int, i as int, v as int);
        }
        let global_index: usize = match offset.checked_add(v) {
            Some(index) => index,
            None => {
                return Err(CheckpointArtifactError::Encoding);
            },
        };
        let path = tree.path(global_index)?;
        let ghost before = entries@;
        entries.push(
            AuthenticatedReadonlyL1ValueV1 {
                global_index: global_index as u32,
                value_index: v as u32,
                value: step.readonly_l1_values[v],
                path,
            },
        );
        proof {
            assert(readonly_entry_models(entries@) =~= readonly_entry_models(before).push(
                entries@.last()@,
            ));
            assert(entries@.last()@ =~= all[v as int]);
            assert(all.take(v + 1) =~= all.take(v as int).push(all[v as int]));
        }
        v += 1;
    }
    assert(all.take(v as int) =~= all);
    Ok(entries)
}

fn settlement_entries_of(
    steps: &Vec<CheckpointStepInputV1>,
    i: usize,
    offset: usize,
    tree: &MerkleTree,
) -> (r: Result<Vec<AuthenticatedSettlementEffectV1>, CheckpointArtifactError>)
    requires
        accepted(step_models(steps@)),
        i < steps@.len(),
        offset == settlement_offset(step_models(steps@), i as int),
        tree.well_formed(),
        tree.kind() == TreeKind::SettlementEffect,
        tree.leaves() == settlement_leaves(step_models(steps@), steps@.len() as int),
    ensures
        r matches Ok(entries) && settlement_entry_models(entries@) == settlement_entries(
            step_models(steps@),
            i as int,
        ),
{
    let ghost ms = step_models(steps@);
    let ghost all = settlement_entries(ms, i as int);
    let step = &steps[i];
    proof {
        lemma_accepted(ms);
        assert(ms[i as int] == step@);
        assert(settlement_offset(ms, i as int) <= 256 * i);
    }
    let mut entries: Vec<AuthenticatedSettlementEffectV1> = Vec::new();
    let mut e: usize = 0;
    assert(settlement_entry_models(entries@) =~= all.take(0));
    while e < step.settlement_effects.len()
        invariant
            i < steps@.len() == ms.len(),
            ms.len() == 16,
            ms[i as int] == step@,
            all == settlement_entries(ms, i as int),
            e <= step.settlement_effects@.len() <= 256,
            offset == settlement_offset(ms, i as int) <= 256 * i,
            tree.well_formed(),
            tree.kind() == TreeKind::SettlementEffect,
            tree.leaves() == settlement_leaves(ms, ms.len() as int),
            settlement_entry_models(entries@) == all.take(e as int),
        decreases step.settlement_effects@.len() - e,
    {
        proof {
            lemma_settlement_leaf_at(ms, ms.len() as int, i as int, e as int);
        }
        let global_index: usize = match offset.checked_add(e) {
            Some(index) => index,
            None => {
                return Err(CheckpointArtifactError::Encoding);
            },
        };
        let path = tree.path(global_index)?;
        let ghost before = entries@;
        entries.push(
            AuthenticatedSettlementEffectV1 {
                global_index: global_index as u32,
                effect_index: e as u32,
                effect: step.settlement_effects[e].clone(),
                path,
            },
        );
        proof {
            assert(settlement_entry_models(entries@) =~= settlement_entry_models(before).push(
                entries@.last()@,
            ));
            assert(entries@.last()@ =~= all[e as int]);
            assert(all.take(e + 1) =~= all.take(e as int).push(all[e as int]));
        }
        e += 1;
    }
    assert(all.take(e as int) =~= all);
    Ok(entries)
}

/// The trees over the leaves of the steps.
struct StepTrees {
    trace: MerkleTree,
    transactions: MerkleTree,
    readonly: MerkleTree,
    settlement: MerkleTree,
}

impl StepTrees {
    spec fn are_of(&self, steps: Seq<StepModel>) -> bool {
        &&& self.trace.well_formed()
        &&& self.trace.kind() == TreeKind::Trace
        &&& self.trace.leaves() == trace_leaves(steps)
        &&& self.transactions.well_formed()
        &&& self.transactions.kind() == TreeKind::TransactionEffect
        &&& self.transactions.leaves() == transaction_leaves(steps)
        &&& self.readonly.well_formed()
        &&& self.readonly.kind() == TreeKind::ReadonlyL1
        &&& self.readonly.leaves() == readonly_leaves(steps, steps.len() as int)
        &&& self.settlement.well_formed()
        &&& self.settlement.kind() == TreeKind::SettlementEffect
        &&& self.settlement.leaves() == settlement_leaves(steps, steps.len() as int)
    }
}

/// A tree over a number of leaves that any machine can hold.
fn small_tree(kind: TreeKind, leaves: Vec<CommitmentHash>) -> (r: Result<
    MerkleTree,
    CheckpointArtifactError,
>)
    requires
        leaves@.len() <= 0x7fff_ffff,
    ensures
        r matches Ok(tree) && tree.well_formed() && tree.kind() == kind && tree.leaves()
            == leaves@,
{
    proof {
        lemma_width(leaves@.len());
    }
    MerkleTree::new(kind, leaves)
}

fn build_trees(steps: &Vec<CheckpointStepInputV1>) -> (r: Result<
    (StepTrees, Vec<usize>, Vec<usize>),
    CheckpointArtifactError,
>)
    requires
        accepted(step_models(steps@)),
    ensures
        r matches Ok((trees, readonly_offsets, settlement_offsets)) && {
            &&& trees.are_of(step_models(steps@))
            &&& readonly_offsets@.len() == steps@.len()
            &&& settlement_offsets@.len() == steps@.len()
            &&& forall|j: int|
                0 <= j < steps@.len() ==> #[trigger] readonly_offsets@[j] == readonly_offset(
                    step_models(steps@),
                    j,
                )
            &&& forall|j: int|
                0 <= j < steps@.len() ==> #[trigger] settlement_offsets@[j] == settlement_offset(
                    step_models(steps@),
                    j,
                )
        },
{
    let ghost ms = step_models(steps@);
    proof {
        lemma_accepted(ms);
    }
    let trace = trace_leaf_hashes(steps)?;
    let transactions = transaction_leaf_hashes(steps)?;
    let mut readonly: Vec<CommitmentHash> = Vec::new();
    let mut readonly_offsets: Vec<usize> = Vec::new();
    let mut settlement: Vec<CommitmentHash> = Vec::new();
    let mut settlement_offsets: Vec<usize> = Vec::new();
    let mut i: usize = 0;
    while i < steps.len()
        invariant
            i <= steps@.len() == ms.len(),
            ms == step_models(steps@),
            accepted(ms),
            readonly@ == readonly_leaves(ms, i as int),
            settlement@ == settlement_leaves(ms, i as int),
            readonly_offsets@.len() == i,
            settlement_offsets@.len() == i,
            forall|j: int|
                0 <= j < i ==> #[trigger] readonly_offsets@[j] == readonly_offset(ms, j),
            forall|j: int|
                0 <= j < i ==> #[trigger] settlement_offsets@[j] == settlement_offset(ms, j),
        decreases steps@.len() - i,
    {
        proof {
            lemma_readonly_leaves_len(ms, i as int);
            lemma_settlement_leaves_len(ms, i as int);
        }
        readonly_offsets.push(readonly.len());
        push_readonly_leaves(steps, i, &mut readonly)?;
        settlement_offsets.push(settlement.len());
        push_settlement_leaves(steps, i, &mut settlement)?;
        i += 1;
    }
    proof {
        lemma_readonly_leaves_len(ms, i as int);
        lemma_settlement_leaves_len(ms, i as int);
        assert(readonly_offset(ms, i as int) <= 256 * i);
        assert(settlement_offset(ms, i as int) <= 256 * i);
    }
    let trees = StepTrees {
        trace: small_tree(TreeKind::Trace, trace)?,
        transactions: small_tree(TreeKind::TransactionEffect, transactions)?,
        readonly: small_tree(TreeKind::ReadonlyL1, readonly)?,
        settlement: small_tree(TreeKind::SettlementEffect, settlement)?,
    };
    Ok((trees, readonly_offsets, settlement_offsets))
}

fn build_page(
    steps: &Vec<CheckpointStepInputV1>,
    i: usize,
    trees: &StepTrees,
    readonly_start: usize,
    settlement_start: usize,
) -> (r: Result<DaStepPageV1, CheckpointArtifactError>)
    requires
        accepted(step_models(steps@)),
        i < steps@.len(),
        trees.are_of(step_models(steps@)),
        readonly_start == readonly_offset(step_models(steps@), i as int),
        settlement_start == settlement_offset(step_models(steps@), i as int),
    ensures
        r matches Ok(page) && page@ == page_model(step_models(steps@), i as int),
{
    let ghost ms = step_models(steps@);
    proof {
        lemma_accepted(ms);
        assert(ms[i as int] == steps@[i as int]@);
    }
    let step = &steps[i];
    let readonly_l1_values = readonly_entries_of(steps, i, readonly_start, &trees.readonly)?;
    let settlement_effects = settlement_entries_of(steps, i, settlement_start, &trees.settlement)?;
    let page = DaStepPageV1 {
        version: CHECKPOINT_FORMAT_VERSION_V1,
        page_index: i as u32,
        step_index: step.step_index,
        transaction: step.transaction.clone(),
        transaction_effect: step.transaction_effect.clone(),
        transaction_effect_commitment: transaction_effect_leaf_hash(
            step.step_index,
            step.transaction.as_slice(),
            step.transaction_effect.as_slice(),
        )?,
        pre_state_root: step.pre_state_root,
        post_state_root: step.post_state_root,
        pre_state_path: trees.trace.path(i)?,
        post_state_path: trees.trace.path(i + 1)?,
        transaction_effect_path: trees.transactions.path(i)?,
        readonly_l1_values,
        settlement_effects,
    };
    assert(page@.readonly_l1_values =~= readonly_entries(ms, i as int));
    assert(page@.settlement_effects =~= settlement_entries(ms, i as int));
    assert(page@ =~= page_model(ms, i as int));
    Ok(page)
}

/// What the pages stand for.
pub open spec fn page_models(pages: Seq<DaStepPageV1>) -> Seq<PageModel> {
    pages.map_values(|page: DaStepPageV1| page@)
}

fn build_pages(steps: &Vec<CheckpointStepInputV1>, trees: &StepTrees,
    readonly_offsets: &Vec<usize>, settlement_offsets: &Vec<usize>) -> (r: Result<
    Vec<DaStepPageV1>,
    CheckpointArtifactError,
>)
    requires
        accepted(step_models(steps@)),
        trees.are_of(step_models(steps@)),
        readonly_offsets@.len() == steps@.len(),
        settlement_offsets@.len() == steps@.len(),
        forall|j: int|
            0 <= j < steps@.len() ==> #[trigger] readonly_offsets@[j] == readonly_offset(
                step_models(steps@),
                j,
            ),
        forall|j: int|
            0 <= j < steps@.len() ==> #[trigger] settlement_offsets@[j] == settlement_offset(
                step_models(steps@),
                j,
            ),
    ensures
        r matches Ok(pages) && page_models(pages@) == Seq::new(
            steps@.len(),
            |i: int| page_model(step_models(steps@), i),
        ),
{
    let ghost ms = step_models(steps@);
    let ghost all = Seq::new(steps@.len(), |i: int| page_model(ms, i));
    let mut pages: Vec<DaStepPageV1> = Vec::new();
    let mut i: usize = 0;
    assert(page_models(pages@) =~= all.take(0));
    while i < steps.len()
        invariant
            i <= steps@.len() == ms.len(),
            ms == step_models(steps@),
            accepted(ms),
            trees.are_of(ms),
            readonly_offsets@.len() == steps@.len(),
            settlement_offsets@.len() == steps@.len(),
            forall|j: int|
                0 <= j < steps@.len() ==> #[trigger] readonly_offsets@[j] == readonly_offset(ms, j),
            forall|j: int|
                0 <= j < steps@.len() ==> #[trigger] settlement_offsets@[j] == settlement_offset(
                    ms,
                    j,
                ),
            all == Seq::new(steps@.len(), |i: int| page_model(ms, i)),
            page_models(pages@) == all.take(i as int),
        decreases steps@.len() - i,
    {
        let page = build_page(steps, i, trees, readonly_offsets[i], settlement_offsets[i])?;
        let ghost before = pages@;
        let ghost model = page@;
        pages.push(page);
        proof {
            assert(page_models(pages@) =~= page_models(before).push(model));
            assert(all.take(i + 1) =~= all.take(i as int).push(all[i as int]));
        }
        i += 1;
    }
    assert(all.take(i as int) =~= all);
    Ok(pages)
}

/// The canonical encoding of a page, a manifest or an artifact.
pub(crate) fn encode<T: Codec>(value: &T) -> (r: Result<Vec<u8>, CheckpointArtifactError>)
    ensures
        T::encodable(value.model()) ==> (r matches Ok(bytes) && bytes@ == T::wire(value.model())),
        !T::encodable(value.model()) ==> r == Err::<Vec<u8>, _>(CheckpointArtifactError::Encoding),
{
    let mut bytes: Vec<u8> = Vec::new();
    if !value.encode(&mut bytes) {
        return Err(CheckpointArtifactError::Encoding);
    }
    assert(bytes@ =~= T::wire(value.model()));
    Ok(bytes)
}

/// The descriptors of the pages, and the leaves of the pages in the
/// data-availability tree.
fn describe_pages(Ghost(steps): Ghost<Seq<StepModel>>, pages: &Vec<DaStepPageV1>) -> (r: Result<
    (Vec<DaPageDescriptorV1>, Vec<CommitmentHash>),
    CheckpointArtifactError,
>)
    requires
        accepted(steps),
        page_models(pages@) == Seq::new(steps.len(), |i: int| page_model(steps, i)),
    ensures
        r matches Ok((descriptors, hashes)) && {
            &&& descriptors@ == Seq::new(steps.len(), |i: int| page_descriptor(steps, i))
            &&& hashes@ == Seq::new(steps.len(), |i: int| page_digest(steps, i))
        },
{
    let ghost all = Seq::new(steps.len(), |i: int| page_model(steps, i));
    let mut descriptors: Vec<DaPageDescriptorV1> = Vec::new();
    let mut hashes: Vec<CommitmentHash> = Vec::new();
    let mut i: usize = 0;
    assert(page_models(pages@).len() == pages@.len());
    while i < pages.len()
        invariant
            i <= pages@.len() == steps.len(),
            accepted(steps),
            all == Seq::new(steps.len(), |i: int| page_model(steps, i)),
            page_models(pages@) == all,
            descriptors@ == Seq::new(i as nat, |i: int| page_descriptor(steps, i)),
            hashes@ == Seq::new(i as nat, |i: int| page_digest(steps, i)),
        decreases pages@.len() - i,
    {
        let page = &pages[i];
        proof {
            assert(page_models(pages@)[i as int] == page@);
            assert(all[i as int] == page_model(steps, i as int));
            lemma_page_wire(steps, i as int);
        }
        let bytes = encode(page)?;
        let payload_hash = typed_hash(TreeKind::DataAvailability, &PAGE_LABEL, bytes.as_slice());
        hashes.push(payload_hash);
        descriptors.push(
            DaPageDescriptorV1 {
                page_index: page.page_index,
                step_index: page.step_index,
                uncompressed_len: bytes.len() as u32,
                encoded_len: bytes.len() as u32,
                payload_hash,
            },
        );
        i += 1;
        assert(descriptors@ =~= Seq::new(i as nat, |i: int| page_descriptor(steps, i)));
        assert(hashes@ =~= Seq::new(i as nat, |i: int| page_digest(steps, i)));
    }
    Ok((descriptors, hashes))
}

/// The roots of the trees over the steps.
struct StepRoots {
    trace: CommitmentHash,
    transactions: CommitmentHash,
    readonly: CommitmentHash,
    settlement: CommitmentHash,
}

impl StepRoots {
    spec fn are_of(&self, steps: Seq<StepModel>) -> bool {
        &&& self.trace == merkle_root(TreeKind::Trace, trace_leaves(steps))
        &&& self.transactions == merkle_root(
            TreeKind::TransactionEffect,
            transaction_leaves(steps),
        )
        &&& self.readonly == readonly_root(steps)
        &&& self.settlement == settlement_root(steps)
    }
}

fn build_manifest(
    session: Pubkey,
    er_slot: u64,
    Ghost(steps): Ghost<Seq<StepModel>>,
    step_count: u32,
    roots: &StepRoots,
    descriptors: Vec<DaPageDescriptorV1>,
) -> (manifest: DaManifestV1)
    requires
        step_count == steps.len(),
        roots.are_of(steps),
        descriptors@ == Seq::new(steps.len(), |i: int| page_descriptor(steps, i)),
    ensures
        manifest@ == manifest_model(session, er_slot, steps),
{
    let nothing: Vec<u8> = Vec::new();
    let manifest = DaManifestV1 {
        version: CHECKPOINT_FORMAT_VERSION_V1,
        session,
        er_slot,
        step_count,
        codec: DaCodecV1::Raw,
        dictionary_hash: typed_hash(
            TreeKind::DataAvailability,
            &DICTIONARY_LABEL,
            nothing.as_slice(),
        ),
        trace_root: roots.trace,
        transaction_effect_root: roots.transactions,
        readonly_l1_root: roots.readonly,
        effect_commitment: roots.settlement,
        pages: descriptors,
    };
    assert(manifest@ =~= manifest_model(session, er_slot, steps));
    manifest
}

/// `rest` with `first` in front of it.
fn with_first(first: CommitmentHash, rest: &Vec<CommitmentHash>) -> (all: Vec<CommitmentHash>)
    ensures
        all@ == seq![first] + rest@,
{
    let mut all: Vec<CommitmentHash> = Vec::new();
    all.push(first);
    let mut i: usize = 0;
    while i < rest.len()
        invariant
            i <= rest@.len(),
            all@ == seq![first] + rest@.take(i as int),
        decreases rest@.len() - i,
    {
        all.push(rest[i]);
        i += 1;
        assert(all@ =~= seq![first] + rest@.take(i as int));
    }
    assert(rest@.take(i as int) =~= rest@);
    all
}

proof fn lemma_da_leaves(session: Pubkey, er_slot: u64, steps: Seq<StepModel>)
    ensures
        da_leaves(session, er_slot, steps) == seq![
            typed_digest(
                TreeKind::DataAvailability,
                MANIFEST_LABEL@,
                DaManifestV1::wire(manifest_model(session, er_slot, steps)),
            ),
        ] + Seq::new(steps.len(), |i: int| page_digest(steps, i)),
{
    assert(da_leaves(session, er_slot, steps) =~= seq![
        typed_digest(
            TreeKind::DataAvailability,
            MANIFEST_LABEL@,
            DaManifestV1::wire(manifest_model(session, er_slot, steps)),
        ),
    ] + Seq::new(steps.len(), |i: int| page_digest(steps, i)));
}

fn build_da_root(
    Ghost(session): Ghost<Pubkey>,
    Ghost(er_slot): Ghost<u64>,
    Ghost(steps): Ghost<Seq<StepModel>>,
    manifest: &DaManifestV1,
    page_hashes: &Vec<CommitmentHash>,
) -> (r: Result<CommitmentHash, CheckpointArtifactError>)
    requires
        accepted(steps),
        manifest@ == manifest_model(session, er_slot, steps),
        page_hashes@ == Seq::new(steps.len(), |i: int| page_digest(steps, i)),
    ensures
        r == Ok::<CommitmentHash, CheckpointArtifactError>(
            merkle_root(TreeKind::DataAvailability, da_leaves(session, er_slot, steps)),
        ),
{
    proof {
        lemma_accepted(steps);
        lemma_artifact_encodable(session, er_slot, steps);
    }
    let manifest_bytes = encode(manifest)?;
    let manifest_hash = typed_hash(
        TreeKind::DataAvailability,
        &MANIFEST_LABEL,
        manifest_bytes.as_slice(),
    );
    let leaves = with_first(manifest_hash, page_hashes);
    proof {
        lemma_da_leaves(session, er_slot, steps);
    }
    let tree = small_tree(TreeKind::DataAvailability, leaves)?;
    Ok(tree.root())
}

/// Builds the artifact of a checkpoint, or says why the steps are refused.
pub fn build_checkpoint_artifact_v1(
    session: Pubkey,
    er_slot: u64,
    steps: Vec<CheckpointStepInputV1>,
) -> (r: Result<CheckpointArtifactV1, CheckpointArtifactError>)
    ensures
        match steps_error(step_models(steps@)) {
            Some(e) => r == Err::<CheckpointArtifactV1, _>(e),
            None => r matches Ok(artifact) && artifact@ == artifact_model(
                session,
                er_slot,
                step_models(steps@),
            ),
        },
{
    validate_steps(&steps)?;
    let ghost ms = step_models(steps@);
    let (trees, readonly_offsets, settlement_offsets) = build_trees(&steps)?;
    let pages = build_pages(&steps, &trees, &readonly_offsets, &settlement_offsets)?;
    let roots = StepRoots {
        trace: trees.trace.root(),
        transactions: trees.transactions.root(),
        readonly: trees.readonly.root(),
        settlement: trees.settlement.root(),
    };
    let (descriptors, page_hashes) = describe_pages(Ghost(ms), &pages)?;
    let step_count: u32 = steps.len() as u32;
    let manifest = build_manifest(session, er_slot, Ghost(ms), step_count, &roots, descriptors);
    let da_commitment = build_da_root(
        Ghost(session),
        Ghost(er_slot),
        Ghost(ms),
        &manifest,
        &page_hashes,
    )?;
    let last: usize = steps.len() - 1;
    assert(ms[0] == steps@[0]@ && ms[last as int] == steps@[last as int]@);
    let artifact = CheckpointArtifactV1 {
        checkpoint: CheckpointCommitmentV1 {
            version: CHECKPOINT_FORMAT_VERSION_V1,
            session,
            er_slot,
            step_count,
            previous_state_root: steps[0].pre_state_root,
            new_state_root: steps[last].post_state_root,
            trace_root: roots.trace,
            transaction_effect_root: roots.transactions,
            readonly_l1_root: roots.readonly,
            da_commitment,
            effect_commitment: roots.settlement,
        },
        da: DaPackageV1 { manifest, pages },
    };
    assert(artifact@.da.pages =~= artifact_model(session, er_slot, ms).da.pages);
    assert(artifact@ =~= artifact_model(session, er_slot, ms));
    Ok(artifact)
}

/// Accounts `i` and `i + 1` are in order.
pub open spec fn accounts_in_order(accounts: Seq<StateAccountValueV1>, i: int) -> bool {
    state_account_less(accounts[i], accounts[i + 1])
}

/// The accounts are strictly increasing, and each has a hash of its data.
pub open spec fn state_accounts_ok(accounts: Seq<StateAccountValueV1>) -> bool {
    &&& forall|i: int|
        0 <= i < accounts.len() - 1 ==> #[trigger] accounts_in_order(accounts, i)
    &&& forall|i: int| 0 <= i < accounts.len() ==> !all_zero((#[trigger] accounts[i]).data_hash)
}

pub open spec fn state_leaves(accounts: Seq<StateAccountValueV1>) -> Seq<CommitmentHash> {
    Seq::new(accounts.len(), |i: int| state_account_leaf(i as nat, accounts[i]))
}

fn check_state_accounts(accounts: &[StateAccountValueV1]) -> (ok: bool)
    ensures
        ok == state_accounts_ok(accounts@),
{
    let mut i: usize = 0;
    while i < accounts.len()
        invariant
            i <= accounts@.len(),
            forall|x: int|
                0 <= x < i && x < accounts@.len() - 1 ==> #[trigger] accounts_in_order(
                    accounts@,
                    x,
                ),
            forall|x: int| 0 <= x < i ==> !all_zero((#[trigger] accounts@[x]).data_hash),
        decreases accounts@.len() - i,
    {
        if is_zero32(&accounts[i].data_hash) {
            return false;
        }
        if i + 1 < accounts.len() {
            if !state_account_is_less(&accounts[i], &accounts[i + 1]) {
                assert(!accounts_in_order(accounts@, i as int));
                return false;
            }
        }
        i += 1;
    }
    true
}

/// The root of the state tree over the accounts, which must be strictly
/// increasing, carry a hash of their data, and be no more than a tree can have.
pub fn state_root_v1(accounts: &[StateAccountValueV1]) -> (r: Result<
    CommitmentHash,
    CheckpointArtifactError,
>)
    ensures
        r == (if !state_accounts_ok(accounts@) {
            Err::<CommitmentHash, CheckpointArtifactError>(
                CheckpointArtifactError::InvalidStateAccounts,
            )
        } else if !tree_fits(accounts@.len()) {
            Err(CheckpointArtifactError::Encoding)
        } else {
            Ok(merkle_root(TreeKind::State, state_leaves(accounts@)))
        }),
{
    if !check_state_accounts(accounts) {
        return Err(CheckpointArtifactError::InvalidStateAccounts);
    }
    if accounts.len() as u64 > u32::MAX as u64 {
        return Err(CheckpointArtifactError::Encoding);
    }
    let mut leaves: Vec<CommitmentHash> = Vec::new();
    let mut i: usize = 0;
    assert(leaves@ =~= state_leaves(accounts@).take(0));
    while i < accounts.len()
        invariant
            i <= accounts@.len() <= u32::MAX,
            leaves@ == state_leaves(accounts@).take(i as int),
        decreases accounts@.len() - i,
    {
        leaves.push(state_account_leaf_hash(i as u32, &accounts[i])?);
        i += 1;
        assert(leaves@ =~= state_leaves(accounts@).take(i as int));
    }
    assert(leaves@ =~= state_leaves(accounts@));
    let tree = MerkleTree::new(TreeKind::State, leaves)?;
    Ok(tree.root())
}

} // verus!
