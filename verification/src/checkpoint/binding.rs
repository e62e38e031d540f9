//! What the roots of a checkpoint commit to, told by the steps alone.

use vstd::prelude::*;

use crate::checkpoint::artifact::{
    accepted, artifact_model, da_leaves, lemma_accepted, lemma_artifact_encodable, lemma_page_wire,
    lemma_readonly_leaf_at, lemma_readonly_leaves_len, lemma_settlement_leaf_at,
    lemma_settlement_leaves_len, manifest_model, page_digest, page_model, readonly_leaves,
    readonly_offset, settlement_leaves, settlement_offset, state_leaves, trace_leaves,
    transaction_leaves,
};
use crate::checkpoint::checks::{built_pages_hold_the_steps, page_authentic};
use crate::checkpoint::leaves::{
    readonly_l1_leaf, settlement_effect_leaf, state_account_leaf, trace_leaf,
    transaction_effect_leaf, LEAF_LABEL, MANIFEST_LABEL, PAGE_LABEL,
};
use crate::checkpoint::steps::StepModel;
use crate::checkpoint::{
    DaManifestV1, DaStepPageV1, PageModel, Pubkey, ReadonlyL1ValueV1, StateAccountValueV1,
};
use crate::codec::{encodings_are_unique, le, lemma_le_len, lemma_pow256_values, Codec};
use crate::hashing::sha256;
use crate::merkle::binding::{
    collision_free, digests_bind_bytes, equal_roots_have_equal_leaves, hashes_path, hashes_tree,
    lemma_same_hash, lemma_same_le, lemma_same_parts, paths_lead_from_leaves, typed_input,
};
use crate::merkle::{masked, merkle_root, CommitmentHash, TreeKind};

verus! {

/// What is hashed for a state root of the trace: its position and the root.
pub open spec fn trace_input(index: nat, state_root: CommitmentHash) -> Seq<u8> {
    typed_input(TreeKind::Trace, LEAF_LABEL@, le(index, 4) + state_root@)
}

/// What is hashed for a transaction: its position, the transaction, and its effect.
pub open spec fn transaction_input(
    index: nat,
    transaction: Seq<u8>,
    transaction_effect: Seq<u8>,
) -> Seq<u8> {
    typed_input(
        TreeKind::TransactionEffect,
        LEAF_LABEL@,
        transaction_bytes(index, transaction, transaction_effect),
    )
}

/// A transaction and its effect, each with its length in front, behind the position.
pub open spec fn transaction_bytes(
    index: nat,
    transaction: Seq<u8>,
    transaction_effect: Seq<u8>,
) -> Seq<u8> {
    le(index, 4) + (le(transaction.len(), 4) + transaction) + (le(transaction_effect.len(), 4)
        + transaction_effect)
}

/// A value that was read, behind its positions among all values and in its step.
pub open spec fn readonly_bytes(
    global_index: nat,
    step_index: nat,
    value_index: nat,
    value: ReadonlyL1ValueV1,
) -> Seq<u8> {
    le(global_index, 4) + le(step_index, 4) + le(value_index, 4) + ReadonlyL1ValueV1::wire(value)
}

/// An effect with its length, behind its positions among all effects and in its step.
pub open spec fn settlement_bytes(
    global_index: nat,
    step_index: nat,
    effect_index: nat,
    effect: Seq<u8>,
) -> Seq<u8> {
    le(global_index, 4) + le(step_index, 4) + le(effect_index, 4) + (le(effect.len(), 4) + effect)
}

/// Everything that is hashed for the roots over the steps is among the inputs.
pub open spec fn hashes_steps(inputs: Set<Seq<u8>>, steps: Seq<StepModel>) -> bool {
    let n = steps.len() as int;
    &&& hashes_tree(inputs, TreeKind::Trace, trace_leaves(steps))
    &&& hashes_tree(inputs, TreeKind::TransactionEffect, transaction_leaves(steps))
    &&& hashes_tree(inputs, TreeKind::ReadonlyL1, readonly_leaves(steps, n))
    &&& hashes_tree(inputs, TreeKind::SettlementEffect, settlement_leaves(steps, n))
    &&& inputs.contains(trace_input(0, steps[0].pre_state_root))
    &&& forall|i: int|
        0 <= i < n ==> inputs.contains(
            trace_input((i + 1) as nat, (#[trigger] steps[i]).post_state_root),
        )
    &&& forall|i: int|
        0 <= i < n ==> inputs.contains(
            transaction_input(
                i as nat,
                (#[trigger] steps[i]).transaction,
                steps[i].transaction_effect,
            ),
        )
    &&& forall|i: int, v: int|
        0 <= i < n && 0 <= v < steps[i].readonly_l1_values.len() ==> inputs.contains(
            typed_input(
                TreeKind::ReadonlyL1,
                LEAF_LABEL@,
                readonly_bytes(
                    (readonly_offset(steps, i) + v) as nat,
                    i as nat,
                    v as nat,
                    #[trigger] steps[i].readonly_l1_values[v],
                ),
            ),
        )
    &&& forall|i: int, e: int|
        0 <= i < n && 0 <= e < steps[i].settlement_effects.len() ==> inputs.contains(
            typed_input(
                TreeKind::SettlementEffect,
                LEAF_LABEL@,
                settlement_bytes(
                    (settlement_offset(steps, i) + e) as nat,
                    i as nat,
                    e as nat,
                    #[trigger] steps[i].settlement_effects[e],
                ),
            ),
        )
}

proof fn lemma_trace_binds(
    inputs: Set<Seq<u8>>,
    i: nat,
    a: CommitmentHash,
    j: nat,
    b: CommitmentHash,
)
    requires
        collision_free(inputs),
        inputs.contains(trace_input(i, a)),
        inputs.contains(trace_input(j, b)),
        i <= u32::MAX,
        j <= u32::MAX,
        trace_leaf(i, a) == trace_leaf(j, b),
    ensures
        i == j,
        a == b,
{
    digests_bind_bytes(inputs, TreeKind::Trace, LEAF_LABEL@, le(i, 4) + a@, le(j, 4) + b@);
    lemma_pow256_values();
    lemma_le_len(i, 4);
    lemma_le_len(j, 4);
    lemma_same_parts(le(i, 4), a@, le(j, 4), b@);
    lemma_same_le(i, j, 4);
    lemma_same_hash(a, b);
}

proof fn lemma_same_bytes(a: Seq<u8>, b: Seq<u8>, c: Seq<u8>, d: Seq<u8>)
    requires
        a.len() <= u32::MAX,
        c.len() <= u32::MAX,
        (le(a.len(), 4) + a) + b == (le(c.len(), 4) + c) + d,
    ensures
        a == c,
        b == d,
{
    lemma_pow256_values();
    lemma_le_len(a.len(), 4);
    lemma_le_len(c.len(), 4);
    assert((le(a.len(), 4) + a) + b =~= le(a.len(), 4) + (a + b));
    assert((le(c.len(), 4) + c) + d =~= le(c.len(), 4) + (c + d));
    lemma_same_parts(le(a.len(), 4), a + b, le(c.len(), 4), c + d);
    lemma_same_le(a.len(), c.len(), 4);
    lemma_same_parts(a, b, c, d);
}

proof fn lemma_transaction_binds(
    inputs: Set<Seq<u8>>,
    i: nat,
    a: (Seq<u8>, Seq<u8>),
    j: nat,
    b: (Seq<u8>, Seq<u8>),
)
    requires
        collision_free(inputs),
        inputs.contains(transaction_input(i, a.0, a.1)),
        inputs.contains(transaction_input(j, b.0, b.1)),
        i <= u32::MAX,
        j <= u32::MAX,
        a.0.len() <= u32::MAX,
        a.1.len() <= u32::MAX,
        b.0.len() <= u32::MAX,
        b.1.len() <= u32::MAX,
        transaction_effect_leaf(i, a.0, a.1) == transaction_effect_leaf(j, b.0, b.1),
    ensures
        i == j,
        a.0 == b.0,
        a.1 == b.1,
{
    lemma_masked_once(i, a.0, a.1);
    lemma_masked_once(j, b.0, b.1);
    digests_bind_bytes(
        inputs,
        TreeKind::TransactionEffect,
        LEAF_LABEL@,
        transaction_bytes(i, a.0, a.1),
        transaction_bytes(j, b.0, b.1),
    );
    lemma_pow256_values();
    lemma_le_len(i, 4);
    lemma_le_len(j, 4);
    assert(transaction_bytes(i, a.0, a.1) =~= le(i, 4) + ((le(a.0.len(), 4) + a.0) + (le(
        a.1.len(),
        4,
    ) + a.1)));
    assert(transaction_bytes(j, b.0, b.1) =~= le(j, 4) + ((le(b.0.len(), 4) + b.0) + (le(
        b.1.len(),
        4,
    ) + b.1)));
    let rest_a = le(a.1.len(), 4) + a.1;
    let rest_b = le(b.1.len(), 4) + b.1;
    lemma_same_parts(
        le(i, 4),
        (le(a.0.len(), 4) + a.0) + rest_a,
        le(j, 4),
        (le(b.0.len(), 4) + b.0) + rest_b,
    );
    lemma_same_le(i, j, 4);
    lemma_same_bytes(a.0, rest_a, b.0, rest_b);
    let none = Seq::<u8>::empty();
    assert(rest_a + none =~= rest_a);
    assert(rest_b + none =~= rest_b);
    lemma_same_bytes(a.1, none, b.1, none);
}

proof fn lemma_masked_once(i: nat, transaction: Seq<u8>, effect: Seq<u8>)
    ensures
        transaction_effect_leaf(i, transaction, effect) == masked(
            sha256(transaction_input(i, transaction, effect)),
        ),
{
}

/// The page of a step commits to the transaction and to its effect: its commitment is
/// the masked hash of the step's position, the transaction and the effect, each as it
/// is in the step. The page holds the step's own bytes, roots, values and effects.
pub proof fn pages_commit_to_their_steps(
    session: Pubkey,
    er_slot: u64,
    steps: Seq<StepModel>,
    i: int,
)
    requires
        accepted(steps),
        0 <= i < steps.len(),
    ensures
        ({
            let page = artifact_model(session, er_slot, steps).da.pages[i];
            &&& page.transaction_effect_commitment == masked(
                sha256(
                    typed_input(
                        TreeKind::TransactionEffect,
                        LEAF_LABEL@,
                        le(i as nat, 4) + (le(steps[i].transaction.len(), 4)
                            + steps[i].transaction) + (le(steps[i].transaction_effect.len(), 4)
                            + steps[i].transaction_effect),
                    ),
                ),
            )
            &&& page.page_index == i
            &&& page.step_index == i
            &&& page.transaction == steps[i].transaction
            &&& page.transaction_effect == steps[i].transaction_effect
            &&& page.pre_state_root == steps[i].pre_state_root
            &&& page.post_state_root == steps[i].post_state_root
            &&& page.readonly_l1_values.len() == steps[i].readonly_l1_values.len()
            &&& forall|v: int|
                0 <= v < page.readonly_l1_values.len() ==> {
                    &&& (#[trigger] page.readonly_l1_values[v]).value
                        == steps[i].readonly_l1_values[v]
                    &&& page.readonly_l1_values[v].value_index == v
                }
            &&& page.settlement_effects.len() == steps[i].settlement_effects.len()
            &&& forall|e: int|
                0 <= e < page.settlement_effects.len() ==> {
                    &&& (#[trigger] page.settlement_effects[e]).effect
                        == steps[i].settlement_effects[e]
                    &&& page.settlement_effects[e].effect_index == e
                }
        }),
{
    lemma_accepted(steps);
    assert(steps[i].step_index == i);
}

/// A checkpoint names its session, its slot and the number of its steps, and leads
/// from the root before the first step to the root after the last one. The manifest
/// says the same, and describes every page in its order.
pub proof fn checkpoints_name_what_they_are_of(
    session: Pubkey,
    er_slot: u64,
    steps: Seq<StepModel>,
)
    requires
        accepted(steps),
    ensures
        ({
            let artifact = artifact_model(session, er_slot, steps);
            let checkpoint = artifact.checkpoint;
            let manifest = artifact.da.manifest;
            &&& checkpoint.session == session
            &&& checkpoint.er_slot == er_slot
            &&& checkpoint.step_count == 16
            &&& checkpoint.previous_state_root == steps[0].pre_state_root
            &&& checkpoint.new_state_root == steps[15].post_state_root
            &&& manifest.session == session
            &&& manifest.er_slot == er_slot
            &&& manifest.step_count == 16
            &&& manifest.trace_root == checkpoint.trace_root
            &&& manifest.transaction_effect_root == checkpoint.transaction_effect_root
            &&& manifest.readonly_l1_root == checkpoint.readonly_l1_root
            &&& manifest.effect_commitment == checkpoint.effect_commitment
            &&& artifact.da.pages.len() == 16
            &&& manifest.pages.len() == 16
            &&& forall|i: int|
                0 <= i < 16 ==> {
                    let bytes = DaStepPageV1::wire(artifact.da.pages[i]);
                    &&& (#[trigger] manifest.pages[i]).page_index == i
                    &&& manifest.pages[i].step_index == i
                    &&& manifest.pages[i].uncompressed_len == bytes.len()
                    &&& manifest.pages[i].encoded_len == bytes.len()
                    &&& manifest.pages[i].payload_hash == sha256(
                        typed_input(TreeKind::DataAvailability, PAGE_LABEL@, bytes),
                    )
                }
        }),
{
    lemma_accepted(steps);
    let manifest = artifact_model(session, er_slot, steps).da.manifest;
    assert forall|i: int| 0 <= i < 16 implies {
        let bytes = DaStepPageV1::wire(artifact_model(session, er_slot, steps).da.pages[i]);
        &&& (#[trigger] manifest.pages[i]).page_index == i
        &&& manifest.pages[i].step_index == i
        &&& manifest.pages[i].uncompressed_len == bytes.len()
        &&& manifest.pages[i].encoded_len == bytes.len()
        &&& manifest.pages[i].payload_hash == sha256(
            typed_input(TreeKind::DataAvailability, PAGE_LABEL@, bytes),
        )
    } by {
        assert(steps[i].step_index == i);
        lemma_page_wire(steps, i);
    }
}

proof fn lemma_trace_at(
    inputs: Set<Seq<u8>>,
    steps: Seq<StepModel>,
    at: int,
    index: nat,
    root: CommitmentHash,
)
    requires
        accepted(steps),
        collision_free(inputs),
        hashes_steps(inputs, steps),
        inputs.contains(trace_input(index, root)),
        index <= u32::MAX,
        0 <= at <= 16,
        trace_leaf(index, root) == trace_leaves(steps)[at],
    ensures
        index == at,
        root == (if at == 0 {
            steps[0].pre_state_root
        } else {
            steps[at - 1].post_state_root
        }),
{
    lemma_accepted(steps);
    if at == 0 {
        lemma_trace_binds(inputs, index, root, 0, steps[0].pre_state_root);
    } else {
        assert(steps[at - 1].step_index == at - 1);
        assert(inputs.contains(trace_input((at - 1 + 1) as nat, steps[at - 1].post_state_root)));
        lemma_trace_binds(inputs, index, root, at as nat, steps[at - 1].post_state_root);
    }
}

proof fn lemma_trace_leaf(inputs: Set<Seq<u8>>, steps: Seq<StepModel>, at: int)
    requires
        accepted(steps),
        hashes_steps(inputs, steps),
        0 <= at <= 16,
    ensures
        trace_leaves(steps)[at] == (if at == 0 {
            trace_leaf(0, steps[0].pre_state_root)
        } else {
            trace_leaf(at as nat, steps[at - 1].post_state_root)
        }),
        at > 0 ==> inputs.contains(trace_input(at as nat, steps[at - 1].post_state_root)),
        inputs.contains(trace_input(0, steps[0].pre_state_root)),
{
    lemma_accepted(steps);
    if at > 0 {
        assert(steps[at - 1].step_index == at - 1);
        assert(inputs.contains(trace_input((at - 1 + 1) as nat, steps[at - 1].post_state_root)));
    }
}

/// Two checkpoints with the same trace root have the same state roots, before the
/// first step and after every step.
pub proof fn trace_roots_bind_state_roots(
    inputs: Set<Seq<u8>>,
    a: Seq<StepModel>,
    b: Seq<StepModel>,
    session: Pubkey,
    er_slot: u64,
    other_session: Pubkey,
    other_slot: u64,
    i: int,
)
    requires
        accepted(a),
        accepted(b),
        collision_free(inputs),
        hashes_steps(inputs, a),
        hashes_steps(inputs, b),
        artifact_model(session, er_slot, a).checkpoint.trace_root == artifact_model(
            other_session,
            other_slot,
            b,
        ).checkpoint.trace_root,
        0 <= i < 16,
    ensures
        a[0].pre_state_root == b[0].pre_state_root,
        a[i].post_state_root == b[i].post_state_root,
{
    lemma_accepted(a);
    lemma_accepted(b);
    equal_roots_have_equal_leaves(inputs, TreeKind::Trace, trace_leaves(a), trace_leaves(b));
    lemma_trace_leaf(inputs, a, 0);
    lemma_trace_at(inputs, b, 0, 0, a[0].pre_state_root);
    lemma_trace_leaf(inputs, a, i + 1);
    lemma_trace_at(inputs, b, i + 1, (i + 1) as nat, a[i].post_state_root);
}

/// Two checkpoints with the same transaction root have the same transactions with the
/// same effects, step by step.
pub proof fn transaction_roots_bind_effects(
    inputs: Set<Seq<u8>>,
    a: Seq<StepModel>,
    b: Seq<StepModel>,
    session: Pubkey,
    er_slot: u64,
    other_session: Pubkey,
    other_slot: u64,
    i: int,
)
    requires
        accepted(a),
        accepted(b),
        collision_free(inputs),
        hashes_steps(inputs, a),
        hashes_steps(inputs, b),
        artifact_model(session, er_slot, a).checkpoint.transaction_effect_root == artifact_model(
            other_session,
            other_slot,
            b,
        ).checkpoint.transaction_effect_root,
        0 <= i < 16,
    ensures
        a[i].transaction == b[i].transaction,
        a[i].transaction_effect == b[i].transaction_effect,
{
    lemma_accepted(a);
    lemma_accepted(b);
    let left = transaction_leaves(a);
    let right = transaction_leaves(b);
    equal_roots_have_equal_leaves(inputs, TreeKind::TransactionEffect, left, right);
    assert(a[i].step_index == i && b[i].step_index == i);
    assert(left[i] == right[i]);
    assert(inputs.contains(
        transaction_input(i as nat, a[i].transaction, a[i].transaction_effect),
    ));
    assert(inputs.contains(
        transaction_input(i as nat, b[i].transaction, b[i].transaction_effect),
    ));
    lemma_transaction_binds(
        inputs,
        i as nat,
        (a[i].transaction, a[i].transaction_effect),
        i as nat,
        (b[i].transaction, b[i].transaction_effect),
    );
}

proof fn lemma_readonly_position(steps: Seq<StepModel>, k: int, g: int) -> (at: (int, int))
    requires
        0 <= k <= steps.len(),
        0 <= g < readonly_offset(steps, k),
    ensures
        0 <= at.0 < k,
        0 <= at.1 < steps[at.0].readonly_l1_values.len(),
        readonly_offset(steps, at.0) + at.1 == g,
    decreases k,
{
    if g < readonly_offset(steps, k - 1) {
        lemma_readonly_position(steps, k - 1, g)
    } else {
        (k - 1, g - readonly_offset(steps, k - 1))
    }
}

proof fn lemma_settlement_position(steps: Seq<StepModel>, k: int, g: int) -> (at: (int, int))
    requires
        0 <= k <= steps.len(),
        0 <= g < settlement_offset(steps, k),
    ensures
        0 <= at.0 < k,
        0 <= at.1 < steps[at.0].settlement_effects.len(),
        settlement_offset(steps, at.0) + at.1 == g,
    decreases k,
{
    if g < settlement_offset(steps, k - 1) {
        lemma_settlement_position(steps, k - 1, g)
    } else {
        (k - 1, g - settlement_offset(steps, k - 1))
    }
}

proof fn lemma_positions_bind(
    a: (nat, nat, nat),
    x: Seq<u8>,
    b: (nat, nat, nat),
    y: Seq<u8>,
)
    requires
        a.0 <= u32::MAX,
        a.1 <= u32::MAX,
        a.2 <= u32::MAX,
        b.0 <= u32::MAX,
        b.1 <= u32::MAX,
        b.2 <= u32::MAX,
        le(a.0, 4) + le(a.1, 4) + le(a.2, 4) + x == le(b.0, 4) + le(b.1, 4) + le(b.2, 4) + y,
    ensures
        a == b,
        x == y,
{
    lemma_pow256_values();
    lemma_le_len(a.0, 4);
    lemma_le_len(a.1, 4);
    lemma_le_len(a.2, 4);
    lemma_le_len(b.0, 4);
    lemma_le_len(b.1, 4);
    lemma_le_len(b.2, 4);
    lemma_same_parts(
        le(a.0, 4) + le(a.1, 4) + le(a.2, 4),
        x,
        le(b.0, 4) + le(b.1, 4) + le(b.2, 4),
        y,
    );
    lemma_same_parts(
        le(a.0, 4) + le(a.1, 4),
        le(a.2, 4),
        le(b.0, 4) + le(b.1, 4),
        le(b.2, 4),
    );
    lemma_same_parts(le(a.0, 4), le(a.1, 4), le(b.0, 4), le(b.1, 4));
    lemma_same_le(a.0, b.0, 4);
    lemma_same_le(a.1, b.1, 4);
    lemma_same_le(a.2, b.2, 4);
}

proof fn lemma_readonly_binds(
    inputs: Set<Seq<u8>>,
    a: (nat, nat, nat),
    x: ReadonlyL1ValueV1,
    b: (nat, nat, nat),
    y: ReadonlyL1ValueV1,
)
    requires
        collision_free(inputs),
        inputs.contains(
            typed_input(TreeKind::ReadonlyL1, LEAF_LABEL@, readonly_bytes(a.0, a.1, a.2, x)),
        ),
        inputs.contains(
            typed_input(TreeKind::ReadonlyL1, LEAF_LABEL@, readonly_bytes(b.0, b.1, b.2, y)),
        ),
        a.0 <= u32::MAX,
        a.1 <= u32::MAX,
        a.2 <= u32::MAX,
        b.0 <= u32::MAX,
        b.1 <= u32::MAX,
        b.2 <= u32::MAX,
        readonly_l1_leaf(a.0, a.1, a.2, x) == readonly_l1_leaf(b.0, b.1, b.2, y),
    ensures
        a == b,
        x == y,
{
    digests_bind_bytes(
        inputs,
        TreeKind::ReadonlyL1,
        LEAF_LABEL@,
        readonly_bytes(a.0, a.1, a.2, x),
        readonly_bytes(b.0, b.1, b.2, y),
    );
    lemma_positions_bind(a, ReadonlyL1ValueV1::wire(x), b, ReadonlyL1ValueV1::wire(y));
    encodings_are_unique::<ReadonlyL1ValueV1>(x, y, ReadonlyL1ValueV1::wire(x));
}

proof fn lemma_settlement_binds(
    inputs: Set<Seq<u8>>,
    a: (nat, nat, nat),
    x: Seq<u8>,
    b: (nat, nat, nat),
    y: Seq<u8>,
)
    requires
        collision_free(inputs),
        inputs.contains(
            typed_input(
                TreeKind::SettlementEffect,
                LEAF_LABEL@,
                settlement_bytes(a.0, a.1, a.2, x),
            ),
        ),
        inputs.contains(
            typed_input(
                TreeKind::SettlementEffect,
                LEAF_LABEL@,
                settlement_bytes(b.0, b.1, b.2, y),
            ),
        ),
        a.0 <= u32::MAX,
        a.1 <= u32::MAX,
        a.2 <= u32::MAX,
        b.0 <= u32::MAX,
        b.1 <= u32::MAX,
        b.2 <= u32::MAX,
        x.len() <= u32::MAX,
        y.len() <= u32::MAX,
        settlement_effect_leaf(a.0, a.1, a.2, x) == settlement_effect_leaf(b.0, b.1, b.2, y),
    ensures
        a == b,
        x == y,
{
    digests_bind_bytes(
        inputs,
        TreeKind::SettlementEffect,
        LEAF_LABEL@,
        settlement_bytes(a.0, a.1, a.2, x),
        settlement_bytes(b.0, b.1, b.2, y),
    );
    lemma_positions_bind(a, le(x.len(), 4) + x, b, le(y.len(), 4) + y);
    let none = Seq::<u8>::empty();
    assert((le(x.len(), 4) + x) + none =~= le(x.len(), 4) + x);
    assert((le(y.len(), 4) + y) + none =~= le(y.len(), 4) + y);
    lemma_same_bytes(x, none, y, none);
}

proof fn lemma_readonly_found(
    inputs: Set<Seq<u8>>,
    a: Seq<StepModel>,
    b: Seq<StepModel>,
    i: int,
    v: int,
)
    requires
        accepted(a),
        accepted(b),
        collision_free(inputs),
        hashes_steps(inputs, a),
        hashes_steps(inputs, b),
        readonly_leaves(a, a.len() as int) == readonly_leaves(b, b.len() as int),
        0 <= i < 16,
        0 <= v < a[i].readonly_l1_values.len(),
    ensures
        v < b[i].readonly_l1_values.len(),
        a[i].readonly_l1_values[v] == b[i].readonly_l1_values[v],
{
    lemma_accepted(a);
    lemma_accepted(b);
    let n = 16int;
    let g = readonly_offset(a, i) + v;
    lemma_readonly_leaf_at(a, n, i, v);
    lemma_readonly_leaves_len(a, n);
    lemma_readonly_leaves_len(b, n);
    let (j, w) = lemma_readonly_position(b, n, g);
    lemma_readonly_leaf_at(b, n, j, w);
    assert(a[i].step_index == i && b[j].step_index == j);
    assert(readonly_offset(a, n) <= 256 * n);
    assert(inputs.contains(
        typed_input(
            TreeKind::ReadonlyL1,
            LEAF_LABEL@,
            readonly_bytes(g as nat, i as nat, v as nat, a[i].readonly_l1_values[v]),
        ),
    ));
    assert(inputs.contains(
        typed_input(
            TreeKind::ReadonlyL1,
            LEAF_LABEL@,
            readonly_bytes(g as nat, j as nat, w as nat, b[j].readonly_l1_values[w]),
        ),
    ));
    lemma_readonly_binds(
        inputs,
        (g as nat, i as nat, v as nat),
        a[i].readonly_l1_values[v],
        (g as nat, j as nat, w as nat),
        b[j].readonly_l1_values[w],
    );
}

proof fn lemma_settlement_found(
    inputs: Set<Seq<u8>>,
    a: Seq<StepModel>,
    b: Seq<StepModel>,
    i: int,
    e: int,
)
    requires
        accepted(a),
        accepted(b),
        collision_free(inputs),
        hashes_steps(inputs, a),
        hashes_steps(inputs, b),
        settlement_leaves(a, a.len() as int) == settlement_leaves(b, b.len() as int),
        0 <= i < 16,
        0 <= e < a[i].settlement_effects.len(),
    ensures
        e < b[i].settlement_effects.len(),
        a[i].settlement_effects[e] == b[i].settlement_effects[e],
{
    lemma_accepted(a);
    lemma_accepted(b);
    let n = 16int;
    let g = settlement_offset(a, i) + e;
    lemma_settlement_leaf_at(a, n, i, e);
    lemma_settlement_leaves_len(a, n);
    lemma_settlement_leaves_len(b, n);
    let (j, w) = lemma_settlement_position(b, n, g);
    lemma_settlement_leaf_at(b, n, j, w);
    assert(a[i].step_index == i && b[j].step_index == j);
    assert(settlement_offset(a, n) <= 256 * n);
    assert(inputs.contains(
        typed_input(
            TreeKind::SettlementEffect,
            LEAF_LABEL@,
            settlement_bytes(g as nat, i as nat, e as nat, a[i].settlement_effects[e]),
        ),
    ));
    assert(inputs.contains(
        typed_input(
            TreeKind::SettlementEffect,
            LEAF_LABEL@,
            settlement_bytes(g as nat, j as nat, w as nat, b[j].settlement_effects[w]),
        ),
    ));
    lemma_settlement_binds(
        inputs,
        (g as nat, i as nat, e as nat),
        a[i].settlement_effects[e],
        (g as nat, j as nat, w as nat),
        b[j].settlement_effects[w],
    );
}

/// Two checkpoints with the same root of read values have read the same values, step
/// by step.
pub proof fn readonly_roots_bind_values(
    inputs: Set<Seq<u8>>,
    a: Seq<StepModel>,
    b: Seq<StepModel>,
    session: Pubkey,
    er_slot: u64,
    other_session: Pubkey,
    other_slot: u64,
    i: int,
)
    requires
        accepted(a),
        accepted(b),
        collision_free(inputs),
        hashes_steps(inputs, a),
        hashes_steps(inputs, b),
        artifact_model(session, er_slot, a).checkpoint.readonly_l1_root == artifact_model(
            other_session,
            other_slot,
            b,
        ).checkpoint.readonly_l1_root,
        0 <= i < 16,
    ensures
        a[i].readonly_l1_values == b[i].readonly_l1_values,
{
    lemma_accepted(a);
    lemma_accepted(b);
    let n = 16int;
    lemma_readonly_leaves_len(a, n);
    lemma_readonly_leaves_len(b, n);
    assert(readonly_offset(a, n) <= 256 * n && readonly_offset(b, n) <= 256 * n);
    equal_roots_have_equal_leaves(
        inputs,
        TreeKind::ReadonlyL1,
        readonly_leaves(a, n),
        readonly_leaves(b, n),
    );
    let x = a[i].readonly_l1_values;
    let y = b[i].readonly_l1_values;
    if x.len() > y.len() {
        lemma_readonly_found(inputs, a, b, i, y.len() as int);
    }
    if y.len() > x.len() {
        lemma_readonly_found(inputs, b, a, i, x.len() as int);
    }
    assert forall|v: int| 0 <= v < x.len() implies x[v] == y[v] by {
        lemma_readonly_found(inputs, a, b, i, v);
    }
    assert(x =~= y);
}

/// Two checkpoints with the same effect commitment settle the same effects, step by
/// step.
pub proof fn effect_commitments_bind_effects(
    inputs: Set<Seq<u8>>,
    a: Seq<StepModel>,
    b: Seq<StepModel>,
    session: Pubkey,
    er_slot: u64,
    other_session: Pubkey,
    other_slot: u64,
    i: int,
)
    requires
        accepted(a),
        accepted(b),
        collision_free(inputs),
        hashes_steps(inputs, a),
        hashes_steps(inputs, b),
        artifact_model(session, er_slot, a).checkpoint.effect_commitment == artifact_model(
            other_session,
            other_slot,
            b,
        ).checkpoint.effect_commitment,
        0 <= i < 16,
    ensures
        a[i].settlement_effects == b[i].settlement_effects,
{
    lemma_accepted(a);
    lemma_accepted(b);
    let n = 16int;
    lemma_settlement_leaves_len(a, n);
    lemma_settlement_leaves_len(b, n);
    assert(settlement_offset(a, n) <= 256 * n && settlement_offset(b, n) <= 256 * n);
    equal_roots_have_equal_leaves(
        inputs,
        TreeKind::SettlementEffect,
        settlement_leaves(a, n),
        settlement_leaves(b, n),
    );
    let x = a[i].settlement_effects;
    let y = b[i].settlement_effects;
    if x.len() > y.len() {
        lemma_settlement_found(inputs, a, b, i, y.len() as int);
    }
    if y.len() > x.len() {
        lemma_settlement_found(inputs, b, a, i, x.len() as int);
    }
    assert forall|e: int| 0 <= e < x.len() implies x[e] == y[e] by {
        lemma_settlement_found(inputs, a, b, i, e);
    }
    assert(x =~= y);
}

/// Everything that is hashed for the published data is among the inputs.
pub open spec fn hashes_package(
    inputs: Set<Seq<u8>>,
    session: Pubkey,
    er_slot: u64,
    steps: Seq<StepModel>,
) -> bool {
    let da = artifact_model(session, er_slot, steps).da;
    &&& hashes_tree(inputs, TreeKind::DataAvailability, da_leaves(session, er_slot, steps))
    &&& inputs.contains(
        typed_input(
            TreeKind::DataAvailability,
            MANIFEST_LABEL@,
            DaManifestV1::wire(da.manifest),
        ),
    )
    &&& forall|i: int|
        0 <= i < da.pages.len() ==> inputs.contains(
            typed_input(
                TreeKind::DataAvailability,
                PAGE_LABEL@,
                DaStepPageV1::wire(#[trigger] da.pages[i]),
            ),
        )
}

/// Two checkpoints with the same commitment to their published data are of the same
/// session and slot and have the same steps.
pub proof fn data_commitments_bind_everything(
    inputs: Set<Seq<u8>>,
    a: Seq<StepModel>,
    b: Seq<StepModel>,
    session: Pubkey,
    er_slot: u64,
    other_session: Pubkey,
    other_slot: u64,
)
    requires
        accepted(a),
        accepted(b),
        collision_free(inputs),
        hashes_package(inputs, session, er_slot, a),
        hashes_package(inputs, other_session, other_slot, b),
        artifact_model(session, er_slot, a).checkpoint.da_commitment == artifact_model(
            other_session,
            other_slot,
            b,
        ).checkpoint.da_commitment,
    ensures
        session == other_session,
        er_slot == other_slot,
        a == b,
{
    lemma_accepted(a);
    lemma_accepted(b);
    let left = da_leaves(session, er_slot, a);
    let right = da_leaves(other_session, other_slot, b);
    equal_roots_have_equal_leaves(inputs, TreeKind::DataAvailability, left, right);
    let manifest = manifest_model(session, er_slot, a);
    let other = manifest_model(other_session, other_slot, b);
    lemma_artifact_encodable(session, er_slot, a);
    lemma_artifact_encodable(other_session, other_slot, b);
    assert(left[0] == right[0]);
    digests_bind_bytes(
        inputs,
        TreeKind::DataAvailability,
        MANIFEST_LABEL@,
        DaManifestV1::wire(manifest),
        DaManifestV1::wire(other),
    );
    encodings_are_unique::<DaManifestV1>(manifest, other, DaManifestV1::wire(manifest));
    let pages = artifact_model(session, er_slot, a).da.pages;
    let other_pages = artifact_model(other_session, other_slot, b).da.pages;
    assert forall|i: int| 0 <= i < pages.len() implies pages[i] == other_pages[i] by {
        assert(left[i + 1] == right[i + 1]);
        assert(left[i + 1] == page_digest(a, i));
        assert(right[i + 1] == page_digest(b, i));
        assert(pages[i] == page_model(a, i));
        assert(other_pages[i] == page_model(b, i));
        digests_bind_bytes(
            inputs,
            TreeKind::DataAvailability,
            PAGE_LABEL@,
            DaStepPageV1::wire(pages[i]),
            DaStepPageV1::wire(other_pages[i]),
        );
        lemma_page_wire(a, i);
        lemma_page_wire(b, i);
        encodings_are_unique::<DaStepPageV1>(
            pages[i],
            other_pages[i],
            DaStepPageV1::wire(pages[i]),
        );
    }
    assert(pages =~= other_pages);
    built_pages_hold_the_steps(session, er_slot, a);
    built_pages_hold_the_steps(other_session, other_slot, b);
}

/// Everything that is hashed to check a page is among the inputs.
pub open spec fn hashes_page(inputs: Set<Seq<u8>>, page: PageModel) -> bool {
    &&& inputs.contains(trace_input(page.step_index as nat, page.pre_state_root))
    &&& hashes_path(
        inputs,
        TreeKind::Trace,
        page.pre_state_path,
        trace_leaf(page.step_index as nat, page.pre_state_root),
    )
    &&& inputs.contains(trace_input((page.step_index + 1) as nat, page.post_state_root))
    &&& hashes_path(
        inputs,
        TreeKind::Trace,
        page.post_state_path,
        trace_leaf((page.step_index + 1) as nat, page.post_state_root),
    )
    &&& inputs.contains(
        transaction_input(page.step_index as nat, page.transaction, page.transaction_effect),
    )
    &&& hashes_path(
        inputs,
        TreeKind::TransactionEffect,
        page.transaction_effect_path,
        page.transaction_effect_commitment,
    )
    &&& forall|v: int|
        0 <= v < page.readonly_l1_values.len() ==> {
            let entry = #[trigger] page.readonly_l1_values[v];
            &&& inputs.contains(
                typed_input(
                    TreeKind::ReadonlyL1,
                    LEAF_LABEL@,
                    readonly_bytes(
                        entry.global_index as nat,
                        page.step_index as nat,
                        entry.value_index as nat,
                        entry.value,
                    ),
                ),
            )
            &&& hashes_path(
                inputs,
                TreeKind::ReadonlyL1,
                entry.path,
                readonly_l1_leaf(
                    entry.global_index as nat,
                    page.step_index as nat,
                    entry.value_index as nat,
                    entry.value,
                ),
            )
        }
    &&& forall|e: int|
        0 <= e < page.settlement_effects.len() ==> {
            let entry = #[trigger] page.settlement_effects[e];
            &&& inputs.contains(
                typed_input(
                    TreeKind::SettlementEffect,
                    LEAF_LABEL@,
                    settlement_bytes(
                        entry.global_index as nat,
                        page.step_index as nat,
                        entry.effect_index as nat,
                        entry.effect,
                    ),
                ),
            )
            &&& hashes_path(
                inputs,
                TreeKind::SettlementEffect,
                entry.path,
                settlement_effect_leaf(
                    entry.global_index as nat,
                    page.step_index as nat,
                    entry.effect_index as nat,
                    entry.effect,
                ),
            )
        }
}

/// A page that is authentic under the checkpoint of accepted steps holds what the
/// checkpoint was built from: it is about one of the steps, with that step's
/// transaction, effect and state roots.
pub proof fn authentic_pages_hold_committed_steps(
    inputs: Set<Seq<u8>>,
    session: Pubkey,
    er_slot: u64,
    steps: Seq<StepModel>,
    page: PageModel,
)
    requires
        accepted(steps),
        collision_free(inputs),
        hashes_steps(inputs, steps),
        hashes_page(inputs, page),
        page_authentic(page, artifact_model(session, er_slot, steps).checkpoint),
    ensures
        page.page_index == page.step_index,
        page.step_index < 16,
        page.transaction == steps[page.step_index as int].transaction,
        page.transaction_effect == steps[page.step_index as int].transaction_effect,
        page.transaction_effect_commitment == masked(
            sha256(
                transaction_input(
                    page.step_index as nat,
                    page.transaction,
                    page.transaction_effect,
                ),
            ),
        ),
        page.pre_state_root == steps[page.step_index as int].pre_state_root,
        page.post_state_root == steps[page.step_index as int].post_state_root,
{
    lemma_accepted(steps);
    let index = page.step_index as int;
    let transactions = transaction_leaves(steps);
    let trace = trace_leaves(steps);
    paths_lead_from_leaves(
        inputs,
        TreeKind::TransactionEffect,
        transactions,
        page.transaction_effect_path,
        page.transaction_effect_commitment,
    );
    let at = page.transaction_effect_path.leaf_index as int;
    assert(steps[at].step_index == at);
    assert(inputs.contains(
        transaction_input(at as nat, steps[at].transaction, steps[at].transaction_effect),
    ));
    lemma_transaction_binds(
        inputs,
        index as nat,
        (page.transaction, page.transaction_effect),
        at as nat,
        (steps[at].transaction, steps[at].transaction_effect),
    );
    lemma_masked_once(index as nat, page.transaction, page.transaction_effect);
    paths_lead_from_leaves(
        inputs,
        TreeKind::Trace,
        trace,
        page.pre_state_path,
        trace_leaf(index as nat, page.pre_state_root),
    );
    paths_lead_from_leaves(
        inputs,
        TreeKind::Trace,
        trace,
        page.post_state_path,
        trace_leaf((index + 1) as nat, page.post_state_root),
    );
    lemma_trace_at(
        inputs,
        steps,
        page.pre_state_path.leaf_index as int,
        index as nat,
        page.pre_state_root,
    );
    lemma_trace_at(
        inputs,
        steps,
        page.post_state_path.leaf_index as int,
        (index + 1) as nat,
        page.post_state_root,
    );
    if index > 0 {
        crate::checkpoint::steps::lemma_no_step_error(steps, 0);
        assert(crate::checkpoint::steps::step_error(steps, index) is None);
        assert(steps[index - 1].post_state_root == steps[index].pre_state_root);
    }
}

proof fn lemma_committed_value(
    inputs: Set<Seq<u8>>,
    session: Pubkey,
    er_slot: u64,
    steps: Seq<StepModel>,
    page: PageModel,
    v: int,
)
    requires
        accepted(steps),
        collision_free(inputs),
        hashes_steps(inputs, steps),
        hashes_page(inputs, page),
        page_authentic(page, artifact_model(session, er_slot, steps).checkpoint),
        0 <= v < page.readonly_l1_values.len(),
    ensures
        ({
            let entry = page.readonly_l1_values[v];
            let values = steps[page.step_index as int].readonly_l1_values;
            &&& entry.value_index < values.len()
            &&& entry.value == values[entry.value_index as int]
        }),
{
    lemma_accepted(steps);
    let n = 16int;
    let index = page.step_index as int;
    let checkpoint = artifact_model(session, er_slot, steps).checkpoint;
    lemma_readonly_leaves_len(steps, n);
    assert(readonly_offset(steps, n) <= 256 * n);
    let entry = page.readonly_l1_values[v];
    assert(crate::checkpoint::checks::readonly_entry_authentic(
        entry,
        page.step_index,
        checkpoint,
    ));
    paths_lead_from_leaves(
        inputs,
        TreeKind::ReadonlyL1,
        readonly_leaves(steps, n),
        entry.path,
        readonly_l1_leaf(
            entry.global_index as nat,
            index as nat,
            entry.value_index as nat,
            entry.value,
        ),
    );
    let g = entry.path.leaf_index as int;
    let (j, w) = lemma_readonly_position(steps, n, g);
    lemma_readonly_leaf_at(steps, n, j, w);
    assert(steps[j].step_index == j);
    assert(inputs.contains(
        typed_input(
            TreeKind::ReadonlyL1,
            LEAF_LABEL@,
            readonly_bytes(g as nat, j as nat, w as nat, steps[j].readonly_l1_values[w]),
        ),
    ));
    lemma_readonly_binds(
        inputs,
        (entry.global_index as nat, index as nat, entry.value_index as nat),
        entry.value,
        (g as nat, j as nat, w as nat),
        steps[j].readonly_l1_values[w],
    );
}

proof fn lemma_committed_effect(
    inputs: Set<Seq<u8>>,
    session: Pubkey,
    er_slot: u64,
    steps: Seq<StepModel>,
    page: PageModel,
    e: int,
)
    requires
        accepted(steps),
        collision_free(inputs),
        hashes_steps(inputs, steps),
        hashes_page(inputs, page),
        page_authentic(page, artifact_model(session, er_slot, steps).checkpoint),
        0 <= e < page.settlement_effects.len(),
    ensures
        ({
            let entry = page.settlement_effects[e];
            let effects = steps[page.step_index as int].settlement_effects;
            &&& entry.effect_index < effects.len()
            &&& entry.effect == effects[entry.effect_index as int]
        }),
{
    lemma_accepted(steps);
    let n = 16int;
    let index = page.step_index as int;
    let checkpoint = artifact_model(session, er_slot, steps).checkpoint;
    lemma_settlement_leaves_len(steps, n);
    assert(settlement_offset(steps, n) <= 256 * n);
    let entry = page.settlement_effects[e];
    assert(crate::checkpoint::checks::settlement_entry_authentic(
        entry,
        page.step_index,
        checkpoint,
    ));
    paths_lead_from_leaves(
        inputs,
        TreeKind::SettlementEffect,
        settlement_leaves(steps, n),
        entry.path,
        settlement_effect_leaf(
            entry.global_index as nat,
            index as nat,
            entry.effect_index as nat,
            entry.effect,
        ),
    );
    let g = entry.path.leaf_index as int;
    let (j, w) = lemma_settlement_position(steps, n, g);
    lemma_settlement_leaf_at(steps, n, j, w);
    assert(steps[j].step_index == j);
    assert(inputs.contains(
        typed_input(
            TreeKind::SettlementEffect,
            LEAF_LABEL@,
            settlement_bytes(g as nat, j as nat, w as nat, steps[j].settlement_effects[w]),
        ),
    ));
    lemma_settlement_binds(
        inputs,
        (entry.global_index as nat, index as nat, entry.effect_index as nat),
        entry.effect,
        (g as nat, j as nat, w as nat),
        steps[j].settlement_effects[w],
    );
}

/// Every value on an authentic page was read by the page's step, at the position that
/// the page says, and every effect is one of the step's.
pub proof fn authentic_pages_hold_committed_values(
    inputs: Set<Seq<u8>>,
    session: Pubkey,
    er_slot: u64,
    steps: Seq<StepModel>,
    page: PageModel,
)
    requires
        accepted(steps),
        collision_free(inputs),
        hashes_steps(inputs, steps),
        hashes_page(inputs, page),
        page_authentic(page, artifact_model(session, er_slot, steps).checkpoint),
    ensures
        forall|v: int|
            0 <= v < page.readonly_l1_values.len() ==> {
                let entry = #[trigger] page.readonly_l1_values[v];
                let values = steps[page.step_index as int].readonly_l1_values;
                &&& entry.value_index < values.len()
                &&& entry.value == values[entry.value_index as int]
            },
        forall|e: int|
            0 <= e < page.settlement_effects.len() ==> {
                let entry = #[trigger] page.settlement_effects[e];
                let effects = steps[page.step_index as int].settlement_effects;
                &&& entry.effect_index < effects.len()
                &&& entry.effect == effects[entry.effect_index as int]
            },
{
    assert forall|v: int| 0 <= v < page.readonly_l1_values.len() implies {
        let entry = #[trigger] page.readonly_l1_values[v];
        let values = steps[page.step_index as int].readonly_l1_values;
        &&& entry.value_index < values.len()
        &&& entry.value == values[entry.value_index as int]
    } by {
        lemma_committed_value(inputs, session, er_slot, steps, page, v);
    }
    assert forall|e: int| 0 <= e < page.settlement_effects.len() implies {
        let entry = #[trigger] page.settlement_effects[e];
        let effects = steps[page.step_index as int].settlement_effects;
        &&& entry.effect_index < effects.len()
        &&& entry.effect == effects[entry.effect_index as int]
    } by {
        lemma_committed_effect(inputs, session, er_slot, steps, page, e);
    }
}

/// Everything that is hashed for a state root is among the inputs.
pub open spec fn hashes_state(inputs: Set<Seq<u8>>, accounts: Seq<StateAccountValueV1>) -> bool {
    &&& hashes_tree(inputs, TreeKind::State, state_leaves(accounts))
    &&& forall|i: int|
        0 <= i < accounts.len() ==> inputs.contains(
            typed_input(
                TreeKind::State,
                LEAF_LABEL@,
                le(i as nat, 4) + StateAccountValueV1::wire(#[trigger] accounts[i]),
            ),
        )
}

/// Two states with the same root have the same accounts, in the same order.
pub proof fn state_roots_bind_accounts(
    inputs: Set<Seq<u8>>,
    a: Seq<StateAccountValueV1>,
    b: Seq<StateAccountValueV1>,
)
    requires
        collision_free(inputs),
        hashes_state(inputs, a),
        hashes_state(inputs, b),
        a.len() <= u32::MAX,
        b.len() <= u32::MAX,
        merkle_root(TreeKind::State, state_leaves(a)) == merkle_root(
            TreeKind::State,
            state_leaves(b),
        ),
    ensures
        a == b,
{
    let left = state_leaves(a);
    let right = state_leaves(b);
    equal_roots_have_equal_leaves(inputs, TreeKind::State, left, right);
    assert(left.len() == a.len() && right.len() == b.len());
    assert forall|i: int| 0 <= i < a.len() implies a[i] == b[i] by {
        assert(left[i] == state_account_leaf(i as nat, a[i]));
        assert(right[i] == state_account_leaf(i as nat, b[i]));
        let x = StateAccountValueV1::wire(a[i]);
        let y = StateAccountValueV1::wire(b[i]);
        digests_bind_bytes(
            inputs,
            TreeKind::State,
            LEAF_LABEL@,
            le(i as nat, 4) + x,
            le(i as nat, 4) + y,
        );
        lemma_same_parts(le(i as nat, 4), x, le(i as nat, 4), y);
        encodings_are_unique::<StateAccountValueV1>(a[i], b[i], x);
    }
    assert(a =~= b);
}

} // verus!
