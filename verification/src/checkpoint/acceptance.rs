//! Which steps a checkpoint is built from, told by the steps alone.

use vstd::prelude::*;

use crate::accounts::Pubkey;
use crate::checkpoint::artifact::{accepted, artifact_model};
use crate::checkpoint::checks::{built_artifacts_verify, page_steps, verification};
use crate::checkpoint::steps::{
    effect_before, effect_is_new, effect_ok, first_step_error, lemma_no_step_error,
    readonly_in_order, readonly_increasing, settlement_effects_ok, state_roots_ok, step_error,
    steps_error, StepModel,
};
use crate::checkpoint::{ArtifactModel, CheckpointArtifactError, ReadonlyL1ValueV1};
use crate::order::lex_less;

verus! {

/// The root is not zero, and it is less than the order of the scalar field.
pub open spec fn is_root(root: [u8; 32]) -> bool {
    &&& exists|b: int| 0 <= b < 32 && #[trigger] root[b] != 0
    &&& crate::order::canonical_scalar(root)
}

/// Of two values, the first comes before the second: they are ordered by account,
/// owner, lamports, hash and slot, in this order.
pub open spec fn comes_before(a: ReadonlyL1ValueV1, b: ReadonlyL1ValueV1) -> bool {
    ||| lex_less(a.account, b.account) && a.account != b.account
    ||| a.account == b.account && lex_less(a.owner, b.owner) && a.owner != b.owner
    ||| a.account == b.account && a.owner == b.owner && a.lamports < b.lamports
    ||| a.account == b.account && a.owner == b.owner && a.lamports == b.lamports && lex_less(
        a.data_hash,
        b.data_hash,
    ) && a.data_hash != b.data_hash
    ||| a.account == b.account && a.owner == b.owner && a.lamports == b.lamports && a.data_hash
        == b.data_hash && a.observed_l1_slot < b.observed_l1_slot
}

/// The step leads from one root to another, and goes on from where the step before it
/// has ended.
pub open spec fn follows_on(steps: Seq<StepModel>, i: int) -> bool {
    &&& is_root(steps[i].pre_state_root)
    &&& is_root(steps[i].post_state_root)
    &&& i > 0 ==> steps[i].pre_state_root == steps[i - 1].post_state_root
}

/// The step has a transaction of at most 1232 bytes that no step before it has.
pub open spec fn has_new_transaction(steps: Seq<StepModel>, i: int) -> bool {
    &&& 1 <= steps[i].transaction.len() <= 1232
    &&& forall|j: int| 0 <= j < i ==> (#[trigger] steps[j]).transaction != steps[i].transaction
}

/// The step has an effect of at most 1048576 bytes.
pub open spec fn has_effect(steps: Seq<StepModel>, i: int) -> bool {
    1 <= steps[i].transaction_effect.len() <= 1_048_576
}

/// The step has read at most 256 values, which are in order, none of them twice.
pub open spec fn reads_in_order(steps: Seq<StepModel>, i: int) -> bool {
    let values = steps[i].readonly_l1_values;
    &&& values.len() <= 256
    &&& forall|v: int, w: int|
        0 <= v && w == v + 1 && w < values.len() ==> comes_before(
            #[trigger] values[v],
            #[trigger] values[w],
        )
}

/// The step settles at most 256 effects, each of at most 16384 bytes, and none that it
/// or a step before it settles already.
pub open spec fn settles_new_effects(steps: Seq<StepModel>, i: int) -> bool {
    let effects = steps[i].settlement_effects;
    &&& effects.len() <= 256
    &&& forall|e: int| 0 <= e < effects.len() ==> 1 <= (#[trigger] effects[e]).len() <= 16_384
    &&& forall|e: int, f: int|
        0 <= e < f < effects.len() ==> #[trigger] effects[e] != #[trigger] effects[f]
    &&& forall|j: int, l: int, e: int|
        0 <= j < i && 0 <= l < steps[j].settlement_effects.len() && 0 <= e < effects.len()
            ==> #[trigger] steps[j].settlement_effects[l] != #[trigger] effects[e]
}

/// Nothing is wrong with the step.
pub open spec fn is_fine(steps: Seq<StepModel>, i: int) -> bool {
    &&& steps[i].step_index == i
    &&& follows_on(steps, i)
    &&& has_new_transaction(steps, i)
    &&& has_effect(steps, i)
    &&& reads_in_order(steps, i)
    &&& settles_new_effects(steps, i)
}

proof fn lemma_roots(steps: Seq<StepModel>, i: int)
    ensures
        state_roots_ok(steps, i) <==> follows_on(steps, i),
{
    lemma_nonzero(steps[i].pre_state_root);
    lemma_nonzero(steps[i].post_state_root);
}

proof fn lemma_nonzero(root: [u8; 32])
    ensures
        !crate::order::all_zero(root) <==> exists|b: int| 0 <= b < 32 && #[trigger] root[b] != 0,
{
}

proof fn lemma_readonly(values: Seq<ReadonlyL1ValueV1>)
    ensures
        readonly_increasing(values) <==> forall|v: int, w: int|
            0 <= v && w == v + 1 && w < values.len() ==> comes_before(
                #[trigger] values[v],
                #[trigger] values[w],
            ),
{
    assert forall|a: ReadonlyL1ValueV1, b: ReadonlyL1ValueV1|
        #[trigger] crate::checkpoint::steps::readonly_less(a, b) <==> comes_before(a, b) by {
        crate::order::lex_order_is_total(a.account, b.account);
        crate::order::lex_order_is_total(a.owner, b.owner);
        crate::order::lex_order_is_total(a.data_hash, b.data_hash);
    }
    if readonly_increasing(values) {
        assert forall|v: int, w: int|
            0 <= v && w == v + 1 && w < values.len() implies comes_before(
            #[trigger] values[v],
            #[trigger] values[w],
        ) by {
            assert(readonly_in_order(values, v));
        }
    }
    if forall|v: int, w: int|
        0 <= v && w == v + 1 && w < values.len() ==> comes_before(
            #[trigger] values[v],
            #[trigger] values[w],
        ) {
        assert forall|v: int| 0 <= v < values.len() - 1 implies #[trigger] readonly_in_order(
            values,
            v,
        ) by {
            assert(comes_before(values[v], values[v + 1]));
        }
    }
}

proof fn lemma_effects(steps: Seq<StepModel>, i: int)
    requires
        0 <= i < steps.len(),
    ensures
        settlement_effects_ok(steps, i) <==> settles_new_effects(steps, i),
{
    let effects = steps[i].settlement_effects;
    if settlement_effects_ok(steps, i) {
        assert forall|e: int| 0 <= e < effects.len() implies 1 <= (#[trigger] effects[e]).len()
            <= 16_384 by {
            assert(effect_ok(steps, i, e));
        }
        assert forall|e: int, f: int| 0 <= e < f < effects.len() implies #[trigger] effects[e]
            != #[trigger] effects[f] by {
            assert(effect_ok(steps, i, f));
            assert(effect_before(steps, i, e, i, f));
            assert(steps[i].settlement_effects[e] != steps[i].settlement_effects[f]);
        }
        assert forall|j: int, l: int, e: int|
            0 <= j < i && 0 <= l < steps[j].settlement_effects.len() && 0 <= e
                < effects.len() implies #[trigger] steps[j].settlement_effects[l]
            != #[trigger] effects[e] by {
            assert(effect_ok(steps, i, e));
            assert(effect_before(steps, j, l, i, e));
        }
    }
    if settles_new_effects(steps, i) {
        assert forall|k: int| 0 <= k < steps[i].settlement_effects.len() implies #[trigger]
        effect_ok(steps, i, k) by {
            assert(1 <= effects[k].len());
            assert forall|j: int, l: int|
                effect_before(steps, j, l, i, k) implies #[trigger] steps[j].settlement_effects[l]
                != steps[i].settlement_effects[k] by {
                if j == i {
                    assert(effects[l] != effects[k]);
                } else {
                    assert(steps[j].settlement_effects[l] != effects[k]);
                }
            }
            assert(effect_is_new(steps, i, k));
        }
    }
}

proof fn lemma_fine(steps: Seq<StepModel>, i: int)
    requires
        0 <= i < steps.len(),
    ensures
        step_error(steps, i) is None <==> is_fine(steps, i),
{
    lemma_roots(steps, i);
    lemma_readonly(steps[i].readonly_l1_values);
    lemma_effects(steps, i);
}

proof fn lemma_first_error(steps: Seq<StepModel>, from: int) -> (i: int)
    requires
        0 <= from,
        first_step_error(steps, from) is Some,
    ensures
        from <= i < steps.len(),
        first_step_error(steps, from) == step_error(steps, i),
        step_error(steps, i) is Some,
        forall|j: int| from <= j < i ==> #[trigger] step_error(steps, j) is None,
    decreases steps.len() - from,
{
    if step_error(steps, from) is Some {
        from
    } else {
        let i = lemma_first_error(steps, from + 1);
        assert forall|j: int| from <= j < i implies #[trigger] step_error(steps, j) is None by {
            if j > from {
                assert(from + 1 <= j);
            }
        }
        i
    }
}

proof fn lemma_no_first_error(steps: Seq<StepModel>, from: int)
    requires
        0 <= from,
        forall|i: int| from <= i < steps.len() ==> #[trigger] step_error(steps, i) is None,
    ensures
        first_step_error(steps, from) is None,
    decreases steps.len() - from,
{
    if from < steps.len() {
        assert(step_error(steps, from) is None);
        lemma_no_first_error(steps, from + 1);
    }
}

/// Steps are accepted if and only if there are sixteen, and nothing is wrong with any
/// of them: they are numbered and chained, and each has a transaction of its own, an
/// effect, values in order and effects that are settled once.
pub proof fn chained_steps_are_accepted(steps: Seq<StepModel>)
    ensures
        steps_error(steps) is None <==> steps.len() == 16 && forall|i: int|
            0 <= i < 16 ==> #[trigger] is_fine(steps, i),
{
    if steps.len() == 16 {
        if steps_error(steps) is None {
            lemma_no_step_error(steps, 0);
            assert forall|i: int| 0 <= i < 16 implies #[trigger] is_fine(steps, i) by {
                assert(step_error(steps, i) is None);
                lemma_fine(steps, i);
            }
        }
        if forall|i: int| 0 <= i < 16 ==> #[trigger] is_fine(steps, i) {
            assert forall|i: int| 0 <= i < steps.len() implies #[trigger] step_error(
                steps,
                i,
            ) is None by {
                assert(is_fine(steps, i));
                lemma_fine(steps, i);
            }
            lemma_no_first_error(steps, 0);
        }
    }
}

/// Refused steps are refused for their number, or for what is wrong with the first bad
/// step: the error names the first part of that step that is wrong.
pub proof fn the_first_bad_step_is_named(steps: Seq<StepModel>) -> (i: int)
    requires
        steps_error(steps) is Some,
    ensures
        steps.len() != 16 <==> steps_error(steps) == Some(
            CheckpointArtifactError::InvalidStepCount,
        ),
        steps.len() == 16 ==> {
            &&& 0 <= i < 16
            &&& forall|j: int| 0 <= j < i ==> #[trigger] is_fine(steps, j)
            &&& match steps_error(steps)->0 {
                CheckpointArtifactError::InvalidStepIndex => steps[i].step_index != i,
                CheckpointArtifactError::InvalidStateRoot => steps[i].step_index == i
                    && !follows_on(steps, i),
                CheckpointArtifactError::InvalidTransaction => steps[i].step_index == i
                    && follows_on(steps, i) && !has_new_transaction(steps, i),
                CheckpointArtifactError::InvalidTransactionEffect => steps[i].step_index == i
                    && follows_on(steps, i) && has_new_transaction(steps, i) && !has_effect(
                    steps,
                    i,
                ),
                CheckpointArtifactError::InvalidReadonlyL1Values => steps[i].step_index == i
                    && follows_on(steps, i) && has_new_transaction(steps, i) && has_effect(
                    steps,
                    i,
                ) && !reads_in_order(steps, i),
                CheckpointArtifactError::InvalidSettlementEffects => steps[i].step_index == i
                    && follows_on(steps, i) && has_new_transaction(steps, i) && has_effect(
                    steps,
                    i,
                ) && reads_in_order(steps, i) && !settles_new_effects(steps, i),
                _ => false,
            }
        },
{
    if steps.len() == 16 {
        let i = lemma_first_error(steps, 0);
        assert forall|j: int| 0 <= j < i implies #[trigger] is_fine(steps, j) by {
            assert(step_error(steps, j) is None);
            lemma_fine(steps, j);
        }
        lemma_roots(steps, i);
        lemma_readonly(steps[i].readonly_l1_values);
        lemma_effects(steps, i);
        i
    } else {
        0
    }
}

/// The artifact is what is built for some session, some slot and some steps that a
/// checkpoint can be built from.
pub open spec fn is_built(artifact: ArtifactModel) -> bool {
    exists|session: Pubkey, er_slot: u64, steps: Seq<StepModel>| #[trigger]
        artifact_model(session, er_slot, steps) == artifact && accepted(steps)
}

/// An artifact passes its check if and only if it is one that is built. Another format is
/// told first, and another number of steps than sixteen next.
pub proof fn only_built_artifacts_pass(artifact: ArtifactModel)
    ensures
        verification(artifact) is Ok <==> is_built(artifact),
        artifact.checkpoint.version != 1 || artifact.da.manifest.version != 1 ==> verification(
            artifact,
        ) == Err::<(), CheckpointArtifactError>(CheckpointArtifactError::UnsupportedVersion),
        artifact.checkpoint.version == 1 && artifact.da.manifest.version == 1 && (
        artifact.da.pages.len() != 16 || artifact.da.manifest.pages.len() != 16) ==> verification(
            artifact,
        ) == Err::<(), CheckpointArtifactError>(CheckpointArtifactError::InvalidStepCount),
{
    if verification(artifact) is Ok {
        let steps = page_steps(artifact.da.pages);
        assert(artifact_model(
            artifact.checkpoint.session,
            artifact.checkpoint.er_slot,
            steps,
        ) == artifact);
        assert(accepted(steps));
    }
    if is_built(artifact) {
        let (session, er_slot, steps) = choose|session: Pubkey, er_slot: u64, steps: Seq<StepModel>|
            #[trigger]
            artifact_model(session, er_slot, steps) == artifact && accepted(steps);
        built_artifacts_verify(session, er_slot, steps);
    }
}

} // verus!
