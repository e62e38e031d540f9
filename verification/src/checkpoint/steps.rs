//! The steps that a checkpoint is built from, and when they are accepted.

use vstd::prelude::*;

use crate::checkpoint::{
    CheckpointArtifactError, ReadonlyL1ValueV1, StateAccountValueV1, CANONICAL_CHECKPOINT_STEPS_V1,
    MAX_READONLY_L1_VALUES_PER_STEP_V1, MAX_SETTLEMENT_EFFECTS_PER_STEP_V1,
    MAX_SETTLEMENT_EFFECT_BYTES_V1, MAX_TRANSACTION_BYTES_V1, MAX_TRANSACTION_EFFECT_BYTES_V1,
};
use crate::codec::{same_array, same_bytes};
use crate::merkle::CommitmentHash;
use crate::order::{
    all_zero, canonical_scalar, is_canonical_scalar, is_zero32, lex_less, lex_less_than,
};

verus! {

/// One step of a checkpoint: a transaction, what it did, the state roots before
/// and after it, what it read from layer one and what it settles there.
#[derive(Debug, Clone, PartialEq, Eq)]
pub struct CheckpointStepInputV1 {
    pub step_index: u32,
    pub transaction: Vec<u8>,
    pub transaction_effect: Vec<u8>,
    pub pre_state_root: CommitmentHash,
    pub post_state_root: CommitmentHash,
    pub readonly_l1_values: Vec<ReadonlyL1ValueV1>,
    pub settlement_effects: Vec<Vec<u8>>,
}

/// What a `CheckpointStepInputV1` holds.
#[verifier::ext_equal]
pub struct StepModel {
    pub step_index: u32,
    pub transaction: Seq<u8>,
    pub transaction_effect: Seq<u8>,
    pub pre_state_root: CommitmentHash,
    pub post_state_root: CommitmentHash,
    pub readonly_l1_values: Seq<ReadonlyL1ValueV1>,
    pub settlement_effects: Seq<Seq<u8>>,
}

impl View for CheckpointStepInputV1 {
    type V = StepModel;

    open spec fn view(&self) -> StepModel {
        StepModel {
            step_index: self.step_index,
            transaction: self.transaction@,
            transaction_effect: self.transaction_effect@,
            pre_state_root: self.pre_state_root,
            post_state_root: self.post_state_root,
            readonly_l1_values: self.readonly_l1_values@,
            settlement_effects: self.settlement_effects@.map_values(|effect: Vec<u8>| effect@),
        }
    }
}

pub open spec fn step_models(steps: Seq<CheckpointStepInputV1>) -> Seq<StepModel> {
    steps.map_values(|step: CheckpointStepInputV1| step@)
}

/// Field by field, in the order of the fields.
pub open spec fn readonly_less(a: ReadonlyL1ValueV1, b: ReadonlyL1ValueV1) -> bool {
    if a.account != b.account {
        lex_less(a.account, b.account)
    } else if a.owner != b.owner {
        lex_less(a.owner, b.owner)
    } else if a.lamports != b.lamports {
        a.lamports < b.lamports
    } else if a.data_hash != b.data_hash {
        lex_less(a.data_hash, b.data_hash)
    } else {
        a.observed_l1_slot < b.observed_l1_slot
    }
}

/// Field by field, in the order of the fields.
pub open spec fn state_account_less(a: StateAccountValueV1, b: StateAccountValueV1) -> bool {
    if a.account != b.account {
        lex_less(a.account, b.account)
    } else if a.owner != b.owner {
        lex_less(a.owner, b.owner)
    } else if a.lamports != b.lamports {
        a.lamports < b.lamports
    } else if a.executable != b.executable {
        b.executable
    } else if a.rent_epoch != b.rent_epoch {
        a.rent_epoch < b.rent_epoch
    } else {
        lex_less(a.data_hash, b.data_hash)
    }
}

fn readonly_is_less(a: &ReadonlyL1ValueV1, b: &ReadonlyL1ValueV1) -> (less: bool)
    ensures
        less == readonly_less(*a, *b),
{
    if !same_array(&a.account, &b.account) {
        lex_less_than(&a.account, &b.account)
    } else if !same_array(&a.owner, &b.owner) {
        lex_less_than(&a.owner, &b.owner)
    } else if a.lamports != b.lamports {
        a.lamports < b.lamports
    } else if !same_array(&a.data_hash, &b.data_hash) {
        lex_less_than(&a.data_hash, &b.data_hash)
    } else {
        a.observed_l1_slot < b.observed_l1_slot
    }
}

pub(crate) fn state_account_is_less(a: &StateAccountValueV1, b: &StateAccountValueV1) -> (less:
    bool)
    ensures
        less == state_account_less(*a, *b),
{
    if !same_array(&a.account, &b.account) {
        lex_less_than(&a.account, &b.account)
    } else if !same_array(&a.owner, &b.owner) {
        lex_less_than(&a.owner, &b.owner)
    } else if a.lamports != b.lamports {
        a.lamports < b.lamports
    } else if a.executable != b.executable {
        b.executable
    } else if a.rent_epoch != b.rent_epoch {
        a.rent_epoch < b.rent_epoch
    } else {
        lex_less_than(&a.data_hash, &b.data_hash)
    }
}

/// The values `i` and `i + 1` are in order.
pub open spec fn readonly_in_order(values: Seq<ReadonlyL1ValueV1>, i: int) -> bool {
    readonly_less(values[i], values[i + 1])
}

/// Every value is less than the next one.
pub open spec fn readonly_increasing(values: Seq<ReadonlyL1ValueV1>) -> bool {
    forall|i: int| 0 <= i < values.len() - 1 ==> #[trigger] readonly_in_order(values, i)
}

pub open spec fn state_roots_ok(steps: Seq<StepModel>, i: int) -> bool {
    &&& !all_zero(steps[i].pre_state_root)
    &&& !all_zero(steps[i].post_state_root)
    &&& canonical_scalar(steps[i].pre_state_root)
    &&& canonical_scalar(steps[i].post_state_root)
    &&& i > 0 ==> steps[i - 1].post_state_root == steps[i].pre_state_root
}

pub open spec fn transaction_ok(steps: Seq<StepModel>, i: int) -> bool {
    &&& 0 < steps[i].transaction.len() <= MAX_TRANSACTION_BYTES_V1
    &&& forall|j: int| 0 <= j < i ==> (#[trigger] steps[j]).transaction != steps[i].transaction
}

/// Effect `l` of step `j` comes before effect `k` of step `i`.
pub open spec fn effect_before(steps: Seq<StepModel>, j: int, l: int, i: int, k: int) -> bool {
    &&& 0 <= j <= i
    &&& 0 <= l < steps[j].settlement_effects.len()
    &&& j == i ==> l < k
}

/// No effect that comes before it equals effect `k` of step `i`.
pub open spec fn effect_is_new(steps: Seq<StepModel>, i: int, k: int) -> bool {
    forall|j: int, l: int|
        effect_before(steps, j, l, i, k) ==> #[trigger] steps[j].settlement_effects[l]
            != steps[i].settlement_effects[k]
}

pub open spec fn effect_ok(steps: Seq<StepModel>, i: int, k: int) -> bool {
    &&& 0 < steps[i].settlement_effects[k].len() <= MAX_SETTLEMENT_EFFECT_BYTES_V1
    &&& effect_is_new(steps, i, k)
}

pub open spec fn settlement_effects_ok(steps: Seq<StepModel>, i: int) -> bool {
    &&& steps[i].settlement_effects.len() <= MAX_SETTLEMENT_EFFECTS_PER_STEP_V1
    &&& forall|k: int|
        0 <= k < steps[i].settlement_effects.len() ==> #[trigger] effect_ok(steps, i, k)
}

/// What is wrong with step `i`, given the steps before it.
pub open spec fn step_error(steps: Seq<StepModel>, i: int) -> Option<CheckpointArtifactError> {
    let step = steps[i];
    if step.step_index != i {
        Some(CheckpointArtifactError::InvalidStepIndex)
    } else if !state_roots_ok(steps, i) {
        Some(CheckpointArtifactError::InvalidStateRoot)
    } else if !transaction_ok(steps, i) {
        Some(CheckpointArtifactError::InvalidTransaction)
    } else if !(0 < step.transaction_effect.len() <= MAX_TRANSACTION_EFFECT_BYTES_V1) {
        Some(CheckpointArtifactError::InvalidTransactionEffect)
    } else if step.readonly_l1_values.len() > MAX_READONLY_L1_VALUES_PER_STEP_V1
        || !readonly_increasing(step.readonly_l1_values) {
        Some(CheckpointArtifactError::InvalidReadonlyL1Values)
    } else if !settlement_effects_ok(steps, i) {
        Some(CheckpointArtifactError::InvalidSettlementEffects)
    } else {
        None
    }
}

/// What is wrong with the first bad step from `i` on.
pub open spec fn first_step_error(
    steps: Seq<StepModel>,
    i: int,
) -> Option<CheckpointArtifactError>
    decreases steps.len() - i,
{
    if i >= steps.len() {
        None
    } else if step_error(steps, i) is Some {
        step_error(steps, i)
    } else {
        first_step_error(steps, i + 1)
    }
}

/// Why the steps are refused: their number, or the first bad step.
pub open spec fn steps_error(steps: Seq<StepModel>) -> Option<CheckpointArtifactError> {
    if steps.len() != CANONICAL_CHECKPOINT_STEPS_V1 {
        Some(CheckpointArtifactError::InvalidStepCount)
    } else {
        first_step_error(steps, 0)
    }
}

pub proof fn lemma_no_step_error(steps: Seq<StepModel>, from: int)
    requires
        0 <= from,
        first_step_error(steps, from) is None,
    ensures
        forall|i: int| from <= i < steps.len() ==> #[trigger] step_error(steps, i) is None,
    decreases steps.len() - from,
{
    if from < steps.len() {
        lemma_no_step_error(steps, from + 1);
        assert forall|i: int| from <= i < steps.len() implies #[trigger] step_error(steps, i) is None by {
            if i > from {
                assert(from + 1 <= i);
            }
        }
    }
}

fn transaction_seen_before(steps: &Vec<CheckpointStepInputV1>, i: usize) -> (seen: bool)
    requires
        i < steps@.len(),
    ensures
        seen == !(forall|j: int|
            0 <= j < i ==> (#[trigger] step_models(steps@)[j]).transaction != step_models(
                steps@,
            )[i as int].transaction),
{
    let ghost ms = step_models(steps@);
    let mut j: usize = 0;
    while j < i
        invariant
            j <= i < steps@.len(),
            ms == step_models(steps@),
            forall|x: int| 0 <= x < j ==> (#[trigger] ms[x]).transaction != ms[i as int].transaction,
        decreases i - j,
    {
        assert(ms[j as int].transaction == steps@[j as int].transaction@);
        if same_bytes(steps[j].transaction.as_slice(), steps[i].transaction.as_slice()) {
            return true;
        }
        j += 1;
    }
    false
}

fn effect_seen_before(steps: &Vec<CheckpointStepInputV1>, i: usize, k: usize) -> (seen: bool)
    requires
        i < steps@.len(),
        k < step_models(steps@)[i as int].settlement_effects.len(),
    ensures
        seen == !effect_is_new(step_models(steps@), i as int, k as int),
{
    let ghost ms = step_models(steps@);
    let effect = &steps[i].settlement_effects[k];
    let mut j: usize = 0;
    while j <= i
        invariant
            j <= i + 1,
            i < steps.len(),
            ms == step_models(steps@),
            k < ms[i as int].settlement_effects.len(),
            effect@ == ms[i as int].settlement_effects[k as int],
            forall|x: int, l: int|
                x < j && effect_before(ms, x, l, i as int, k as int)
                    ==> #[trigger] ms[x].settlement_effects[l] != effect@,
        decreases i + 1 - j,
    {
        let count: usize = if j == i {
            k
        } else {
            steps[j].settlement_effects.len()
        };
        let mut l: usize = 0;
        while l < count
            invariant
                j <= i,
                i < steps.len(),
                ms == step_models(steps@),
                k < ms[i as int].settlement_effects.len(),
                effect@ == ms[i as int].settlement_effects[k as int],
                l <= count,
                count <= ms[j as int].settlement_effects.len(),
                count == (if j == i {
                    k as nat
                } else {
                    ms[j as int].settlement_effects.len()
                }),
                forall|x: int, y: int|
                    x < j && effect_before(ms, x, y, i as int, k as int)
                        ==> #[trigger] ms[x].settlement_effects[y] != effect@,
                forall|y: int|
                    0 <= y < l ==> #[trigger] ms[j as int].settlement_effects[y] != effect@,
            decreases count - l,
        {
            let other = &steps[j].settlement_effects[l];
            assert(ms[j as int].settlement_effects[l as int] == other@);
            if same_bytes(other.as_slice(), effect.as_slice()) {
                assert(effect_before(ms, j as int, l as int, i as int, k as int));
                return true;
            }
            l += 1;
        }
        j += 1;
    }
    assert(effect_is_new(ms, i as int, k as int)) by {
        assert forall|x: int, l: int|
            effect_before(ms, x, l, i as int, k as int) implies #[trigger] ms[x].settlement_effects[l]
            != ms[i as int].settlement_effects[k as int] by {
            assert(x < j);
        }
    }
    false
}

fn readonly_values_increase(values: &Vec<ReadonlyL1ValueV1>) -> (ok: bool)
    ensures
        ok == readonly_increasing(values@),
{
    let mut i: usize = 1;
    while i < values.len()
        invariant
            1 <= i,
            i <= values@.len() || i == 1,
            forall|x: int| 0 <= x < i - 1 ==> #[trigger] readonly_in_order(values@, x),
        decreases values@.len() - i,
    {
        if !readonly_is_less(&values[i - 1], &values[i]) {
            assert(!readonly_in_order(values@, i - 1));
            return false;
        }
        assert(readonly_in_order(values@, i - 1));
        i += 1;
    }
    true
}

/// What is wrong with step `i`, given the steps before it.
fn check_step(steps: &Vec<CheckpointStepInputV1>, i: usize) -> (r: Result<
    (),
    CheckpointArtifactError,
>)
    requires
        i < steps@.len(),
    ensures
        r == (match step_error(step_models(steps@), i as int) {
            Some(e) => Err::<(), CheckpointArtifactError>(e),
            None => Ok(()),
        }),
{
    let ghost ms = step_models(steps@);
    let step = &steps[i];
    assert(ms[i as int] == step@);
    if step.step_index as u64 != i as u64 {
        return Err(CheckpointArtifactError::InvalidStepIndex);
    }
    if is_zero32(&step.pre_state_root) || is_zero32(&step.post_state_root)
        || !is_canonical_scalar(&step.pre_state_root) || !is_canonical_scalar(&step.post_state_root)
        || (i > 0 && !same_array(&steps[i - 1].post_state_root, &step.pre_state_root)) {
        return Err(CheckpointArtifactError::InvalidStateRoot);
    }
    if step.transaction.len() == 0 || step.transaction.len() > MAX_TRANSACTION_BYTES_V1
        || transaction_seen_before(steps, i) {
        return Err(CheckpointArtifactError::InvalidTransaction);
    }
    if step.transaction_effect.len() == 0 || step.transaction_effect.len()
        > MAX_TRANSACTION_EFFECT_BYTES_V1 {
        return Err(CheckpointArtifactError::InvalidTransactionEffect);
    }
    if step.readonly_l1_values.len() > MAX_READONLY_L1_VALUES_PER_STEP_V1
        || !readonly_values_increase(&step.readonly_l1_values) {
        return Err(CheckpointArtifactError::InvalidReadonlyL1Values);
    }
    if step.settlement_effects.len() > MAX_SETTLEMENT_EFFECTS_PER_STEP_V1 {
        return Err(CheckpointArtifactError::InvalidSettlementEffects);
    }
    let mut k: usize = 0;
    while k < step.settlement_effects.len()
        invariant
            i < steps@.len(),
            ms == step_models(steps@),
            *step == steps@[i as int],
            ms[i as int] == step@,
            k <= step.settlement_effects@.len(),
            forall|x: int| 0 <= x < k ==> #[trigger] effect_ok(ms, i as int, x),
            step_error(ms, i as int) is None || step_error(ms, i as int) == Some(
                CheckpointArtifactError::InvalidSettlementEffects,
            ),
        decreases step.settlement_effects@.len() - k,
    {
        let effect = &step.settlement_effects[k];
        assert(ms[i as int].settlement_effects[k as int] == effect@);
        if effect.len() == 0 || effect.len() > MAX_SETTLEMENT_EFFECT_BYTES_V1
            || effect_seen_before(steps, i, k) {
            assert(!effect_ok(ms, i as int, k as int));
            return Err(CheckpointArtifactError::InvalidSettlementEffects);
        }
        k += 1;
    }
    Ok(())
}

/// Accepts the steps, or says what is wrong with them.
pub fn validate_steps(steps: &Vec<CheckpointStepInputV1>) -> (r: Result<
    (),
    CheckpointArtifactError,
>)
    ensures
        r == (match steps_error(step_models(steps@)) {
            Some(e) => Err::<(), CheckpointArtifactError>(e),
            None => Ok(()),
        }),
{
    if steps.len() != CANONICAL_CHECKPOINT_STEPS_V1 {
        return Err(CheckpointArtifactError::InvalidStepCount);
    }
    let mut i: usize = 0;
    while i < steps.len()
        invariant
            i <= steps@.len(),
            steps@.len() == CANONICAL_CHECKPOINT_STEPS_V1,
            steps_error(step_models(steps@)) == first_step_error(step_models(steps@), i as int),
        decreases steps@.len() - i,
    {
        match check_step(steps, i) {
            Ok(()) => {},
            Err(e) => {
                return Err(e);
            },
        }
        i += 1;
    }
    Ok(())
}

} // verus!
