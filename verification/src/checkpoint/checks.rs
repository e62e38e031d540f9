//! Checking pages and artifacts, and reading artifacts back.

use vstd::prelude::*;

use crate::checkpoint::artifact::{
    accepted, artifact_model, build_checkpoint_artifact_v1, lemma_accepted,
    lemma_artifact_encodable, lemma_readonly_leaf_at, lemma_readonly_leaves_len,
    lemma_settlement_leaf_at, lemma_settlement_leaves_len, page_model, readonly_leaves,
    readonly_offset, settlement_leaves, settlement_offset, trace_leaves, transaction_leaves,
};
use crate::checkpoint::leaves::{
    readonly_l1_leaf, readonly_l1_leaf_hash, settlement_effect_leaf, settlement_effect_leaf_hash,
    trace_leaf, trace_leaf_hash, transaction_effect_leaf, transaction_effect_leaf_hash,
};
use crate::checkpoint::steps::{step_models, steps_error, StepModel};
use crate::checkpoint::{
    ArtifactModel, AuthenticatedReadonlyModel, AuthenticatedSettlementModel,
    CheckpointArtifactError, CheckpointArtifactV1, CheckpointCommitmentV1, CheckpointStepInputV1,
    DaStepPageV1, PageModel, Pubkey, ReadonlyL1ValueV1, CANONICAL_CHECKPOINT_STEPS_V1,
    CHECKPOINT_FORMAT_VERSION_V1,
};
use crate::codec::{
    encodes, encodings_are_unique, from_bytes, same_array, same_bytes, to_bytes, Codec,
};
use crate::merkle::{every_path_verifies, field_roots_are_masked, path_verifies, TreeKind};
use crate::order::{canonical_scalar, masked_values_are_canonical};

verus! {

/// The entry's path leads from the value to the root of the read values.
pub open spec fn readonly_entry_authentic(
    entry: AuthenticatedReadonlyModel,
    step_index: u32,
    checkpoint: CheckpointCommitmentV1,
) -> bool {
    &&& entry.path.leaf_index == entry.global_index
    &&& path_verifies(
        entry.path,
        TreeKind::ReadonlyL1,
        readonly_l1_leaf(
            entry.global_index as nat,
            step_index as nat,
            entry.value_index as nat,
            entry.value,
        ),
        checkpoint.readonly_l1_root,
    )
}

/// The entry's path leads from the effect to the root of the effects.
pub open spec fn settlement_entry_authentic(
    entry: AuthenticatedSettlementModel,
    step_index: u32,
    checkpoint: CheckpointCommitmentV1,
) -> bool {
    &&& entry.effect.len() <= u32::MAX
    &&& entry.path.leaf_index == entry.global_index
    &&& path_verifies(
        entry.path,
        TreeKind::SettlementEffect,
        settlement_effect_leaf(
            entry.global_index as nat,
            step_index as nat,
            entry.effect_index as nat,
            entry.effect,
        ),
        checkpoint.effect_commitment,
    )
}

/// Everything in the page is committed to by the checkpoint.
pub open spec fn page_authentic(page: PageModel, checkpoint: CheckpointCommitmentV1) -> bool {
    &&& page.version == CHECKPOINT_FORMAT_VERSION_V1
    &&& page.page_index == page.step_index
    &&& page.step_index < u32::MAX
    &&& page.transaction.len() <= u32::MAX
    &&& page.transaction_effect.len() <= u32::MAX
    &&& page.transaction_effect_commitment == transaction_effect_leaf(
        page.step_index as nat,
        page.transaction,
        page.transaction_effect,
    )
    &&& path_verifies(
        page.pre_state_path,
        TreeKind::Trace,
        trace_leaf(page.step_index as nat, page.pre_state_root),
        checkpoint.trace_root,
    )
    &&& path_verifies(
        page.post_state_path,
        TreeKind::Trace,
        trace_leaf((page.step_index + 1) as nat, page.post_state_root),
        checkpoint.trace_root,
    )
    &&& path_verifies(
        page.transaction_effect_path,
        TreeKind::TransactionEffect,
        page.transaction_effect_commitment,
        checkpoint.transaction_effect_root,
    )
    &&& forall|v: int|
        0 <= v < page.readonly_l1_values.len() ==> readonly_entry_authentic(
            #[trigger] page.readonly_l1_values[v],
            page.step_index,
            checkpoint,
        )
    &&& forall|e: int|
        0 <= e < page.settlement_effects.len() ==> settlement_entry_authentic(
            #[trigger] page.settlement_effects[e],
            page.step_index,
            checkpoint,
        )
}

impl DaStepPageV1 {
    /// Whether everything in the page is committed to by the checkpoint.
    pub fn verify_authentication_paths(&self, checkpoint: &CheckpointCommitmentV1) -> (ok: bool)
        ensures
            ok == page_authentic(self@, *checkpoint),
    {
        if self.version != CHECKPOINT_FORMAT_VERSION_V1 || self.page_index != self.step_index {
            return false;
        }
        let pre_leaf = match trace_leaf_hash(self.step_index, &self.pre_state_root) {
            Ok(leaf) => leaf,
            Err(_) => {
                return false;
            },
        };
        let post_index: u32 = match self.step_index.checked_add(1) {
            Some(index) => index,
            None => {
                return false;
            },
        };
        let post_leaf = match trace_leaf_hash(post_index, &self.post_state_root) {
            Ok(leaf) => leaf,
            Err(_) => {
                return false;
            },
        };
        let transaction_leaf = match transaction_effect_leaf_hash(
            self.step_index,
            self.transaction.as_slice(),
            self.transaction_effect.as_slice(),
        ) {
            Ok(leaf) => leaf,
            Err(_) => {
                return false;
            },
        };
        if !same_array(&transaction_leaf, &self.transaction_effect_commitment) {
            return false;
        }
        if !self.pre_state_path.verify(TreeKind::Trace, pre_leaf, checkpoint.trace_root)
            || !self.post_state_path.verify(TreeKind::Trace, post_leaf, checkpoint.trace_root)
            || !self.transaction_effect_path.verify(
            TreeKind::TransactionEffect,
            transaction_leaf,
            checkpoint.transaction_effect_root,
        ) {
            return false;
        }
        self.readonly_authentic(checkpoint) && self.settlement_authentic(checkpoint)
    }

    fn readonly_authentic(&self, checkpoint: &CheckpointCommitmentV1) -> (ok: bool)
        ensures
            ok == forall|v: int|
                0 <= v < self@.readonly_l1_values.len() ==> readonly_entry_authentic(
                    #[trigger] self@.readonly_l1_values[v],
                    self.step_index,
                    *checkpoint,
                ),
    {
        let mut v: usize = 0;
        while v < self.readonly_l1_values.len()
            invariant
                v <= self.readonly_l1_values@.len(),
                forall|x: int|
                    0 <= x < v ==> readonly_entry_authentic(
                        #[trigger] self@.readonly_l1_values[x],
                        self.step_index,
                        *checkpoint,
                    ),
            decreases self.readonly_l1_values@.len() - v,
        {
            let entry = &self.readonly_l1_values[v];
            assert(self@.readonly_l1_values[v as int] == entry@);
            let leaf = match readonly_l1_leaf_hash(
                entry.global_index,
                self.step_index,
                entry.value_index,
                &entry.value,
            ) {
                Ok(leaf) => leaf,
                Err(_) => {
                    return false;
                },
            };
            if entry.path.leaf_index != entry.global_index || !entry.path.verify(
                TreeKind::ReadonlyL1,
                leaf,
                checkpoint.readonly_l1_root,
            ) {
                return false;
            }
            v += 1;
        }
        true
    }

    fn settlement_authentic(&self, checkpoint: &CheckpointCommitmentV1) -> (ok: bool)
        ensures
            ok == forall|e: int|
                0 <= e < self@.settlement_effects.len() ==> settlement_entry_authentic(
                    #[trigger] self@.settlement_effects[e],
                    self.step_index,
                    *checkpoint,
                ),
    {
        let mut e: usize = 0;
        while e < self.settlement_effects.len()
            invariant
                e <= self.settlement_effects@.len(),
                forall|x: int|
                    0 <= x < e ==> settlement_entry_authentic(
                        #[trigger] self@.settlement_effects[x],
                        self.step_index,
                        *checkpoint,
                    ),
            decreases self.settlement_effects@.len() - e,
        {
            let entry = &self.settlement_effects[e];
            assert(self@.settlement_effects[e as int] == entry@);
            let leaf = match settlement_effect_leaf_hash(
                entry.global_index,
                self.step_index,
                entry.effect_index,
                entry.effect.as_slice(),
            ) {
                Ok(leaf) => leaf,
                Err(_) => {
                    return false;
                },
            };
            if entry.path.leaf_index != entry.global_index || !entry.path.verify(
                TreeKind::SettlementEffect,
                leaf,
                checkpoint.effect_commitment,
            ) {
                return false;
            }
            e += 1;
        }
        true
    }
}

/// The step that a page is about.
pub open spec fn page_step(page: PageModel) -> StepModel {
    StepModel {
        step_index: page.step_index,
        transaction: page.transaction,
        transaction_effect: page.transaction_effect,
        pre_state_root: page.pre_state_root,
        post_state_root: page.post_state_root,
        readonly_l1_values: page.readonly_l1_values.map_values(
            |entry: AuthenticatedReadonlyModel| entry.value,
        ),
        settlement_effects: page.settlement_effects.map_values(
            |entry: AuthenticatedSettlementModel| entry.effect,
        ),
    }
}

pub open spec fn page_steps(pages: Seq<PageModel>) -> Seq<StepModel> {
    pages.map_values(|page: PageModel| page_step(page))
}

pub fn page_to_input(page: &DaStepPageV1) -> (step: CheckpointStepInputV1)
    ensures
        step@ == page_step(page@),
{
    let ghost whole = page_step(page@);
    let mut readonly_l1_values: Vec<ReadonlyL1ValueV1> = Vec::new();
    let mut v: usize = 0;
    while v < page.readonly_l1_values.len()
        invariant
            v <= page.readonly_l1_values@.len(),
            whole == page_step(page@),
            readonly_l1_values@ == whole.readonly_l1_values.take(v as int),
        decreases page.readonly_l1_values@.len() - v,
    {
        readonly_l1_values.push(page.readonly_l1_values[v].value);
        assert(page@.readonly_l1_values[v as int] == page.readonly_l1_values@[v as int]@);
        v += 1;
        assert(readonly_l1_values@ =~= whole.readonly_l1_values.take(v as int));
    }
    let mut settlement_effects: Vec<Vec<u8>> = Vec::new();
    let mut e: usize = 0;
    while e < page.settlement_effects.len()
        invariant
            e <= page.settlement_effects@.len(),
            whole == page_step(page@),
            settlement_effects@.map_values(|effect: Vec<u8>| effect@)
                == whole.settlement_effects.take(e as int),
        decreases page.settlement_effects@.len() - e,
    {
        let ghost before = settlement_effects@.map_values(|effect: Vec<u8>| effect@);
        let effect = page.settlement_effects[e].effect.clone();
        let ghost bytes = effect@;
        settlement_effects.push(effect);
        assert(page@.settlement_effects[e as int] == page.settlement_effects@[e as int]@);
        e += 1;
        proof {
            let now = settlement_effects@.map_values(|effect: Vec<u8>| effect@);
            assert(now =~= before.push(bytes));
            assert(now =~= whole.settlement_effects.take(e as int));
        }
    }
    let step = CheckpointStepInputV1 {
        step_index: page.step_index,
        transaction: page.transaction.clone(),
        transaction_effect: page.transaction_effect.clone(),
        pre_state_root: page.pre_state_root,
        post_state_root: page.post_state_root,
        readonly_l1_values,
        settlement_effects,
    };
    assert(step@.readonly_l1_values =~= whole.readonly_l1_values);
    assert(step@.settlement_effects =~= whole.settlement_effects);
    assert(step@ =~= whole);
    step
}

/// What checking an artifact comes to: it must be the artifact of the steps
/// that its own pages hold.
pub open spec fn verification(artifact: ArtifactModel) -> Result<(), CheckpointArtifactError> {
    let steps = page_steps(artifact.da.pages);
    if artifact.checkpoint.version != CHECKPOINT_FORMAT_VERSION_V1
        || artifact.da.manifest.version != CHECKPOINT_FORMAT_VERSION_V1 {
        Err(CheckpointArtifactError::UnsupportedVersion)
    } else if artifact.da.pages.len() != CANONICAL_CHECKPOINT_STEPS_V1
        || artifact.da.manifest.pages.len() != CANONICAL_CHECKPOINT_STEPS_V1 {
        Err(CheckpointArtifactError::InvalidStepCount)
    } else if steps_error(steps) is Some {
        Err(steps_error(steps)->0)
    } else if artifact != artifact_model(
        artifact.checkpoint.session,
        artifact.checkpoint.er_slot,
        steps,
    ) {
        Err(CheckpointArtifactError::CommitmentMismatch)
    } else {
        Ok(())
    }
}

/// The page of every step of a built artifact is authentic.
pub proof fn built_pages_are_authentic(
    session: Pubkey,
    er_slot: u64,
    steps: Seq<StepModel>,
    i: int,
)
    requires
        accepted(steps),
        0 <= i < steps.len(),
    ensures
        page_authentic(
            artifact_model(session, er_slot, steps).da.pages[i],
            artifact_model(session, er_slot, steps).checkpoint,
        ),
{
    lemma_accepted(steps);
    let n = steps.len() as int;
    let page = page_model(steps, i);
    let checkpoint = artifact_model(session, er_slot, steps).checkpoint;
    assert(steps[i].step_index == i);
    every_path_verifies(TreeKind::Trace, trace_leaves(steps), i);
    every_path_verifies(TreeKind::Trace, trace_leaves(steps), i + 1);
    every_path_verifies(TreeKind::TransactionEffect, transaction_leaves(steps), i);
    if i > 0 {
        assert(crate::checkpoint::steps::step_error(steps, i) is None) by {
            crate::checkpoint::steps::lemma_no_step_error(steps, 0);
        }
        assert(steps[i - 1].step_index == i - 1);
    }
    lemma_readonly_leaves_len(steps, n);
    lemma_settlement_leaves_len(steps, n);
    assert(readonly_offset(steps, n) <= 256 * n && settlement_offset(steps, n) <= 256 * n);
    assert forall|v: int| 0 <= v < page.readonly_l1_values.len() implies readonly_entry_authentic(
        #[trigger] page.readonly_l1_values[v],
        page.step_index,
        checkpoint,
    ) by {
        lemma_readonly_leaf_at(steps, n, i, v);
        every_path_verifies(
            TreeKind::ReadonlyL1,
            readonly_leaves(steps, n),
            readonly_offset(steps, i) + v,
        );
    }
    assert forall|e: int| 0 <= e < page.settlement_effects.len() implies settlement_entry_authentic(
        #[trigger] page.settlement_effects[e],
        page.step_index,
        checkpoint,
    ) by {
        lemma_settlement_leaf_at(steps, n, i, e);
        assert(steps[i].settlement_effects[e].len()
            <= crate::checkpoint::MAX_SETTLEMENT_EFFECT_BYTES_V1);
        every_path_verifies(
            TreeKind::SettlementEffect,
            settlement_leaves(steps, n),
            settlement_offset(steps, i) + e,
        );
    }
}

/// The pages of a built artifact hold the steps that it was built from.
pub proof fn built_pages_hold_the_steps(session: Pubkey, er_slot: u64, steps: Seq<StepModel>)
    ensures
        page_steps(artifact_model(session, er_slot, steps).da.pages) == steps,
{
    let held = page_steps(artifact_model(session, er_slot, steps).da.pages);
    assert forall|i: int| 0 <= i < steps.len() implies held[i] == steps[i] by {
        assert(held[i].readonly_l1_values =~= steps[i].readonly_l1_values);
        assert(held[i].settlement_effects =~= steps[i].settlement_effects);
        assert(held[i] =~= steps[i]);
    }
    assert(held =~= steps);
}

/// Every built artifact passes its own check.
pub proof fn built_artifacts_verify(session: Pubkey, er_slot: u64, steps: Seq<StepModel>)
    requires
        accepted(steps),
    ensures
        verification(artifact_model(session, er_slot, steps)) == Ok::<(), CheckpointArtifactError>(
            (),
        ),
{
    lemma_accepted(steps);
    built_pages_hold_the_steps(session, er_slot, steps);
}

/// An artifact that passes its check has authentic pages only.
pub proof fn verified_pages_are_authentic(artifact: ArtifactModel, i: int)
    requires
        verification(artifact) is Ok,
        0 <= i < artifact.da.pages.len(),
    ensures
        page_authentic(artifact.da.pages[i], artifact.checkpoint),
{
    built_pages_are_authentic(
        artifact.checkpoint.session,
        artifact.checkpoint.er_slot,
        page_steps(artifact.da.pages),
        i,
    );
}

/// Two artifacts that pass their check are equal if they agree on the session,
/// the slot and the steps: nothing else in them is free.
pub proof fn verified_artifacts_are_determined(a: ArtifactModel, b: ArtifactModel)
    requires
        verification(a) is Ok,
        verification(b) is Ok,
        a.checkpoint.session == b.checkpoint.session,
        a.checkpoint.er_slot == b.checkpoint.er_slot,
        page_steps(a.da.pages) == page_steps(b.da.pages),
    ensures
        a == b,
{
}

/// A built artifact has an encoding, and what is read back from it is the
/// artifact.
pub proof fn built_artifacts_are_read_back(session: Pubkey, er_slot: u64, steps: Seq<StepModel>)
    requires
        accepted(steps),
    ensures
        CheckpointArtifactV1::encodable(artifact_model(session, er_slot, steps)),
        reading(CheckpointArtifactV1::wire(artifact_model(session, er_slot, steps))) == Ok::<
            ArtifactModel,
            CheckpointArtifactError,
        >(artifact_model(session, er_slot, steps)),
{
    let artifact = artifact_model(session, er_slot, steps);
    let bytes = CheckpointArtifactV1::wire(artifact);
    lemma_artifact_encodable(session, er_slot, steps);
    built_artifacts_verify(session, er_slot, steps);
    assert(encodes::<CheckpointArtifactV1>(artifact, bytes));
    let read = choose|a: ArtifactModel| encodes::<CheckpointArtifactV1>(a, bytes);
    encodings_are_unique::<CheckpointArtifactV1>(read, artifact, bytes);
}

/// The roots that are read as scalar-field elements are canonical.
pub proof fn built_field_roots_are_canonical(session: Pubkey, er_slot: u64, steps: Seq<StepModel>)
    ensures
        canonical_scalar(artifact_model(session, er_slot, steps).checkpoint.readonly_l1_root),
        canonical_scalar(artifact_model(session, er_slot, steps).checkpoint.effect_commitment),
{
    let n = steps.len() as int;
    let checkpoint = artifact_model(session, er_slot, steps).checkpoint;
    field_roots_are_masked(TreeKind::ReadonlyL1, readonly_leaves(steps, n));
    field_roots_are_masked(TreeKind::SettlementEffect, settlement_leaves(steps, n));
    masked_values_are_canonical(checkpoint.readonly_l1_root);
    masked_values_are_canonical(checkpoint.effect_commitment);
}

/// What reading an artifact from bytes comes to.
pub open spec fn reading(bytes: Seq<u8>) -> Result<ArtifactModel, CheckpointArtifactError> {
    if exists|a: ArtifactModel| encodes::<CheckpointArtifactV1>(a, bytes) {
        let artifact = choose|a: ArtifactModel| encodes::<CheckpointArtifactV1>(a, bytes);
        match verification(artifact) {
            Ok(_) => Ok(artifact),
            Err(e) => Err(e),
        }
    } else {
        Err(CheckpointArtifactError::Encoding)
    }
}

fn same_value<T: Codec>(a: &T, b: &T) -> (same: bool)
    requires
        T::encodable(a.model()),
    ensures
        same == (a.model() == b.model()),
{
    match (to_bytes(a), to_bytes(b)) {
        (Some(a_bytes), Some(b_bytes)) => {
            let same = same_bytes(a_bytes.as_slice(), b_bytes.as_slice());
            proof {
                if a_bytes@ == b_bytes@ {
                    encodings_are_unique::<T>(a.model(), b.model(), a_bytes@);
                }
            }
            same
        },
        _ => false,
    }
}

impl CheckpointArtifactV1 {
    /// The encoding, or `Encoding` if some sequence is too long for it.
    pub fn canonical_bytes(&self) -> (r: Result<Vec<u8>, CheckpointArtifactError>)
        ensures
            CheckpointArtifactV1::encodable(self@) ==> (r matches Ok(bytes) && bytes@
                == CheckpointArtifactV1::wire(self@)),
            !CheckpointArtifactV1::encodable(self@) ==> r == Err::<Vec<u8>, _>(
                CheckpointArtifactError::Encoding,
            ),
    {
        match to_bytes(self) {
            Some(bytes) => Ok(bytes),
            None => Err(CheckpointArtifactError::Encoding),
        }
    }

    /// Reads an artifact that is encoded canonically and passes its check.
    pub fn decode_verified(bytes: &[u8]) -> (r: Result<Self, CheckpointArtifactError>)
        ensures
            match reading(bytes@) {
                Ok(artifact) => r matches Ok(read) && read@ == artifact,
                Err(e) => r == Err::<Self, _>(e),
            },
    {
        let artifact = match from_bytes::<CheckpointArtifactV1>(bytes) {
            Some(artifact) => artifact,
            None => {
                return Err(CheckpointArtifactError::Encoding);
            },
        };
        proof {
            let read = choose|a: ArtifactModel| encodes::<CheckpointArtifactV1>(a, bytes@);
            encodings_are_unique::<CheckpointArtifactV1>(read, artifact@, bytes@);
        }
        artifact.verify()?;
        Ok(artifact)
    }

    /// Whether the artifact is the one that its pages give.
    pub fn verify(&self) -> (r: Result<(), CheckpointArtifactError>)
        ensures
            r == verification(self@),
    {
        if self.checkpoint.version != CHECKPOINT_FORMAT_VERSION_V1 || self.da.manifest.version
            != CHECKPOINT_FORMAT_VERSION_V1 {
            return Err(CheckpointArtifactError::UnsupportedVersion);
        }
        if self.da.pages.len() != CANONICAL_CHECKPOINT_STEPS_V1 || self.da.manifest.pages.len()
            != CANONICAL_CHECKPOINT_STEPS_V1 {
            return Err(CheckpointArtifactError::InvalidStepCount);
        }
        let ghost whole = page_steps(self@.da.pages);
        let mut steps: Vec<CheckpointStepInputV1> = Vec::new();
        let mut i: usize = 0;
        assert(step_models(steps@) =~= whole.take(0));
        while i < self.da.pages.len()
            invariant
                i <= self.da.pages@.len(),
                whole == page_steps(self@.da.pages),
                step_models(steps@) == whole.take(i as int),
            decreases self.da.pages@.len() - i,
        {
            let ghost before = steps@;
            let step = page_to_input(&self.da.pages[i]);
            let ghost model = step@;
            steps.push(step);
            proof {
                assert(self@.da.pages[i as int] == self.da.pages@[i as int]@);
                assert(step_models(steps@) =~= step_models(before).push(model));
                assert(whole.take(i + 1) =~= whole.take(i as int).push(whole[i as int]));
            }
            i += 1;
        }
        assert(whole.take(i as int) =~= whole);
        let rebuilt = build_checkpoint_artifact_v1(
            self.checkpoint.session,
            self.checkpoint.er_slot,
            steps,
        )?;
        proof {
            lemma_artifact_encodable(self.checkpoint.session, self.checkpoint.er_slot, whole);
        }
        if !same_value(&rebuilt, self) {
            return Err(CheckpointArtifactError::CommitmentMismatch);
        }
        let mut k: usize = 0;
        while k < self.da.pages.len()
            invariant
                k <= self.da.pages@.len(),
                verification(self@) is Ok,
            decreases self.da.pages@.len() - k,
        {
            proof {
                assert(self@.da.pages[k as int] == self.da.pages@[k as int]@);
                verified_pages_are_authentic(self@, k as int);
            }
            if !self.da.pages[k].verify_authentication_paths(&self.checkpoint) {
                return Err(CheckpointArtifactError::InvalidPage);
            }
            k += 1;
        }
        Ok(())
    }
}

} // verus!
