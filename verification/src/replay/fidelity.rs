//! Which steps can be replayed, and what their replay is bound to.

use vstd::prelude::*;

use super::{
    effect_in, first_account, keyed_models, post_state_matches, pre_state_matches, preparation,
    prepared_witness, program_code, step_signature, step_transaction, witness, BindingModel,
    CaptureModel, CapturedModel, PreparedReplay, ReplayContextV1, ReplayError, ReplayExecution,
    ReplaySnapshot,
};
use crate::accounts::{AccountModel, Pubkey};
use crate::checkpoint::checks::verification;
use crate::checkpoint::{ArtifactModel, CheckpointTransactionEffectV1, TransactionEffectModel};
use crate::codec::{encodes, encodings_are_unique};
use crate::hashing::sha256;
use crate::runtime::programs::programdata_address;
use crate::tx_client::{decoded_transaction, WireModel};

verus! {

/// The list has the account at the address, and no account before it there.
pub open spec fn is_first(
    accounts: Seq<(Pubkey, AccountModel)>,
    key: Pubkey,
    account: AccountModel,
    i: int,
) -> bool {
    &&& 0 <= i < accounts.len()
    &&& accounts[i] == (key, account)
    &&& forall|j: int| 0 <= j < i ==> (#[trigger] accounts[j]).0 != key
}

/// The first account of the list at the address is this one.
pub open spec fn lists(
    accounts: Seq<(Pubkey, AccountModel)>,
    key: Pubkey,
    account: AccountModel,
) -> bool {
    exists|i: int| is_first(accounts, key, account, i)
}

proof fn lemma_first(
    accounts: Seq<(Pubkey, AccountModel)>,
    key: Pubkey,
    account: AccountModel,
    from: nat,
)
    requires
        from <= accounts.len(),
        forall|j: int| 0 <= j < from ==> (#[trigger] accounts[j]).0 != key,
    ensures
        first_account(accounts, key, from) == Some(account) <==> lists(accounts, key, account),
    decreases accounts.len() - from,
{
    if from < accounts.len() {
        let here = accounts[from as int];
        if here.0 == key {
            if here.1 == account {
                assert(is_first(accounts, key, account, from as int));
            }
            if lists(accounts, key, account) {
                let i = choose|i: int| is_first(accounts, key, account, i);
                if i > from {
                    assert(accounts[from as int].0 != key);
                }
                assert(i == from);
            }
        } else {
            lemma_first(accounts, key, account, from + 1);
        }
    } else if lists(accounts, key, account) {
        let i = choose|i: int| is_first(accounts, key, account, i);
        assert(accounts[i].0 != key);
    }
}

/// An account is looked up by its first occurrence.
pub proof fn accounts_are_found_by_their_first_occurrence(
    accounts: Seq<(Pubkey, AccountModel)>,
    key: Pubkey,
    account: AccountModel,
)
    ensures
        first_account(accounts, key, 0) == Some(account) <==> lists(accounts, key, account),
{
    lemma_first(accounts, key, account, 0);
}

/// The authentic artifact has this transaction at the step.
pub open spec fn holds_step(artifact: ArtifactModel, step_index: nat, step: WireModel) -> bool {
    &&& verification(artifact) is Ok
    &&& step_index < artifact.da.pages.len()
    &&& decoded_transaction(artifact.da.pages[step_index as int].transaction) == Some(step)
}

/// A step has a signature if and only if the artifact is authentic and holds a signed
/// transaction there; what is missing first is told otherwise.
pub proof fn steps_are_found_by_their_signature(
    artifact: ArtifactModel,
    step_index: nat,
    step: WireModel,
)
    ensures
        step_transaction(artifact, step_index) == Ok::<WireModel, ReplayError>(step) <==> holds_step(
            artifact,
            step_index,
            step,
        ),
        holds_step(artifact, step_index, step) && step.signature is Some ==> step_signature(
            artifact,
            step_index,
        ) == Ok::<[u8; 64], ReplayError>(step.signature->0),
        holds_step(artifact, step_index, step) && step.signature is None ==> step_signature(
            artifact,
            step_index,
        ) == Err::<[u8; 64], ReplayError>(ReplayError::SignatureMissing),
        verification(artifact) is Err ==> step_signature(artifact, step_index) == Err::<
            [u8; 64],
            ReplayError,
        >(ReplayError::CheckpointAuthentication),
        verification(artifact) is Ok && step_index >= artifact.da.pages.len() ==> step_signature(
            artifact,
            step_index,
        ) == Err::<[u8; 64], ReplayError>(ReplayError::StepMissing),
        verification(artifact) is Ok && step_index < artifact.da.pages.len()
            && decoded_transaction(artifact.da.pages[step_index as int].transaction) is None
            ==> step_signature(artifact, step_index) == Err::<[u8; 64], ReplayError>(
            ReplayError::TransactionEncoding,
        ),
{
}

/// The three captured accounts are those of the transaction, in its order, and the
/// snapshot lists each as it was captured before.
pub open spec fn was_captured_before(
    step: WireModel,
    capture: CaptureModel,
    accounts: Seq<(Pubkey, AccountModel)>,
) -> bool {
    &&& step.static_keys.len() == 3
    &&& capture.accounts.len() == 3
    &&& forall|i: int|
        0 <= i < 3 ==> {
            let captured = #[trigger] capture.accounts[i];
            &&& captured.transaction_index == i
            &&& captured.key == step.static_keys[i]
            &&& lists(accounts, captured.key, captured.pre_account)
        }
}

/// The execution lists every captured account as it was captured after.
pub open spec fn was_captured_after(
    capture: CaptureModel,
    accounts: Seq<(Pubkey, AccountModel)>,
) -> bool {
    forall|i: int|
        0 <= i < capture.accounts.len() ==> {
            let captured = #[trigger] capture.accounts[i];
            lists(accounts, captured.key, captured.post_account)
        }
}

proof fn lemma_captured(
    step: WireModel,
    captured: Seq<CapturedModel>,
    accounts: Seq<(Pubkey, AccountModel)>,
)
    ensures
        pre_state_matches(step.static_keys, captured, accounts) <==> forall|i: int|
            0 <= i < captured.len() ==> {
                let account = #[trigger] captured[i];
                &&& account.transaction_index == i
                &&& account.key == step.static_keys[i]
                &&& lists(accounts, account.key, account.pre_account)
            },
        post_state_matches(captured, accounts) <==> forall|i: int|
            0 <= i < captured.len() ==> {
                let account = #[trigger] captured[i];
                lists(accounts, account.key, account.post_account)
            },
{
    assert forall|i: int| 0 <= i < captured.len() implies {
        let account = #[trigger] captured[i];
        &&& first_account(accounts, account.key, 0) == Some(account.pre_account) <==> lists(
            accounts,
            account.key,
            account.pre_account,
        )
        &&& first_account(accounts, account.key, 0) == Some(account.post_account) <==> lists(
            accounts,
            account.key,
            account.post_account,
        )
    } by {
        lemma_first(accounts, captured[i].key, captured[i].pre_account, 0);
        lemma_first(accounts, captured[i].key, captured[i].post_account, 0);
    }
}

/// The step is ready to be executed again: it is signed, its capture has a snapshot that
/// is not too long, the snapshot has the accounts as they were captured before, and the
/// effect that the page holds can be read.
pub open spec fn is_ready(
    artifact: ArtifactModel,
    step_index: nat,
    step: WireModel,
    capture: CaptureModel,
    max_snapshot_bytes: usize,
    accounts: Seq<(Pubkey, AccountModel)>,
    effect: TransactionEffectModel,
) -> bool {
    &&& holds_step(artifact, step_index, step)
    &&& step.signature is Some
    &&& capture.snapshot_len is Some
    &&& capture.snapshot_len->0 <= max_snapshot_bytes
    &&& was_captured_before(step, capture, accounts)
    &&& encodes::<CheckpointTransactionEffectV1>(
        effect,
        artifact.da.pages[step_index as int].transaction_effect,
    )
}

proof fn lemma_effect(bytes: Seq<u8>, effect: TransactionEffectModel)
    requires
        encodes::<CheckpointTransactionEffectV1>(effect, bytes),
    ensures
        effect_in(bytes) == Some(effect),
{
    assert(effect_in(bytes) is Some);
    encodings_are_unique::<CheckpointTransactionEffectV1>(effect, effect_in(bytes)->0, bytes);
}

#[verifier::rlimit(60)]
proof fn lemma_prepared_from(
    artifact: ArtifactModel,
    step_index: nat,
    step: WireModel,
    capture: CaptureModel,
    max_snapshot_bytes: usize,
    accounts: Seq<(Pubkey, AccountModel)>,
    effect: TransactionEffectModel,
)
    requires
        step_transaction(artifact, step_index) == Ok::<WireModel, ReplayError>(step),
        step.signature is Some,
        capture.snapshot_len is Some,
        capture.snapshot_len->0 <= max_snapshot_bytes,
        step.static_keys.len() == 3,
        capture.accounts.len() == 3,
        pre_state_matches(step.static_keys, capture.accounts, accounts),
        effect_in(artifact.da.pages[step_index as int].transaction_effect) == Some(effect),
    ensures
        preparation(artifact, step_index, Some(capture), max_snapshot_bytes, Some(accounts)) == Ok::<
            PreparedReplay,
            ReplayError,
        >(
            PreparedReplay {
                fee_payer: step.static_keys[0],
                target: step.static_keys[1],
                program: step.static_keys[2],
                executed_units: effect.executed_units,
                recent_blockhash: step.recent_blockhash,
            },
        ),
{
}

/// A step that is ready is prepared with the payer, the target and the program that its
/// transaction names in this order, its blockhash, and the units that its effect says.
pub proof fn ready_steps_are_prepared(
    artifact: ArtifactModel,
    step_index: nat,
    step: WireModel,
    capture: CaptureModel,
    max_snapshot_bytes: usize,
    accounts: Seq<(Pubkey, AccountModel)>,
    effect: TransactionEffectModel,
)
    requires
        is_ready(
            artifact,
            step_index,
            step,
            capture,
            max_snapshot_bytes,
            accounts,
            effect,
        ),
    ensures
        preparation(artifact, step_index, Some(capture), max_snapshot_bytes, Some(accounts)) == Ok::<
            PreparedReplay,
            ReplayError,
        >(
            PreparedReplay {
                fee_payer: step.static_keys[0],
                target: step.static_keys[1],
                program: step.static_keys[2],
                executed_units: effect.executed_units,
                recent_blockhash: step.recent_blockhash,
            },
        ),
{
    let bytes = artifact.da.pages[step_index as int].transaction_effect;
    steps_are_found_by_their_signature(artifact, step_index, step);
    assert(pre_state_matches(step.static_keys, capture.accounts, accounts)) by {
        lemma_captured(step, capture.accounts, accounts);
    }
    assert(effect_in(bytes) == Some(effect)) by {
        lemma_effect(bytes, effect);
    }
    lemma_prepared_from(
        artifact,
        step_index,
        step,
        capture,
        max_snapshot_bytes,
        accounts,
        effect,
    );
}

/// Only a step that is ready is prepared.
pub proof fn prepared_steps_are_ready(
    artifact: ArtifactModel,
    step_index: nat,
    capture: Option<CaptureModel>,
    max_snapshot_bytes: usize,
    accounts: Option<Seq<(Pubkey, AccountModel)>>,
)
    requires
        preparation(artifact, step_index, capture, max_snapshot_bytes, accounts) is Ok,
    ensures
        capture is Some,
        accounts is Some,
        is_ready(
            artifact,
            step_index,
            step_transaction(artifact, step_index)->Ok_0,
            capture->0,
            max_snapshot_bytes,
            accounts->0,
            effect_in(artifact.da.pages[step_index as int].transaction_effect)->0,
        ),
{
    let step = step_transaction(artifact, step_index)->Ok_0;
    steps_are_found_by_their_signature(artifact, step_index, step);
    lemma_captured(step, (capture->0).accounts, accounts->0);
}

/// The execution is the committed one: it succeeded with as many units as the effect
/// says, loaded and cost as much as captured, and left the accounts as captured.
pub open spec fn is_repeated(
    effect_units: u64,
    capture: CaptureModel,
    execution: ReplayExecution,
) -> bool {
    &&& execution.succeeded
    &&& execution.executed_units == effect_units
    &&& execution.loaded_accounts_data_size as int == capture.loaded_accounts_data_size as int
    &&& execution.transaction_fee == capture.transaction_fee
    &&& execution.prioritization_fee == capture.prioritization_fee
    &&& execution.accounts@.len() == capture.accounts.len()
    &&& was_captured_after(capture, keyed_models(execution.accounts@))
}

/// The snapshot has the program, whose data starts with the number two in four bytes and
/// names the address of its code; the code follows the first 45 bytes there.
pub open spec fn has_code(
    accounts: Seq<(Pubkey, AccountModel)>,
    program: Pubkey,
    address: Pubkey,
    code: Seq<u8>,
) -> bool {
    exists|owner: AccountModel, holder: AccountModel|
        {
            &&& #[trigger] lists(accounts, program, owner)
            &&& #[trigger] lists(accounts, address, holder)
            &&& owner.data.len() >= 36
            &&& owner.data[0] == 2
            &&& owner.data[1] == 0
            &&& owner.data[2] == 0
            &&& owner.data[3] == 0
            &&& owner.data.subrange(4, 36) == address@
            &&& holder.data.len() >= 45
            &&& code == holder.data.skip(45)
        }
}

/// A program's code is found if and only if the snapshot has it.
pub proof fn programs_are_found_by_their_address(
    accounts: Seq<(Pubkey, AccountModel)>,
    program: Pubkey,
    address: Pubkey,
    code: Seq<u8>,
)
    ensures
        program_code(accounts, program) == Ok::<(Pubkey, Seq<u8>), ReplayError>((address, code))
            <==> has_code(accounts, program, address, code),
{
    if has_code(accounts, program, address, code) {
        let (owner, holder) = choose|owner: AccountModel, holder: AccountModel|
            {
                &&& #[trigger] lists(accounts, program, owner)
                &&& #[trigger] lists(accounts, address, holder)
                &&& owner.data.len() >= 36
                &&& owner.data[0] == 2
                &&& owner.data[1] == 0
                &&& owner.data[2] == 0
                &&& owner.data[3] == 0
                &&& owner.data.subrange(4, 36) == address@
                &&& holder.data.len() >= 45
                &&& code == holder.data.skip(45)
            };
        lemma_first(accounts, program, owner, 0);
        lemma_first(accounts, address, holder, 0);
        let found = programdata_address(owner.data);
        assert(found is Some);
        assert((found->0)@ == owner.data.subrange(4, 36));
        assert(found->0 =~= address);
        assert(holder.data.skip(45) =~= holder.data.subrange(45, holder.data.len() as int));
    }
    if program_code(accounts, program) == Ok::<(Pubkey, Seq<u8>), ReplayError>((address, code)) {
        let owner = first_account(accounts, program, 0)->0;
        let holder = first_account(accounts, address, 0)->0;
        lemma_first(accounts, program, owner, 0);
        lemma_first(accounts, address, holder, 0);
        crate::runtime::takeover::lemma_address_exists(owner.data.subrange(4, 36));
        assert(holder.data.skip(45) =~= holder.data.subrange(45, holder.data.len() as int));
        assert(lists(accounts, program, owner));
        assert(lists(accounts, address, holder));
    }
}

/// The replay of a prepared step succeeds if and only if the execution is the committed
/// one, the program's code is there, its trace is supported, the features can be encoded,
/// and the step has read from layer one. It is bound to the checkpoint's slot and roots,
/// to what the page holds, to the accounts that the transaction names, to the program's
/// code, to the features' hash, and to the slot of the first value read from layer one.
pub proof fn replays_are_bound_to_their_step(
    artifact: ArtifactModel,
    step_index: nat,
    prepared: PreparedReplay,
    capture: CaptureModel,
    snapshot: ReplaySnapshot,
    execution: Option<&ReplayExecution>,
    context: ReplayContextV1,
    address: Pubkey,
    code: Seq<u8>,
)
    ensures
        ({
            let bound = prepared_witness(
                artifact,
                step_index,
                prepared,
                capture,
                snapshot,
                execution,
                context,
            );
            let page = artifact.da.pages[step_index as int];
            let accounts = keyed_models(snapshot.accounts@);
            let fits = execution is Some && is_repeated(
                prepared.executed_units,
                capture,
                *(execution->0),
            ) && has_code(accounts, prepared.program, address, code) && (
            execution->0).trace_supported && snapshot.features is Some
                && page.readonly_l1_values.len() > 0;
            &&& fits ==> (bound matches Ok(found) && {
                &&& found.er_slot == artifact.checkpoint.er_slot
                &&& found.step_index == page.step_index
                &&& found.session_context == context.session_context@
                &&& found.agave_revision == context.agave_revision
                &&& found.northstar_revision == context.northstar_revision
                &&& found.vm_config_hash == context.vm_config_hash
                &&& found.syscall_registry_hash == context.syscall_registry_hash
                &&& found.feature_set_hash == sha256((snapshot.features->0)@)
                &&& found.recent_blockhash == prepared.recent_blockhash
                &&& found.lamports_per_signature == snapshot.lamports_per_signature
                &&& found.slot == page.readonly_l1_values[0].value.observed_l1_slot
                &&& found.fee_payer == prepared.fee_payer
                &&& found.target == prepared.target
                &&& found.program_id == prepared.program
                &&& found.programdata_id == address
                &&& found.program_elf == code
                &&& found.transaction_effect == page.transaction_effect
                &&& found.transaction_effect_path == page.transaction_effect_path
                &&& found.checkpoint_transaction_effect_root
                    == artifact.checkpoint.transaction_effect_root
                &&& found.readonly_l1_values == page.readonly_l1_values
                &&& found.readonly_l1_root == artifact.checkpoint.readonly_l1_root
                &&& found.settlement_effects == page.settlement_effects
                &&& found.settlement_effect_root == artifact.checkpoint.effect_commitment
            })
            &&& bound matches Ok(found) ==> {
                &&& execution is Some
                &&& is_repeated(prepared.executed_units, capture, *(execution->0))
                &&& has_code(accounts, prepared.program, found.programdata_id, found.program_elf)
                &&& (execution->0).trace_supported
                &&& snapshot.features is Some
                &&& page.readonly_l1_values.len() > 0
            }
        }),
{
    let accounts = keyed_models(snapshot.accounts@);
    programs_are_found_by_their_address(accounts, prepared.program, address, code);
    if let Ok((at, found)) = program_code(accounts, prepared.program) {
        programs_are_found_by_their_address(accounts, prepared.program, at, found);
    }
    if let Some(execution) = execution {
        let step = WireModel {
            signature: None,
            recent_blockhash: prepared.recent_blockhash,
            static_keys: Seq::empty(),
            writable: Seq::empty(),
        };
        lemma_captured(step, capture.accounts, keyed_models(execution.accounts@));
    }
}

/// A step is replayed if and only if it can be prepared and its prepared replay succeeds,
/// and then it is bound to what the prepared replay is bound to.
pub proof fn replays_are_prepared_first(
    artifact: ArtifactModel,
    step_index: nat,
    capture: CaptureModel,
    max_snapshot_bytes: usize,
    snapshot: ReplaySnapshot,
    execution: Option<&ReplayExecution>,
    context: ReplayContextV1,
    found: BindingModel,
)
    ensures
        ({
            let prepared = preparation(
                artifact,
                step_index,
                Some(capture),
                max_snapshot_bytes,
                Some(keyed_models(snapshot.accounts@)),
            );
            witness(
                artifact,
                step_index,
                Some(capture),
                max_snapshot_bytes,
                Some(&snapshot),
                execution,
                context,
            ) == Ok::<BindingModel, ReplayError>(found) <==> prepared is Ok && prepared_witness(
                artifact,
                step_index,
                prepared->Ok_0,
                capture,
                snapshot,
                execution,
                context,
            ) == Ok::<BindingModel, ReplayError>(found)
        }),
{
}

} // verus!
