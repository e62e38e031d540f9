//! What it takes to replay one step of a checkpoint.

use vstd::prelude::*;

use crate::accounts::{copy_items, Account, AccountModel, Pubkey};
use crate::checkpoint::checks::verification;
use crate::checkpoint::{
    ArtifactModel, AuthenticatedReadonlyL1ValueV1, AuthenticatedReadonlyModel,
    AuthenticatedSettlementEffectV1, AuthenticatedSettlementModel, CheckpointArtifactV1,
    CheckpointTransactionEffectV1, PageModel, TransactionEffectModel,
};
use crate::codec::{encodes, encodings_are_unique, from_bytes, same_array, same_bytes, Codec};
use crate::hashing::{hash_bytes, sha256};
use crate::merkle::{MerkleAuthenticationPathV1, PathModel};
use crate::runtime::programs::{programdata_address, programdata_in, read_programdata_address};
use crate::tx_client::{decoded_transaction, read_transaction, WireModel};

pub mod fidelity;

verus! {

/// What the caller knows of the session and the software.
#[derive(Debug, Clone, PartialEq, Eq)]
pub struct ReplayContextV1 {
    pub session_context: Vec<u8>,
    pub agave_revision: [u8; 20],
    pub northstar_revision: [u8; 20],
    pub vm_config_hash: [u8; 32],
    pub syscall_registry_hash: [u8; 32],
}

/// Why a step cannot be replayed.
#[derive(Debug, Clone, Copy, PartialEq, Eq)]
pub enum ReplayError {
    CheckpointAuthentication,
    StepMissing,
    TransactionEncoding,
    SignatureMissing,
    CaptureMissing,
    SnapshotMissing,
    SnapshotTooLarge,
    SnapshotEncoding,
    AccountShape,
    PreStateMismatch,
    TransactionEffectEncoding,
    ReexecutionFailed,
    ExecutionMismatch,
    PostStateMismatch,
    ProgramMissing,
    ProgramState,
    ProgramdataMissing,
    ElfMissing,
    UnsupportedTrace,
    FeatureEncoding,
    ReadonlyObservationMissing,
    RelationRejected,
    PublicInputsMismatch,
}

impl ReplayError {
    /// The error in words.
    pub fn message(&self) -> (text: &'static str)
        ensures
            text@ == (match *self {
                ReplayError::CheckpointAuthentication => "checkpoint authentication"@,
                ReplayError::StepMissing => "step missing"@,
                ReplayError::TransactionEncoding => "transaction encoding"@,
                ReplayError::SignatureMissing => "signature missing"@,
                ReplayError::CaptureMissing => "finalized replay capture missing"@,
                ReplayError::SnapshotMissing => "runtime snapshot missing"@,
                ReplayError::SnapshotTooLarge => "runtime snapshot too large"@,
                ReplayError::SnapshotEncoding => "runtime snapshot encoding"@,
                ReplayError::AccountShape => "unsupported account shape"@,
                ReplayError::PreStateMismatch => "captured pre-state mismatch"@,
                ReplayError::TransactionEffectEncoding => "transaction effect encoding"@,
                ReplayError::ReexecutionFailed => "re-execution failed"@,
                ReplayError::ExecutionMismatch => "committed execution mismatch"@,
                ReplayError::PostStateMismatch => "committed post-state mismatch"@,
                ReplayError::ProgramMissing => "program missing"@,
                ReplayError::ProgramState => "program state"@,
                ReplayError::ProgramdataMissing => "programdata missing"@,
                ReplayError::ElfMissing => "program ELF missing"@,
                ReplayError::UnsupportedTrace => "unsupported replay trace"@,
                ReplayError::FeatureEncoding => "feature encoding"@,
                ReplayError::ReadonlyObservationMissing => "readonly observation missing"@,
                ReplayError::RelationRejected => "replay relation rejected"@,
                ReplayError::PublicInputsMismatch => "checkpoint public inputs mismatch"@,
            }),
    {
        match self {
            ReplayError::CheckpointAuthentication => "checkpoint authentication",
            ReplayError::StepMissing => "step missing",
            ReplayError::TransactionEncoding => "transaction encoding",
            ReplayError::SignatureMissing => "signature missing",
            ReplayError::CaptureMissing => "finalized replay capture missing",
            ReplayError::SnapshotMissing => "runtime snapshot missing",
            ReplayError::SnapshotTooLarge => "runtime snapshot too large",
            ReplayError::SnapshotEncoding => "runtime snapshot encoding",
            ReplayError::AccountShape => "unsupported account shape",
            ReplayError::PreStateMismatch => "captured pre-state mismatch",
            ReplayError::TransactionEffectEncoding => "transaction effect encoding",
            ReplayError::ReexecutionFailed => "re-execution failed",
            ReplayError::ExecutionMismatch => "committed execution mismatch",
            ReplayError::PostStateMismatch => "committed post-state mismatch",
            ReplayError::ProgramMissing => "program missing",
            ReplayError::ProgramState => "program state",
            ReplayError::ProgramdataMissing => "programdata missing",
            ReplayError::ElfMissing => "program ELF missing",
            ReplayError::UnsupportedTrace => "unsupported replay trace",
            ReplayError::FeatureEncoding => "feature encoding",
            ReplayError::ReadonlyObservationMissing => "readonly observation missing",
            ReplayError::RelationRejected => "replay relation rejected",
            ReplayError::PublicInputsMismatch => "checkpoint public inputs mismatch",
        }
    }
}

/// An account under its address.
#[derive(Debug, Clone, PartialEq, Eq)]
pub struct KeyedAccount {
    pub pubkey: Pubkey,
    pub account: Account,
}

/// What the accounts hold.
pub open spec fn keyed_models(accounts: Seq<KeyedAccount>) -> Seq<(Pubkey, AccountModel)> {
    accounts.map_values(|keyed: KeyedAccount| (keyed.pubkey, keyed.account@))
}

/// The first account at an address, from `from` on.
pub open spec fn first_account(
    accounts: Seq<(Pubkey, AccountModel)>,
    key: Pubkey,
    from: nat,
) -> Option<AccountModel>
    decreases accounts.len() - from,
{
    if from >= accounts.len() {
        None
    } else if accounts[from as int].0 == key {
        Some(accounts[from as int].1)
    } else {
        first_account(accounts, key, from + 1)
    }
}

fn find_account<'a>(accounts: &'a Vec<KeyedAccount>, key: &Pubkey) -> (r: Option<&'a Account>)
    ensures
        match r {
            Some(account) => first_account(keyed_models(accounts@), *key, 0) == Some(account@),
            None => first_account(keyed_models(accounts@), *key, 0) is None,
        },
{
    let ghost models = keyed_models(accounts@);
    let mut i: usize = 0;
    while i < accounts.len()
        invariant
            i <= accounts@.len(),
            models == keyed_models(accounts@),
            first_account(models, *key, 0) == first_account(models, *key, i as nat),
        decreases accounts@.len() - i,
    {
        assert(models[i as int] == (accounts@[i as int].pubkey, accounts@[i as int].account@));
        if same_array(&accounts[i].pubkey, key) {
            return Some(&accounts[i].account);
        }
        i += 1;
    }
    None
}

fn holds_account(accounts: &Vec<KeyedAccount>, key: &Pubkey, account: &Account) -> (r: bool)
    ensures
        r == (first_account(keyed_models(accounts@), *key, 0) == Some(account@)),
{
    match find_account(accounts, key) {
        Some(found) => {
            let same = found.lamports == account.lamports && found.executable == account.executable
                && found.rent_epoch == account.rent_epoch && same_array(
                &found.owner,
                &account.owner,
            ) && same_bytes(&found.data, &account.data);
            proof {
                if same {
                    assert(found@ =~= account@);
                }
            }
            same
        },
        None => false,
    }
}

/// An account of a transaction, as it was captured before and after.
#[derive(Debug, Clone, PartialEq, Eq)]
pub struct CapturedAccount {
    pub transaction_index: u32,
    pub key: Pubkey,
    pub pre_account: Account,
    pub post_account: Account,
}

/// What a `CapturedAccount` holds.
#[verifier::ext_equal]
pub struct CapturedModel {
    pub transaction_index: u32,
    pub key: Pubkey,
    pub pre_account: AccountModel,
    pub post_account: AccountModel,
}

impl View for CapturedAccount {
    type V = CapturedModel;

    open spec fn view(&self) -> CapturedModel {
        CapturedModel {
            transaction_index: self.transaction_index,
            key: self.key,
            pre_account: self.pre_account@,
            post_account: self.post_account@,
        }
    }
}

/// What was captured when a transaction was executed.
#[derive(Debug, Clone, PartialEq, Eq)]
pub struct ReplayCapture {
    pub accounts: Vec<CapturedAccount>,
    /// How long the runtime snapshot is, if one was taken.
    pub snapshot_len: Option<usize>,
    pub loaded_accounts_data_size: u64,
    pub transaction_fee: u64,
    pub prioritization_fee: u64,
}

/// What a `ReplayCapture` holds.
#[verifier::ext_equal]
pub struct CaptureModel {
    pub accounts: Seq<CapturedModel>,
    pub snapshot_len: Option<usize>,
    pub loaded_accounts_data_size: u64,
    pub transaction_fee: u64,
    pub prioritization_fee: u64,
}

impl View for ReplayCapture {
    type V = CaptureModel;

    open spec fn view(&self) -> CaptureModel {
        CaptureModel {
            accounts: self.accounts@.map_values(|account: CapturedAccount| account@),
            snapshot_len: self.snapshot_len,
            loaded_accounts_data_size: self.loaded_accounts_data_size,
            transaction_fee: self.transaction_fee,
            prioritization_fee: self.prioritization_fee,
        }
    }
}

/// A runtime snapshot. `features` are the encoded feature sets, or `None` if they
/// cannot be encoded.
#[derive(Debug, Clone, PartialEq, Eq)]
pub struct ReplaySnapshot {
    pub accounts: Vec<KeyedAccount>,
    pub features: Option<Vec<u8>>,
    pub lamports_per_signature: u64,
}

/// What the execution of a transaction on a snapshot came to.
#[derive(Debug, Clone, PartialEq, Eq)]
pub struct ReplayExecution {
    pub succeeded: bool,
    pub executed_units: u64,
    pub loaded_accounts_data_size: u32,
    pub transaction_fee: u64,
    pub prioritization_fee: u64,
    pub accounts: Vec<KeyedAccount>,
    /// Whether the proof system can make a witness of the execution's trace.
    pub trace_supported: bool,
}

/// The transaction of a step: the artifact must be the one that its pages give,
/// have the step, and hold a transaction there.
pub open spec fn step_transaction(artifact: ArtifactModel, step_index: nat) -> Result<
    WireModel,
    ReplayError,
> {
    if verification(artifact) is Err {
        Err(ReplayError::CheckpointAuthentication)
    } else if step_index >= artifact.da.pages.len() {
        Err(ReplayError::StepMissing)
    } else {
        match decoded_transaction(artifact.da.pages[step_index as int].transaction) {
            Some(transaction) => Ok(transaction),
            None => Err(ReplayError::TransactionEncoding),
        }
    }
}

/// The signature by which the capture of a step is found.
pub open spec fn step_signature(artifact: ArtifactModel, step_index: nat) -> Result<
    [u8; 64],
    ReplayError,
> {
    match step_transaction(artifact, step_index) {
        Err(error) => Err(error),
        Ok(transaction) => match transaction.signature {
            Some(signature) => Ok(signature),
            None => Err(ReplayError::SignatureMissing),
        },
    }
}

fn find_step_transaction(artifact: &CheckpointArtifactV1, step_index: usize) -> (r: Result<
    crate::tx_client::WireTransaction,
    ReplayError,
>)
    ensures
        match r {
            Ok(transaction) => step_transaction(artifact@, step_index as nat) == Ok::<
                WireModel,
                ReplayError,
            >(transaction@),
            Err(error) => step_transaction(artifact@, step_index as nat) == Err::<
                WireModel,
                ReplayError,
            >(error),
        },
{
    if artifact.verify().is_err() {
        return Err(ReplayError::CheckpointAuthentication);
    }
    if step_index >= artifact.da.pages.len() {
        return Err(ReplayError::StepMissing);
    }
    let page = &artifact.da.pages[step_index];
    assert(artifact@.da.pages[step_index as int] == page@);
    match read_transaction(&page.transaction) {
        Some(transaction) => Ok(transaction),
        None => Err(ReplayError::TransactionEncoding),
    }
}

/// The signature by which the capture of a step is found.
pub fn replay_signature(artifact: &CheckpointArtifactV1, step_index: usize) -> (r: Result<
    [u8; 64],
    ReplayError,
>)
    ensures
        r == step_signature(artifact@, step_index as nat),
{
    match find_step_transaction(artifact, step_index) {
        Err(error) => Err(error),
        Ok(transaction) => match transaction.signature {
            Some(signature) => Ok(signature),
            None => Err(ReplayError::SignatureMissing),
        },
    }
}

/// The captured accounts are those of the transaction, in its order, and the
/// snapshot has them as they were captured before.
pub open spec fn pre_state_matches(
    keys: Seq<Pubkey>,
    captured: Seq<CapturedModel>,
    accounts: Seq<(Pubkey, AccountModel)>,
) -> bool {
    forall|i: int|
        0 <= i < captured.len() ==> {
            let account = #[trigger] captured[i];
            &&& account.transaction_index == i
            &&& account.key == keys[i]
            &&& first_account(accounts, account.key, 0) == Some(account.pre_account)
        }
}

/// The effect that `bytes` are the encoding of.
pub open spec fn effect_in(bytes: Seq<u8>) -> Option<TransactionEffectModel> {
    if exists|m: TransactionEffectModel| encodes::<CheckpointTransactionEffectV1>(m, bytes) {
        Some(choose|m: TransactionEffectModel| encodes::<CheckpointTransactionEffectV1>(m, bytes))
    } else {
        None
    }
}

/// What is known of a step before it is executed again.
#[derive(Debug, Clone, Copy, PartialEq, Eq)]
pub struct PreparedReplay {
    pub fee_payer: Pubkey,
    pub target: Pubkey,
    pub program: Pubkey,
    pub executed_units: u64,
    pub recent_blockhash: [u8; 32],
}

/// What is known of a step before it is executed again, or why it cannot be.
pub open spec fn preparation(
    artifact: ArtifactModel,
    step_index: nat,
    capture: Option<CaptureModel>,
    max_snapshot_bytes: usize,
    accounts: Option<Seq<(Pubkey, AccountModel)>>,
) -> Result<PreparedReplay, ReplayError> {
    match step_transaction(artifact, step_index) {
        Err(error) => Err(error),
        Ok(transaction) => if transaction.signature is None {
            Err(ReplayError::SignatureMissing)
        } else {
            match capture {
                None => Err(ReplayError::CaptureMissing),
                Some(capture) => match capture.snapshot_len {
                    None => Err(ReplayError::SnapshotMissing),
                    Some(len) => if len > max_snapshot_bytes {
                        Err(ReplayError::SnapshotTooLarge)
                    } else {
                        match accounts {
                            None => Err(ReplayError::SnapshotEncoding),
                            Some(accounts) => if transaction.static_keys.len() != 3
                                || capture.accounts.len() != 3 {
                                Err(ReplayError::AccountShape)
                            } else if !pre_state_matches(
                                transaction.static_keys,
                                capture.accounts,
                                accounts,
                            ) {
                                Err(ReplayError::PreStateMismatch)
                            } else {
                                match effect_in(
                                    artifact.da.pages[step_index as int].transaction_effect,
                                ) {
                                    None => Err(ReplayError::TransactionEffectEncoding),
                                    Some(effect) => Ok(
                                        PreparedReplay {
                                            fee_payer: transaction.static_keys[0],
                                            target: transaction.static_keys[1],
                                            program: transaction.static_keys[2],
                                            executed_units: effect.executed_units,
                                            recent_blockhash: transaction.recent_blockhash,
                                        },
                                    ),
                                }
                            },
                        }
                    },
                },
            }
        },
    }
}

/// What an optional capture holds.
pub open spec fn capture_model(capture: Option<&ReplayCapture>) -> Option<CaptureModel> {
    match capture {
        Some(capture) => Some(capture@),
        None => None,
    }
}

/// The accounts of an optional snapshot.
pub open spec fn snapshot_accounts(snapshot: Option<&ReplaySnapshot>) -> Option<
    Seq<(Pubkey, AccountModel)>,
> {
    match snapshot {
        Some(snapshot) => Some(keyed_models(snapshot.accounts@)),
        None => None,
    }
}

fn check_pre_state(
    keys: &Vec<Pubkey>,
    captured: &Vec<CapturedAccount>,
    accounts: &Vec<KeyedAccount>,
) -> (r: bool)
    requires
        keys@.len() == captured@.len(),
    ensures
        r == pre_state_matches(
            keys@,
            captured@.map_values(|account: CapturedAccount| account@),
            keyed_models(accounts@),
        ),
{
    let ghost models = captured@.map_values(|account: CapturedAccount| account@);
    let mut i: usize = 0;
    while i < captured.len()
        invariant
            i <= captured@.len(),
            keys@.len() == captured@.len(),
            models == captured@.map_values(|account: CapturedAccount| account@),
            forall|j: int|
                0 <= j < i ==> {
                    let account = #[trigger] models[j];
                    &&& account.transaction_index == j
                    &&& account.key == keys@[j]
                    &&& first_account(keyed_models(accounts@), account.key, 0) == Some(
                        account.pre_account,
                    )
                },
        decreases captured@.len() - i,
    {
        let account = &captured[i];
        assert(models[i as int] == account@);
        if account.transaction_index as usize != i || !same_array(&account.key, &keys[i])
            || !holds_account(accounts, &account.key, &account.pre_account) {
            return false;
        }
        i += 1;
    }
    true
}

/// What is known of a step before it is executed again: the transaction must name
/// three accounts, and the snapshot must have them as they were captured.
/// `capture` is found by the step's signature, and `snapshot` is `None` if it
/// cannot be decoded.
#[verifier::rlimit(40)]
pub fn prepare_replay(
    artifact: &CheckpointArtifactV1,
    step_index: usize,
    capture: Option<&ReplayCapture>,
    max_snapshot_bytes: usize,
    snapshot: Option<&ReplaySnapshot>,
) -> (r: Result<PreparedReplay, ReplayError>)
    ensures
        r == preparation(
            artifact@,
            step_index as nat,
            capture_model(capture),
            max_snapshot_bytes,
            snapshot_accounts(snapshot),
        ),
{
    let transaction = match find_step_transaction(artifact, step_index) {
        Ok(transaction) => transaction,
        Err(error) => {
            return Err(error);
        },
    };
    if transaction.signature.is_none() {
        return Err(ReplayError::SignatureMissing);
    }
    let capture = match capture {
        Some(capture) => capture,
        None => {
            return Err(ReplayError::CaptureMissing);
        },
    };
    match capture.snapshot_len {
        None => {
            return Err(ReplayError::SnapshotMissing);
        },
        Some(len) => {
            if len > max_snapshot_bytes {
                return Err(ReplayError::SnapshotTooLarge);
            }
        },
    }
    let snapshot = match snapshot {
        Some(snapshot) => snapshot,
        None => {
            return Err(ReplayError::SnapshotEncoding);
        },
    };
    if transaction.static_keys.len() != 3 || capture.accounts.len() != 3 {
        return Err(ReplayError::AccountShape);
    }
    if !check_pre_state(&transaction.static_keys, &capture.accounts, &snapshot.accounts) {
        return Err(ReplayError::PreStateMismatch);
    }
    let page = &artifact.da.pages[step_index];
    assert(artifact@.da.pages[step_index as int] == page@);
    match from_bytes::<CheckpointTransactionEffectV1>(&page.transaction_effect) {
        None => Err(ReplayError::TransactionEffectEncoding),
        Some(effect) => {
            proof {
                let bytes = page.transaction_effect@;
                assert(encodes::<CheckpointTransactionEffectV1>(effect.model(), bytes));
                encodings_are_unique::<CheckpointTransactionEffectV1>(
                    effect.model(),
                    effect_in(bytes)->0,
                    bytes,
                );
            }
            Ok(
                PreparedReplay {
                    fee_payer: transaction.static_keys[0],
                    target: transaction.static_keys[1],
                    program: transaction.static_keys[2],
                    executed_units: effect.executed_units,
                    recent_blockhash: transaction.recent_blockhash,
                },
            )
        },
    }
}

/// The execution is the one that was committed to: it succeeded, used as much and
/// cost as much.
pub open spec fn execution_matches(
    prepared: PreparedReplay,
    capture: CaptureModel,
    execution: ReplayExecution,
) -> bool {
    &&& execution.succeeded
    &&& execution.executed_units == prepared.executed_units
    &&& execution.loaded_accounts_data_size as u64 == capture.loaded_accounts_data_size
    &&& execution.transaction_fee == capture.transaction_fee
    &&& execution.prioritization_fee == capture.prioritization_fee
    &&& execution.accounts@.len() == capture.accounts.len()
}

/// The execution has left every captured account as it was captured after.
pub open spec fn post_state_matches(
    captured: Seq<CapturedModel>,
    accounts: Seq<(Pubkey, AccountModel)>,
) -> bool {
    forall|i: int|
        0 <= i < captured.len() ==> first_account(accounts, (#[trigger] captured[i]).key, 0)
            == Some(captured[i].post_account)
}

/// Where the code starts in the data of an account that holds a program's code.
pub const PROGRAMDATA_METADATA_LEN: usize = 45;

/// The code of a program, and where it is.
pub open spec fn program_code(accounts: Seq<(Pubkey, AccountModel)>, program: Pubkey) -> Result<
    (Pubkey, Seq<u8>),
    ReplayError,
> {
    match first_account(accounts, program, 0) {
        None => Err(ReplayError::ProgramMissing),
        Some(account) => match programdata_address(account.data) {
            None => Err(ReplayError::ProgramState),
            Some(address) => match first_account(accounts, address, 0) {
                None => Err(ReplayError::ProgramdataMissing),
                Some(code) => if code.data.len() < PROGRAMDATA_METADATA_LEN {
                    Err(ReplayError::ElfMissing)
                } else {
                    Ok(
                        (
                            address,
                            code.data.subrange(
                                PROGRAMDATA_METADATA_LEN as int,
                                code.data.len() as int,
                            ),
                        ),
                    )
                },
            },
        },
    }
}

/// What a replay of a step is bound to.
#[derive(Debug, Clone, PartialEq, Eq)]
pub struct ReplayBinding {
    pub session_context: Vec<u8>,
    pub er_slot: u64,
    pub step_index: u64,
    pub agave_revision: [u8; 20],
    pub northstar_revision: [u8; 20],
    pub vm_config_hash: [u8; 32],
    pub syscall_registry_hash: [u8; 32],
    pub feature_set_hash: [u8; 32],
    pub recent_blockhash: [u8; 32],
    pub lamports_per_signature: u64,
    /// The slot of layer one at which the step's first read value was seen.
    pub slot: u64,
    pub fee_payer: Pubkey,
    pub target: Pubkey,
    pub program_id: Pubkey,
    pub programdata_id: Pubkey,
    pub program_elf: Vec<u8>,
    pub transaction_effect: Vec<u8>,
    pub transaction_effect_path: MerkleAuthenticationPathV1,
    pub checkpoint_transaction_effect_root: [u8; 32],
    pub readonly_l1_values: Vec<AuthenticatedReadonlyL1ValueV1>,
    pub readonly_l1_root: [u8; 32],
    pub settlement_effects: Vec<AuthenticatedSettlementEffectV1>,
    pub settlement_effect_root: [u8; 32],
}

/// What a `ReplayBinding` holds.
#[verifier::ext_equal]
pub struct BindingModel {
    pub session_context: Seq<u8>,
    pub er_slot: u64,
    pub step_index: u64,
    pub agave_revision: [u8; 20],
    pub northstar_revision: [u8; 20],
    pub vm_config_hash: [u8; 32],
    pub syscall_registry_hash: [u8; 32],
    pub feature_set_hash: [u8; 32],
    pub recent_blockhash: [u8; 32],
    pub lamports_per_signature: u64,
    pub slot: u64,
    pub fee_payer: Pubkey,
    pub target: Pubkey,
    pub program_id: Pubkey,
    pub programdata_id: Pubkey,
    pub program_elf: Seq<u8>,
    pub transaction_effect: Seq<u8>,
    pub transaction_effect_path: PathModel,
    pub checkpoint_transaction_effect_root: [u8; 32],
    pub readonly_l1_values: Seq<AuthenticatedReadonlyModel>,
    pub readonly_l1_root: [u8; 32],
    pub settlement_effects: Seq<AuthenticatedSettlementModel>,
    pub settlement_effect_root: [u8; 32],
}

impl View for ReplayBinding {
    type V = BindingModel;

    open spec fn view(&self) -> BindingModel {
        BindingModel {
            session_context: self.session_context@,
            er_slot: self.er_slot,
            step_index: self.step_index,
            agave_revision: self.agave_revision,
            northstar_revision: self.northstar_revision,
            vm_config_hash: self.vm_config_hash,
            syscall_registry_hash: self.syscall_registry_hash,
            feature_set_hash: self.feature_set_hash,
            recent_blockhash: self.recent_blockhash,
            lamports_per_signature: self.lamports_per_signature,
            slot: self.slot,
            fee_payer: self.fee_payer,
            target: self.target,
            program_id: self.program_id,
            programdata_id: self.programdata_id,
            program_elf: self.program_elf@,
            transaction_effect: self.transaction_effect@,
            transaction_effect_path: self.transaction_effect_path@,
            checkpoint_transaction_effect_root: self.checkpoint_transaction_effect_root,
            readonly_l1_values: readonly_models(self.readonly_l1_values@),
            readonly_l1_root: self.readonly_l1_root,
            settlement_effects: settlement_models(self.settlement_effects@),
            settlement_effect_root: self.settlement_effect_root,
        }
    }
}

/// What the read values hold.
pub open spec fn readonly_models(values: Seq<AuthenticatedReadonlyL1ValueV1>) -> Seq<
    AuthenticatedReadonlyModel,
> {
    values.map_values(|value: AuthenticatedReadonlyL1ValueV1| value@)
}

/// What the settlement effects hold.
pub open spec fn settlement_models(effects: Seq<AuthenticatedSettlementEffectV1>) -> Seq<
    AuthenticatedSettlementModel,
> {
    effects.map_values(|effect: AuthenticatedSettlementEffectV1| effect@)
}

fn copy_path(path: &MerkleAuthenticationPathV1) -> (copy: MerkleAuthenticationPathV1)
    ensures
        copy@ == path@,
{
    MerkleAuthenticationPathV1 {
        leaf_index: path.leaf_index,
        leaf_count: path.leaf_count,
        siblings: copy_items(&path.siblings),
    }
}

fn copy_readonly_values(values: &Vec<AuthenticatedReadonlyL1ValueV1>) -> (copy: Vec<
    AuthenticatedReadonlyL1ValueV1,
>)
    ensures
        readonly_models(copy@) == readonly_models(values@),
{
    let mut copy: Vec<AuthenticatedReadonlyL1ValueV1> = Vec::new();
    let mut i: usize = 0;
    while i < values.len()
        invariant
            i <= values@.len(),
            copy@.len() == i,
            forall|j: int| 0 <= j < i ==> (#[trigger] copy@[j])@ == values@[j]@,
        decreases values@.len() - i,
    {
        let value = &values[i];
        let entry = AuthenticatedReadonlyL1ValueV1 {
            global_index: value.global_index,
            value_index: value.value_index,
            value: value.value,
            path: copy_path(&value.path),
        };
        assert(entry@ =~= value@);
        copy.push(entry);
        i += 1;
    }
    assert(readonly_models(copy@) =~= readonly_models(values@));
    copy
}

fn copy_settlement_effects(effects: &Vec<AuthenticatedSettlementEffectV1>) -> (copy: Vec<
    AuthenticatedSettlementEffectV1,
>)
    ensures
        settlement_models(copy@) == settlement_models(effects@),
{
    let mut copy: Vec<AuthenticatedSettlementEffectV1> = Vec::new();
    let mut i: usize = 0;
    while i < effects.len()
        invariant
            i <= effects@.len(),
            copy@.len() == i,
            forall|j: int| 0 <= j < i ==> (#[trigger] copy@[j])@ == effects@[j]@,
        decreases effects@.len() - i,
    {
        let effect = &effects[i];
        let entry = AuthenticatedSettlementEffectV1 {
            global_index: effect.global_index,
            effect_index: effect.effect_index,
            effect: copy_items(&effect.effect),
            path: copy_path(&effect.path),
        };
        assert(entry@ =~= effect@);
        copy.push(entry);
        i += 1;
    }
    assert(settlement_models(copy@) =~= settlement_models(effects@));
    copy
}

/// What the replay of a page is bound to, once its execution was found to match.
pub open spec fn binding(
    artifact: ArtifactModel,
    page: PageModel,
    prepared: PreparedReplay,
    context: ReplayContextV1,
    features: Seq<u8>,
    lamports_per_signature: u64,
    code: (Pubkey, Seq<u8>),
) -> BindingModel {
    BindingModel {
        session_context: context.session_context@,
        er_slot: artifact.checkpoint.er_slot,
        step_index: page.step_index as u64,
        agave_revision: context.agave_revision,
        northstar_revision: context.northstar_revision,
        vm_config_hash: context.vm_config_hash,
        syscall_registry_hash: context.syscall_registry_hash,
        feature_set_hash: sha256(features),
        recent_blockhash: prepared.recent_blockhash,
        lamports_per_signature,
        slot: page.readonly_l1_values[0].value.observed_l1_slot,
        fee_payer: prepared.fee_payer,
        target: prepared.target,
        program_id: prepared.program,
        programdata_id: code.0,
        program_elf: code.1,
        transaction_effect: page.transaction_effect,
        transaction_effect_path: page.transaction_effect_path,
        checkpoint_transaction_effect_root: artifact.checkpoint.transaction_effect_root,
        readonly_l1_values: page.readonly_l1_values,
        readonly_l1_root: artifact.checkpoint.readonly_l1_root,
        settlement_effects: page.settlement_effects,
        settlement_effect_root: artifact.checkpoint.effect_commitment,
    }
}

/// What the replay of a prepared step is bound to, or why it cannot be replayed.
pub open spec fn prepared_witness(
    artifact: ArtifactModel,
    step_index: nat,
    prepared: PreparedReplay,
    capture: CaptureModel,
    snapshot: ReplaySnapshot,
    execution: Option<&ReplayExecution>,
    context: ReplayContextV1,
) -> Result<BindingModel, ReplayError> {
    match execution {
        None => Err(ReplayError::ReexecutionFailed),
        Some(execution) => if !execution_matches(prepared, capture, *execution) {
            Err(ReplayError::ExecutionMismatch)
        } else if !post_state_matches(capture.accounts, keyed_models(execution.accounts@)) {
            Err(ReplayError::PostStateMismatch)
        } else {
            match program_code(keyed_models(snapshot.accounts@), prepared.program) {
                Err(error) => Err(error),
                Ok(code) => {
                    let page = artifact.da.pages[step_index as int];
                    if !execution.trace_supported {
                        Err(ReplayError::UnsupportedTrace)
                    } else if snapshot.features is None {
                        Err(ReplayError::FeatureEncoding)
                    } else if page.readonly_l1_values.len() == 0 {
                        Err(ReplayError::ReadonlyObservationMissing)
                    } else {
                        Ok(
                            binding(
                                artifact,
                                page,
                                prepared,
                                context,
                                (snapshot.features->0)@,
                                snapshot.lamports_per_signature,
                                code,
                            ),
                        )
                    }
                },
            }
        },
    }
}

/// What the replay of a step is bound to, or why the step cannot be replayed.
pub open spec fn witness(
    artifact: ArtifactModel,
    step_index: nat,
    capture: Option<CaptureModel>,
    max_snapshot_bytes: usize,
    snapshot: Option<&ReplaySnapshot>,
    execution: Option<&ReplayExecution>,
    context: ReplayContextV1,
) -> Result<BindingModel, ReplayError> {
    match preparation(
        artifact,
        step_index,
        capture,
        max_snapshot_bytes,
        snapshot_accounts(snapshot),
    ) {
        Err(error) => Err(error),
        Ok(prepared) => prepared_witness(
            artifact,
            step_index,
            prepared,
            capture->0,
            *(snapshot->0),
            execution,
            context,
        ),
    }
}

/// What the outcome of a replay holds.
pub open spec fn outcome_model(r: Result<ReplayBinding, ReplayError>) -> Result<
    BindingModel,
    ReplayError,
> {
    match r {
        Ok(found) => Ok(found@),
        Err(error) => Err(error),
    }
}

#[verifier::rlimit(40)]
proof fn lemma_prepared(
    artifact: ArtifactModel,
    step_index: nat,
    capture: Option<CaptureModel>,
    max_snapshot_bytes: usize,
    accounts: Option<Seq<(Pubkey, AccountModel)>>,
)
    requires
        preparation(artifact, step_index, capture, max_snapshot_bytes, accounts) is Ok,
    ensures
        capture is Some,
        accounts is Some,
        verification(artifact) is Ok,
        step_index < artifact.da.pages.len(),
{
}

fn check_post_state(captured: &Vec<CapturedAccount>, accounts: &Vec<KeyedAccount>) -> (r: bool)
    ensures
        r == post_state_matches(
            captured@.map_values(|account: CapturedAccount| account@),
            keyed_models(accounts@),
        ),
{
    let ghost models = captured@.map_values(|account: CapturedAccount| account@);
    let mut i: usize = 0;
    while i < captured.len()
        invariant
            i <= captured@.len(),
            models == captured@.map_values(|account: CapturedAccount| account@),
            forall|j: int|
                0 <= j < i ==> first_account(
                    keyed_models(accounts@),
                    (#[trigger] models[j]).key,
                    0,
                ) == Some(models[j].post_account),
        decreases captured@.len() - i,
    {
        let account = &captured[i];
        assert(models[i as int] == account@);
        if !holds_account(accounts, &account.key, &account.post_account) {
            return false;
        }
        i += 1;
    }
    true
}

fn find_program_code(accounts: &Vec<KeyedAccount>, program: &Pubkey) -> (r: Result<
    (Pubkey, Vec<u8>),
    ReplayError,
>)
    ensures
        match r {
            Ok((address, elf)) => program_code(keyed_models(accounts@), *program) == Ok::<
                (Pubkey, Seq<u8>),
                ReplayError,
            >((address, elf@)),
            Err(error) => program_code(keyed_models(accounts@), *program) == Err::<
                (Pubkey, Seq<u8>),
                ReplayError,
            >(error),
        },
{
    let account = match find_account(accounts, program) {
        Some(account) => account,
        None => {
            return Err(ReplayError::ProgramMissing);
        },
    };
    let address = match read_programdata_address(&account.data) {
        Some(address) => {
            proof {
                let other = programdata_in(account.data@);
                assert(other@ == account.data@.subrange(4, 36));
                assert(other =~= address);
            }
            address
        },
        None => {
            return Err(ReplayError::ProgramState);
        },
    };
    let code = match find_account(accounts, &address) {
        Some(code) => code,
        None => {
            return Err(ReplayError::ProgramdataMissing);
        },
    };
    if code.data.len() < PROGRAMDATA_METADATA_LEN {
        return Err(ReplayError::ElfMissing);
    }
    let mut elf: Vec<u8> = Vec::new();
    let mut i: usize = PROGRAMDATA_METADATA_LEN;
    assert(elf@ =~= code.data@.subrange(PROGRAMDATA_METADATA_LEN as int, i as int));
    while i < code.data.len()
        invariant
            PROGRAMDATA_METADATA_LEN <= i <= code.data@.len(),
            elf@ == code.data@.subrange(PROGRAMDATA_METADATA_LEN as int, i as int),
        decreases code.data@.len() - i,
    {
        elf.push(code.data[i]);
        i += 1;
        assert(elf@ =~= code.data@.subrange(PROGRAMDATA_METADATA_LEN as int, i as int));
    }
    Ok((address, elf))
}

fn bind_prepared(
    artifact: &CheckpointArtifactV1,
    step_index: usize,
    prepared: &PreparedReplay,
    capture: &ReplayCapture,
    snapshot: &ReplaySnapshot,
    execution: Option<&ReplayExecution>,
    context: ReplayContextV1,
) -> (r: Result<ReplayBinding, ReplayError>)
    requires
        step_index < artifact@.da.pages.len(),
    ensures
        outcome_model(r) == prepared_witness(
            artifact@,
            step_index as nat,
            *prepared,
            capture@,
            *snapshot,
            execution,
            context,
        ),
{
    let execution = match execution {
        Some(execution) => execution,
        None => {
            return Err(ReplayError::ReexecutionFailed);
        },
    };
    if !execution.succeeded || execution.executed_units != prepared.executed_units
        || execution.loaded_accounts_data_size as u64 != capture.loaded_accounts_data_size
        || execution.transaction_fee != capture.transaction_fee || execution.prioritization_fee
        != capture.prioritization_fee || execution.accounts.len() != capture.accounts.len() {
        return Err(ReplayError::ExecutionMismatch);
    }
    if !check_post_state(&capture.accounts, &execution.accounts) {
        return Err(ReplayError::PostStateMismatch);
    }
    let (programdata_id, program_elf) = match find_program_code(
        &snapshot.accounts,
        &prepared.program,
    ) {
        Ok(code) => code,
        Err(error) => {
            return Err(error);
        },
    };
    if !execution.trace_supported {
        return Err(ReplayError::UnsupportedTrace);
    }
    let features = match &snapshot.features {
        Some(features) => features,
        None => {
            return Err(ReplayError::FeatureEncoding);
        },
    };
    let page = &artifact.da.pages[step_index];
    assert(artifact@.da.pages[step_index as int] == page@);
    if page.readonly_l1_values.len() == 0 {
        return Err(ReplayError::ReadonlyObservationMissing);
    }
    assert(page@.readonly_l1_values[0] == page.readonly_l1_values@[0]@);
    let found = ReplayBinding {
        session_context: context.session_context,
        er_slot: artifact.checkpoint.er_slot,
        step_index: page.step_index as u64,
        agave_revision: context.agave_revision,
        northstar_revision: context.northstar_revision,
        vm_config_hash: context.vm_config_hash,
        syscall_registry_hash: context.syscall_registry_hash,
        feature_set_hash: hash_bytes(features),
        recent_blockhash: prepared.recent_blockhash,
        lamports_per_signature: snapshot.lamports_per_signature,
        slot: page.readonly_l1_values[0].value.observed_l1_slot,
        fee_payer: prepared.fee_payer,
        target: prepared.target,
        program_id: prepared.program,
        programdata_id,
        program_elf,
        transaction_effect: copy_items(&page.transaction_effect),
        transaction_effect_path: copy_path(&page.transaction_effect_path),
        checkpoint_transaction_effect_root: artifact.checkpoint.transaction_effect_root,
        readonly_l1_values: copy_readonly_values(&page.readonly_l1_values),
        readonly_l1_root: artifact.checkpoint.readonly_l1_root,
        settlement_effects: copy_settlement_effects(&page.settlement_effects),
        settlement_effect_root: artifact.checkpoint.effect_commitment,
    };
    assert(found@ =~= binding(
        artifact@,
        page@,
        *prepared,
        context,
        features@,
        snapshot.lamports_per_signature,
        (programdata_id, program_elf@),
    ));
    Ok(found)
}

/// What the replay of a step is bound to: everything that `prepare_replay` asks,
/// an execution that is the one committed to and leaves the accounts as they were
/// captured, the program's code, a trace that can be proved, encoded features, and
/// a read value. `execution` is `None` if the transaction could not be executed
/// again.
pub fn extract_replay_witness_v1(
    artifact: &CheckpointArtifactV1,
    step_index: usize,
    capture: Option<&ReplayCapture>,
    max_snapshot_bytes: usize,
    snapshot: Option<&ReplaySnapshot>,
    execution: Option<&ReplayExecution>,
    context: ReplayContextV1,
) -> (r: Result<ReplayBinding, ReplayError>)
    ensures
        outcome_model(r) == witness(
            artifact@,
            step_index as nat,
            capture_model(capture),
            max_snapshot_bytes,
            snapshot,
            execution,
            context,
        ),
{
    let prepared = match prepare_replay(
        artifact,
        step_index,
        capture,
        max_snapshot_bytes,
        snapshot,
    ) {
        Ok(prepared) => prepared,
        Err(error) => {
            return Err(error);
        },
    };
    proof {
        lemma_prepared(
            artifact@,
            step_index as nat,
            capture_model(capture),
            max_snapshot_bytes,
            snapshot_accounts(snapshot),
        );
    }
    match (capture, snapshot) {
        (Some(capture), Some(snapshot)) => bind_prepared(
            artifact,
            step_index,
            &prepared,
            capture,
            snapshot,
            execution,
            context,
        ),
        _ => Err(ReplayError::SnapshotMissing),
    }
}

/// Whether the public inputs of a replay are the expected ones. `public` is `None`
/// if the proof system's relation rejects the replay.
pub fn check_public_inputs(public: Option<&[u8; 256]>, expected: &[u8; 256]) -> (r: Result<
    (),
    ReplayError,
>)
    ensures
        r == (match public {
            None => Err::<(), ReplayError>(ReplayError::RelationRejected),
            Some(public) => if *public == *expected {
                Ok(())
            } else {
                Err(ReplayError::PublicInputsMismatch)
            },
        }),
{
    match public {
        None => Err(ReplayError::RelationRejected),
        Some(public) => {
            if same_array(public, expected) {
                Ok(())
            } else {
                Err(ReplayError::PublicInputsMismatch)
            }
        },
    }
}

/// A step is replayed only if the artifact is the one that its pages give and the
/// execution leaves every captured account as it was captured.
pub proof fn replays_are_of_committed_steps(
    artifact: ArtifactModel,
    step_index: nat,
    capture: Option<CaptureModel>,
    max_snapshot_bytes: usize,
    snapshot: Option<&ReplaySnapshot>,
    execution: Option<&ReplayExecution>,
    context: ReplayContextV1,
)
    requires
        witness(
            artifact,
            step_index,
            capture,
            max_snapshot_bytes,
            snapshot,
            execution,
            context,
        ) is Ok,
    ensures
        verification(artifact) is Ok,
        step_index < artifact.da.pages.len(),
        execution is Some && (execution->0).succeeded,
        post_state_matches((capture->0).accounts, keyed_models((execution->0).accounts@)),
{
}

} // verus!
