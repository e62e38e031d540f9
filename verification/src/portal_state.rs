//! Accounts of the portal program on layer one.

use vstd::prelude::*;

use crate::accounts::Pubkey;

verus! {

/// Where a session stands between settlements.
#[derive(Debug, Clone, Copy, PartialEq, Eq)]
pub enum SettlementStatus {
    Idle,
    InProgress,
}

/// Where a checkpoint stands.
#[derive(Debug, Clone, Copy, PartialEq, Eq)]
pub enum CheckpointStatus {
    Pending,
    Committed,
    Challenged,
    Settled,
    Cancelled,
    Invalid,
}

/// A session of the rollup. `valid` says whether the account passes the portal
/// program's own check.
#[derive(Debug, Clone, Copy, PartialEq, Eq)]
pub struct Session {
    pub valid: bool,
    pub grid_id: u64,
    pub ttl_slots: u64,
    pub fee_cap: u64,
    pub created_at: u64,
    pub nonce: u128,
    pub authority: Pubkey,
    pub validator: Pubkey,
    pub settlement_interval_slots: u64,
    pub last_settled_l1_slot: u64,
    pub last_settled_er_slot: u64,
    pub settlement_status: SettlementStatus,
    pub settlement_er_slot: u64,
    pub settlement_checksum: [u8; 32],
    pub settlement_started_l1_slot: u64,
}

/// That an account is delegated to the rollup. `valid` says whether the account
/// passes the portal program's own check.
#[derive(Debug, Clone, Copy, PartialEq, Eq)]
pub struct DelegationRecord {
    pub valid: bool,
    pub owner_program: Pubkey,
    pub grid_id: u64,
}

/// What a recipient has deposited into a session.
#[derive(Debug, Clone, Copy, PartialEq, Eq)]
pub struct DepositReceipt {
    pub session: Pubkey,
    pub recipient: Pubkey,
    pub balance: u64,
    pub withdrawn: u64,
}

/// A proposed state of the rollup. `valid` says whether the account passes the
/// portal program's own check.
#[derive(Debug, Clone, Copy, PartialEq, Eq)]
pub struct Checkpoint {
    pub valid: bool,
    pub session: Pubkey,
    pub er_slot: u64,
    pub previous_state_root: [u8; 32],
    pub new_state_root: [u8; 32],
    pub effect_commitment: [u8; 32],
    pub proposer: Pubkey,
    pub proposed_at_l1_slot: u64,
    pub challenge_deadline_l1_slot: u64,
    pub status: CheckpointStatus,
    pub challenged_at_l1_slot: u64,
}

/// The last final checkpoint of a session.
#[derive(Debug, Clone, Copy, PartialEq, Eq)]
pub struct CheckpointCursor {
    pub session: Pubkey,
    pub latest_finalized_er_slot: u64,
    pub latest_finalized_state_root: [u8; 32],
}

/// Any account of the portal program. Accounts of which nothing is read carry
/// no value.
#[derive(Debug, Clone, Copy, PartialEq, Eq)]
pub enum PortalAccount {
    Session(Session),
    FeeVault,
    DelegationRecord(DelegationRecord),
    DepositReceipt(DepositReceipt),
    Checkpoint(Checkpoint),
    CheckpointCursor(CheckpointCursor),
    Challenge,
    DataAvailabilityProof,
    StepProofAccount,
    SessionBridge,
    TokenWithdrawalAuthorization,
    UndelegationRequest,
}

/// The kinds of accounts.
#[derive(Debug, Clone, Copy, PartialEq, Eq)]
pub enum PortalAccountKind {
    Session,
    FeeVault,
    DelegationRecord,
    DepositReceipt,
    Checkpoint,
    CheckpointCursor,
    Challenge,
    DataAvailabilityProof,
    StepProofAccount,
    SessionBridge,
    TokenWithdrawalAuthorization,
    UndelegationRequest,
}

/// The bytes that the data of each kind of account starts with.
#[derive(Debug, Clone, PartialEq, Eq)]
pub struct Discriminators {
    pub session: Vec<u8>,
    pub fee_vault: Vec<u8>,
    pub delegation_record: Vec<u8>,
    pub deposit_receipt: Vec<u8>,
    pub checkpoint: Vec<u8>,
    pub checkpoint_cursor: Vec<u8>,
    pub challenge: Vec<u8>,
    pub data_availability_proof: Vec<u8>,
    pub step_proof_account: Vec<u8>,
    pub session_bridge: Vec<u8>,
    pub token_withdrawal_authorization: Vec<u8>,
    pub undelegation_request: Vec<u8>,
}

/// Whether `data` starts with `prefix`.
pub open spec fn begins_with(data: Seq<u8>, prefix: Seq<u8>) -> bool {
    prefix.len() <= data.len() && data.subrange(0, prefix.len() as int) == prefix
}

/// The kind of the account with this data: the first one, in the order of
/// `PortalAccountKind`, whose discriminator the data starts with.
pub open spec fn kind_of(data: Seq<u8>, discriminators: Discriminators) -> Option<PortalAccountKind> {
    if begins_with(data, discriminators.session@) {
        Some(PortalAccountKind::Session)
    } else if begins_with(data, discriminators.fee_vault@) {
        Some(PortalAccountKind::FeeVault)
    } else if begins_with(data, discriminators.delegation_record@) {
        Some(PortalAccountKind::DelegationRecord)
    } else if begins_with(data, discriminators.deposit_receipt@) {
        Some(PortalAccountKind::DepositReceipt)
    } else if begins_with(data, discriminators.checkpoint@) {
        Some(PortalAccountKind::Checkpoint)
    } else if begins_with(data, discriminators.checkpoint_cursor@) {
        Some(PortalAccountKind::CheckpointCursor)
    } else if begins_with(data, discriminators.challenge@) {
        Some(PortalAccountKind::Challenge)
    } else if begins_with(data, discriminators.data_availability_proof@) {
        Some(PortalAccountKind::DataAvailabilityProof)
    } else if begins_with(data, discriminators.step_proof_account@) {
        Some(PortalAccountKind::StepProofAccount)
    } else if begins_with(data, discriminators.session_bridge@) {
        Some(PortalAccountKind::SessionBridge)
    } else if begins_with(data, discriminators.token_withdrawal_authorization@) {
        Some(PortalAccountKind::TokenWithdrawalAuthorization)
    } else if begins_with(data, discriminators.undelegation_request@) {
        Some(PortalAccountKind::UndelegationRequest)
    } else {
        None
    }
}

fn has_prefix(data: &[u8], prefix: &Vec<u8>) -> (r: bool)
    ensures
        r == begins_with(data@, prefix@),
{
    if prefix.len() > data.len() {
        return false;
    }
    let mut i: usize = 0;
    while i < prefix.len()
        invariant
            i <= prefix@.len() <= data@.len(),
            forall|j: int| 0 <= j < i ==> prefix@[j] == data@[j],
        decreases prefix@.len() - i,
    {
        if data[i] != prefix[i] {
            assert(data@.subrange(0, prefix@.len() as int)[i as int] != prefix@[i as int]);
            return false;
        }
        i += 1;
    }
    assert(data@.subrange(0, prefix@.len() as int) =~= prefix@);
    true
}

/// The kind of the account with this data.
pub fn portal_account_kind(data: &[u8], discriminators: &Discriminators) -> (r: Option<
    PortalAccountKind,
>)
    ensures
        r == kind_of(data@, *discriminators),
{
    if has_prefix(data, &discriminators.session) {
        Some(PortalAccountKind::Session)
    } else if has_prefix(data, &discriminators.fee_vault) {
        Some(PortalAccountKind::FeeVault)
    } else if has_prefix(data, &discriminators.delegation_record) {
        Some(PortalAccountKind::DelegationRecord)
    } else if has_prefix(data, &discriminators.deposit_receipt) {
        Some(PortalAccountKind::DepositReceipt)
    } else if has_prefix(data, &discriminators.checkpoint) {
        Some(PortalAccountKind::Checkpoint)
    } else if has_prefix(data, &discriminators.checkpoint_cursor) {
        Some(PortalAccountKind::CheckpointCursor)
    } else if has_prefix(data, &discriminators.challenge) {
        Some(PortalAccountKind::Challenge)
    } else if has_prefix(data, &discriminators.data_availability_proof) {
        Some(PortalAccountKind::DataAvailabilityProof)
    } else if has_prefix(data, &discriminators.step_proof_account) {
        Some(PortalAccountKind::StepProofAccount)
    } else if has_prefix(data, &discriminators.session_bridge) {
        Some(PortalAccountKind::SessionBridge)
    } else if has_prefix(data, &discriminators.token_withdrawal_authorization) {
        Some(PortalAccountKind::TokenWithdrawalAuthorization)
    } else if has_prefix(data, &discriminators.undelegation_request) {
        Some(PortalAccountKind::UndelegationRequest)
    } else {
        None
    }
}

/// What the layouts of the kinds make of one account's data. A layout that does
/// not fit gives `None` or `false`.
#[derive(Debug, Clone, Copy, PartialEq, Eq)]
pub struct Readings {
    pub session: Option<Session>,
    pub fee_vault: bool,
    pub delegation_record: Option<DelegationRecord>,
    pub deposit_receipt: Option<DepositReceipt>,
    pub checkpoint: Option<Checkpoint>,
    pub checkpoint_cursor: Option<CheckpointCursor>,
    pub challenge: bool,
    pub data_availability_proof: bool,
    pub step_proof_account: bool,
    pub session_bridge: bool,
    pub token_withdrawal_authorization: bool,
    pub undelegation_request: bool,
}

/// The account as its kind's layout reads it.
pub open spec fn reading_of(kind: PortalAccountKind, readings: Readings) -> Option<PortalAccount> {
    let marked = |fits: bool, account: PortalAccount| if fits { Some(account) } else { None };
    match kind {
        PortalAccountKind::Session => match readings.session {
            Some(session) => Some(PortalAccount::Session(session)),
            None => None,
        },
        PortalAccountKind::DelegationRecord => match readings.delegation_record {
            Some(record) => Some(PortalAccount::DelegationRecord(record)),
            None => None,
        },
        PortalAccountKind::DepositReceipt => match readings.deposit_receipt {
            Some(receipt) => Some(PortalAccount::DepositReceipt(receipt)),
            None => None,
        },
        PortalAccountKind::Checkpoint => match readings.checkpoint {
            Some(checkpoint) => Some(PortalAccount::Checkpoint(checkpoint)),
            None => None,
        },
        PortalAccountKind::CheckpointCursor => match readings.checkpoint_cursor {
            Some(cursor) => Some(PortalAccount::CheckpointCursor(cursor)),
            None => None,
        },
        PortalAccountKind::FeeVault => marked(readings.fee_vault, PortalAccount::FeeVault),
        PortalAccountKind::Challenge => marked(readings.challenge, PortalAccount::Challenge),
        PortalAccountKind::DataAvailabilityProof => marked(
            readings.data_availability_proof,
            PortalAccount::DataAvailabilityProof,
        ),
        PortalAccountKind::StepProofAccount => marked(
            readings.step_proof_account,
            PortalAccount::StepProofAccount,
        ),
        PortalAccountKind::SessionBridge => marked(
            readings.session_bridge,
            PortalAccount::SessionBridge,
        ),
        PortalAccountKind::TokenWithdrawalAuthorization => marked(
            readings.token_withdrawal_authorization,
            PortalAccount::TokenWithdrawalAuthorization,
        ),
        PortalAccountKind::UndelegationRequest => marked(
            readings.undelegation_request,
            PortalAccount::UndelegationRequest,
        ),
    }
}

fn marked(fits: bool, account: PortalAccount) -> (r: Option<PortalAccount>)
    ensures
        r == (if fits { Some(account) } else { None::<PortalAccount> }),
{
    if fits {
        Some(account)
    } else {
        None
    }
}

/// The portal account in `data`: what the layout of its kind reads. `None` if
/// the data starts with no discriminator, or if the layout of the kind it starts
/// with does not fit.
pub fn try_parse_raw_portal_account(
    data: &[u8],
    discriminators: &Discriminators,
    readings: &Readings,
) -> (r: Option<PortalAccount>)
    ensures
        r == (match kind_of(data@, *discriminators) {
            Some(kind) => reading_of(kind, *readings),
            None => None,
        }),
{
    match portal_account_kind(data, discriminators) {
        None => None,
        Some(PortalAccountKind::Session) => match readings.session {
            Some(session) => Some(PortalAccount::Session(session)),
            None => None,
        },
        Some(PortalAccountKind::DelegationRecord) => match readings.delegation_record {
            Some(record) => Some(PortalAccount::DelegationRecord(record)),
            None => None,
        },
        Some(PortalAccountKind::DepositReceipt) => match readings.deposit_receipt {
            Some(receipt) => Some(PortalAccount::DepositReceipt(receipt)),
            None => None,
        },
        Some(PortalAccountKind::Checkpoint) => match readings.checkpoint {
            Some(checkpoint) => Some(PortalAccount::Checkpoint(checkpoint)),
            None => None,
        },
        Some(PortalAccountKind::CheckpointCursor) => match readings.checkpoint_cursor {
            Some(cursor) => Some(PortalAccount::CheckpointCursor(cursor)),
            None => None,
        },
        Some(PortalAccountKind::FeeVault) => marked(readings.fee_vault, PortalAccount::FeeVault),
        Some(PortalAccountKind::Challenge) => marked(readings.challenge, PortalAccount::Challenge),
        Some(PortalAccountKind::DataAvailabilityProof) => marked(
            readings.data_availability_proof,
            PortalAccount::DataAvailabilityProof,
        ),
        Some(PortalAccountKind::StepProofAccount) => marked(
            readings.step_proof_account,
            PortalAccount::StepProofAccount,
        ),
        Some(PortalAccountKind::SessionBridge) => marked(
            readings.session_bridge,
            PortalAccount::SessionBridge,
        ),
        Some(PortalAccountKind::TokenWithdrawalAuthorization) => marked(
            readings.token_withdrawal_authorization,
            PortalAccount::TokenWithdrawalAuthorization,
        ),
        Some(PortalAccountKind::UndelegationRequest) => marked(
            readings.undelegation_request,
            PortalAccount::UndelegationRequest,
        ),
    }
}

/// The discriminator of a kind.
pub open spec fn discriminator_of(kind: PortalAccountKind, all: Discriminators) -> Seq<u8> {
    match kind {
        PortalAccountKind::Session => all.session@,
        PortalAccountKind::FeeVault => all.fee_vault@,
        PortalAccountKind::DelegationRecord => all.delegation_record@,
        PortalAccountKind::DepositReceipt => all.deposit_receipt@,
        PortalAccountKind::Checkpoint => all.checkpoint@,
        PortalAccountKind::CheckpointCursor => all.checkpoint_cursor@,
        PortalAccountKind::Challenge => all.challenge@,
        PortalAccountKind::DataAvailabilityProof => all.data_availability_proof@,
        PortalAccountKind::StepProofAccount => all.step_proof_account@,
        PortalAccountKind::SessionBridge => all.session_bridge@,
        PortalAccountKind::TokenWithdrawalAuthorization => all.token_withdrawal_authorization@,
        PortalAccountKind::UndelegationRequest => all.undelegation_request@,
    }
}

/// The data starts with the discriminator of a kind.
pub open spec fn starts_as(data: Seq<u8>, kind: PortalAccountKind, all: Discriminators) -> bool {
    let prefix = discriminator_of(kind, all);
    prefix.len() <= data.len() && data.take(prefix.len() as int) == prefix
}

/// Data has a kind if and only if it starts with a discriminator, and has that kind if no
/// other discriminator fits.
pub proof fn data_starts_with_its_discriminator(
    data: Seq<u8>,
    all: Discriminators,
    kind: PortalAccountKind,
)
    ensures
        kind_of(data, all) == Some(kind) ==> starts_as(data, kind, all),
        starts_as(data, kind, all) ==> kind_of(data, all) is Some,
        starts_as(data, kind, all) && (forall|other: PortalAccountKind|
            other != kind ==> !#[trigger] starts_as(data, other, all)) ==> kind_of(data, all)
            == Some(kind),
{
    let prefix = discriminator_of(kind, all);
    if prefix.len() <= data.len() {
        assert(data.take(prefix.len() as int) =~= data.subrange(0, prefix.len() as int));
    }
    assert(starts_as(data, kind, all) == begins_with(data, prefix));
    if let Some(found) = kind_of(data, all) {
        let there = discriminator_of(found, all);
        assert(data.take(there.len() as int) =~= data.subrange(0, there.len() as int));
        assert(starts_as(data, found, all));
    }
}

/// The account is of a kind.
pub open spec fn is_of_kind(account: PortalAccount, kind: PortalAccountKind) -> bool {
    match kind {
        PortalAccountKind::Session => account is Session,
        PortalAccountKind::FeeVault => account is FeeVault,
        PortalAccountKind::DelegationRecord => account is DelegationRecord,
        PortalAccountKind::DepositReceipt => account is DepositReceipt,
        PortalAccountKind::Checkpoint => account is Checkpoint,
        PortalAccountKind::CheckpointCursor => account is CheckpointCursor,
        PortalAccountKind::Challenge => account is Challenge,
        PortalAccountKind::DataAvailabilityProof => account is DataAvailabilityProof,
        PortalAccountKind::StepProofAccount => account is StepProofAccount,
        PortalAccountKind::SessionBridge => account is SessionBridge,
        PortalAccountKind::TokenWithdrawalAuthorization => account is TokenWithdrawalAuthorization,
        PortalAccountKind::UndelegationRequest => account is UndelegationRequest,
    }
}

/// An account reads as what its own kind's layout makes of it, and as nothing if that
/// does not fit: the other layouts have no say.
pub proof fn accounts_are_read_by_their_own_layout(
    kind: PortalAccountKind,
    readings: Readings,
    account: PortalAccount,
)
    ensures
        reading_of(kind, readings) == Some(account) ==> is_of_kind(account, kind),
        reading_of(PortalAccountKind::Session, readings) == Some(account)
            <==> readings.session is Some && account == PortalAccount::Session(
            readings.session->0,
        ),
        reading_of(PortalAccountKind::DelegationRecord, readings) == Some(account)
            <==> readings.delegation_record is Some && account == PortalAccount::DelegationRecord(
            readings.delegation_record->0,
        ),
        reading_of(PortalAccountKind::DepositReceipt, readings) == Some(account)
            <==> readings.deposit_receipt is Some && account == PortalAccount::DepositReceipt(
            readings.deposit_receipt->0,
        ),
        reading_of(PortalAccountKind::Checkpoint, readings) == Some(account)
            <==> readings.checkpoint is Some && account == PortalAccount::Checkpoint(
            readings.checkpoint->0,
        ),
        reading_of(PortalAccountKind::CheckpointCursor, readings) == Some(account)
            <==> readings.checkpoint_cursor is Some && account == PortalAccount::CheckpointCursor(
            readings.checkpoint_cursor->0,
        ),
        reading_of(PortalAccountKind::FeeVault, readings) is Some <==> readings.fee_vault,
        reading_of(PortalAccountKind::Challenge, readings) is Some <==> readings.challenge,
        reading_of(PortalAccountKind::DataAvailabilityProof, readings) is Some
            <==> readings.data_availability_proof,
        reading_of(PortalAccountKind::StepProofAccount, readings) is Some
            <==> readings.step_proof_account,
        reading_of(PortalAccountKind::SessionBridge, readings) is Some <==> readings.session_bridge,
        reading_of(PortalAccountKind::TokenWithdrawalAuthorization, readings) is Some
            <==> readings.token_withdrawal_authorization,
        reading_of(PortalAccountKind::UndelegationRequest, readings) is Some
            <==> readings.undelegation_request,
{
}

} // verus!
