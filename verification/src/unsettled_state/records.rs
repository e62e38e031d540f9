//! What is stored of unsettled state, and how it is encoded.

use vstd::prelude::*;

use crate::codec::{holds_at, Codec};

verus! {

/// What a mutation does.
#[derive(Debug, Clone, Copy, PartialEq, Eq, Structural)]
pub enum MutationKind {
    Update,
}

/// Everything about a session that never changes. State is recovered only into
/// the session that it was written for.
#[derive(Debug, Clone, Copy, PartialEq, Eq)]
pub struct UnsettledSessionIdentity {
    pub format_version: u16,
    pub portal_program_id: [u8; 32],
    pub session_pda: [u8; 32],
    pub nonce: u128,
    pub created_at: u64,
    pub authority: [u8; 32],
    pub validator: [u8; 32],
    pub grid_id: u64,
    pub ttl_slots: u64,
    pub fee_cap: u64,
    pub settlement_interval_slots: u64,
    pub bump: u8,
}

/// An account as it is stored.
#[derive(Debug, Clone, PartialEq, Eq)]
pub struct PersistedAccount {
    pub pubkey: [u8; 32],
    pub lamports: u64,
    pub data: Vec<u8>,
    pub owner: [u8; 32],
    pub executable: bool,
    pub rent_epoch: u64,
}

/// What a `PersistedAccount` holds.
#[verifier::ext_equal]
pub struct PersistedAccountModel {
    pub pubkey: [u8; 32],
    pub lamports: u64,
    pub data: Seq<u8>,
    pub owner: [u8; 32],
    pub executable: bool,
    pub rent_epoch: u64,
}

impl View for PersistedAccount {
    type V = PersistedAccountModel;

    open spec fn view(&self) -> PersistedAccountModel {
        PersistedAccountModel {
            pubkey: self.pubkey,
            lamports: self.lamports,
            data: self.data@,
            owner: self.owner,
            executable: self.executable,
            rent_epoch: self.rent_epoch,
        }
    }
}

/// A withdrawal on the rollup that layer one owes a payout for.
#[derive(Debug, Clone, Copy, PartialEq, Eq)]
pub struct WithdrawalPayoutEvent {
    pub er_source: [u8; 32],
    pub l1_recipient: [u8; 32],
    pub lamports: u64,
    pub cumulative_withdrawn: u64,
    pub signature: [u8; 64],
    pub er_slot: u64,
}

/// A transaction that was processed, and the slot in which it was.
#[derive(Debug, Clone, Copy, PartialEq, Eq)]
pub struct PersistedSignature {
    pub signature: [u8; 64],
    pub slot: u64,
}

/// An account of a stored state, under its address.
#[derive(Debug, Clone, PartialEq, Eq)]
pub struct AccountEntry {
    pub key: [u8; 32],
    pub account: PersistedAccount,
}

/// What a `AccountEntry` holds.
#[verifier::ext_equal]
pub struct AccountEntryModel {
    pub key: [u8; 32],
    pub account: PersistedAccountModel,
}

impl View for AccountEntry {
    type V = AccountEntryModel;

    open spec fn view(&self) -> AccountEntryModel {
        AccountEntryModel {
            key: self.key,
            account: self.account@,
        }
    }
}

/// A state as it is stored, its accounts and signatures in order.
#[derive(Debug, Clone, PartialEq, Eq)]
pub struct StateImage {
    pub accounts: Vec<AccountEntry>,
    pub touched_accounts: Vec<[u8; 32]>,
    pub payout_events: Vec<WithdrawalPayoutEvent>,
    pub processed_signatures: Vec<PersistedSignature>,
}

/// What a `StateImage` holds.
#[verifier::ext_equal]
pub struct StateImageModel {
    pub accounts: Seq<AccountEntryModel>,
    pub touched_accounts: Seq<[u8; 32]>,
    pub payout_events: Seq<WithdrawalPayoutEvent>,
    pub processed_signatures: Seq<PersistedSignature>,
}

impl View for StateImage {
    type V = StateImageModel;

    open spec fn view(&self) -> StateImageModel {
        StateImageModel {
            accounts: self.accounts@.map_values(|item: AccountEntry| item@),
            touched_accounts: self.touched_accounts@,
            payout_events: self.payout_events@,
            processed_signatures: self.processed_signatures@,
        }
    }
}

/// A state of a session, and the last journal record that it includes.
#[derive(Debug, Clone, PartialEq, Eq)]
pub struct Snapshot {
    pub identity: UnsettledSessionIdentity,
    pub last_sequence: u64,
    pub state: StateImage,
}

/// What a `Snapshot` holds.
#[verifier::ext_equal]
pub struct SnapshotModel {
    pub identity: UnsettledSessionIdentity,
    pub last_sequence: u64,
    pub state: StateImageModel,
}

impl View for Snapshot {
    type V = SnapshotModel;

    open spec fn view(&self) -> SnapshotModel {
        SnapshotModel {
            identity: self.identity,
            last_sequence: self.last_sequence,
            state: self.state@,
        }
    }
}

/// What one update changes.
#[derive(Debug, Clone, PartialEq, Eq)]
pub struct Mutation {
    pub kind: MutationKind,
    pub accounts: Vec<PersistedAccount>,
    pub touched_accounts: Vec<[u8; 32]>,
    pub payout_events: Option<Vec<WithdrawalPayoutEvent>>,
    pub processed_signatures: Vec<PersistedSignature>,
}

/// What a `Mutation` holds.
#[verifier::ext_equal]
pub struct MutationModel {
    pub kind: MutationKind,
    pub accounts: Seq<PersistedAccountModel>,
    pub touched_accounts: Seq<[u8; 32]>,
    pub payout_events: Option<Seq<WithdrawalPayoutEvent>>,
    pub processed_signatures: Seq<PersistedSignature>,
}

impl View for Mutation {
    type V = MutationModel;

    open spec fn view(&self) -> MutationModel {
        MutationModel {
            kind: self.kind,
            accounts: self.accounts@.map_values(|item: PersistedAccount| item@),
            touched_accounts: self.touched_accounts@,
            payout_events: match self.payout_events {
                Some(items) => Some(items@),
                None => None,
            },
            processed_signatures: self.processed_signatures@,
        }
    }
}

/// One update, with its place in the journal.
#[derive(Debug, Clone, PartialEq, Eq)]
pub struct JournalRecord {
    pub sequence: u64,
    pub mutation: Mutation,
}

/// What a `JournalRecord` holds.
#[verifier::ext_equal]
pub struct RecordModel {
    pub sequence: u64,
    pub mutation: MutationModel,
}

impl View for JournalRecord {
    type V = RecordModel;

    open spec fn view(&self) -> RecordModel {
        RecordModel {
            sequence: self.sequence,
            mutation: self.mutation@,
        }
    }
}

impl Codec for MutationKind {
    type Model = MutationKind;

    open spec fn model(&self) -> MutationKind {
        *self
    }

    open spec fn encodable(m: MutationKind) -> bool {
        true
    }

    open spec fn wire(m: MutationKind) -> Seq<u8> {
        seq![0u8]
    }

    proof fn prefix_free(a: MutationKind, b: MutationKind, bytes: Seq<u8>, pos: int) {
    }

    fn encode(&self, out: &mut Vec<u8>) -> (ok: bool) {
        out.push(0);
        assert(out@ =~= old(out)@ + seq![0u8]);
        true
    }

    fn decode(bytes: &[u8], pos: usize) -> (r: Option<(Self, usize)>) {
        if pos >= bytes.len() {
            return None;
        }
        assert(bytes@.subrange(pos as int, pos + 1) =~= seq![bytes@[pos as int]]);
        assert(forall|m: MutationKind|
            holds_at(bytes@, pos as int, #[trigger] Self::wire(m)) ==> Self::wire(m)[0]
                == bytes@[pos as int]);
        if bytes[pos] == 0 {
            Some((MutationKind::Update, pos + 1))
        } else {
            None
        }
    }
}

/// The fields of a session identity, in the order in which they are written.
pub type IdentityFields =
    (u16, ([u8; 32], ([u8; 32], (u128, (u64, ([u8; 32], ([u8; 32], (u64, (u64, (u64, (u64,
    u8)))))))))));

pub open spec fn identity_fields(m: UnsettledSessionIdentity) -> <IdentityFields as Codec>::Model {
    (m.format_version, (m.portal_program_id, (m.session_pda, (m.nonce, (m.created_at,
    (m.authority, (m.validator, (m.grid_id, (m.ttl_slots, (m.fee_cap,
    (m.settlement_interval_slots, m.bump)))))))))))
}

impl Codec for UnsettledSessionIdentity {
    type Model = UnsettledSessionIdentity;

    open spec fn model(&self) -> UnsettledSessionIdentity {
        *self
    }

    open spec fn encodable(m: UnsettledSessionIdentity) -> bool {
        IdentityFields::encodable(identity_fields(m))
    }

    open spec fn wire(m: UnsettledSessionIdentity) -> Seq<u8> {
        IdentityFields::wire(identity_fields(m))
    }

    proof fn prefix_free(
        a: UnsettledSessionIdentity,
        b: UnsettledSessionIdentity,
        bytes: Seq<u8>,
        pos: int,
    ) {
        IdentityFields::prefix_free(identity_fields(a), identity_fields(b), bytes, pos);
    }

    fn encode(&self, out: &mut Vec<u8>) -> (ok: bool) {
        self.format_version.encode(out)
            && self.portal_program_id.encode(out)
            && self.session_pda.encode(out)
            && self.nonce.encode(out)
            && self.created_at.encode(out)
            && self.authority.encode(out)
            && self.validator.encode(out)
            && self.grid_id.encode(out)
            && self.ttl_slots.encode(out)
            && self.fee_cap.encode(out)
            && self.settlement_interval_slots.encode(out)
            && self.bump.encode(out)
    }

    fn decode(bytes: &[u8], pos: usize) -> (r: Option<(Self, usize)>) {
        match IdentityFields::decode(bytes, pos) {
            Some((fields, end)) => {
                let
                    (format_version, (portal_program_id, (session_pda,
                    (nonce, (created_at, (authority, (validator, (grid_id,
                    (ttl_slots, (fee_cap, (settlement_interval_slots,
                    bump))))))))))): IdentityFields = fields;
                let value = UnsettledSessionIdentity {
                    format_version,
                    portal_program_id,
                    session_pda,
                    nonce,
                    created_at,
                    authority,
                    validator,
                    grid_id,
                    ttl_slots,
                    fee_cap,
                    settlement_interval_slots,
                    bump,
                };
                Some((value, end))
            },
            None => None,
        }
    }
}

/// The fields of a stored account, in the order in which they are written.
pub type AccountFields = ([u8; 32], (u64, (Vec<u8>, ([u8; 32], (bool, u64)))));

pub open spec fn account_fields(m: PersistedAccountModel) -> <AccountFields as Codec>::Model {
    (m.pubkey, (m.lamports, (m.data, (m.owner, (m.executable, m.rent_epoch)))))
}

impl Codec for PersistedAccount {
    type Model = PersistedAccountModel;

    open spec fn model(&self) -> PersistedAccountModel {
        self@
    }

    open spec fn encodable(m: PersistedAccountModel) -> bool {
        AccountFields::encodable(account_fields(m))
    }

    open spec fn wire(m: PersistedAccountModel) -> Seq<u8> {
        AccountFields::wire(account_fields(m))
    }

    proof fn prefix_free(
        a: PersistedAccountModel,
        b: PersistedAccountModel,
        bytes: Seq<u8>,
        pos: int,
    ) {
        AccountFields::prefix_free(account_fields(a), account_fields(b), bytes, pos);
        assert(a =~= b);
    }

    fn encode(&self, out: &mut Vec<u8>) -> (ok: bool) {
        assert(self.data.model() =~= self@.data);
        self.pubkey.encode(out)
            && self.lamports.encode(out)
            && self.data.encode(out)
            && self.owner.encode(out)
            && self.executable.encode(out)
            && self.rent_epoch.encode(out)
    }

    fn decode(bytes: &[u8], pos: usize) -> (r: Option<(Self, usize)>) {
        match AccountFields::decode(bytes, pos) {
            Some(((pubkey, (lamports, (data, (owner, (executable, rent_epoch))))), end)) => {
                let value = PersistedAccount {
                    pubkey,
                    lamports,
                    data,
                    owner,
                    executable,
                    rent_epoch,
                };
                assert(value.data.model() =~= value@.data);
                Some((value, end))
            },
            None => None,
        }
    }
}

/// The fields of a payout event, in the order in which they are written.
pub type PayoutFields = ([u8; 32], ([u8; 32], (u64, (u64, ([u8; 64], u64)))));

pub open spec fn payout_fields(m: WithdrawalPayoutEvent) -> <PayoutFields as Codec>::Model {
    (m.er_source, (m.l1_recipient, (m.lamports, (m.cumulative_withdrawn, (m.signature,
    m.er_slot)))))
}

impl Codec for WithdrawalPayoutEvent {
    type Model = WithdrawalPayoutEvent;

    open spec fn model(&self) -> WithdrawalPayoutEvent {
        *self
    }

    open spec fn encodable(m: WithdrawalPayoutEvent) -> bool {
        PayoutFields::encodable(payout_fields(m))
    }

    open spec fn wire(m: WithdrawalPayoutEvent) -> Seq<u8> {
        PayoutFields::wire(payout_fields(m))
    }

    proof fn prefix_free(
        a: WithdrawalPayoutEvent,
        b: WithdrawalPayoutEvent,
        bytes: Seq<u8>,
        pos: int,
    ) {
        PayoutFields::prefix_free(payout_fields(a), payout_fields(b), bytes, pos);
    }

    fn encode(&self, out: &mut Vec<u8>) -> (ok: bool) {
        self.er_source.encode(out)
            && self.l1_recipient.encode(out)
            && self.lamports.encode(out)
            && self.cumulative_withdrawn.encode(out)
            && self.signature.encode(out)
            && self.er_slot.encode(out)
    }

    fn decode(bytes: &[u8], pos: usize) -> (r: Option<(Self, usize)>) {
        match PayoutFields::decode(bytes, pos) {
            Some((fields, end)) => {
                let
                    (er_source, (l1_recipient, (lamports,
                    (cumulative_withdrawn, (signature, er_slot))))): PayoutFields = fields;
                let value = WithdrawalPayoutEvent {
                    er_source,
                    l1_recipient,
                    lamports,
                    cumulative_withdrawn,
                    signature,
                    er_slot,
                };
                Some((value, end))
            },
            None => None,
        }
    }
}

/// The fields of a stored signature, in the order in which they are written.
pub type SignatureFields = ([u8; 64], u64);

pub open spec fn signature_fields(m: PersistedSignature) -> <SignatureFields as Codec>::Model {
    (m.signature, m.slot)
}

impl Codec for PersistedSignature {
    type Model = PersistedSignature;

    open spec fn model(&self) -> PersistedSignature {
        *self
    }

    open spec fn encodable(m: PersistedSignature) -> bool {
        SignatureFields::encodable(signature_fields(m))
    }

    open spec fn wire(m: PersistedSignature) -> Seq<u8> {
        SignatureFields::wire(signature_fields(m))
    }

    proof fn prefix_free(a: PersistedSignature, b: PersistedSignature, bytes: Seq<u8>, pos: int) {
        SignatureFields::prefix_free(signature_fields(a), signature_fields(b), bytes, pos);
    }

    fn encode(&self, out: &mut Vec<u8>) -> (ok: bool) {
        self.signature.encode(out) && self.slot.encode(out)
    }

    fn decode(bytes: &[u8], pos: usize) -> (r: Option<(Self, usize)>) {
        match SignatureFields::decode(bytes, pos) {
            Some(((signature, slot), end)) => {
                Some((PersistedSignature { signature, slot }, end))
            },
            None => None,
        }
    }
}

/// The fields of an account entry, in the order in which they are written.
pub type EntryFields = ([u8; 32], PersistedAccount);

pub open spec fn entry_fields(m: AccountEntryModel) -> <EntryFields as Codec>::Model {
    (m.key, m.account)
}

impl Codec for AccountEntry {
    type Model = AccountEntryModel;

    open spec fn model(&self) -> AccountEntryModel {
        self@
    }

    open spec fn encodable(m: AccountEntryModel) -> bool {
        EntryFields::encodable(entry_fields(m))
    }

    open spec fn wire(m: AccountEntryModel) -> Seq<u8> {
        EntryFields::wire(entry_fields(m))
    }

    proof fn prefix_free(a: AccountEntryModel, b: AccountEntryModel, bytes: Seq<u8>, pos: int) {
        EntryFields::prefix_free(entry_fields(a), entry_fields(b), bytes, pos);
        assert(a =~= b);
    }

    fn encode(&self, out: &mut Vec<u8>) -> (ok: bool) {
        self.key.encode(out) && self.account.encode(out)
    }

    fn decode(bytes: &[u8], pos: usize) -> (r: Option<(Self, usize)>) {
        match EntryFields::decode(bytes, pos) {
            Some(((key, account), end)) => {
                Some((AccountEntry { key, account }, end))
            },
            None => None,
        }
    }
}

/// The fields of a state image, in the order in which they are written.
pub type ImageFields =
    (Vec<AccountEntry>, (Vec<[u8; 32]>, (Vec<WithdrawalPayoutEvent>, Vec<PersistedSignature>)));

pub open spec fn image_fields(m: StateImageModel) -> <ImageFields as Codec>::Model {
    (m.accounts, (m.touched_accounts, (m.payout_events, m.processed_signatures)))
}

impl Codec for StateImage {
    type Model = StateImageModel;

    open spec fn model(&self) -> StateImageModel {
        self@
    }

    open spec fn encodable(m: StateImageModel) -> bool {
        ImageFields::encodable(image_fields(m))
    }

    open spec fn wire(m: StateImageModel) -> Seq<u8> {
        ImageFields::wire(image_fields(m))
    }

    proof fn prefix_free(a: StateImageModel, b: StateImageModel, bytes: Seq<u8>, pos: int) {
        ImageFields::prefix_free(image_fields(a), image_fields(b), bytes, pos);
        assert(a =~= b);
    }

    fn encode(&self, out: &mut Vec<u8>) -> (ok: bool) {
        assert(self.accounts.model() =~= self@.accounts);
        assert(self.touched_accounts.model() =~= self@.touched_accounts);
        assert(self.payout_events.model() =~= self@.payout_events);
        assert(self.processed_signatures.model() =~= self@.processed_signatures);
        self.accounts.encode(out)
            && self.touched_accounts.encode(out)
            && self.payout_events.encode(out)
            && self.processed_signatures.encode(out)
    }

    fn decode(bytes: &[u8], pos: usize) -> (r: Option<(Self, usize)>) {
        match ImageFields::decode(bytes, pos) {
            Some(((accounts, (touched_accounts, (payout_events, processed_signatures))), end)) => {
                let value = StateImage {
                    accounts,
                    touched_accounts,
                    payout_events,
                    processed_signatures,
                };
                assert(value.accounts.model() =~= value@.accounts);
                assert(value.touched_accounts.model() =~= value@.touched_accounts);
                assert(value.payout_events.model() =~= value@.payout_events);
                assert(value.processed_signatures.model() =~= value@.processed_signatures);
                Some((value, end))
            },
            None => None,
        }
    }
}

/// The fields of a snapshot, in the order in which they are written.
pub type SnapshotFields = (UnsettledSessionIdentity, (u64, StateImage));

pub open spec fn snapshot_fields(m: SnapshotModel) -> <SnapshotFields as Codec>::Model {
    (m.identity, (m.last_sequence, m.state))
}

impl Codec for Snapshot {
    type Model = SnapshotModel;

    open spec fn model(&self) -> SnapshotModel {
        self@
    }

    open spec fn encodable(m: SnapshotModel) -> bool {
        SnapshotFields::encodable(snapshot_fields(m))
    }

    open spec fn wire(m: SnapshotModel) -> Seq<u8> {
        SnapshotFields::wire(snapshot_fields(m))
    }

    proof fn prefix_free(a: SnapshotModel, b: SnapshotModel, bytes: Seq<u8>, pos: int) {
        SnapshotFields::prefix_free(snapshot_fields(a), snapshot_fields(b), bytes, pos);
        assert(a =~= b);
    }

    fn encode(&self, out: &mut Vec<u8>) -> (ok: bool) {
        self.identity.encode(out) && self.last_sequence.encode(out) && self.state.encode(out)
    }

    fn decode(bytes: &[u8], pos: usize) -> (r: Option<(Self, usize)>) {
        match SnapshotFields::decode(bytes, pos) {
            Some(((identity, (last_sequence, state)), end)) => {
                Some((Snapshot { identity, last_sequence, state }, end))
            },
            None => None,
        }
    }
}

/// The fields of a mutation, in the order in which they are written.
pub type MutationFields =
    (MutationKind, (Vec<PersistedAccount>, (Vec<[u8; 32]>, (Option<Vec<WithdrawalPayoutEvent>>,
    Vec<PersistedSignature>))));

pub open spec fn mutation_fields(m: MutationModel) -> <MutationFields as Codec>::Model {
    (m.kind, (m.accounts, (m.touched_accounts, (m.payout_events, m.processed_signatures))))
}

impl Codec for Mutation {
    type Model = MutationModel;

    open spec fn model(&self) -> MutationModel {
        self@
    }

    open spec fn encodable(m: MutationModel) -> bool {
        MutationFields::encodable(mutation_fields(m))
    }

    open spec fn wire(m: MutationModel) -> Seq<u8> {
        MutationFields::wire(mutation_fields(m))
    }

    proof fn prefix_free(a: MutationModel, b: MutationModel, bytes: Seq<u8>, pos: int) {
        MutationFields::prefix_free(mutation_fields(a), mutation_fields(b), bytes, pos);
        assert(a =~= b);
    }

    fn encode(&self, out: &mut Vec<u8>) -> (ok: bool) {
        assert(self.accounts.model() =~= self@.accounts);
        assert(self.touched_accounts.model() =~= self@.touched_accounts);
        assert(self.processed_signatures.model() =~= self@.processed_signatures);
        proof {
            if let Some(items) = &self.payout_events {
                assert(items.model() =~= items@);
            }
        }
        self.kind.encode(out)
            && self.accounts.encode(out)
            && self.touched_accounts.encode(out)
            && self.payout_events.encode(out)
            && self.processed_signatures.encode(out)
    }

    fn decode(bytes: &[u8], pos: usize) -> (r: Option<(Self, usize)>) {
        match MutationFields::decode(bytes, pos) {
            Some((fields, end)) => {
                let
                    (kind, (accounts, (touched_accounts, (payout_events,
                    processed_signatures)))): MutationFields = fields;
                let value = Mutation {
                    kind,
                    accounts,
                    touched_accounts,
                    payout_events,
                    processed_signatures,
                };
                assert(value.accounts.model() =~= value@.accounts);
                assert(value.touched_accounts.model() =~= value@.touched_accounts);
                assert(value.processed_signatures.model() =~= value@.processed_signatures);
                proof {
                    if let Some(items) = &value.payout_events {
                        assert(items.model() =~= items@);
                    }
                }
                Some((value, end))
            },
            None => None,
        }
    }
}

/// The fields of a journal record, in the order in which they are written.
pub type RecordFields = (u64, Mutation);

pub open spec fn record_fields(m: RecordModel) -> <RecordFields as Codec>::Model {
    (m.sequence, m.mutation)
}

impl Codec for JournalRecord {
    type Model = RecordModel;

    open spec fn model(&self) -> RecordModel {
        self@
    }

    open spec fn encodable(m: RecordModel) -> bool {
        RecordFields::encodable(record_fields(m))
    }

    open spec fn wire(m: RecordModel) -> Seq<u8> {
        RecordFields::wire(record_fields(m))
    }

    proof fn prefix_free(a: RecordModel, b: RecordModel, bytes: Seq<u8>, pos: int) {
        RecordFields::prefix_free(record_fields(a), record_fields(b), bytes, pos);
        assert(a =~= b);
    }

    fn encode(&self, out: &mut Vec<u8>) -> (ok: bool) {
        self.sequence.encode(out) && self.mutation.encode(out)
    }

    fn decode(bytes: &[u8], pos: usize) -> (r: Option<(Self, usize)>) {
        match RecordFields::decode(bytes, pos) {
            Some(((sequence, mutation), end)) => {
                Some((JournalRecord { sequence, mutation }, end))
            },
            None => None,
        }
    }
}

} // verus!
