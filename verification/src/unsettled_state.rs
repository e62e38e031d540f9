//! Crash-durable storage of rollup state that has not been settled yet.
//!
//! Every update is written to a journal before it takes effect, and a snapshot
//! of the whole state replaces the journal from time to time. A session starts
//! from what is stored only if it was stored for exactly that session.
//!
//! The store decides what is to be written and what is recovered. Whoever owns
//! the files does the reading and writing, in the order that the methods name.

use vstd::prelude::*;

pub use records::{UnsettledSessionIdentity, WithdrawalPayoutEvent};
pub use state::RecoveredUnsettledState;

use crate::accounts::{Account, Pubkey};
use crate::codec::{encodes, encodings_are_unique, from_bytes, same_array, to_bytes, Codec};
use crate::unsettled_state::journal::{
    appended_records_are_read_back, encode_record, frame, journal_records, read_journal, readable,
    record_models,
};
use crate::unsettled_state::records::{
    JournalRecord, Mutation, MutationKind, MutationModel, PersistedAccount, PersistedSignature,
    RecordModel, Snapshot, SnapshotModel, StateImageModel,
};
use crate::unsettled_state::state::{
    applied, empty_state, image_state, images_are_read_back, is_image_of, is_recovery_of,
    lists_keys, stored_account, PersistedState, StateModel,
};

pub mod dispositions;
pub mod journal;
pub mod outcome;
pub mod records;
pub mod state;

verus! {

/// The version of the stored format.
pub const FORMAT_VERSION: u16 = 2;

/// The name of the file that holds the snapshot.
pub const SNAPSHOT_FILE: &'static str = "state.borsh";

/// The name of the file that holds the journal.
pub const JOURNAL_FILE: &'static str = "journal.bin";

/// A journal of this many records is replaced by a snapshot.
pub const COMPACT_RECORDS: usize = 128;

/// A journal of this many bytes is replaced by a snapshot.
pub const COMPACT_BYTES: u64 = 16_777_216;

/// How a session started.
#[derive(Debug, Clone, Copy, PartialEq, Eq, Structural)]
pub enum RecoveryDisposition {
    New,
    Recovered,
    DroppedIdentityMismatch,
    DroppedCorrupt,
}

/// How a session started, and from which state.
#[derive(Debug, Clone, PartialEq, Eq)]
pub struct RecoveryOutcome {
    pub disposition: RecoveryDisposition,
    pub state: RecoveredUnsettledState,
}

/// What a portal session account says about a session.
#[derive(Debug, Clone, Copy, PartialEq, Eq)]
pub struct SessionTerms {
    pub nonce: u128,
    pub created_at: u64,
    pub authority: Pubkey,
    pub validator: Pubkey,
    pub grid_id: u64,
    pub ttl_slots: u64,
    pub fee_cap: u64,
    pub settlement_interval_slots: u64,
    pub bump: u8,
}

impl UnsettledSessionIdentity {
    /// The identity of a session.
    pub fn new(portal_program_id: Pubkey, session_pda: Pubkey, session: &SessionTerms) -> (identity:
        UnsettledSessionIdentity)
        ensures
            identity == (UnsettledSessionIdentity {
                format_version: FORMAT_VERSION,
                portal_program_id,
                session_pda,
                nonce: session.nonce,
                created_at: session.created_at,
                authority: session.authority,
                validator: session.validator,
                grid_id: session.grid_id,
                ttl_slots: session.ttl_slots,
                fee_cap: session.fee_cap,
                settlement_interval_slots: session.settlement_interval_slots,
                bump: session.bump,
            }),
    {
        UnsettledSessionIdentity {
            format_version: FORMAT_VERSION,
            portal_program_id,
            session_pda,
            nonce: session.nonce,
            created_at: session.created_at,
            authority: session.authority,
            validator: session.validator,
            grid_id: session.grid_id,
            ttl_slots: session.ttl_slots,
            fee_cap: session.fee_cap,
            settlement_interval_slots: session.settlement_interval_slots,
            bump: session.bump,
        }
    }

    /// Whether two identities agree in everything.
    pub fn same(&self, other: &UnsettledSessionIdentity) -> (same: bool)
        ensures
            same == (*self == *other),
    {
        self.format_version == other.format_version && same_array(
            &self.portal_program_id,
            &other.portal_program_id,
        ) && same_array(&self.session_pda, &other.session_pda) && self.nonce == other.nonce
            && self.created_at == other.created_at && same_array(&self.authority, &other.authority)
            && same_array(&self.validator, &other.validator) && self.grid_id == other.grid_id
            && self.ttl_slots == other.ttl_slots && self.fee_cap == other.fee_cap
            && self.settlement_interval_slots == other.settlement_interval_slots && self.bump
            == other.bump
    }
}

/// What was found of a file.
#[derive(Debug, Clone, PartialEq, Eq)]
pub enum FileState {
    Missing,
    /// It is there but could not be read.
    Unreadable,
    Contents(Vec<u8>),
}

/// What a `FileState` holds.
pub enum FileModel {
    Missing,
    Unreadable,
    Contents(Seq<u8>),
}

impl View for FileState {
    type V = FileModel;

    open spec fn view(&self) -> FileModel {
        match self {
            FileState::Missing => FileModel::Missing,
            FileState::Unreadable => FileModel::Unreadable,
            FileState::Contents(bytes) => FileModel::Contents(bytes@),
        }
    }
}

/// What was found on disk.
#[derive(Debug, Clone, PartialEq, Eq)]
pub struct StoredFiles {
    pub snapshot: FileState,
    pub journal: FileState,
    /// The length of the journal file.
    pub journal_len: u64,
}

/// What a `StoredFiles` holds.
pub struct FilesModel {
    pub snapshot: FileModel,
    pub journal: FileModel,
    pub journal_len: u64,
}

impl View for StoredFiles {
    type V = FilesModel;

    open spec fn view(&self) -> FilesModel {
        FilesModel {
            snapshot: self.snapshot@,
            journal: self.journal@,
            journal_len: self.journal_len,
        }
    }
}

/// The beginning of a session: from which state and journal position it goes
/// on, and whether the files have to be reset first.
#[verifier::ext_equal]
pub struct SessionModel {
    pub disposition: RecoveryDisposition,
    pub sequence: u64,
    pub state: StateModel,
    pub replayed: nat,
    pub journal_bytes: u64,
    pub reset: bool,
}

/// A session that starts from nothing.
pub open spec fn fresh_session(disposition: RecoveryDisposition, reset: bool) -> SessionModel {
    SessionModel {
        disposition,
        sequence: 0,
        state: empty_state(),
        replayed: 0,
        journal_bytes: 0,
        reset,
    }
}

/// Where the journal leads from a state that includes all records up to `last`:
/// the last sequence number, the state, and how many records were applied. There
/// is no way where a record is missing.
pub open spec fn replay(last: u64, state: StateModel, records: Seq<RecordModel>) -> Option<
    (u64, StateModel, nat),
>
    decreases records.len(),
{
    if records.len() == 0 {
        Some((last, state, 0))
    } else {
        let record = records[0];
        let rest = records.drop_first();
        if record.sequence <= last {
            replay(last, state, rest)
        } else if record.sequence != last + 1 {
            None
        } else {
            match replay(record.sequence, applied(state, record.mutation), rest) {
                Some((end, state, n)) => Some((end, state, n + 1)),
                None => None,
            }
        }
    }
}

/// The snapshot that the bytes encode.
pub open spec fn snapshot_of(bytes: Seq<u8>) -> SnapshotModel {
    choose|snapshot: SnapshotModel| encodes::<Snapshot>(snapshot, bytes)
}

/// The session that goes on from a snapshot and a journal.
pub open spec fn recovered_session(snapshot: SnapshotModel, files: FilesModel) -> SessionModel {
    let state = image_state(snapshot.state);
    match files.journal {
        FileModel::Missing => SessionModel {
            disposition: RecoveryDisposition::Recovered,
            sequence: snapshot.last_sequence,
            state,
            replayed: 0,
            journal_bytes: 0,
            reset: false,
        },
        FileModel::Unreadable => fresh_session(RecoveryDisposition::DroppedCorrupt, true),
        FileModel::Contents(bytes) => match journal_records(bytes) {
            None => fresh_session(RecoveryDisposition::DroppedCorrupt, true),
            Some(records) => match replay(snapshot.last_sequence, state, records) {
                None => fresh_session(RecoveryDisposition::DroppedCorrupt, true),
                Some((sequence, state, replayed)) => SessionModel {
                    disposition: RecoveryDisposition::Recovered,
                    sequence,
                    state,
                    replayed,
                    journal_bytes: files.journal_len,
                    reset: false,
                },
            },
        },
    }
}

/// The session that starts from what was found on disk.
pub open spec fn session_of(
    stored: bool,
    identity: UnsettledSessionIdentity,
    files: FilesModel,
) -> SessionModel {
    if !stored {
        fresh_session(RecoveryDisposition::New, false)
    } else {
        match files.snapshot {
            FileModel::Missing => if !(files.journal is Missing) && files.journal_len > 0 {
                fresh_session(RecoveryDisposition::DroppedCorrupt, true)
            } else {
                fresh_session(RecoveryDisposition::New, true)
            },
            FileModel::Unreadable => fresh_session(RecoveryDisposition::DroppedCorrupt, true),
            FileModel::Contents(bytes) => if exists|s: SnapshotModel| encodes::<Snapshot>(s, bytes) {
                let snapshot = snapshot_of(bytes);
                if snapshot.identity == identity {
                    recovered_session(snapshot, files)
                } else {
                    fresh_session(RecoveryDisposition::DroppedIdentityMismatch, true)
                }
            } else {
                fresh_session(RecoveryDisposition::DroppedCorrupt, true)
            },
        }
    }
}

/// A session that is ready to start.
pub struct SessionStart {
    identity: UnsettledSessionIdentity,
    disposition: RecoveryDisposition,
    state: PersistedState,
    sequence: u64,
    replayed: usize,
    journal_bytes: u64,
    reset: Option<Vec<u8>>,
}

impl SessionStart {
    pub closed spec fn reset_bytes(&self) -> Option<Seq<u8>> {
        match self.reset {
            Some(bytes) => Some(bytes@),
            None => None,
        }
    }

    /// Where the files have to be reset, the snapshot that is to be written
    /// once the journal has been removed.
    pub fn reset(&self) -> (r: Option<&Vec<u8>>)
        ensures
            match r {
                Some(bytes) => self.reset_bytes() == Some(bytes@),
                None => self.reset_bytes() is None,
            },
    {
        match &self.reset {
            Some(bytes) => Some(bytes),
            None => None,
        }
    }

    pub closed spec fn well_formed(&self) -> bool {
        self.state.well_formed()
    }

    pub closed spec fn identity(&self) -> UnsettledSessionIdentity {
        self.identity
    }

    pub closed spec fn session(&self) -> SessionModel {
        SessionModel {
            disposition: self.disposition,
            sequence: self.sequence,
            state: self.state@,
            replayed: self.replayed as nat,
            journal_bytes: self.journal_bytes,
            reset: self.reset is Some,
        }
    }
}

/// What is stored of a state.
pub open spec fn is_snapshot_of(
    snapshot: SnapshotModel,
    identity: UnsettledSessionIdentity,
    sequence: u64,
    state: StateModel,
) -> bool {
    &&& snapshot.identity == identity
    &&& snapshot.last_sequence == sequence
    &&& is_image_of(snapshot.state, state)
}

/// The bytes that are stored of a state.
pub open spec fn stores(
    bytes: Seq<u8>,
    identity: UnsettledSessionIdentity,
    sequence: u64,
    state: StateModel,
) -> bool {
    exists|snapshot: SnapshotModel|
        {
            &&& #[trigger] encodes::<Snapshot>(snapshot, bytes)
            &&& is_snapshot_of(snapshot, identity, sequence, state)
        }
}

/// Why an update or a snapshot cannot be written.
#[derive(Debug, Clone, Copy, PartialEq, Eq, Structural)]
pub enum StoreError {
    /// Some part of it is too long to be encoded.
    Encoding,
}

/// The snapshot of a state, or `Encoding` if the state is too large for one.
fn encode_snapshot(identity: &UnsettledSessionIdentity, sequence: u64, state: &PersistedState) -> (r:
    Result<Vec<u8>, StoreError>)
    requires
        state.well_formed(),
    ensures
        match r {
            Ok(bytes) => stores(bytes@, *identity, sequence, state@),
            Err(_) => exists|snapshot: SnapshotModel|
                #[trigger] is_snapshot_of(snapshot, *identity, sequence, state@)
                    && !Snapshot::encodable(snapshot),
        },
{
    let snapshot = Snapshot { identity: *identity, last_sequence: sequence, state: state.image() };
    assert(is_snapshot_of(snapshot@, *identity, sequence, state@));
    match to_bytes(&snapshot) {
        Some(bytes) => Ok(bytes),
        None => Err(StoreError::Encoding),
    }
}

/// Replays the records onto the state.
fn replay_records(last: u64, state: &mut PersistedState, records: &Vec<JournalRecord>) -> (r:
    Option<(u64, usize)>)
    requires
        old(state).well_formed(),
    ensures
        final(state).well_formed(),
        match r {
            Some((end, n)) => replay(last, old(state)@, record_models(records@)) == Some(
                (end, final(state)@, n as nat),
            ),
            None => replay(last, old(state)@, record_models(records@)) is None,
        },
{
    let ghost ms = record_models(records@);
    let ghost whole = replay(last, old(state)@, ms);
    let mut sequence: u64 = last;
    let mut replayed: usize = 0;
    let mut i: usize = 0;
    assert(ms.skip(0) =~= ms);
    while i < records.len()
        invariant
            i <= records@.len(),
            replayed <= i,
            state.well_formed(),
            ms == record_models(records@),
            whole == replay(last, old(state)@, ms),
            whole == (match replay(sequence, state@, ms.skip(i as int)) {
                Some((end, state, n)) => Some((end, state, n + replayed as nat)),
                None => None,
            }),
        decreases records@.len() - i,
    {
        let record = &records[i];
        assert(ms.skip(i as int)[0] == record@);
        assert(ms.skip(i as int).drop_first() =~= ms.skip(i + 1));
        i += 1;
        if record.sequence <= sequence {
            continue;
        }
        if record.sequence != sequence.saturating_add(1) {
            return None;
        }
        state.apply(&record.mutation);
        sequence = record.sequence;
        replayed += 1;
    }
    assert(ms.skip(i as int).len() == 0);
    Some((sequence, replayed))
}

/// What an active session has stored.
struct ActiveStore {
    identity: UnsettledSessionIdentity,
    state: PersistedState,
    sequence: u64,
    records_since_compaction: usize,
    journal_bytes: u64,
}

/// What is known of an active session.
#[verifier::ext_equal]
pub struct ActiveModel {
    pub identity: UnsettledSessionIdentity,
    pub state: StateModel,
    pub sequence: u64,
    pub records_since_compaction: usize,
    pub journal_bytes: u64,
}

/// What an active session knows once it has started.
pub open spec fn active_of(
    identity: UnsettledSessionIdentity,
    session: SessionModel,
) -> ActiveModel {
    ActiveModel {
        identity,
        state: session.state,
        sequence: session.sequence,
        records_since_compaction: session.replayed as usize,
        journal_bytes: session.journal_bytes,
    }
}

/// What an active session knows once a record of this many bytes has been written.
pub open spec fn committed(active: ActiveModel, record: RecordModel, bytes: nat) -> ActiveModel {
    ActiveModel {
        identity: active.identity,
        state: applied(active.state, record.mutation),
        sequence: record.sequence,
        records_since_compaction: (active.records_since_compaction + 1) as usize,
        journal_bytes: saturating_sum(active.journal_bytes, bytes),
    }
}

/// What an active session knows once its journal has been emptied.
pub open spec fn compacted(active: ActiveModel) -> ActiveModel {
    ActiveModel { records_since_compaction: 0, journal_bytes: 0, ..active }
}

/// The next record of an active session.
pub open spec fn next_record(active: ActiveModel, mutation: MutationModel) -> RecordModel {
    RecordModel { sequence: next_sequence(active.sequence), mutation }
}

/// The store of a validator.
pub struct UnsettledStateStore {
    dir: Option<String>,
    active: Option<ActiveStore>,
    writes_enabled: bool,
}

/// What an `UnsettledStateStore` holds.
#[verifier::ext_equal]
pub struct StoreModel {
    pub dir: Option<Seq<char>>,
    pub active: Option<ActiveModel>,
    pub writes_enabled: bool,
}

impl View for UnsettledStateStore {
    type V = StoreModel;

    closed spec fn view(&self) -> StoreModel {
        StoreModel {
            dir: match self.dir {
                Some(dir) => Some(dir@),
                None => None,
            },
            active: match self.active {
                Some(active) => Some(
                    ActiveModel {
                        identity: active.identity,
                        state: active.state@,
                        sequence: active.sequence,
                        records_since_compaction: active.records_since_compaction,
                        journal_bytes: active.journal_bytes,
                    },
                ),
                None => None,
            },
            writes_enabled: self.writes_enabled,
        }
    }
}

/// An update that has to be written to the journal before it takes effect.
pub struct PendingUpdate {
    record: JournalRecord,
    frame: Vec<u8>,
}

impl PendingUpdate {
    pub closed spec fn frame_bytes(&self) -> Seq<u8> {
        self.frame@
    }

    /// The bytes to append to the journal.
    pub fn frame(&self) -> (bytes: &Vec<u8>)
        ensures
            bytes@ == self.frame_bytes(),
    {
        &self.frame
    }

    pub closed spec fn record(&self) -> RecordModel {
        self.record@
    }
}

/// What an update holds.
pub open spec fn mutation_of(
    accounts: Seq<(Pubkey, Account)>,
    touched_accounts: Seq<Pubkey>,
    payout_events: Option<Seq<WithdrawalPayoutEvent>>,
    processed_signatures: Seq<([u8; 64], u64)>,
) -> MutationModel {
    MutationModel {
        kind: MutationKind::Update,
        accounts: accounts.map_values(
            |entry: (Pubkey, Account)| stored_account(entry.0, entry.1@),
        ),
        touched_accounts,
        payout_events,
        processed_signatures: processed_signatures.map_values(
            |entry: ([u8; 64], u64)| PersistedSignature { signature: entry.0, slot: entry.1 },
        ),
    }
}

/// One more, unless there is no number left.
pub open spec fn next_sequence(sequence: u64) -> u64 {
    if sequence < u64::MAX {
        (sequence + 1) as u64
    } else {
        sequence
    }
}

/// The sum, or the greatest number if it is too large.
pub open spec fn saturating_sum(a: u64, b: nat) -> u64 {
    if a + b <= u64::MAX {
        (a + b) as u64
    } else {
        u64::MAX
    }
}

fn build_mutation(
    accounts: &Vec<(Pubkey, Account)>,
    touched_accounts: &Vec<Pubkey>,
    payout_events: Option<&Vec<WithdrawalPayoutEvent>>,
    processed_signatures: &Vec<([u8; 64], u64)>,
) -> (mutation: Mutation)
    ensures
        mutation@ == mutation_of(
            accounts@,
            touched_accounts@,
            match payout_events {
                Some(events) => Some(events@),
                None => None,
            },
            processed_signatures@,
        ),
{
    let ghost whole = mutation_of(
        accounts@,
        touched_accounts@,
        match payout_events {
            Some(events) => Some(events@),
            None => None,
        },
        processed_signatures@,
    );
    let mut stored: Vec<PersistedAccount> = Vec::new();
    let mut i: usize = 0;
    while i < accounts.len()
        invariant
            i <= accounts@.len(),
            whole.accounts == accounts@.map_values(
                |entry: (Pubkey, Account)| stored_account(entry.0, entry.1@),
            ),
            stored@.len() == i,
            forall|j: int| 0 <= j < i ==> (#[trigger] stored@[j])@ == whole.accounts[j],
        decreases accounts@.len() - i,
    {
        let entry = &accounts[i];
        stored.push(PersistedAccount::new(entry.0, &entry.1));
        i += 1;
    }
    let mut touched: Vec<[u8; 32]> = Vec::new();
    let mut i: usize = 0;
    while i < touched_accounts.len()
        invariant
            i <= touched_accounts@.len(),
            touched@ == touched_accounts@.take(i as int),
        decreases touched_accounts@.len() - i,
    {
        touched.push(touched_accounts[i]);
        i += 1;
        assert(touched@ =~= touched_accounts@.take(i as int));
    }
    let events: Option<Vec<WithdrawalPayoutEvent>> = match payout_events {
        Some(list) => {
            let mut copy: Vec<WithdrawalPayoutEvent> = Vec::new();
            let mut i: usize = 0;
            while i < list.len()
                invariant
                    i <= list@.len(),
                    copy@ == list@.take(i as int),
                decreases list@.len() - i,
            {
                copy.push(list[i]);
                i += 1;
                assert(copy@ =~= list@.take(i as int));
            }
            assert(copy@ =~= list@);
            Some(copy)
        },
        None => None,
    };
    let mut signatures: Vec<PersistedSignature> = Vec::new();
    let mut i: usize = 0;
    while i < processed_signatures.len()
        invariant
            i <= processed_signatures@.len(),
            signatures@.len() == i,
            forall|j: int|
                0 <= j < i ==> (#[trigger] signatures@[j]) == (PersistedSignature {
                    signature: processed_signatures@[j].0,
                    slot: processed_signatures@[j].1,
                }),
        decreases processed_signatures@.len() - i,
    {
        let entry = &processed_signatures[i];
        signatures.push(PersistedSignature { signature: entry.0, slot: entry.1 });
        i += 1;
    }
    let mutation = Mutation {
        kind: MutationKind::Update,
        accounts: stored,
        touched_accounts: touched,
        payout_events: events,
        processed_signatures: signatures,
    };
    assert(mutation@.accounts =~= whole.accounts);
    assert(mutation@.touched_accounts =~= whole.touched_accounts);
    assert(mutation@.processed_signatures =~= whole.processed_signatures);
    assert(mutation@ =~= whole);
    mutation
}

impl UnsettledStateStore {
    pub closed spec fn well_formed(&self) -> bool {
        self.active matches Some(active) ==> active.state.well_formed()
    }

    /// A store without a directory, in which nothing is active.
    pub fn new() -> (store: UnsettledStateStore)
        ensures
            store.well_formed(),
            store@ == (StoreModel { dir: None, active: None, writes_enabled: false }),
    {
        UnsettledStateStore { dir: None, active: None, writes_enabled: false }
    }

    /// Sets the directory that the files are in.
    pub fn configure(&mut self, dir: String)
        requires
            old(self).well_formed(),
        ensures
            final(self).well_formed(),
            final(self)@ == (StoreModel { dir: Some(dir@), ..old(self)@ }),
    {
        self.dir = Some(dir);
    }

    /// Lets updates be written from now on.
    pub fn enable_writes(&mut self)
        requires
            old(self).well_formed(),
        ensures
            final(self).well_formed(),
            final(self)@ == (StoreModel { writes_enabled: true, ..old(self)@ }),
    {
        self.writes_enabled = true;
    }

    /// Works out how a session starts from what was found on disk. Updates are
    /// not written until they are enabled again. Where the start asks for a
    /// reset, the journal is to be removed and the snapshot written before
    /// `start_session`.
    pub fn begin_session(&mut self, identity: UnsettledSessionIdentity, files: &StoredFiles) -> (start:
        SessionStart)
        requires
            old(self).well_formed(),
        ensures
            final(self).well_formed(),
            final(self)@ == (StoreModel { writes_enabled: false, ..old(self)@ }),
            start.well_formed(),
            start.identity() == identity,
            start.session() == session_of(old(self)@.dir is Some, identity, files@),
            start.session().reset == start.reset_bytes() is Some,
            start.reset_bytes() matches Some(bytes) ==> stores(bytes, identity, 0, empty_state()),
    {
        self.writes_enabled = false;
        if self.dir.is_none() {
            return SessionStart {
                identity,
                disposition: RecoveryDisposition::New,
                state: PersistedState::new(),
                sequence: 0,
                replayed: 0,
                journal_bytes: 0,
                reset: None,
            };
        }
        let disposition = match &files.snapshot {
            FileState::Missing => {
                let journal_exists = match &files.journal {
                    FileState::Missing => false,
                    _ => true,
                };
                if journal_exists && files.journal_len > 0 {
                    RecoveryDisposition::DroppedCorrupt
                } else {
                    RecoveryDisposition::New
                }
            },
            FileState::Unreadable => RecoveryDisposition::DroppedCorrupt,
            FileState::Contents(bytes) => match from_bytes::<Snapshot>(bytes.as_slice()) {
                None => RecoveryDisposition::DroppedCorrupt,
                Some(snapshot) => {
                    proof {
                        encodings_are_unique::<Snapshot>(
                            snapshot@,
                            snapshot_of(bytes@),
                            bytes@,
                        );
                    }
                    if !snapshot.identity.same(&identity) {
                        RecoveryDisposition::DroppedIdentityMismatch
                    } else {
                        match Self::recover(identity, &snapshot, files) {
                            Some(start) => {
                                return start;
                            },
                            None => RecoveryDisposition::DroppedCorrupt,
                        }
                    }
                },
            },
        };
        let state = PersistedState::new();
        let bytes = Self::empty_snapshot(&identity, &state);
        SessionStart {
            identity,
            disposition,
            state,
            sequence: 0,
            replayed: 0,
            journal_bytes: 0,
            reset: Some(bytes),
        }
    }

    /// The snapshot of a session in which nothing has happened.
    fn empty_snapshot(identity: &UnsettledSessionIdentity, state: &PersistedState) -> (bytes: Vec<
        u8,
    >)
        requires
            state.well_formed(),
            state@ == empty_state(),
        ensures
            stores(bytes@, *identity, 0, empty_state()),
    {
        let snapshot = Snapshot { identity: *identity, last_sequence: 0, state: state.image() };
        proof {
            lemma_empty_image(snapshot@.state);
        }
        match to_bytes(&snapshot) {
            Some(bytes) => {
                assert(is_snapshot_of(snapshot@, *identity, 0, empty_state()));
                bytes
            },
            None => Vec::new(),
        }
    }

    /// The session that goes on from a snapshot and the journal, or `None` if
    /// the journal does not follow it.
    fn recover(
        identity: UnsettledSessionIdentity,
        snapshot: &Snapshot,
        files: &StoredFiles,
    ) -> (r: Option<SessionStart>)
        ensures
            match r {
                Some(start) => {
                    &&& start.well_formed()
                    &&& start.identity() == identity
                    &&& start.reset_bytes() is None
                    &&& start.session() == recovered_session(snapshot@, files@)
                },
                None => recovered_session(snapshot@, files@) == fresh_session(
                    RecoveryDisposition::DroppedCorrupt,
                    true,
                ),
            },
    {
        let mut state = PersistedState::from_image(&snapshot.state);
        let (sequence, replayed, journal_bytes): (u64, usize, u64) = match &files.journal {
            FileState::Missing => (snapshot.last_sequence, 0, 0),
            FileState::Unreadable => {
                return None;
            },
            FileState::Contents(bytes) => match read_journal(bytes.as_slice()) {
                None => {
                    return None;
                },
                Some(records) => match replay_records(
                    snapshot.last_sequence,
                    &mut state,
                    &records,
                ) {
                    None => {
                        return None;
                    },
                    Some((sequence, replayed)) => (sequence, replayed, files.journal_len),
                },
            },
        };
        let start = SessionStart {
            identity,
            disposition: RecoveryDisposition::Recovered,
            state,
            sequence,
            replayed,
            journal_bytes,
            reset: None,
        };
        assert(start.session() =~= recovered_session(snapshot@, files@));
        Some(start)
    }

    /// Starts the session, once the files are as the start asks for.
    pub fn start_session(&mut self, start: SessionStart) -> (outcome: RecoveryOutcome)
        requires
            old(self).well_formed(),
            start.well_formed(),
        ensures
            final(self).well_formed(),
            final(self)@ == (StoreModel {
                active: Some(active_of(start.identity(), start.session())),
                ..old(self)@
            }),
            outcome.disposition == start.session().disposition,
            is_recovery_of(outcome.state, start.session().state),
    {
        let outcome = RecoveryOutcome {
            disposition: start.disposition,
            state: start.state.recovered(),
        };
        self.active = Some(
            ActiveStore {
                identity: start.identity,
                state: start.state,
                sequence: start.sequence,
                records_since_compaction: start.replayed,
                journal_bytes: start.journal_bytes,
            },
        );
        outcome
    }

    /// Prepares an update. Returns `None` if updates are not written, and
    /// `Encoding` if some part of the update is too long. The frame is to be
    /// appended to the journal, and the journal synced, before `commit_update`.
    pub fn append_update(
        &self,
        accounts: &Vec<(Pubkey, Account)>,
        touched_accounts: &Vec<Pubkey>,
        payout_events: Option<&Vec<WithdrawalPayoutEvent>>,
        processed_signatures: &Vec<([u8; 64], u64)>,
    ) -> (r: Result<Option<PendingUpdate>, StoreError>)
        requires
            self.well_formed(),
        ensures
            ({
                let writes = self@.writes_enabled && self@.dir is Some && self@.active is Some;
                let record = next_record(
                    self@.active->0,
                    mutation_of(
                        accounts@,
                        touched_accounts@,
                        match payout_events {
                            Some(events) => Some(events@),
                            None => None,
                        },
                        processed_signatures@,
                    ),
                );
                match r {
                    Ok(None) => !writes,
                    Ok(Some(pending)) => {
                        &&& writes
                        &&& JournalRecord::encodable(record)
                        &&& pending.record() == record
                        &&& pending.frame_bytes() == frame(record)
                    },
                    Err(_) => writes && !JournalRecord::encodable(record),
                }
            }),
    {
        if !self.writes_enabled || self.dir.is_none() {
            return Ok(None);
        }
        match &self.active {
            Some(active) => {
                let mutation = build_mutation(
                    accounts,
                    touched_accounts,
                    payout_events,
                    processed_signatures,
                );
                let record = JournalRecord { sequence: active.sequence.saturating_add(1), mutation };
                match encode_record(&record) {
                    Some(frame) => Ok(Some(PendingUpdate { record, frame })),
                    None => Err(StoreError::Encoding),
                }
            },
            None => Ok(None),
        }
    }

    /// Makes an update take effect that has been written. Returns whether the
    /// journal is to be replaced by a snapshot.
    pub fn commit_update(&mut self, pending: &PendingUpdate) -> (compact: bool)
        requires
            old(self).well_formed(),
            old(self)@.active is Some,
            old(self)@.active->0.records_since_compaction < usize::MAX,
        ensures
            final(self).well_formed(),
            final(self)@ == (StoreModel {
                active: Some(
                    committed(
                        old(self)@.active->0,
                        pending.record(),
                        pending.frame_bytes().len(),
                    ),
                ),
                ..old(self)@
            }),
            compact == (final(self)@.active->0.records_since_compaction >= COMPACT_RECORDS
                || final(self)@.active->0.journal_bytes >= COMPACT_BYTES),
    {
        match self.active.take() {
            Some(mut active) => {
                active.state.apply(&pending.record.mutation);
                active.sequence = pending.record.sequence;
                active.records_since_compaction = active.records_since_compaction + 1;
                active.journal_bytes = active.journal_bytes.saturating_add(
                    pending.frame.len() as u64,
                );
                let compact = active.records_since_compaction >= COMPACT_RECORDS
                    || active.journal_bytes >= COMPACT_BYTES;
                assert(pending.frame.len() as nat == pending.frame@.len());
                self.active = Some(active);
                compact
            },
            None => false,
        }
    }

    /// The snapshot that replaces the journal. It is to be written before the
    /// journal is emptied.
    pub fn compaction_snapshot(&self) -> (r: Result<Vec<u8>, StoreError>)
        requires
            self.well_formed(),
            self@.active is Some,
        ensures
            match r {
                Ok(bytes) => stores(
                    bytes@,
                    self@.active->0.identity,
                    self@.active->0.sequence,
                    self@.active->0.state,
                ),
                Err(_) => exists|snapshot: SnapshotModel|
                    #[trigger] is_snapshot_of(
                        snapshot,
                        self@.active->0.identity,
                        self@.active->0.sequence,
                        self@.active->0.state,
                    ) && !Snapshot::encodable(snapshot),
            },
    {
        match &self.active {
            Some(active) => {
                let ghost model = self@.active->0;
                assert(model.identity == active.identity && model.sequence == active.sequence
                    && model.state == active.state@);
                encode_snapshot(&active.identity, active.sequence, &active.state)
            },
            None => Err(StoreError::Encoding),
        }
    }

    /// Notes that the journal has been emptied.
    pub fn compact(&mut self)
        requires
            old(self).well_formed(),
            old(self)@.active is Some,
        ensures
            final(self).well_formed(),
            final(self)@ == (StoreModel {
                active: Some(compacted(old(self)@.active->0)),
                ..old(self)@
            }),
    {
        match self.active.take() {
            Some(mut active) => {
                active.records_since_compaction = 0;
                active.journal_bytes = 0;
                self.active = Some(active);
            },
            None => {},
        }
    }

    /// Forgets the session, once the files have been removed. Returns whether
    /// there was a directory to remove them from.
    pub fn clear(&mut self) -> (stored: bool)
        requires
            old(self).well_formed(),
        ensures
            final(self).well_formed(),
            final(self)@ == (StoreModel { active: None, writes_enabled: false, ..old(self)@ }),
            stored == (old(self)@.dir is Some),
    {
        self.active = None;
        self.writes_enabled = false;
        self.dir.is_some()
    }
}

proof fn lemma_empty_image(image: StateImageModel)
    requires
        is_image_of(image, empty_state()),
    ensures
        image.accounts.len() == 0,
        image.touched_accounts.len() == 0,
        image.payout_events.len() == 0,
        image.processed_signatures.len() == 0,
{
    if image.accounts.len() > 0 {
        let keys = image.accounts.map_values(
            |entry: crate::unsettled_state::records::AccountEntryModel| entry.key,
        );
        assert(keys.contains(keys[0]));
        assert(empty_state().accounts.contains_key(keys[0]));
    }
    if image.touched_accounts.len() > 0 {
        assert(image.touched_accounts.contains(image.touched_accounts[0]));
        assert(image.touched_accounts.to_set().contains(image.touched_accounts[0]));
    }
    if image.processed_signatures.len() > 0 {
        let keys = image.processed_signatures.map_values(
            |entry: PersistedSignature| entry.signature,
        );
        assert(keys.contains(keys[0]));
        assert(empty_state().processed_signatures.contains_key(keys[0]));
    }
}

/// What a journal file holds. One that is missing holds nothing.
pub open spec fn journal_contents(journal: FileModel) -> Option<Seq<u8>> {
    match journal {
        FileModel::Missing => Some(Seq::empty()),
        FileModel::Unreadable => None,
        FileModel::Contents(bytes) => Some(bytes),
    }
}

/// The bytes read as the snapshot of a state of a session.
pub open spec fn reads_as(
    bytes: Seq<u8>,
    identity: UnsettledSessionIdentity,
    sequence: u64,
    state: StateModel,
) -> bool {
    exists|snapshot: SnapshotModel|
        {
            &&& #[trigger] encodes::<Snapshot>(snapshot, bytes)
            &&& snapshot.identity == identity
            &&& snapshot.last_sequence == sequence
            &&& image_state(snapshot.state) == state
        }
}

/// The snapshot reads as a state of a session, and the journal leads from it to
/// another one.
pub open spec fn files_lead(
    files: FilesModel,
    identity: UnsettledSessionIdentity,
    from: u64,
    base: StateModel,
    sequence: u64,
    state: StateModel,
) -> bool {
    &&& files.snapshot matches FileModel::Contents(bytes)
    &&& reads_as(bytes, identity, from, base)
    &&& journal_contents(files.journal) matches Some(journal)
    &&& journal_records(journal) matches Some(records)
    &&& replay(from, base, records) matches Some((end, reached, _))
    &&& end == sequence
    &&& reached == state
}

/// The files hold a state of a session: the journal leads from the snapshot to
/// it.
pub open spec fn files_hold(
    files: FilesModel,
    identity: UnsettledSessionIdentity,
    sequence: u64,
    state: StateModel,
) -> bool {
    exists|from: u64, base: StateModel|
        #[trigger] files_lead(files, identity, from, base, sequence, state)
}

/// A session recovers the state that the files hold.
pub proof fn held_state_is_recovered(
    files: FilesModel,
    identity: UnsettledSessionIdentity,
    sequence: u64,
    state: StateModel,
)
    requires
        files_hold(files, identity, sequence, state),
    ensures
        session_of(true, identity, files).disposition == RecoveryDisposition::Recovered,
        session_of(true, identity, files).sequence == sequence,
        session_of(true, identity, files).state == state,
        !session_of(true, identity, files).reset,
{
    let bytes = files.snapshot->Contents_0;
    let (from, base) = choose|from: u64, base: StateModel|
        #[trigger] files_lead(files, identity, from, base, sequence, state);
    lemma_reads_as(bytes, identity, from, base);
}

proof fn lemma_reads_as(
    bytes: Seq<u8>,
    identity: UnsettledSessionIdentity,
    sequence: u64,
    state: StateModel,
)
    requires
        reads_as(bytes, identity, sequence, state),
    ensures
        exists|s: SnapshotModel| encodes::<Snapshot>(s, bytes),
        snapshot_of(bytes).identity == identity,
        snapshot_of(bytes).last_sequence == sequence,
        image_state(snapshot_of(bytes).state) == state,
{
    let snapshot = choose|snapshot: SnapshotModel|
        {
            &&& #[trigger] encodes::<Snapshot>(snapshot, bytes)
            &&& snapshot.identity == identity
            &&& snapshot.last_sequence == sequence
            &&& image_state(snapshot.state) == state
        };
    encodings_are_unique::<Snapshot>(snapshot, snapshot_of(bytes), bytes);
}

/// The snapshot that is written of a state reads as that state.
pub proof fn snapshots_are_read_back(
    bytes: Seq<u8>,
    identity: UnsettledSessionIdentity,
    sequence: u64,
    state: StateModel,
)
    requires
        stores(bytes, identity, sequence, state),
    ensures
        reads_as(bytes, identity, sequence, state),
{
    let snapshot = choose|snapshot: SnapshotModel|
        {
            &&& #[trigger] encodes::<Snapshot>(snapshot, bytes)
            &&& is_snapshot_of(snapshot, identity, sequence, state)
        };
    images_are_read_back(snapshot.state, state);
}

/// What is stored for one session is never recovered into another.
pub proof fn other_sessions_recover_nothing(
    files: FilesModel,
    identity: UnsettledSessionIdentity,
    other: UnsettledSessionIdentity,
    sequence: u64,
    state: StateModel,
)
    requires
        files_hold(files, identity, sequence, state),
        other != identity,
    ensures
        session_of(true, other, files) == fresh_session(
            RecoveryDisposition::DroppedIdentityMismatch,
            true,
        ),
{
    let bytes = files.snapshot->Contents_0;
    let (from, base) = choose|from: u64, base: StateModel|
        #[trigger] files_lead(files, identity, from, base, sequence, state);
    lemma_reads_as(bytes, identity, from, base);
}

/// A session whose identity differs in anything from the one that the files were
/// written for starts from nothing. Once its own snapshot has replaced the old one,
/// the old session starts from nothing as well, whatever has been written since:
/// its state does not come back.
pub proof fn dropped_sessions_stay_dropped(
    files: FilesModel,
    identity: UnsettledSessionIdentity,
    other: UnsettledSessionIdentity,
    sequence: u64,
    state: StateModel,
    after: FilesModel,
    snapshot: Seq<u8>,
    later: u64,
    written: StateModel,
)
    requires
        files_hold(files, identity, sequence, state),
        other != identity,
        after.snapshot == FileModel::Contents(snapshot),
        stores(snapshot, other, later, written),
    ensures
        session_of(true, other, files) == fresh_session(
            RecoveryDisposition::DroppedIdentityMismatch,
            true,
        ),
        session_of(true, identity, after) == fresh_session(
            RecoveryDisposition::DroppedIdentityMismatch,
            true,
        ),
        forall|recovered: RecoveredUnsettledState| #[trigger]
            is_recovery_of(recovered, session_of(true, other, files).state) ==> holds_nothing(
                recovered,
            ),
        forall|recovered: RecoveredUnsettledState| #[trigger]
            is_recovery_of(recovered, session_of(true, identity, after).state) ==> holds_nothing(
                recovered,
            ),
{
    other_sessions_recover_nothing(files, identity, other, sequence, state);
    snapshots_are_read_back(snapshot, other, later, written);
    lemma_reads_as(snapshot, other, later, written);
    assert forall|recovered: RecoveredUnsettledState| #[trigger]
        is_recovery_of(recovered, empty_state()) implies holds_nothing(recovered) by {
        lemma_empty_recovery(recovered);
    }
}

/// There are no accounts, touched accounts, payout events or signatures.
pub open spec fn holds_nothing(recovered: RecoveredUnsettledState) -> bool {
    &&& recovered.accounts@.len() == 0
    &&& recovered.touched_accounts@.len() == 0
    &&& recovered.payout_events@.len() == 0
    &&& recovered.processed_signatures@.len() == 0
}

proof fn lemma_empty_recovery(recovered: RecoveredUnsettledState)
    requires
        is_recovery_of(recovered, empty_state()),
    ensures
        holds_nothing(recovered),
{
    let keys = choose|keys: Seq<[u8; 32]>|
        #[trigger] lists_keys(keys, empty_state().accounts) && keys.len()
            == recovered.accounts@.len();
    if keys.len() > 0 {
        assert(keys.contains(keys[0]));
        assert(empty_state().accounts.contains_key(keys[0]));
    }
    let touched = recovered.touched_accounts@;
    if touched.len() > 0 {
        assert(touched.contains(touched[0]));
        assert(touched.to_set().contains(touched[0]));
    }
    let signatures = recovered.processed_signatures@.map_values(
        |entry: ([u8; 64], u64)| entry.0,
    );
    if signatures.len() > 0 {
        assert(signatures.contains(signatures[0]));
        assert(empty_state().processed_signatures.contains_key(signatures[0]));
    }
}

/// The state that the journal leads to.
spec fn replayed_state(last: u64, state: StateModel, records: Seq<RecordModel>) -> StateModel {
    match replay(last, state, records) {
        Some((_, reached, _)) => reached,
        None => state,
    }
}

/// The sequence number that the journal leads to.
spec fn replayed_to(last: u64, state: StateModel, records: Seq<RecordModel>) -> u64 {
    match replay(last, state, records) {
        Some((end, _, _)) => end,
        None => last,
    }
}

proof fn lemma_replay_push(
    last: u64,
    state: StateModel,
    records: Seq<RecordModel>,
    record: RecordModel,
)
    requires
        replay(last, state, records) matches Some((end, _, _)) && record.sequence == end + 1,
    ensures
        replay(last, state, records.push(record)) matches Some((end, reached, _)) && end
            == record.sequence && reached == applied(
            replayed_state(last, state, records),
            record.mutation,
        ),
    decreases records.len(),
{
    let all = records.push(record);
    if records.len() == 0 {
        assert(all.drop_first() =~= Seq::<RecordModel>::empty());
        assert(all[0] == record);
        assert(replay(record.sequence, applied(state, record.mutation), all.drop_first()) is Some);
    } else {
        let first = records[0];
        assert(all[0] == first);
        assert(all.drop_first() =~= records.drop_first().push(record));
        if first.sequence <= last {
            lemma_replay_push(last, state, records.drop_first(), record);
        } else {
            lemma_replay_push(
                first.sequence,
                applied(state, first.mutation),
                records.drop_first(),
                record,
            );
        }
    }
}

proof fn lemma_replay_covers(last: u64, state: StateModel, records: Seq<RecordModel>)
    requires
        replay(last, state, records) is Some,
    ensures
        replayed_to(last, state, records) >= last,
        forall|i: int|
            0 <= i < records.len() ==> (#[trigger] records[i]).sequence <= replayed_to(
                last,
                state,
                records,
            ),
    decreases records.len(),
{
    if records.len() > 0 {
        let first = records[0];
        let rest = records.drop_first();
        if first.sequence <= last {
            lemma_replay_covers(last, state, rest);
        } else {
            lemma_replay_covers(first.sequence, applied(state, first.mutation), rest);
        }
        assert forall|i: int| 0 <= i < records.len() implies (#[trigger] records[i]).sequence
            <= replayed_to(last, state, records) by {
            if i > 0 {
                assert(records[i] == rest[i - 1]);
            }
        }
    }
}

proof fn lemma_replay_skips(last: u64, state: StateModel, records: Seq<RecordModel>)
    requires
        forall|i: int| 0 <= i < records.len() ==> (#[trigger] records[i]).sequence <= last,
    ensures
        replay(last, state, records) == Some((last, state, 0nat)),
    decreases records.len(),
{
    if records.len() > 0 {
        let rest = records.drop_first();
        assert forall|i: int| 0 <= i < rest.len() implies (#[trigger] rest[i]).sequence <= last by {
            assert(rest[i] == records[i + 1]);
        }
        assert(records[0].sequence <= last);
        lemma_replay_skips(last, state, rest);
    }
}

/// Once the frame of the next update is in the journal, the files hold the
/// state after the update.
pub proof fn written_updates_are_held(
    files: FilesModel,
    identity: UnsettledSessionIdentity,
    sequence: u64,
    state: StateModel,
    mutation: MutationModel,
    after: FilesModel,
)
    requires
        files_hold(files, identity, sequence, state),
        sequence < u64::MAX,
        readable((RecordModel { sequence: next_sequence(sequence), mutation })),
        after.snapshot == files.snapshot,
        after.journal == FileModel::Contents(
            journal_contents(files.journal)->0 + frame(
                (RecordModel { sequence: next_sequence(sequence), mutation }),
            ),
        ),
    ensures
        files_hold(after, identity, next_sequence(sequence), applied(state, mutation)),
{
    let record = RecordModel { sequence: next_sequence(sequence), mutation };
    let journal = journal_contents(files.journal)->0;
    let (from, base) = choose|from: u64, base: StateModel|
        #[trigger] files_lead(files, identity, from, base, sequence, state);
    let records = journal_records(journal)->0;
    appended_records_are_read_back(journal, records, record);
    lemma_replay_push(from, base, records, record);
    assert(files_lead(
        after,
        identity,
        from,
        base,
        next_sequence(sequence),
        applied(state, mutation),
    ));
}

/// Once the snapshot of the current state has replaced the old one, the files
/// still hold the state, whether or not the journal has been emptied yet.
pub proof fn compaction_loses_nothing(
    files: FilesModel,
    identity: UnsettledSessionIdentity,
    sequence: u64,
    state: StateModel,
    snapshot: Seq<u8>,
    after: FilesModel,
)
    requires
        files_hold(files, identity, sequence, state),
        stores(snapshot, identity, sequence, state),
        after.snapshot == FileModel::Contents(snapshot),
        after.journal == files.journal || journal_contents(after.journal) == Some(
            Seq::<u8>::empty(),
        ),
    ensures
        files_hold(after, identity, sequence, state),
{
    let journal = journal_contents(files.journal)->0;
    let (from, base) = choose|from: u64, base: StateModel|
        #[trigger] files_lead(files, identity, from, base, sequence, state);
    let records = journal_records(journal)->0;
    lemma_replay_covers(from, base, records);
    lemma_replay_skips(sequence, state, records);
    lemma_replay_skips(sequence, state, Seq::empty());
    snapshots_are_read_back(snapshot, identity, sequence, state);
    assert(files_lead(after, identity, sequence, state, sequence, state));
}

/// A session that starts from a reset holds nothing, and its files hold that.
pub proof fn reset_files_hold_nothing(
    identity: UnsettledSessionIdentity,
    snapshot: Seq<u8>,
    files: FilesModel,
)
    requires
        stores(snapshot, identity, 0, empty_state()),
        files.snapshot == FileModel::Contents(snapshot),
        journal_contents(files.journal) == Some(Seq::<u8>::empty()),
    ensures
        files_hold(files, identity, 0, empty_state()),
{
    lemma_replay_skips(0, empty_state(), Seq::empty());
    snapshots_are_read_back(snapshot, identity, 0, empty_state());
    assert(files_lead(files, identity, 0, empty_state(), 0, empty_state()));
}

/// The files of a session and what the session knows.
#[verifier::ext_equal]
pub struct StoredSessionModel {
    pub files: FilesModel,
    pub active: ActiveModel,
}

/// A session has started from the files that were found: it knows what they lead
/// to, and the files have been reset if they had to be.
pub open spec fn session_started(
    identity: UnsettledSessionIdentity,
    found: FilesModel,
    started: StoredSessionModel,
) -> bool {
    let session = session_of(true, identity, found);
    &&& started.active == active_of(identity, session)
    &&& if session.reset {
        &&& started.files.snapshot matches FileModel::Contents(bytes)
        &&& stores(bytes, identity, 0, empty_state())
        &&& started.files.journal is Missing
    } else {
        started.files == found
    }
}

/// The frame of the next record has been appended to the journal, and the record
/// has taken effect.
pub open spec fn update_appended(
    before: StoredSessionModel,
    mutation: MutationModel,
    after: StoredSessionModel,
) -> bool {
    let record = next_record(before.active, mutation);
    &&& after.files.snapshot == before.files.snapshot
    &&& after.files.journal == FileModel::Contents(
        journal_contents(before.files.journal)->0 + frame(record),
    )
    &&& after.active == committed(before.active, record, frame(record).len())
}

/// A snapshot of what the session knows has replaced the old one. The journal has
/// been emptied, or is about to be.
pub open spec fn journal_compacted(before: StoredSessionModel, after: StoredSessionModel) -> bool {
    &&& after.files.snapshot matches FileModel::Contents(bytes)
    &&& stores(bytes, before.active.identity, before.active.sequence, before.active.state)
    &&& after.files.journal == before.files.journal || journal_contents(after.files.journal)
        == Some(Seq::<u8>::empty())
    &&& after.active == compacted(before.active)
}

/// An update has been written, and the journal has been compacted behind it or not.
pub open spec fn update_written(
    before: StoredSessionModel,
    mutation: MutationModel,
    after: StoredSessionModel,
) -> bool {
    ||| update_appended(before, mutation, after)
    ||| exists|appended: StoredSessionModel| #[trigger]
        update_appended(before, mutation, appended) && journal_compacted(appended, after)
}

/// The state after the updates, one after another.
pub open spec fn all_applied(state: StateModel, mutations: Seq<MutationModel>) -> StateModel
    decreases mutations.len(),
{
    if mutations.len() == 0 {
        state
    } else {
        applied(all_applied(state, mutations.drop_last()), mutations.last())
    }
}

/// The files and what the session knows, from the start of a session on and after
/// each of its updates. Every record is short enough to be read back, and there
/// are sequence numbers left.
pub open spec fn is_history(
    identity: UnsettledSessionIdentity,
    found: FilesModel,
    mutations: Seq<MutationModel>,
    history: Seq<StoredSessionModel>,
) -> bool {
    &&& history.len() == mutations.len() + 1
    &&& session_started(identity, found, history[0])
    &&& session_of(true, identity, found).sequence + mutations.len() <= u64::MAX
    &&& forall|i: int|
        0 <= i < mutations.len() ==> {
            &&& readable(next_record(history[i].active, #[trigger] mutations[i]))
            &&& update_written(history[i], mutations[i], history[i + 1])
        }
}

proof fn lemma_started_files_hold(
    identity: UnsettledSessionIdentity,
    found: FilesModel,
    started: StoredSessionModel,
)
    requires
        session_started(identity, found, started),
    ensures
        files_hold(started.files, identity, started.active.sequence, started.active.state),
{
    let session = session_of(true, identity, found);
    if session.reset {
        reset_files_hold_nothing(
            identity,
            started.files.snapshot->Contents_0,
            started.files,
        );
    } else {
        let bytes = found.snapshot->Contents_0;
        let snapshot = snapshot_of(bytes);
        let base = image_state(snapshot.state);
        assert(encodes::<Snapshot>(snapshot, bytes));
        assert(reads_as(bytes, identity, snapshot.last_sequence, base));
        lemma_replay_skips(snapshot.last_sequence, base, Seq::empty());
        assert(files_lead(
            found,
            identity,
            snapshot.last_sequence,
            base,
            session.sequence,
            session.state,
        ));
    }
}

proof fn lemma_history(
    identity: UnsettledSessionIdentity,
    found: FilesModel,
    mutations: Seq<MutationModel>,
    history: Seq<StoredSessionModel>,
    k: int,
)
    requires
        is_history(identity, found, mutations, history),
        0 <= k < history.len(),
    ensures
        history[k].active.identity == identity,
        history[k].active.sequence == session_of(true, identity, found).sequence + k,
        history[k].active.state == all_applied(
            session_of(true, identity, found).state,
            mutations.take(k),
        ),
        files_hold(
            history[k].files,
            identity,
            history[k].active.sequence,
            history[k].active.state,
        ),
    decreases k,
{
    if k == 0 {
        lemma_started_files_hold(identity, found, history[0]);
    } else {
        let i = k - 1;
        lemma_history(identity, found, mutations, history, i);
        let mutation = mutations[i];
        let before = history[i];
        let after = history[k];
        assert(update_written(before, mutation, after));
        assert(mutations.take(k).drop_last() =~= mutations.take(i));
        assert(mutations.take(k).last() == mutation);
        let appended = if update_appended(before, mutation, after) {
            after
        } else {
            choose|appended: StoredSessionModel| #[trigger]
                update_appended(before, mutation, appended) && journal_compacted(appended, after)
        };
        written_updates_are_held(
            before.files,
            identity,
            before.active.sequence,
            before.active.state,
            mutation,
            appended.files,
        );
        if !update_appended(before, mutation, after) {
            compaction_loses_nothing(
                appended.files,
                identity,
                appended.active.sequence,
                appended.active.state,
                after.files.snapshot->Contents_0,
                after.files,
            );
        }
    }
}

/// No update is lost, and none is applied twice: whatever a session started from,
/// after any number of updates, with the journal compacted behind any of them, the
/// files lead the same session to the state it started from with all updates
/// applied in order. That is also what the running session knows. Another session
/// recovers none of it.
pub proof fn no_update_is_lost(
    identity: UnsettledSessionIdentity,
    found: FilesModel,
    mutations: Seq<MutationModel>,
    history: Seq<StoredSessionModel>,
    other: UnsettledSessionIdentity,
)
    requires
        is_history(identity, found, mutations, history),
    ensures
        ({
            let started = session_of(true, identity, found);
            let recovered = session_of(true, identity, history.last().files);
            &&& recovered.disposition == RecoveryDisposition::Recovered
            &&& recovered.state == all_applied(started.state, mutations)
            &&& recovered.sequence == started.sequence + mutations.len()
            &&& !recovered.reset
            &&& history.last().active.state == recovered.state
            &&& history.last().active.sequence == recovered.sequence
        }),
        other != identity ==> session_of(true, other, history.last().files) == fresh_session(
            RecoveryDisposition::DroppedIdentityMismatch,
            true,
        ),
{
    let last = history.last();
    lemma_history(identity, found, mutations, history, history.len() - 1);
    assert(mutations.take(mutations.len() as int) =~= mutations);
    held_state_is_recovered(last.files, identity, last.active.sequence, last.active.state);
    if other != identity {
        other_sessions_recover_nothing(
            last.files,
            identity,
            other,
            last.active.sequence,
            last.active.state,
        );
    }
}

} // verus!
