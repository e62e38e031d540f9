//! How sessions start from what was found on disk, and how they count.

use vstd::prelude::*;

use super::journal::journal_records;
use super::records::{MutationModel, RecordModel, Snapshot, SnapshotModel};
use super::state::{image_state, StateModel};
use super::{
    active_of, all_applied, committed, compacted, next_record, recovered_session, replay,
    session_of, snapshot_of, ActiveModel, FileModel, FilesModel, RecoveryDisposition,
    SessionModel, UnsettledSessionIdentity,
};
use crate::codec::{encodes, encodings_are_unique};

verus! {

/// The highest sequence number among `last` and the first `k` records.
pub open spec fn reached(last: u64, records: Seq<RecordModel>, k: nat) -> u64
    decreases k,
{
    if k == 0 {
        last
    } else {
        let before = reached(last, records, (k - 1) as nat);
        if records[k - 1].sequence > before {
            records[k - 1].sequence
        } else {
            before
        }
    }
}

/// No record skips a sequence number.
pub open spec fn has_no_gap(last: u64, records: Seq<RecordModel>) -> bool {
    forall|k: int|
        0 <= k < records.len() ==> (#[trigger] records[k]).sequence <= reached(
            last,
            records,
            k as nat,
        ) + 1
}

/// The records at these places have the sequence numbers that follow `last`, one after
/// another, and no earlier record has them.
pub open spec fn continues(last: u64, records: Seq<RecordModel>, picked: Seq<int>) -> bool {
    &&& forall|j: int|
        0 <= j < picked.len() ==> {
            &&& 0 <= #[trigger] picked[j] < records.len()
            &&& records[picked[j]].sequence == last + 1 + j
            &&& reached(last, records, picked[j] as nat) == last + j
        }
    &&& forall|i: int, j: int|
        0 <= i < j < picked.len() ==> #[trigger] picked[i] < #[trigger] picked[j]
}

/// What the records at these places change.
pub open spec fn changes_at(records: Seq<RecordModel>, picked: Seq<int>) -> Seq<MutationModel> {
    picked.map_values(|i: int| records[i].mutation)
}

proof fn lemma_reached_first(last: u64, records: Seq<RecordModel>, k: nat)
    requires
        0 < k <= records.len(),
    ensures
        reached(last, records, k) == reached(
            if records[0].sequence > last {
                records[0].sequence
            } else {
                last
            },
            records.drop_first(),
            (k - 1) as nat,
        ),
    decreases k,
{
    if k > 1 {
        lemma_reached_first(last, records, (k - 1) as nat);
        assert(records.drop_first()[k - 2] == records[k - 1]);
    } else {
        assert(reached(last, records, 0) == last);
    }
}

proof fn lemma_all_applied_first(
    state: StateModel,
    first: MutationModel,
    rest: Seq<MutationModel>,
)
    ensures
        all_applied(state, seq![first] + rest) == all_applied(
            super::state::applied(state, first),
            rest,
        ),
    decreases rest.len(),
{
    let all = seq![first] + rest;
    if rest.len() == 0 {
        assert(all.drop_last() =~= Seq::empty());
        assert(all.last() == first);
        assert(all_applied(state, Seq::empty()) == state);
    } else {
        lemma_all_applied_first(state, first, rest.drop_last());
        assert(all.drop_last() =~= seq![first] + rest.drop_last());
    }
}

/// A journal leads somewhere if and only if it skips no sequence number. It then leads to
/// the highest one, and to the state that the records change in turn whose numbers follow
/// the last one known; as many records are applied as numbers were added.
pub proof fn journals_lead_to_their_last_record(
    last: u64,
    state: StateModel,
    records: Seq<RecordModel>,
) -> (picked: Seq<int>)
    ensures
        replay(last, state, records) is Some <==> has_no_gap(last, records),
        replay(last, state, records) matches Some((end, led, applied)) ==> {
            &&& end == reached(last, records, records.len())
            &&& applied == end - last
            &&& picked.len() == applied
            &&& continues(last, records, picked)
            &&& led == all_applied(state, changes_at(records, picked))
        },
    decreases records.len(),
{
    if records.len() == 0 {
        assert(changes_at(records, Seq::empty()) =~= Seq::empty());
        Seq::empty()
    } else {
        let record = records[0];
        let rest = records.drop_first();
        let next = if record.sequence > last {
            record.sequence
        } else {
            last
        };
        let changed = if record.sequence <= last {
            state
        } else {
            super::state::applied(state, record.mutation)
        };
        let later = journals_lead_to_their_last_record(next, changed, rest);
        assert forall|k: int| 0 <= k < rest.len() implies #[trigger] reached(
            next,
            rest,
            k as nat,
        ) == reached(last, records, (k + 1) as nat) by {
            lemma_reached_first(last, records, (k + 1) as nat);
        }
        lemma_reached_first(last, records, records.len());
        assert(reached(last, records, 0) == last);
        if has_no_gap(last, records) {
            assert(records[0].sequence <= reached(last, records, 0) + 1);
            assert forall|k: int| 0 <= k < rest.len() implies (#[trigger] rest[k]).sequence
                <= reached(next, rest, k as nat) + 1 by {
                assert(rest[k] == records[k + 1]);
                assert(reached(next, rest, k as nat) == reached(last, records, (k + 1) as nat));
            }
            assert(has_no_gap(next, rest));
        }
        if has_no_gap(next, rest) && record.sequence <= last + 1 {
            assert forall|k: int| 0 <= k < records.len() implies (#[trigger] records[k]).sequence
                <= reached(last, records, k as nat) + 1 by {
                if k > 0 {
                    assert(rest[k - 1] == records[k]);
                    assert(reached(next, rest, (k - 1) as nat) == reached(
                        last,
                        records,
                        k as nat,
                    ));
                }
            }
            assert(has_no_gap(last, records));
        }
        let moved = later.map_values(|i: int| i + 1);
        if replay(last, state, records) is Some {
            if record.sequence <= last {
                assert(replay(last, state, records) == replay(last, state, rest));
                assert forall|j: int| 0 <= j < moved.len() implies {
                    &&& 0 <= #[trigger] moved[j] < records.len()
                    &&& records[moved[j]].sequence == last + 1 + j
                    &&& reached(last, records, moved[j] as nat) == last + j
                } by {
                    assert(0 <= later[j] < rest.len());
                    assert(rest[later[j]] == records[moved[j]]);
                    assert(reached(next, rest, later[j] as nat) == reached(
                        last,
                        records,
                        (later[j] + 1) as nat,
                    ));
                }
                assert forall|i: int, j: int| 0 <= i < j < moved.len() implies #[trigger] moved[i]
                    < #[trigger] moved[j] by {
                    assert(later[i] < later[j]);
                }
                assert forall|j: int| 0 <= j < later.len() implies records[later[j] + 1]
                    == #[trigger] rest[later[j]] by {
                    assert(0 <= later[j] < rest.len());
                }
                assert(changes_at(records, moved) =~= changes_at(rest, later)) by {
                    assert forall|j: int| 0 <= j < later.len() implies changes_at(
                        records,
                        moved,
                    )[j] == changes_at(rest, later)[j] by {
                        assert(0 <= later[j] < rest.len());
                        assert(rest[later[j]] == records[moved[j]]);
                    }
                }
                moved
            } else {
                let all = seq![0int] + moved;
                assert forall|j: int| 0 <= j < all.len() implies {
                    &&& 0 <= #[trigger] all[j] < records.len()
                    &&& records[all[j]].sequence == last + 1 + j
                    &&& reached(last, records, all[j] as nat) == last + j
                } by {
                    if j > 0 {
                        assert(0 <= later[j - 1] < rest.len());
                        assert(all[j] == later[j - 1] + 1);
                        assert(rest[later[j - 1]] == records[all[j]]);
                        assert(reached(next, rest, later[j - 1] as nat) == reached(
                            last,
                            records,
                            (later[j - 1] + 1) as nat,
                        ));
                    }
                }
                assert forall|i: int, j: int| 0 <= i < j < all.len() implies #[trigger] all[i]
                    < #[trigger] all[j] by {
                    assert(0 <= later[j - 1]);
                    if i > 0 {
                        assert(later[i - 1] < later[j - 1]);
                    }
                }
                assert(changes_at(records, all) =~= seq![record.mutation] + changes_at(
                    rest,
                    later,
                )) by {
                    assert forall|j: int| 0 < j < all.len() implies changes_at(records, all)[j]
                        == changes_at(rest, later)[j - 1] by {
                        assert(0 <= later[j - 1] < rest.len());
                        assert(all[j] == later[j - 1] + 1);
                        assert(rest[later[j - 1]] == records[all[j]]);
                    }
                }
                lemma_all_applied_first(state, record.mutation, changes_at(rest, later));
                all
            }
        } else {
            moved
        }
    }
}

/// The session starts from nothing.
pub open spec fn starts_empty(session: SessionModel) -> bool {
    &&& session.sequence == 0
    &&& session.replayed == 0
    &&& session.journal_bytes == 0
    &&& session.state.accounts.dom() =~= Set::empty()
    &&& session.state.touched_accounts =~= Set::empty()
    &&& session.state.payout_events.len() == 0
    &&& session.state.processed_signatures.dom() =~= Set::empty()
}

/// The journal can be followed from the snapshot: there is none, or it can be read and
/// skips no sequence number.
pub open spec fn can_be_followed(last: u64, journal: FileModel) -> bool {
    match journal {
        FileModel::Missing => true,
        FileModel::Unreadable => false,
        FileModel::Contents(bytes) => journal_records(bytes) matches Some(records) && has_no_gap(
            last,
            records,
        ),
    }
}

/// Nothing is recovered where nothing is stored, where there is no snapshot, where the
/// snapshot cannot be read or is of another session, or where the journal cannot be
/// followed; the files are then reset, if there are any to be stored. A journal without a
/// snapshot counts as corrupt, unless it is empty.
pub proof fn sessions_start_as_their_files_allow(
    stored: bool,
    identity: UnsettledSessionIdentity,
    files: FilesModel,
    snapshot: SnapshotModel,
)
    ensures
        ({
            let session = session_of(stored, identity, files);
            let is_there = files.snapshot is Contents && encodes::<Snapshot>(
                snapshot,
                files.snapshot->Contents_0,
            );
            let alone = files.snapshot is Missing;
            let left = !(files.journal is Missing) && files.journal_len > 0;
            &&& session.disposition != RecoveryDisposition::Recovered ==> starts_empty(session)
            &&& session.reset <==> stored && session.disposition != RecoveryDisposition::Recovered
            &&& !stored ==> session.disposition == RecoveryDisposition::New
            &&& stored && alone && !left ==> session.disposition == RecoveryDisposition::New
            &&& stored && alone && left ==> session.disposition
                == RecoveryDisposition::DroppedCorrupt
            &&& stored && files.snapshot is Unreadable ==> session.disposition
                == RecoveryDisposition::DroppedCorrupt
            &&& stored && is_there && snapshot.identity != identity ==> session.disposition
                == RecoveryDisposition::DroppedIdentityMismatch
            &&& stored && is_there && snapshot.identity == identity && !can_be_followed(
                snapshot.last_sequence,
                files.journal,
            ) ==> session.disposition == RecoveryDisposition::DroppedCorrupt
            &&& stored && is_there && snapshot.identity == identity && can_be_followed(
                snapshot.last_sequence,
                files.journal,
            ) ==> session.disposition == RecoveryDisposition::Recovered
            &&& stored && files.snapshot is Contents && (forall|s: SnapshotModel|
                !encodes::<Snapshot>(s, files.snapshot->Contents_0)) ==> session.disposition
                == RecoveryDisposition::DroppedCorrupt
        }),
{
    if let FileModel::Contents(bytes) = files.snapshot {
        if encodes::<Snapshot>(snapshot, bytes) {
            encodings_are_unique::<Snapshot>(snapshot, snapshot_of(bytes), bytes);
            if let FileModel::Contents(journal) = files.journal {
                if let Some(records) = journal_records(journal) {
                    let _ = journals_lead_to_their_last_record(
                        snapshot.last_sequence,
                        image_state(snapshot.state),
                        records,
                    );
                }
            }
        } else if exists|s: SnapshotModel| encodes::<Snapshot>(s, bytes) {
            let s = snapshot_of(bytes);
            assert(recovered_session(s, files).disposition != RecoveryDisposition::Recovered
                ==> starts_empty(recovered_session(s, files)));
        }
    }
}

/// A recovered session goes on from the state of its snapshot and the records that follow
/// it. It remembers how many there were and how long the journal is.
pub proof fn recovered_sessions_follow_their_journal(
    identity: UnsettledSessionIdentity,
    files: FilesModel,
    snapshot: SnapshotModel,
    records: Seq<RecordModel>,
) -> (picked: Seq<int>)
    requires
        files.snapshot is Contents,
        encodes::<Snapshot>(snapshot, files.snapshot->Contents_0),
        snapshot.identity == identity,
        files.journal is Contents,
        journal_records(files.journal->Contents_0) == Some(records),
        has_no_gap(snapshot.last_sequence, records),
    ensures
        ({
            let session = session_of(true, identity, files);
            &&& session.disposition == RecoveryDisposition::Recovered
            &&& !session.reset
            &&& session.sequence == reached(snapshot.last_sequence, records, records.len())
            &&& session.replayed == session.sequence - snapshot.last_sequence
            &&& session.journal_bytes == files.journal_len
            &&& picked.len() == session.replayed
            &&& continues(snapshot.last_sequence, records, picked)
            &&& session.state == all_applied(
                image_state(snapshot.state),
                changes_at(records, picked),
            )
        }),
{
    let bytes = files.snapshot->Contents_0;
    encodings_are_unique::<Snapshot>(snapshot, snapshot_of(bytes), bytes);
    journals_lead_to_their_last_record(
        snapshot.last_sequence,
        image_state(snapshot.state),
        records,
    )
}

/// A session counts the records and the bytes that it has written since its journal was
/// last emptied, beginning with those that it was recovered from. Each update gets the
/// next sequence number and takes effect alone; emptying the journal changes nothing but
/// the counts.
pub proof fn sessions_count_what_they_write(
    active: ActiveModel,
    mutation: MutationModel,
    bytes: nat,
    identity: UnsettledSessionIdentity,
    session: SessionModel,
)
    ensures
        ({
            let record = next_record(active, mutation);
            let after = committed(active, record, bytes);
            let emptied = compacted(active);
            let started = active_of(identity, session);
            &&& record.mutation == mutation
            &&& active.sequence < u64::MAX ==> record.sequence == active.sequence + 1
            &&& after.sequence == record.sequence
            &&& after.identity == active.identity
            &&& after.state == all_applied(active.state, seq![mutation])
            &&& active.records_since_compaction < usize::MAX ==> after.records_since_compaction
                == active.records_since_compaction + 1
            &&& active.journal_bytes + bytes <= u64::MAX ==> after.journal_bytes
                == active.journal_bytes + bytes
            &&& active.journal_bytes + bytes > u64::MAX ==> after.journal_bytes == u64::MAX
            &&& emptied.records_since_compaction == 0
            &&& emptied.journal_bytes == 0
            &&& emptied.identity == active.identity
            &&& emptied.state == active.state
            &&& emptied.sequence == active.sequence
            &&& started.identity == identity
            &&& started.state == session.state
            &&& started.sequence == session.sequence
            &&& session.replayed <= usize::MAX ==> started.records_since_compaction
                == session.replayed
            &&& started.journal_bytes == session.journal_bytes
        }),
{
    assert(seq![mutation].drop_last() =~= Seq::empty());
    assert(all_applied(active.state, Seq::empty()) == active.state);
}

} // verus!
