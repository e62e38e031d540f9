//! The journal: a sequence of framed, checksummed records.
//!
//! A frame is the length of the payload in eight bytes, the SHA-256 digest of
//! the payload, and the payload.

use vstd::prelude::*;

use crate::codec::{
    encodes, encodings_are_unique, from_bytes, get_le, le, le_value, lemma_le_len,
    lemma_pow256_values, lemma_value_of_le, put_bytes, put_le, same_bytes, to_bytes, Codec,
};
use crate::hashing::{hash_bytes, sha256};
use crate::unsettled_state::records::{JournalRecord, RecordModel};

verus! {

/// The longest payload that is read back.
pub const MAX_RECORD_BYTES: u64 = 67_108_864;

/// A payload with its length and digest in front of it.
pub open spec fn framed(payload: Seq<u8>) -> Seq<u8> {
    le(payload.len(), 8) + sha256(payload)@ + payload
}

/// The frame of a record.
pub open spec fn frame(record: RecordModel) -> Seq<u8> {
    framed(JournalRecord::wire(record))
}

/// The length that the first frame claims for its payload.
pub open spec fn claimed_len(bytes: Seq<u8>) -> int {
    le_value(bytes.take(8)) as int
}

/// The payload of the first frame.
pub open spec fn first_payload(bytes: Seq<u8>) -> Seq<u8> {
    bytes.subrange(40, 40 + claimed_len(bytes))
}

/// The bytes start with an intact frame.
pub open spec fn starts_with_frame(bytes: Seq<u8>) -> bool {
    &&& bytes.len() >= 40
    &&& claimed_len(bytes) <= MAX_RECORD_BYTES
    &&& 40 + claimed_len(bytes) <= bytes.len()
    &&& sha256(first_payload(bytes))@ == bytes.subrange(8, 40)
    &&& exists|record: RecordModel| encodes::<JournalRecord>(record, first_payload(bytes))
}

/// The record that a payload encodes.
pub open spec fn record_of(payload: Seq<u8>) -> RecordModel {
    choose|record: RecordModel| encodes::<JournalRecord>(record, payload)
}

/// The record of the first frame.
pub open spec fn first_record(bytes: Seq<u8>) -> RecordModel {
    record_of(first_payload(bytes))
}

/// The records of a journal, or `None` if it is torn or corrupt anywhere.
pub open spec fn journal_records(bytes: Seq<u8>) -> Option<Seq<RecordModel>>
    decreases bytes.len(),
{
    if bytes.len() == 0 {
        Some(Seq::empty())
    } else if starts_with_frame(bytes) {
        match journal_records(bytes.skip(40 + claimed_len(bytes))) {
            Some(rest) => Some(seq![first_record(bytes)] + rest),
            None => None,
        }
    } else {
        None
    }
}

/// What the records hold.
pub open spec fn record_models(records: Seq<JournalRecord>) -> Seq<RecordModel> {
    records.map_values(|record: JournalRecord| record@)
}

/// The frame of a record, or `None` if the record has no encoding.
pub fn encode_record(record: &JournalRecord) -> (r: Option<Vec<u8>>)
    ensures
        match r {
            Some(bytes) => JournalRecord::encodable(record@) && bytes@ == frame(record@),
            None => !JournalRecord::encodable(record@),
        },
{
    match to_bytes(record) {
        Some(payload) => {
            let mut bytes: Vec<u8> = Vec::new();
            put_le(&mut bytes, payload.len() as u64, 8);
            put_bytes(&mut bytes, &hash_bytes(payload.as_slice()));
            put_bytes(&mut bytes, payload.as_slice());
            proof {
                let p = payload@;
                assert(bytes@ =~= framed(p));
            }
            Some(bytes)
        },
        None => None,
    }
}

/// The first frame of `bytes[pos..]`: its record, and the position behind it.
fn read_frame(bytes: &[u8], pos: usize) -> (r: Option<(JournalRecord, usize)>)
    requires
        pos < bytes@.len(),
    ensures
        match r {
            Some((record, end)) => {
                &&& starts_with_frame(bytes@.skip(pos as int))
                &&& record@ == first_record(bytes@.skip(pos as int))
                &&& end == pos + 40 + claimed_len(bytes@.skip(pos as int))
                &&& end <= bytes@.len()
            },
            None => !starts_with_frame(bytes@.skip(pos as int)),
        },
{
    let ghost rest = bytes@.skip(pos as int);
    if bytes.len() - pos < 40 {
        return None;
    }
    proof {
        assert(bytes@.subrange(pos as int, pos + 8) =~= rest.take(8));
    }
    let len: u64 = get_le(bytes, pos, 8);
    if len > MAX_RECORD_BYTES {
        return None;
    }
    if ((bytes.len() - pos - 40) as u64) < len {
        return None;
    }
    let start: usize = pos + 40;
    let end: usize = start + len as usize;
    let payload = &bytes[start..end];
    let digest = &bytes[pos + 8..start];
    proof {
        assert(payload@ =~= first_payload(rest));
        assert(digest@ =~= rest.subrange(8, 40));
    }
    if !same_bytes(&hash_bytes(payload), digest) {
        return None;
    }
    match from_bytes::<JournalRecord>(payload) {
        Some(record) => {
            proof {
                encodings_are_unique::<JournalRecord>(record@, first_record(rest), payload@);
            }
            Some((record, end))
        },
        None => None,
    }
}

/// The records of a journal, or `None` if it is torn or corrupt anywhere.
pub fn read_journal(bytes: &[u8]) -> (r: Option<Vec<JournalRecord>>)
    ensures
        match r {
            Some(records) => journal_records(bytes@) == Some(record_models(records@)),
            None => journal_records(bytes@) is None,
        },
{
    let ghost whole = journal_records(bytes@);
    let mut records: Vec<JournalRecord> = Vec::new();
    let mut pos: usize = 0;
    proof {
        assert(bytes@.skip(0) =~= bytes@);
        assert(record_models(records@) =~= Seq::<RecordModel>::empty());
        if let Some(rest) = whole {
            assert(record_models(records@) + rest =~= rest);
        }
    }
    while pos < bytes.len()
        invariant
            pos <= bytes@.len(),
            whole == journal_records(bytes@),
            whole == (match journal_records(bytes@.skip(pos as int)) {
                Some(rest) => Some(record_models(records@) + rest),
                None => None,
            }),
        decreases bytes@.len() - pos,
    {
        let ghost rest = bytes@.skip(pos as int);
        let ghost before = record_models(records@);
        match read_frame(bytes, pos) {
            Some((record, end)) => {
                let ghost model = record@;
                records.push(record);
                proof {
                    assert(rest.skip(40 + claimed_len(rest)) =~= bytes@.skip(end as int));
                    assert(record_models(records@) =~= before.push(model));
                    if let Some(more) = journal_records(bytes@.skip(end as int)) {
                        assert(before + (seq![model] + more) =~= before.push(model) + more);
                    }
                }
                pos = end;
            },
            None => {
                return None;
            },
        }
    }
    proof {
        assert(record_models(records@) + Seq::<RecordModel>::empty() =~= record_models(records@));
    }
    Some(records)
}

proof fn lemma_framed(payload: Seq<u8>, tail: Seq<u8>)
    requires
        payload.len() <= MAX_RECORD_BYTES,
    ensures
        claimed_len(framed(payload) + tail) == payload.len(),
        first_payload(framed(payload) + tail) == payload,
        (framed(payload) + tail).subrange(8, 40) == sha256(payload)@,
        (framed(payload) + tail).skip(40 + payload.len() as int) == tail,
        (framed(payload) + tail).len() == 40 + payload.len() + tail.len(),
{
    let bytes = framed(payload) + tail;
    lemma_le_len(payload.len(), 8);
    lemma_pow256_values();
    lemma_value_of_le(payload.len(), 8);
    assert(bytes.take(8) =~= le(payload.len(), 8));
    assert(first_payload(bytes) =~= payload);
    assert(bytes.subrange(8, 40) =~= sha256(payload)@);
    assert(bytes.skip(40 + payload.len() as int) =~= tail);
}

/// A frame is read back, whatever follows it.
pub proof fn frames_are_read_back(record: RecordModel, tail: Seq<u8>)
    requires
        readable(record),
    ensures
        starts_with_frame(frame(record) + tail),
        first_record(frame(record) + tail) == record,
        (frame(record) + tail).skip(40 + claimed_len(frame(record) + tail)) == tail,
{
    let bytes = frame(record) + tail;
    let payload = JournalRecord::wire(record);
    lemma_framed(payload, tail);
    assert(encodes::<JournalRecord>(record, first_payload(bytes)));
    encodings_are_unique::<JournalRecord>(record, first_record(bytes), payload);
}

proof fn lemma_journal_goes_on(journal: Seq<u8>, records: Seq<RecordModel>, tail: Seq<u8>)
    requires
        journal_records(journal) == Some(records),
    ensures
        journal_records(journal + tail) == (match journal_records(tail) {
            Some(more) => Some(records + more),
            None => None,
        }),
    decreases journal.len(),
{
    let bytes = journal + tail;
    if journal.len() == 0 {
        assert(bytes =~= tail);
        if let Some(more) = journal_records(tail) {
            assert(records + more =~= more);
        }
    } else {
        let n = 40 + claimed_len(journal);
        let rest = journal.skip(n);
        let later = journal_records(rest)->0;
        assert(bytes.take(8) =~= journal.take(8));
        assert(first_payload(bytes) =~= first_payload(journal));
        assert(bytes.subrange(8, 40) =~= journal.subrange(8, 40));
        assert(bytes.skip(n) =~= rest + tail);
        lemma_journal_goes_on(rest, later, tail);
        assert(starts_with_frame(bytes));
        if let Some(more) = journal_records(tail) {
            assert(seq![first_record(journal)] + (later + more) =~= records + more);
        }
    }
}

/// The record has a frame that is read back.
pub open spec fn readable(record: RecordModel) -> bool {
    JournalRecord::encodable(record) && JournalRecord::wire(record).len() <= MAX_RECORD_BYTES
}

/// Every record has a frame that is read back.
pub open spec fn all_readable(records: Seq<RecordModel>) -> bool {
    forall|i: int| 0 <= i < records.len() ==> readable(#[trigger] records[i])
}

/// The frames of the records, one after another.
pub open spec fn frames(records: Seq<RecordModel>) -> Seq<u8>
    decreases records.len(),
{
    if records.len() == 0 {
        Seq::empty()
    } else {
        frames(records.drop_last()) + frame(records.last())
    }
}

/// Appending the frame of a record to an intact journal appends the record.
pub proof fn appended_records_are_read_back(
    journal: Seq<u8>,
    records: Seq<RecordModel>,
    record: RecordModel,
)
    requires
        journal_records(journal) == Some(records),
        readable(record),
    ensures
        journal_records(journal + frame(record)) == Some(records.push(record)),
{
    let bytes = frame(record);
    frames_are_read_back(record, Seq::empty());
    assert(bytes + Seq::<u8>::empty() =~= bytes);
    assert(journal_records(bytes.skip(40 + claimed_len(bytes))) == Some(
        Seq::<RecordModel>::empty(),
    ));
    assert(bytes.len() > 0);
    assert(seq![record] + Seq::<RecordModel>::empty() =~= seq![record]);
    lemma_journal_goes_on(journal, records, bytes);
    assert(records + seq![record] =~= records.push(record));
}

/// A journal of frames is read back whole: every record, in order.
pub proof fn journals_are_read_back(records: Seq<RecordModel>)
    requires
        all_readable(records),
    ensures
        journal_records(frames(records)) == Some(records),
    decreases records.len(),
{
    if records.len() > 0 {
        let front = records.drop_last();
        assert forall|i: int| 0 <= i < front.len() implies readable(#[trigger] front[i]) by {
            assert(front[i] == records[i]);
        }
        journals_are_read_back(front);
        assert(readable(records[records.len() - 1]));
        appended_records_are_read_back(frames(front), front, records.last());
        assert(front.push(records.last()) =~= records);
    } else {
        assert(records =~= Seq::empty());
    }
}

/// A journal that breaks off inside a frame has no records at all, however many
/// intact frames come before it.
pub proof fn torn_journals_are_refused(records: Seq<RecordModel>, record: RecordModel, cut: int)
    requires
        all_readable(records),
        readable(record),
        0 < cut < frame(record).len(),
    ensures
        journal_records(frames(records) + frame(record).take(cut)) is None,
{
    let payload = JournalRecord::wire(record);
    let torn = frame(record).take(cut);
    lemma_framed(payload, Seq::empty());
    assert(framed(payload) + Seq::<u8>::empty() =~= framed(payload));
    if cut >= 8 {
        assert(torn.take(8) =~= framed(payload).take(8));
    }
    journals_are_read_back(records);
    lemma_journal_goes_on(frames(records), records, torn);
}

/// A frame is the length of its payload in eight bytes, the payload's digest and the
/// payload. What is read from a journal has its frame's length and digest, and is no
/// longer than 64 MiB.
pub proof fn frames_carry_length_and_digest(record: RecordModel, bytes: Seq<u8>)
    ensures
        ({
            let whole = frame(record);
            let payload = JournalRecord::wire(record);
            &&& whole.len() == 40 + payload.len()
            &&& whole.take(8) == le(payload.len(), 8)
            &&& whole.subrange(8, 40) == sha256(payload)@
            &&& whole.skip(40) == payload
        }),
        bytes.len() > 0 && journal_records(bytes) is Some ==> {
            let len = le_value(bytes.take(8));
            let payload = bytes.subrange(40, 40 + len as int);
            let records = journal_records(bytes)->0;
            &&& len <= 67_108_864
            &&& 40 + len <= bytes.len()
            &&& sha256(payload)@ == bytes.subrange(8, 40)
            &&& records.len() > 0
            &&& encodes::<JournalRecord>(records[0], payload)
            &&& journal_records(bytes.skip(40 + len as int)) == Some(records.drop_first())
        },
{
    let payload = JournalRecord::wire(record);
    let whole = frame(record);
    lemma_le_len(payload.len(), 8);
    assert(whole.take(8) =~= le(payload.len(), 8));
    assert(whole.subrange(8, 40) =~= sha256(payload)@);
    assert(whole.skip(40) =~= payload);
    if bytes.len() > 0 && journal_records(bytes) is Some {
        let records = journal_records(bytes)->0;
        let rest = journal_records(bytes.skip(40 + claimed_len(bytes)))->0;
        assert(records =~= seq![first_record(bytes)] + rest);
        assert(records.drop_first() =~= rest);
    }
}

} // verus!
