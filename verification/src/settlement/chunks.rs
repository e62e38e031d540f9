//! The changed ranges of an account's data, cut into chunks.

use vstd::prelude::*;

use crate::accounts::Pubkey;

verus! {

/// Bytes to be written into an account.
#[derive(Debug, Clone, PartialEq, Eq)]
pub struct SettlementChunk {
    pub account: Pubkey,
    pub account_data_offset: u32,
    pub data: Vec<u8>,
}

/// What a `SettlementChunk` holds.
#[verifier::ext_equal]
pub struct ChunkModel {
    pub account: Pubkey,
    pub account_data_offset: u32,
    pub data: Seq<u8>,
}

impl View for SettlementChunk {
    type V = ChunkModel;

    open spec fn view(&self) -> ChunkModel {
        ChunkModel {
            account: self.account,
            account_data_offset: self.account_data_offset,
            data: self.data@,
        }
    }
}

/// What the chunks hold.
pub open spec fn chunk_models(chunks: Seq<SettlementChunk>) -> Seq<ChunkModel> {
    chunks.map_values(|chunk: SettlementChunk| chunk@)
}

/// The first position from `i` on whose byte has not changed, or the end.
pub open spec fn run_end(l1: Seq<u8>, er: Seq<u8>, i: int) -> int
    decreases er.len() - i,
{
    if i >= er.len() || l1[i] == er[i] {
        i
    } else {
        run_end(l1, er, i + 1)
    }
}

/// The bytes of `er` from `start` to `end`, in pieces of `max` bytes, the last
/// of which may be shorter.
pub open spec fn split_run(
    account: Pubkey,
    er: Seq<u8>,
    start: int,
    end: int,
    max: int,
) -> Seq<ChunkModel>
    decreases end - start,
{
    if start >= end || max <= 0 {
        Seq::empty()
    } else {
        let stop = if start + max < end {
            start + max
        } else {
            end
        };
        seq![
            ChunkModel {
                account,
                account_data_offset: start as u32,
                data: er.subrange(start, stop),
            },
        ] + split_run(account, er, stop, end, max)
    }
}

/// The changed runs from `i` on, each split.
pub open spec fn changed_chunks(
    account: Pubkey,
    l1: Seq<u8>,
    er: Seq<u8>,
    i: int,
    max: int,
) -> Seq<ChunkModel>
    decreases er.len() - i,
{
    if i < 0 || i >= er.len() {
        Seq::empty()
    } else if l1[i] == er[i] {
        changed_chunks(account, l1, er, i + 1, max)
    } else {
        let end = run_end(l1, er, i + 1);
        proof {
            lemma_run_end(l1, er, i + 1);
        }
        split_run(account, er, i, end, max) + changed_chunks(account, l1, er, end, max)
    }
}

pub proof fn lemma_run_end(l1: Seq<u8>, er: Seq<u8>, i: int)
    requires
        0 <= i <= er.len(),
    ensures
        i <= run_end(l1, er, i) <= er.len(),
        forall|j: int| i <= j < run_end(l1, er, i) ==> l1[j] != er[j],
        run_end(l1, er, i) < er.len() ==> l1[run_end(l1, er, i)] == er[run_end(l1, er, i)],
    decreases er.len() - i,
{
    if i < er.len() && l1[i] != er[i] {
        lemma_run_end(l1, er, i + 1);
    }
}

/// The bytes `start..end`.
fn copy_range(bytes: &[u8], start: usize, end: usize) -> (copy: Vec<u8>)
    requires
        start <= end <= bytes@.len(),
    ensures
        copy@ == bytes@.subrange(start as int, end as int),
{
    let mut copy: Vec<u8> = Vec::new();
    let mut i: usize = start;
    while i < end
        invariant
            start <= i <= end <= bytes@.len(),
            copy@ == bytes@.subrange(start as int, i as int),
        decreases end - i,
    {
        copy.push(bytes[i]);
        i += 1;
        assert(copy@ =~= bytes@.subrange(start as int, i as int));
    }
    copy
}

/// Cuts the differences between two states of an account's data into chunks of
/// at most `max_chunk` bytes.
pub fn data_chunks_for_account(
    pubkey: Pubkey,
    l1_data: &[u8],
    er_data: &[u8],
    max_chunk: usize,
) -> (chunks: Vec<SettlementChunk>)
    requires
        l1_data@.len() == er_data@.len(),
        max_chunk > 0,
    ensures
        chunk_models(chunks@) == changed_chunks(
            pubkey,
            l1_data@,
            er_data@,
            0,
            max_chunk as int,
        ),
{
    let ghost whole = changed_chunks(pubkey, l1_data@, er_data@, 0, max_chunk as int);
    let mut chunks: Vec<SettlementChunk> = Vec::new();
    let mut index: usize = 0;
    assert(chunk_models(chunks@) + whole =~= whole);
    while index < er_data.len()
        invariant
            l1_data@.len() == er_data@.len(),
            max_chunk > 0,
            index <= er_data@.len(),
            chunk_models(chunks@) + changed_chunks(
                pubkey,
                l1_data@,
                er_data@,
                index as int,
                max_chunk as int,
            ) == whole,
        decreases er_data@.len() - index,
    {
        if l1_data[index] == er_data[index] {
            index += 1;
            continue;
        }
        let range_start: usize = index;
        index += 1;
        let ghost end = run_end(l1_data@, er_data@, range_start + 1);
        proof {
            lemma_run_end(l1_data@, er_data@, range_start + 1);
        }
        while index < er_data.len() && l1_data[index] != er_data[index]
            invariant
                l1_data@.len() == er_data@.len(),
                range_start < index <= er_data@.len(),
                end == run_end(l1_data@, er_data@, index as int),
            decreases er_data@.len() - index,
        {
            index += 1;
        }
        let ghost before = chunk_models(chunks@);
        let ghost rest = changed_chunks(
            pubkey,
            l1_data@,
            er_data@,
            index as int,
            max_chunk as int,
        );
        let ghost run = split_run(pubkey, er_data@, range_start as int, index as int, max_chunk as int);
        let mut start: usize = range_start;
        assert(chunk_models(chunks@) + run =~= before + run);
        while start < index
            invariant
                max_chunk > 0,
                start <= index <= er_data@.len(),
                chunk_models(chunks@) + split_run(
                    pubkey,
                    er_data@,
                    start as int,
                    index as int,
                    max_chunk as int,
                ) == before + run,
            decreases index - start,
        {
            let stop: usize = if index - start > max_chunk {
                start + max_chunk
            } else {
                index
            };
            let ghost sofar = chunk_models(chunks@);
            let chunk = SettlementChunk {
                account: pubkey,
                account_data_offset: start as u32,
                data: copy_range(er_data, start, stop),
            };
            let ghost model = chunk@;
            chunks.push(chunk);
            proof {
                let tail = split_run(
                    pubkey,
                    er_data@,
                    stop as int,
                    index as int,
                    max_chunk as int,
                );
                assert(chunk_models(chunks@) =~= sofar.push(model));
                assert(model =~= ChunkModel {
                    account: pubkey,
                    account_data_offset: start as u32,
                    data: er_data@.subrange(start as int, stop as int),
                });
                assert(chunk_models(chunks@) + tail =~= sofar + (seq![model] + tail));
            }
            start = stop;
        }
        proof {
            assert(chunk_models(chunks@) =~= before + run);
            assert(chunk_models(chunks@) + rest =~= before + (run + rest));
        }
    }
    assert(chunk_models(chunks@) =~= whole);
    chunks
}

/// The data with one chunk written into it.
pub open spec fn write_chunk(data: Seq<u8>, chunk: ChunkModel) -> Seq<u8> {
    let offset = chunk.account_data_offset as int;
    Seq::new(
        data.len(),
        |i: int|
            if offset <= i < offset + chunk.data.len() {
                chunk.data[i - offset]
            } else {
                data[i]
            },
    )
}

/// The data with all chunks written into it, one after another.
pub open spec fn write_chunks(data: Seq<u8>, chunks: Seq<ChunkModel>) -> Seq<u8>
    decreases chunks.len(),
{
    if chunks.len() == 0 {
        data
    } else {
        write_chunks(write_chunk(data, chunks[0]), chunks.drop_first())
    }
}

proof fn lemma_write_chunks_append(data: Seq<u8>, a: Seq<ChunkModel>, b: Seq<ChunkModel>)
    ensures
        write_chunks(data, a + b) == write_chunks(write_chunks(data, a), b),
    decreases a.len(),
{
    if a.len() == 0 {
        assert(a + b =~= b);
    } else {
        assert((a + b).drop_first() =~= a.drop_first() + b);
        lemma_write_chunks_append(write_chunk(data, a[0]), a.drop_first(), b);
    }
}

/// `er` up to `i`, and `l1` from there on.
spec fn settled_to(l1: Seq<u8>, er: Seq<u8>, i: int) -> Seq<u8> {
    er.take(i) + l1.skip(i)
}

proof fn lemma_write_run(
    account: Pubkey,
    l1: Seq<u8>,
    er: Seq<u8>,
    start: int,
    end: int,
    max: int,
)
    requires
        l1.len() == er.len() <= u32::MAX,
        0 <= start <= end <= er.len(),
        max > 0,
    ensures
        write_chunks(settled_to(l1, er, start), split_run(account, er, start, end, max))
            == settled_to(l1, er, end),
    decreases end - start,
{
    if start < end {
        let stop = if start + max < end {
            start + max
        } else {
            end
        };
        let chunks = split_run(account, er, start, end, max);
        let rest = split_run(account, er, stop, end, max);
        assert(chunks.drop_first() =~= rest);
        assert(write_chunk(settled_to(l1, er, start), chunks[0]) =~= settled_to(l1, er, stop));
        lemma_write_run(account, l1, er, stop, end, max);
    }
}

proof fn lemma_write_changed(account: Pubkey, l1: Seq<u8>, er: Seq<u8>, i: int, max: int)
    requires
        l1.len() == er.len() <= u32::MAX,
        0 <= i <= er.len(),
        max > 0,
    ensures
        write_chunks(settled_to(l1, er, i), changed_chunks(account, l1, er, i, max)) == er,
    decreases er.len() - i,
{
    if i >= er.len() {
        assert(settled_to(l1, er, i) =~= er);
    } else if l1[i] == er[i] {
        lemma_write_changed(account, l1, er, i + 1, max);
        assert(settled_to(l1, er, i) =~= settled_to(l1, er, i + 1));
    } else {
        let end = run_end(l1, er, i + 1);
        lemma_run_end(l1, er, i + 1);
        lemma_write_run(account, l1, er, i, end, max);
        lemma_write_changed(account, l1, er, end, max);
        lemma_write_chunks_append(
            settled_to(l1, er, i),
            split_run(account, er, i, end, max),
            changed_chunks(account, l1, er, end, max),
        );
    }
}

/// Writing the chunks into the layer-one data gives the rollup's data.
pub proof fn chunks_carry_the_data_over(account: Pubkey, l1: Seq<u8>, er: Seq<u8>, max: int)
    requires
        l1.len() == er.len() <= u32::MAX,
        max > 0,
    ensures
        write_chunks(l1, changed_chunks(account, l1, er, 0, max)) == er,
{
    assert(settled_to(l1, er, 0) =~= l1);
    lemma_write_changed(account, l1, er, 0, max);
}

/// Chunks belong to the account, are not empty, are at most `max` bytes long,
/// lie inside the data, and hold changed bytes only.
pub open spec fn minimal_chunk(
    chunk: ChunkModel,
    account: Pubkey,
    l1: Seq<u8>,
    er: Seq<u8>,
    max: int,
) -> bool {
    let offset = chunk.account_data_offset as int;
    &&& chunk.account == account
    &&& 0 < chunk.data.len() <= max
    &&& offset + chunk.data.len() <= er.len()
    &&& forall|i: int|
        0 <= i < chunk.data.len() ==> #[trigger] chunk.data[i] == er[offset + i] && l1[offset + i]
            != er[offset + i]
}

proof fn lemma_run_is_minimal(
    account: Pubkey,
    l1: Seq<u8>,
    er: Seq<u8>,
    start: int,
    end: int,
    max: int,
    k: int,
)
    requires
        l1.len() == er.len() <= u32::MAX,
        0 <= start <= end <= er.len(),
        forall|j: int| start <= j < end ==> l1[j] != er[j],
        max > 0,
        0 <= k < split_run(account, er, start, end, max).len(),
    ensures
        minimal_chunk(split_run(account, er, start, end, max)[k], account, l1, er, max),
    decreases end - start,
{
    let stop = if start + max < end {
        start + max
    } else {
        end
    };
    if k > 0 {
        lemma_run_is_minimal(account, l1, er, stop, end, max, k - 1);
    }
}

proof fn lemma_changed_is_minimal(
    account: Pubkey,
    l1: Seq<u8>,
    er: Seq<u8>,
    i: int,
    max: int,
    k: int,
)
    requires
        l1.len() == er.len() <= u32::MAX,
        0 <= i <= er.len(),
        max > 0,
        0 <= k < changed_chunks(account, l1, er, i, max).len(),
    ensures
        minimal_chunk(changed_chunks(account, l1, er, i, max)[k], account, l1, er, max),
    decreases er.len() - i,
{
    if l1[i] == er[i] {
        lemma_changed_is_minimal(account, l1, er, i + 1, max, k);
    } else {
        let end = run_end(l1, er, i + 1);
        lemma_run_end(l1, er, i + 1);
        let run = split_run(account, er, i, end, max);
        if k < run.len() {
            lemma_run_is_minimal(account, l1, er, i, end, max, k);
        } else {
            lemma_changed_is_minimal(account, l1, er, end, max, k - run.len());
        }
    }
}

/// No chunk is empty, too long, or holds a byte that has not changed.
pub proof fn chunks_hold_changes_only(
    account: Pubkey,
    l1: Seq<u8>,
    er: Seq<u8>,
    max: int,
    k: int,
)
    requires
        l1.len() == er.len() <= u32::MAX,
        max > 0,
        0 <= k < changed_chunks(account, l1, er, 0, max).len(),
    ensures
        minimal_chunk(changed_chunks(account, l1, er, 0, max)[k], account, l1, er, max),
{
    lemma_changed_is_minimal(account, l1, er, 0, max, k);
}

/// No chunk is longer than `max` bytes, whatever the length of the data.
pub proof fn chunks_are_bounded(
    account: Pubkey,
    l1: Seq<u8>,
    er: Seq<u8>,
    i: int,
    max: int,
    k: int,
)
    requires
        l1.len() == er.len(),
        0 <= i <= er.len(),
        max > 0,
        0 <= k < changed_chunks(account, l1, er, i, max).len(),
    ensures
        0 < changed_chunks(account, l1, er, i, max)[k].data.len() <= max,
    decreases er.len() - i,
{
    if l1[i] == er[i] {
        chunks_are_bounded(account, l1, er, i + 1, max, k);
    } else {
        let end = run_end(l1, er, i + 1);
        lemma_run_end(l1, er, i + 1);
        let run = split_run(account, er, i, end, max);
        if k < run.len() {
            lemma_run_pieces_bounded(account, er, i, end, max, k);
        } else {
            chunks_are_bounded(account, l1, er, end, max, k - run.len());
        }
    }
}

proof fn lemma_run_pieces_bounded(
    account: Pubkey,
    er: Seq<u8>,
    start: int,
    end: int,
    max: int,
    k: int,
)
    requires
        0 <= start <= end <= er.len(),
        max > 0,
        0 <= k < split_run(account, er, start, end, max).len(),
    ensures
        0 < split_run(account, er, start, end, max)[k].data.len() <= max,
    decreases end - start,
{
    let stop = if start + max < end {
        start + max
    } else {
        end
    };
    if k > 0 {
        lemma_run_pieces_bounded(account, er, stop, end, max, k - 1);
    }
}

/// Every chunk is about the account whose data changed.
pub proof fn chunks_belong_to_the_account(
    account: Pubkey,
    l1: Seq<u8>,
    er: Seq<u8>,
    i: int,
    max: int,
    k: int,
)
    requires
        0 <= i <= er.len(),
        max > 0,
        0 <= k < changed_chunks(account, l1, er, i, max).len(),
    ensures
        changed_chunks(account, l1, er, i, max)[k].account == account,
    decreases er.len() - i,
{
    if l1[i] == er[i] {
        chunks_belong_to_the_account(account, l1, er, i + 1, max, k);
    } else {
        let end = run_end(l1, er, i + 1);
        lemma_run_end(l1, er, i + 1);
        let run = split_run(account, er, i, end, max);
        if k < run.len() {
            lemma_run_belongs(account, er, i, end, max, k);
        } else {
            chunks_belong_to_the_account(account, l1, er, end, max, k - run.len());
        }
    }
}

proof fn lemma_run_belongs(account: Pubkey, er: Seq<u8>, start: int, end: int, max: int, k: int)
    requires
        max > 0,
        0 <= k < split_run(account, er, start, end, max).len(),
    ensures
        split_run(account, er, start, end, max)[k].account == account,
    decreases end - start,
{
    let stop = if start + max < end {
        start + max
    } else {
        end
    };
    if k > 0 {
        lemma_run_belongs(account, er, stop, end, max, k - 1);
    }
}

} // verus!
