//! How the chunks of a plan follow each other.

use vstd::prelude::*;

use crate::accounts::Pubkey;
use crate::settlement::chunks::{
    changed_chunks, chunks_hold_changes_only, lemma_run_end, minimal_chunk, run_end, split_run,
    ChunkModel,
};
use crate::settlement::plan::{chunks_of, plan_of, settleable, SettlementLimits};
use crate::settlement::ReceiptBalanceSettlement;
use crate::state_diff::DiffModel;

verus! {

/// Where the chunk ends.
pub open spec fn end_of(chunk: ChunkModel) -> int {
    chunk.account_data_offset + chunk.data.len()
}

/// The chunks come one after another, and one that the next follows at once is full.
pub open spec fn are_packed(chunks: Seq<ChunkModel>, max: int) -> bool {
    forall|k: int|
        0 <= k < chunks.len() - 1 ==> {
            let next = chunks[k + 1];
            &&& end_of(#[trigger] chunks[k]) <= next.account_data_offset
            &&& end_of(chunks[k]) == next.account_data_offset ==> chunks[k].data.len() == max
        }
}

proof fn lemma_run(account: Pubkey, er: Seq<u8>, start: int, end: int, max: int)
    requires
        0 <= start < end <= er.len() <= u32::MAX,
        max > 0,
    ensures
        ({
            let run = split_run(account, er, start, end, max);
            &&& run.len() > 0
            &&& run[0].account_data_offset == start
            &&& end_of(run[run.len() - 1]) == end
            &&& are_packed(run, max)
        }),
    decreases end - start,
{
    let run = split_run(account, er, start, end, max);
    let stop = if start + max < end {
        start + max
    } else {
        end
    };
    let rest = split_run(account, er, stop, end, max);
    if stop < end {
        lemma_run(account, er, stop, end, max);
        assert forall|k: int| 0 <= k < run.len() - 1 implies {
            let next = run[k + 1];
            &&& end_of(#[trigger] run[k]) <= next.account_data_offset
            &&& end_of(run[k]) == next.account_data_offset ==> run[k].data.len() == max
        } by {
            if k > 0 {
                assert(run[k] == rest[k - 1] && run[k + 1] == rest[k]);
            } else {
                assert(run[1] == rest[0]);
            }
        }
        assert(run[run.len() - 1] == rest[rest.len() - 1]);
    } else {
        assert(rest.len() == 0);
    }
}

proof fn lemma_packed(account: Pubkey, l1: Seq<u8>, er: Seq<u8>, i: int, max: int)
    requires
        l1.len() == er.len() <= u32::MAX,
        0 <= i <= er.len(),
        max > 0,
    ensures
        ({
            let chunks = changed_chunks(account, l1, er, i, max);
            &&& are_packed(chunks, max)
            &&& chunks.len() > 0 ==> chunks[0].account_data_offset >= i
            &&& chunks.len() > 0 && l1[i] == er[i] ==> chunks[0].account_data_offset > i
        }),
    decreases er.len() - i,
{
    if i < er.len() {
        if l1[i] == er[i] {
            lemma_packed(account, l1, er, i + 1, max);
        } else {
            let end = run_end(l1, er, i + 1);
            lemma_run_end(l1, er, i + 1);
            let run = split_run(account, er, i, end, max);
            let rest = changed_chunks(account, l1, er, end, max);
            let all = changed_chunks(account, l1, er, i, max);
            lemma_run(account, er, i, end, max);
            lemma_packed(account, l1, er, end, max);
            assert(all =~= run + rest);
            assert forall|k: int| 0 <= k < all.len() - 1 implies {
                let next = all[k + 1];
                &&& end_of(#[trigger] all[k]) <= next.account_data_offset
                &&& end_of(all[k]) == next.account_data_offset ==> all[k].data.len() == max
            } by {
                if k < run.len() - 1 {
                    assert(all[k] == run[k] && all[k + 1] == run[k + 1]);
                } else if k == run.len() - 1 {
                    assert(all[k] == run[k] && all[k + 1] == rest[0]);
                    if end == er.len() {
                        assert(rest.len() == 0);
                    }
                } else {
                    let j = k - run.len();
                    assert(all[k] == rest[j] && all[k + 1] == rest[j + 1]);
                }
            }
        }
    }
}

/// The chunks of an account come in the order of its data and do not overlap. A chunk that
/// is followed at once by another is as long as chunks can be: no run of changed bytes is
/// cut more often than it has to be.
pub proof fn chunks_are_as_few_as_can_be(account: Pubkey, l1: Seq<u8>, er: Seq<u8>, max: int)
    requires
        l1.len() == er.len() <= u32::MAX,
        max > 0,
    ensures
        are_packed(changed_chunks(account, l1, er, 0, max), max),
{
    lemma_packed(account, l1, er, 0, max);
}

/// The chunk holds changed bytes of the account at a place of the list.
pub open spec fn is_chunk_of(
    chunk: ChunkModel,
    accounts: Seq<DiffModel>,
    i: int,
    max: int,
) -> bool {
    &&& 0 <= i < accounts.len()
    &&& accounts[i].l1_account is Some
    &&& minimal_chunk(
        chunk,
        accounts[i].pubkey,
        (accounts[i].l1_account->0).data,
        accounts[i].er_account.data,
        max,
    )
}

proof fn lemma_in_order(
    accounts: Seq<DiffModel>,
    delegated: Set<Pubkey>,
    max: int,
    k: int,
    c: int,
    d: int,
) -> (places: (int, int))
    requires
        max > 0,
        0 <= k <= accounts.len(),
        0 <= c <= d < chunks_of(accounts, delegated, max, k).len(),
        forall|i: int|
            0 <= i < accounts.len() ==> (#[trigger] accounts[i]).er_account.data.len() <= u32::MAX,
    ensures
        places.0 <= places.1 < k,
        is_chunk_of(chunks_of(accounts, delegated, max, k)[c], accounts, places.0, max),
        is_chunk_of(chunks_of(accounts, delegated, max, k)[d], accounts, places.1, max),
        places.0 == places.1 && c < d ==> end_of(
            chunks_of(accounts, delegated, max, k)[c],
        ) <= chunks_of(accounts, delegated, max, k)[d].account_data_offset,
    decreases k,
{
    let before = chunks_of(accounts, delegated, max, k - 1);
    let all = chunks_of(accounts, delegated, max, k);
    if d < before.len() {
        lemma_in_order(accounts, delegated, max, k - 1, c, d)
    } else {
        let diff = accounts[k - 1];
        let l1 = (diff.l1_account->0).data;
        let er = diff.er_account.data;
        let own = changed_chunks(diff.pubkey, l1, er, 0, max);
        assert(diff.er_account.data.len() <= u32::MAX);
        assert(settleable(diff, delegated));
        assert(all =~= before + own);
        chunks_hold_changes_only(diff.pubkey, l1, er, max, d - before.len());
        if c < before.len() {
            let (i, _) = lemma_in_order(accounts, delegated, max, k - 1, c, c);
            (i, k - 1)
        } else {
            chunks_hold_changes_only(diff.pubkey, l1, er, max, c - before.len());
            lemma_packed(diff.pubkey, l1, er, 0, max);
            if c < d {
                lemma_apart(own, max, c - before.len(), d - before.len());
            }
            (k - 1, k - 1)
        }
    }
}

proof fn lemma_apart(chunks: Seq<ChunkModel>, max: int, c: int, d: int)
    requires
        are_packed(chunks, max),
        0 <= c < d < chunks.len(),
    ensures
        end_of(chunks[c]) <= chunks[d].account_data_offset,
    decreases d - c,
{
    assert(end_of(chunks[c]) <= chunks[c + 1].account_data_offset);
    if c + 1 < d {
        lemma_apart(chunks, max, c + 1, d);
    }
}

/// The chunks of a plan come in the order of the accounts, and for one account in the order
/// of its data, without overlaps.
pub proof fn chunks_come_in_the_order_of_accounts(
    accounts: Seq<DiffModel>,
    delegated: Set<Pubkey>,
    er_slot: u64,
    receipts: Seq<ReceiptBalanceSettlement>,
    limits: SettlementLimits,
    c: int,
    d: int,
) -> (places: (int, int))
    requires
        limits.max_chunk > 0,
        plan_of(accounts, delegated, er_slot, receipts, limits) is Some,
        0 <= c < d < plan_of(accounts, delegated, er_slot, receipts, limits)->0.chunks.len(),
        forall|i: int|
            0 <= i < accounts.len() ==> (#[trigger] accounts[i]).er_account.data.len() <= u32::MAX,
    ensures
        ({
            let chunks = plan_of(accounts, delegated, er_slot, receipts, limits)->0.chunks;
            let max = limits.max_chunk as int;
            &&& places.0 <= places.1
            &&& is_chunk_of(chunks[c], accounts, places.0, max)
            &&& is_chunk_of(chunks[d], accounts, places.1, max)
            &&& places.0 == places.1 ==> end_of(chunks[c]) <= chunks[d].account_data_offset
        }),
{
    lemma_in_order(
        accounts,
        delegated,
        limits.max_chunk as int,
        accounts.len() as int,
        c,
        d,
    )
}

} // verus!
