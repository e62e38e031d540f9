//! What becomes of the transactions of a batch.

use vstd::prelude::*;

use super::{
    decoded_batch, decoded_transaction, is_report_of, position_values, positions, AgeSplit,
    BatchReport, Executed, WireModel,
};

verus! {

/// The bytes are a transaction.
pub open spec fn is_transaction() -> spec_fn(Vec<u8>) -> bool {
    |message: Vec<u8>| decoded_transaction(message@) is Some
}

/// The transaction that the bytes are.
pub open spec fn the_transaction() -> spec_fn(Vec<u8>) -> WireModel {
    |message: Vec<u8>| decoded_transaction(message@)->0
}

proof fn lemma_decoded(messages: Seq<Vec<u8>>, n: nat)
    requires
        n <= messages.len(),
    ensures
        decoded_batch(messages, n) == messages.take(n as int).filter(
            is_transaction(),
        ).map_values(the_transaction()),
    decreases n,
{
    reveal(Seq::filter);
    let taken = messages.take(n as int);
    if n > 0 {
        lemma_decoded(messages, (n - 1) as nat);
        assert(taken.drop_last() =~= messages.take(n - 1));
        let before = taken.drop_last().filter(is_transaction());
        let last = messages[n - 1];
        if decoded_transaction(last@) is Some {
            assert(before.push(last).map_values(the_transaction()) =~= before.map_values(
                the_transaction(),
            ).push(the_transaction()(last)));
        }
        assert(decoded_batch(messages, n) =~= taken.filter(is_transaction()).map_values(
            the_transaction(),
        ));
    } else {
        assert(taken.filter(is_transaction()).map_values(the_transaction()) =~= Seq::empty());
    }
}

/// A batch of messages holds the transactions that can be read, in the order in which the
/// messages came.
pub proof fn readable_messages_are_decoded(messages: Seq<Vec<u8>>)
    ensures
        decoded_batch(messages, messages.len()) == messages.filter(is_transaction()).map_values(
            the_transaction(),
        ),
{
    lemma_decoded(messages, messages.len());
    assert(messages.take(messages.len() as int) =~= messages);
}

proof fn lemma_increasing(ages: Seq<Option<u64>>, max_age: u64, wanted: bool, n: nat)
    requires
        n <= ages.len(),
    ensures
        ({
            let all = positions(ages, max_age, wanted, n);
            &&& forall|i: int, j: int|
                0 <= i < j < all.len() ==> #[trigger] all[i] < #[trigger] all[j]
            &&& forall|i: int|
                0 <= i < all.len() ==> {
                    let age = ages[#[trigger] all[i]];
                    &&& 0 <= all[i] < n
                    &&& (age is Some && age->0 <= max_age) == wanted
                }
            &&& forall|p: int|
                0 <= p < n && ((#[trigger] ages[p]) is Some && ages[p]->0 <= max_age) == wanted
                    ==> all.contains(p)
        }),
    decreases n,
{
    if n > 0 {
        lemma_increasing(ages, max_age, wanted, (n - 1) as nat);
        let before = positions(ages, max_age, wanted, (n - 1) as nat);
        let all = positions(ages, max_age, wanted, n);
        assert forall|p: int|
            0 <= p < n && ((#[trigger] ages[p]) is Some && ages[p]->0 <= max_age)
                == wanted implies all.contains(p) by {
            if p == n - 1 {
                assert(all[before.len() as int] == p);
            } else {
                assert(before.contains(p));
                let i = choose|i: int| 0 <= i < before.len() && before[i] == p;
                assert(all[i] == p);
            }
        }
    }
}

/// A transaction is executed if and only if its blockhash has an age and that is not
/// beyond the greatest; all others have expired. Both keep the order of the batch.
pub proof fn recent_transactions_are_executed(
    ages: Seq<Option<u64>>,
    max_age: u64,
    split: AgeSplit,
    p: usize,
)
    requires
        position_values(split.valid@) == positions(ages, max_age, true, ages.len()),
        position_values(split.expired@) == positions(ages, max_age, false, ages.len()),
    ensures
        ({
            let recent = p < ages.len() && ages[p as int] is Some && ages[p as int]->0 <= max_age;
            &&& split.valid@.contains(p) <==> p < ages.len() && recent
            &&& split.expired@.contains(p) <==> p < ages.len() && !recent
            &&& forall|i: int, j: int|
                0 <= i < j < split.valid@.len() ==> #[trigger] split.valid@[i]
                    < #[trigger] split.valid@[j]
            &&& forall|i: int, j: int|
                0 <= i < j < split.expired@.len() ==> #[trigger] split.expired@[i]
                    < #[trigger] split.expired@[j]
        }),
{
    let timely = positions(ages, max_age, true, ages.len());
    let late = positions(ages, max_age, false, ages.len());
    lemma_increasing(ages, max_age, true, ages.len());
    lemma_increasing(ages, max_age, false, ages.len());
    assert forall|i: int| 0 <= i < split.valid@.len() implies #[trigger] split.valid@[i] as int
        == timely[i] by {
        assert(position_values(split.valid@)[i] == split.valid@[i] as int);
    }
    assert forall|i: int| 0 <= i < split.expired@.len() implies #[trigger] split.expired@[i] as int
        == late[i] by {
        assert(position_values(split.expired@)[i] == split.expired@[i] as int);
    }
    assert(timely.len() == split.valid@.len());
    assert(late.len() == split.expired@.len());
    if p < ages.len() {
        let age = ages[p as int];
        if age is Some && age->0 <= max_age {
            assert(timely.contains(p as int));
            let i = choose|i: int| 0 <= i < timely.len() && timely[i] == p as int;
            assert(split.valid@[i] == p);
        } else {
            assert(late.contains(p as int));
            let i = choose|i: int| 0 <= i < late.len() && late[i] == p as int;
            assert(split.expired@[i] == p);
        }
    }
}

/// An expired transaction is recorded first, as failed and free of charge. If the batch
/// was refused so is every other one, and the batch fails with that error; otherwise every
/// other one is recorded with its own status, fee, units and balances. A batch in which
/// all have expired fails for want of a blockhash.
pub proof fn reports_follow_the_execution<E: Clone, D, T>(
    report: BatchReport<E, D, T>,
    split: AgeSplit,
    execution: Result<Vec<Executed<E, D, T>>, E>,
    blockhash_not_found: E,
    i: int,
)
    requires
        is_report_of(report, split, execution, blockhash_not_found),
        execution matches Ok(executed) ==> executed@.len() == split.valid@.len(),
    ensures
        ({
            let expired = split.expired@.len();
            let valid = split.valid@.len();
            let records = report.records@;
            &&& 0 <= i < expired ==> {
                &&& records[i].position == split.expired@[i]
                &&& records[i].record.status is Err
                &&& records[i].record.fee == 0
                &&& records[i].record.compute_units_consumed == 0
                &&& records[i].record.pre_balances@.len() == 0
                &&& records[i].record.post_balances@.len() == 0
            }
            &&& valid == 0 ==> records.len() == expired && report.outcome == Err::<(), E>(
                blockhash_not_found,
            )
            &&& valid > 0 ==> {
                &&& records.len() == expired + valid
                &&& 0 <= i < valid ==> records[expired + i].position == split.valid@[i]
                &&& execution matches Err(error) ==> {
                    &&& report.outcome == Err::<(), E>(error)
                    &&& 0 <= i < valid ==> records[expired + i].record.status is Err
                        && records[expired + i].record.fee == 0
                }
                &&& execution matches Ok(executed) ==> {
                    &&& report.outcome is Ok
                    &&& 0 <= i < valid ==> match executed@[i].outcome {
                        Ok(committed) => {
                            let record = records[expired + i].record;
                            &&& record.status == committed.status
                            &&& record.fee == committed.fee
                            &&& record.compute_units_consumed == committed.executed_units
                            &&& record.details == Some(committed.details)
                            &&& executed@[i].balances.pre_balances matches Some(pre)
                                ==> record.pre_balances@ == pre@
                            &&& executed@[i].balances.post_balances matches Some(post)
                                ==> record.post_balances@ == post@
                            &&& executed@[i].balances.pre_token_balances matches Some(pre)
                                ==> record.pre_token_balances@ == pre@
                            &&& executed@[i].balances.post_token_balances matches Some(post)
                                ==> record.post_token_balances@ == post@
                        },
                        Err(error) => {
                            let record = records[expired + i].record;
                            &&& record.status == Err::<(), E>(error)
                            &&& record.fee == 0
                            &&& record.compute_units_consumed == 0
                            &&& record.pre_balances@.len() == 0
                            &&& record.post_balances@.len() == 0
                        },
                    }
                }
            }
        }),
{
    let expired = split.expired@.len() as int;
    let records = report.records@;
    if 0 <= i < expired {
        assert(records.take(expired)[i] == records[i]);
    }
    if 0 <= i < split.valid@.len() {
        assert(records.skip(expired)[i] == records[expired + i]);
    }
}

} // verus!
