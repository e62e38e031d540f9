//! What a settlement plan comes to, told by the differences alone.

use vstd::prelude::*;

use crate::accounts::Pubkey;
use crate::settlement::chunks::{
    changed_chunks, chunks_hold_changes_only, lemma_run_end, minimal_chunk, run_end, split_run,
    ChunkModel,
};
use crate::settlement::plan::{
    account_problems, all_problems, chunks_of, er_total, l1_total, lamport_candidates_of,
    lamport_changes_of, lamport_problems, owner_changes_of, plan_of, problems_of, settleable,
    LamportCandidate, SettlementLimits,
};
use crate::settlement::{
    AccountLamportsSettlement, AccountOwnerSettlement, ReceiptBalanceSettlement,
    SettlementUnsupportedChange,
};
use crate::state_diff::DiffModel;

verus! {

/// The account is on layer one, with data of the same length, the same executable
/// flag and the same rent epoch as on the rollup.
pub open spec fn is_sound(diff: DiffModel) -> bool {
    &&& diff.l1_account is Some
    &&& diff.l1_account->0.data.len() == diff.er_account.data.len()
    &&& diff.l1_account->0.executable == diff.er_account.executable
    &&& diff.l1_account->0.rent_epoch == diff.er_account.rent_epoch
}

/// Which accounts are delegated.
pub open spec fn delegated_only(delegated: Set<Pubkey>) -> spec_fn(DiffModel) -> bool {
    |diff: DiffModel| delegated.contains(diff.pubkey)
}

/// Which accounts are delegated and sound and have another owner on the rollup.
pub open spec fn owner_changed(delegated: Set<Pubkey>) -> spec_fn(DiffModel) -> bool {
    |diff: DiffModel|
        delegated.contains(diff.pubkey) && is_sound(diff) && diff.l1_account->0.owner
            != diff.er_account.owner
}

/// Which accounts are delegated and sound and have other lamports on the rollup.
pub open spec fn lamports_changed(delegated: Set<Pubkey>) -> spec_fn(DiffModel) -> bool {
    |diff: DiffModel|
        delegated.contains(diff.pubkey) && is_sound(diff) && diff.l1_account->0.lamports
            != diff.er_account.lamports
}

/// All lamports that the delegated accounts have on layer one.
pub open spec fn lamports_on_l1(accounts: Seq<DiffModel>, delegated: Set<Pubkey>) -> int
    decreases accounts.len(),
{
    if accounts.len() == 0 {
        0
    } else {
        lamports_on_l1(accounts.drop_last(), delegated) + if delegated.contains(
            accounts.last().pubkey,
        ) {
            accounts.last().l1_account->0.lamports as int
        } else {
            0
        }
    }
}

/// All lamports that the delegated accounts have on the rollup.
pub open spec fn lamports_on_er(accounts: Seq<DiffModel>, delegated: Set<Pubkey>) -> int
    decreases accounts.len(),
{
    if accounts.len() == 0 {
        0
    } else {
        lamports_on_er(accounts.drop_last(), delegated) + if delegated.contains(
            accounts.last().pubkey,
        ) {
            accounts.last().er_account.lamports as int
        } else {
            0
        }
    }
}

/// Every delegated account is sound, no more of them have other lamports than a
/// settlement can carry, and all of them together have as many lamports on the
/// rollup as on layer one.
pub open spec fn can_be_settled(
    accounts: Seq<DiffModel>,
    delegated: Set<Pubkey>,
    limits: SettlementLimits,
) -> bool {
    &&& forall|i: int|
        0 <= i < accounts.len() && delegated.contains((#[trigger] accounts[i]).pubkey)
            ==> is_sound(accounts[i])
    &&& accounts.filter(lamports_changed(delegated)).len() <= limits.max_lamport_accounts
    &&& lamports_on_l1(accounts, delegated) == lamports_on_er(accounts, delegated)
}

proof fn lemma_sound(diff: DiffModel)
    ensures
        account_problems(diff).len() == 0 <==> is_sound(diff),
{
}

proof fn lemma_prefix(
    accounts: Seq<DiffModel>,
    delegated: Set<Pubkey>,
    max: int,
    n: int,
    k: int,
)
    requires
        0 <= k <= n <= accounts.len(),
    ensures
        problems_of(accounts.take(n), delegated, k) == problems_of(accounts, delegated, k),
        owner_changes_of(accounts.take(n), delegated, k) == owner_changes_of(
            accounts,
            delegated,
            k,
        ),
        lamport_candidates_of(accounts.take(n), delegated, k) == lamport_candidates_of(
            accounts,
            delegated,
            k,
        ),
        chunks_of(accounts.take(n), delegated, max, k) == chunks_of(accounts, delegated, max, k),
    decreases k,
{
    if k > 0 {
        lemma_prefix(accounts, delegated, max, n, k - 1);
        assert(accounts.take(n)[k - 1] == accounts[k - 1]);
    }
}

proof fn lemma_push(
    accounts: Seq<DiffModel>,
    diff: DiffModel,
    delegated: Set<Pubkey>,
    max: int,
)
    ensures
        ({
            let n = accounts.len() as int;
            let all = accounts.push(diff);
            &&& problems_of(all, delegated, n + 1) == problems_of(accounts, delegated, n) + (
            if delegated.contains(diff.pubkey) {
                account_problems(diff)
            } else {
                Seq::empty()
            })
            &&& owner_changes_of(all, delegated, n + 1) == (if settleable(diff, delegated)
                && diff.l1_account->0.owner != diff.er_account.owner {
                owner_changes_of(accounts, delegated, n).push(
                    AccountOwnerSettlement { account: diff.pubkey, owner: diff.er_account.owner },
                )
            } else {
                owner_changes_of(accounts, delegated, n)
            })
            &&& lamport_candidates_of(all, delegated, n + 1) == (if settleable(diff, delegated)
                && diff.l1_account->0.lamports != diff.er_account.lamports {
                lamport_candidates_of(accounts, delegated, n).push(
                    LamportCandidate {
                        account: diff.pubkey,
                        l1_lamports: diff.l1_account->0.lamports,
                        er_lamports: diff.er_account.lamports,
                    },
                )
            } else {
                lamport_candidates_of(accounts, delegated, n)
            })
            &&& chunks_of(all, delegated, max, n + 1) == chunks_of(accounts, delegated, max, n) + (
            if settleable(diff, delegated) {
                changed_chunks(diff.pubkey, diff.l1_account->0.data, diff.er_account.data, 0, max)
            } else {
                Seq::empty()
            })
        }),
{
    let n = accounts.len() as int;
    let all = accounts.push(diff);
    lemma_prefix(all, delegated, max, n, n);
    assert(all.take(n) =~= accounts);
    assert(all[n] == diff);
}

proof fn lemma_filtered(accounts: Seq<DiffModel>, delegated: Set<Pubkey>, max: int)
    ensures
        ({
            let n = accounts.len() as int;
            let ours = accounts.filter(delegated_only(delegated));
            let m = ours.len() as int;
            &&& problems_of(ours, delegated, m) == problems_of(accounts, delegated, n)
            &&& owner_changes_of(ours, delegated, m) == owner_changes_of(accounts, delegated, n)
            &&& lamport_candidates_of(ours, delegated, m) == lamport_candidates_of(
                accounts,
                delegated,
                n,
            )
            &&& chunks_of(ours, delegated, max, m) == chunks_of(accounts, delegated, max, n)
        }),
    decreases accounts.len(),
{
    reveal(Seq::filter);
    if accounts.len() > 0 {
        let front = accounts.drop_last();
        let last = accounts.last();
        lemma_filtered(front, delegated, max);
        assert(accounts =~= front.push(last));
        lemma_push(front, last, delegated, max);
        let ours = front.filter(delegated_only(delegated));
        if delegated.contains(last.pubkey) {
            assert(accounts.filter(delegated_only(delegated)) == ours.push(last));
            lemma_push(ours, last, delegated, max);
        } else {
            assert(accounts.filter(delegated_only(delegated)) == ours);
            let n = front.len() as int;
            assert(problems_of(front, delegated, n) + Seq::<SettlementUnsupportedChange>::empty()
                =~= problems_of(front, delegated, n));
            assert(chunks_of(front, delegated, max, n) + Seq::<ChunkModel>::empty() =~= chunks_of(
                front,
                delegated,
                max,
                n,
            ));
        }
    }
}

/// Accounts that are not delegated have no influence: the plan is the one that the
/// differences of the delegated accounts alone give.
pub proof fn only_delegated_accounts_count(
    accounts: Seq<DiffModel>,
    delegated: Set<Pubkey>,
    er_slot: u64,
    receipts: Seq<ReceiptBalanceSettlement>,
    limits: SettlementLimits,
)
    ensures
        plan_of(accounts, delegated, er_slot, receipts, limits) == plan_of(
            accounts.filter(delegated_only(delegated)),
            delegated,
            er_slot,
            receipts,
            limits,
        ),
{
    lemma_filtered(accounts, delegated, limits.max_chunk as int);
}

/// The settlement of the owner of an account.
pub open spec fn new_owner() -> spec_fn(DiffModel) -> AccountOwnerSettlement {
    |diff: DiffModel|
        AccountOwnerSettlement { account: diff.pubkey, owner: diff.er_account.owner }
}

/// The settlement of the lamports of an account.
pub open spec fn new_lamports() -> spec_fn(DiffModel) -> AccountLamportsSettlement {
    |diff: DiffModel|
        AccountLamportsSettlement { account: diff.pubkey, lamports: diff.er_account.lamports }
}

spec fn candidate() -> spec_fn(DiffModel) -> LamportCandidate {
    |diff: DiffModel|
        LamportCandidate {
            account: diff.pubkey,
            l1_lamports: diff.l1_account->0.lamports,
            er_lamports: diff.er_account.lamports,
        }
}

proof fn lemma_changes(accounts: Seq<DiffModel>, delegated: Set<Pubkey>)
    ensures
        owner_changes_of(accounts, delegated, accounts.len() as int) == accounts.filter(
            owner_changed(delegated),
        ).map_values(new_owner()),
        lamport_candidates_of(accounts, delegated, accounts.len() as int) == accounts.filter(
            lamports_changed(delegated),
        ).map_values(candidate()),
    decreases accounts.len(),
{
    reveal(Seq::filter);
    let owners = accounts.filter(owner_changed(delegated)).map_values(new_owner());
    let lamports = accounts.filter(lamports_changed(delegated)).map_values(candidate());
    if accounts.len() > 0 {
        let front = accounts.drop_last();
        let last = accounts.last();
        lemma_changes(front, delegated);
        lemma_sound(last);
        assert(accounts =~= front.push(last));
        lemma_push(front, last, delegated, 1);
        let front_owners = front.filter(owner_changed(delegated));
        let front_lamports = front.filter(lamports_changed(delegated));
        if owner_changed(delegated)(last) {
            assert(front_owners.push(last).map_values(new_owner()) =~= front_owners.map_values(
                new_owner(),
            ).push(new_owner()(last)));
        }
        if lamports_changed(delegated)(last) {
            assert(front_lamports.push(last).map_values(candidate()) =~= front_lamports.map_values(
                candidate(),
            ).push(candidate()(last)));
        }
    } else {
        assert(owners =~= Seq::empty());
        assert(lamports =~= Seq::empty());
    }
}

/// A plan that is not blocked lists, in the order of the differences, every delegated
/// account whose owner has changed with its new owner, and every one whose lamports
/// have changed with its new lamports. It lists no others, and carries the slot and
/// the receipts as they were given.
pub proof fn plans_list_every_change_once(
    accounts: Seq<DiffModel>,
    delegated: Set<Pubkey>,
    er_slot: u64,
    receipts: Seq<ReceiptBalanceSettlement>,
    limits: SettlementLimits,
)
    requires
        plan_of(accounts, delegated, er_slot, receipts, limits) is Some,
    ensures
        ({
            let plan = plan_of(accounts, delegated, er_slot, receipts, limits)->0;
            &&& plan.er_slot == er_slot
            &&& plan.receipt_balances == receipts
            &&& plan.unsupported_changes.len() == 0 ==> {
                &&& plan.owner_changes == accounts.filter(owner_changed(delegated)).map_values(
                    new_owner(),
                )
                &&& plan.lamport_changes == accounts.filter(
                    lamports_changed(delegated),
                ).map_values(new_lamports())
            }
            &&& plan.unsupported_changes.len() > 0 ==> {
                &&& plan.chunks.len() == 0
                &&& plan.owner_changes.len() == 0
                &&& plan.lamport_changes.len() == 0
            }
        }),
{
    lemma_changes(accounts, delegated);
    let n = accounts.len() as int;
    let moved = accounts.filter(lamports_changed(delegated));
    assert(lamport_changes_of(lamport_candidates_of(accounts, delegated, n)) =~= moved.map_values(
        new_lamports(),
    ));
}

proof fn lemma_chunk_source(
    accounts: Seq<DiffModel>,
    delegated: Set<Pubkey>,
    max: int,
    k: int,
    c: int,
) -> (i: int)
    requires
        max > 0,
        0 <= k <= accounts.len(),
        0 <= c < chunks_of(accounts, delegated, max, k).len(),
        forall|i: int|
            0 <= i < accounts.len() ==> (#[trigger] accounts[i]).er_account.data.len() <= u32::MAX,
    ensures
        0 <= i < k,
        delegated.contains(accounts[i].pubkey),
        is_sound(accounts[i]),
        minimal_chunk(
            chunks_of(accounts, delegated, max, k)[c],
            accounts[i].pubkey,
            accounts[i].l1_account->0.data,
            accounts[i].er_account.data,
            max,
        ),
    decreases k,
{
    let before = chunks_of(accounts, delegated, max, k - 1);
    if c < before.len() {
        lemma_chunk_source(accounts, delegated, max, k - 1, c)
    } else {
        let diff = accounts[k - 1];
        lemma_sound(diff);
        assert(diff.er_account.data.len() <= u32::MAX);
        chunks_hold_changes_only(
            diff.pubkey,
            diff.l1_account->0.data,
            diff.er_account.data,
            max,
            c - before.len(),
        );
        k - 1
    }
}

/// Every chunk of a plan is about a delegated account: it is not empty and not longer
/// than a chunk can be, lies inside the account's data, and holds what the rollup
/// has there, which differs from layer one in every byte.
pub proof fn chunks_come_from_delegated_accounts(
    accounts: Seq<DiffModel>,
    delegated: Set<Pubkey>,
    er_slot: u64,
    receipts: Seq<ReceiptBalanceSettlement>,
    limits: SettlementLimits,
    c: int,
) -> (i: int)
    requires
        limits.max_chunk > 0,
        plan_of(accounts, delegated, er_slot, receipts, limits) is Some,
        0 <= c < plan_of(accounts, delegated, er_slot, receipts, limits)->0.chunks.len(),
        forall|i: int|
            0 <= i < accounts.len() ==> (#[trigger] accounts[i]).er_account.data.len() <= u32::MAX,
    ensures
        0 <= i < accounts.len(),
        delegated.contains(accounts[i].pubkey),
        ({
            let chunk = plan_of(accounts, delegated, er_slot, receipts, limits)->0.chunks[c];
            let l1 = accounts[i].l1_account->0.data;
            let er = accounts[i].er_account.data;
            let offset = chunk.account_data_offset as int;
            &&& chunk.account == accounts[i].pubkey
            &&& 0 < chunk.data.len() <= limits.max_chunk
            &&& offset + chunk.data.len() <= er.len() == l1.len()
            &&& forall|b: int|
                0 <= b < chunk.data.len() ==> {
                    &&& #[trigger] chunk.data[b] == er[offset + b]
                    &&& l1[offset + b] != er[offset + b]
                }
        }),
{
    lemma_chunk_source(
        accounts,
        delegated,
        limits.max_chunk as int,
        accounts.len() as int,
        c,
    )
}

proof fn lemma_problem_source(
    accounts: Seq<DiffModel>,
    delegated: Set<Pubkey>,
    k: int,
    p: int,
) -> (i: int)
    requires
        0 <= k <= accounts.len(),
        0 <= p < problems_of(accounts, delegated, k).len(),
    ensures
        0 <= i < k,
        delegated.contains(accounts[i].pubkey),
        account_problems(accounts[i]).contains(problems_of(accounts, delegated, k)[p]),
    decreases k,
{
    let before = problems_of(accounts, delegated, k - 1);
    let all = problems_of(accounts, delegated, k);
    if p < before.len() {
        assert(all[p] == before[p]);
        lemma_problem_source(accounts, delegated, k - 1, p)
    } else {
        assert(account_problems(accounts[k - 1])[p - before.len()] == all[p]);
        k - 1
    }
}

proof fn lemma_problem_listed(
    accounts: Seq<DiffModel>,
    delegated: Set<Pubkey>,
    k: int,
    i: int,
    problem: SettlementUnsupportedChange,
)
    requires
        0 <= i < k <= accounts.len(),
        delegated.contains(accounts[i].pubkey),
        account_problems(accounts[i]).contains(problem),
    ensures
        problems_of(accounts, delegated, k).contains(problem),
    decreases k,
{
    let before = problems_of(accounts, delegated, k - 1);
    let all = problems_of(accounts, delegated, k);
    if i < k - 1 {
        lemma_problem_listed(accounts, delegated, k - 1, i, problem);
        let p = choose|p: int| 0 <= p < before.len() && before[p] == problem;
        assert(all[p] == problem);
    } else {
        let own = account_problems(accounts[i]);
        let p = choose|p: int| 0 <= p < own.len() && own[p] == problem;
        assert(all[before.len() + p] == problem);
    }
}

proof fn lemma_totals(accounts: Seq<DiffModel>, delegated: Set<Pubkey>)
    requires
        forall|i: int|
            0 <= i < accounts.len() && delegated.contains((#[trigger] accounts[i]).pubkey)
                ==> is_sound(accounts[i]),
    ensures
        ({
            let candidates = lamport_candidates_of(accounts, delegated, accounts.len() as int);
            lamports_on_l1(accounts, delegated) - lamports_on_er(accounts, delegated) == l1_total(
                candidates,
            ) - er_total(candidates)
        }),
    decreases accounts.len(),
{
    if accounts.len() > 0 {
        let front = accounts.drop_last();
        let last = accounts.last();
        assert forall|i: int|
            0 <= i < front.len() && delegated.contains(
                (#[trigger] front[i]).pubkey,
            ) implies is_sound(front[i]) by {
            assert(front[i] == accounts[i]);
        }
        lemma_totals(front, delegated);
        lemma_sound(last);
        assert(accounts[accounts.len() - 1] == last);
        assert(accounts =~= front.push(last));
        lemma_push(front, last, delegated, 1);
        let before = lamport_candidates_of(front, delegated, front.len() as int);
        let all = lamport_candidates_of(accounts, delegated, accounts.len() as int);
        if all.len() > before.len() {
            assert(all.drop_last() =~= before);
        }
    }
}

/// Nothing stands in the way of a plan if and only if every delegated account is
/// sound, not too many of them have other lamports, and together they have as many
/// lamports on the rollup as on layer one.
pub proof fn plans_are_blocked_by_delegated_accounts_only(
    accounts: Seq<DiffModel>,
    delegated: Set<Pubkey>,
    er_slot: u64,
    receipts: Seq<ReceiptBalanceSettlement>,
    limits: SettlementLimits,
)
    ensures
        can_be_settled(accounts, delegated, limits) <==> (match plan_of(
            accounts,
            delegated,
            er_slot,
            receipts,
            limits,
        ) {
            Some(plan) => plan.unsupported_changes.len() == 0,
            None => true,
        }),
{
    let n = accounts.len() as int;
    let problems = problems_of(accounts, delegated, n);
    let candidates = lamport_candidates_of(accounts, delegated, n);
    lemma_changes(accounts, delegated);
    if problems.len() == 0 {
        assert forall|i: int|
            0 <= i < accounts.len() && delegated.contains(
                (#[trigger] accounts[i]).pubkey,
            ) implies is_sound(accounts[i]) by {
            if !is_sound(accounts[i]) {
                lemma_sound(accounts[i]);
                let own = account_problems(accounts[i]);
                assert(own.contains(own[0]));
                lemma_problem_listed(accounts, delegated, n, i, own[0]);
            }
        }
        lemma_totals(accounts, delegated);
    } else {
        let i = lemma_problem_source(accounts, delegated, n, 0);
        lemma_sound(accounts[i]);
    }
    assert(all_problems(accounts, delegated, limits).len() == problems.len() + lamport_problems(
        candidates,
        limits.max_lamport_accounts,
    ).len());
    if l1_total(candidates) != er_total(candidates) {
        assert(candidates.len() > 0);
    }
}

proof fn lemma_kept_source(
    accounts: Seq<DiffModel>,
    pred: spec_fn(DiffModel) -> bool,
    c: int,
) -> (i: int)
    requires
        0 <= c < accounts.filter(pred).len(),
    ensures
        0 <= i < accounts.len(),
        accounts[i] == accounts.filter(pred)[c],
        pred(accounts[i]),
    decreases accounts.len(),
{
    reveal(Seq::filter);
    let front = accounts.drop_last();
    if c < front.filter(pred).len() {
        lemma_kept_source(front, pred, c)
    } else {
        accounts.len() - 1
    }
}

/// What is reported of one account is true of it.
pub open spec fn is_true_of(
    problem: SettlementUnsupportedChange,
    diff: DiffModel,
) -> bool {
    match problem {
        SettlementUnsupportedChange::MissingL1Account { account } => {
            account == diff.pubkey && diff.l1_account is None
        },
        SettlementUnsupportedChange::DataLengthChanged { account, l1_len, er_len } => {
            &&& account == diff.pubkey
            &&& diff.l1_account matches Some(l1)
            &&& l1.data.len() != diff.er_account.data.len()
            &&& l1_len == l1.data.len() as usize
            &&& er_len == diff.er_account.data.len() as usize
        },
        SettlementUnsupportedChange::ExecutableChanged {
            account,
            l1_executable,
            er_executable,
        } => {
            &&& account == diff.pubkey
            &&& diff.l1_account matches Some(l1)
            &&& l1.executable != diff.er_account.executable
            &&& l1_executable == l1.executable
            &&& er_executable == diff.er_account.executable
        },
        SettlementUnsupportedChange::RentEpochChanged {
            account,
            l1_rent_epoch,
            er_rent_epoch,
        } => {
            &&& account == diff.pubkey
            &&& diff.l1_account matches Some(l1)
            &&& l1.rent_epoch != diff.er_account.rent_epoch
            &&& l1_rent_epoch == l1.rent_epoch
            &&& er_rent_epoch == diff.er_account.rent_epoch
        },
        SettlementUnsupportedChange::LamportsChanged { account, l1_lamports, er_lamports } => {
            &&& account == diff.pubkey
            &&& diff.l1_account matches Some(l1)
            &&& l1.lamports != diff.er_account.lamports
            &&& l1_lamports == l1.lamports
            &&& er_lamports == diff.er_account.lamports
        },
        _ => false,
    }
}

/// Everything that a plan reports is true of a delegated account, or says how many
/// accounts have other lamports where these are too many.
pub proof fn reports_are_about_delegated_accounts(
    accounts: Seq<DiffModel>,
    delegated: Set<Pubkey>,
    er_slot: u64,
    receipts: Seq<ReceiptBalanceSettlement>,
    limits: SettlementLimits,
    p: int,
)
    requires
        plan_of(accounts, delegated, er_slot, receipts, limits) matches Some(plan) && 0 <= p
            < plan.unsupported_changes.len(),
    ensures
        ({
            let problem = plan_of(
                accounts,
                delegated,
                er_slot,
                receipts,
                limits,
            )->0.unsupported_changes[p];
            let moved = accounts.filter(lamports_changed(delegated)).len();
            ||| problem == (SettlementUnsupportedChange::TooManyLamportChanges {
                count: moved as usize,
                max: limits.max_lamport_accounts,
            }) && moved > limits.max_lamport_accounts
            ||| exists|i: int|
                0 <= i < accounts.len() && delegated.contains((#[trigger] accounts[i]).pubkey)
                    && is_true_of(problem, accounts[i])
        }),
{
    let n = accounts.len() as int;
    let own = problems_of(accounts, delegated, n);
    let candidates = lamport_candidates_of(accounts, delegated, n);
    let moved = accounts.filter(lamports_changed(delegated));
    lemma_changes(accounts, delegated);
    if p < own.len() {
        let i = lemma_problem_source(accounts, delegated, n, p);
        assert(is_true_of(own[p], accounts[i]));
    } else if candidates.len() <= limits.max_lamport_accounts {
        let c = p - own.len();
        let i = lemma_kept_source(accounts, lamports_changed(delegated), c);
        assert(candidates[c] == candidate()(moved[c]));
        assert(delegated.contains(accounts[i].pubkey));
    }
}

/// Whatever is wrong with a delegated account is reported.
pub proof fn unsound_accounts_are_reported(
    accounts: Seq<DiffModel>,
    delegated: Set<Pubkey>,
    er_slot: u64,
    receipts: Seq<ReceiptBalanceSettlement>,
    limits: SettlementLimits,
    i: int,
    problem: SettlementUnsupportedChange,
)
    requires
        0 <= i < accounts.len(),
        delegated.contains(accounts[i].pubkey),
        is_true_of(problem, accounts[i]),
        !(problem is LamportsChanged),
    ensures
        plan_of(accounts, delegated, er_slot, receipts, limits) matches Some(plan)
            && plan.unsupported_changes.contains(problem),
{
    let n = accounts.len() as int;
    let own = account_problems(accounts[i]);
    assert(own.contains(problem)) by {
        let at = if problem is MissingL1Account || problem is DataLengthChanged {
            0int
        } else {
            let first = if accounts[i].l1_account->0.data.len()
                != accounts[i].er_account.data.len() {
                1int
            } else {
                0int
            };
            if problem is ExecutableChanged {
                first
            } else if accounts[i].l1_account->0.executable != accounts[i].er_account.executable {
                first + 1
            } else {
                first
            }
        };
        assert(own[at] == problem);
    }
    lemma_problem_listed(accounts, delegated, n, i, problem);
    let listed = problems_of(accounts, delegated, n);
    let p = choose|p: int| 0 <= p < listed.len() && listed[p] == problem;
    assert(all_problems(accounts, delegated, limits)[p] == problem);
}

proof fn lemma_changed_is_empty(account: Pubkey, l1: Seq<u8>, er: Seq<u8>, i: int, max: int)
    requires
        0 <= i <= er.len(),
        max > 0,
    ensures
        changed_chunks(account, l1, er, i, max).len() == 0 <==> forall|b: int|
            i <= b < er.len() ==> l1[b] == #[trigger] er[b],
    decreases er.len() - i,
{
    if i < er.len() {
        if l1[i] == er[i] {
            lemma_changed_is_empty(account, l1, er, i + 1, max);
        } else {
            let end = run_end(l1, er, i + 1);
            lemma_run_end(l1, er, i + 1);
            assert(split_run(account, er, i, end, max).len() > 0);
        }
    }
}

proof fn lemma_no_chunks(accounts: Seq<DiffModel>, delegated: Set<Pubkey>, max: int)
    requires
        max > 0,
        forall|i: int|
            0 <= i < accounts.len() && delegated.contains((#[trigger] accounts[i]).pubkey)
                ==> is_sound(accounts[i]),
    ensures
        chunks_of(accounts, delegated, max, accounts.len() as int).len() == 0 <==> forall|i: int|
            0 <= i < accounts.len() && delegated.contains((#[trigger] accounts[i]).pubkey)
                ==> accounts[i].l1_account->0.data == accounts[i].er_account.data,
    decreases accounts.len(),
{
    if accounts.len() > 0 {
        let front = accounts.drop_last();
        let last = accounts.last();
        assert forall|i: int|
            0 <= i < front.len() && delegated.contains(
                (#[trigger] front[i]).pubkey,
            ) implies is_sound(front[i]) by {
            assert(front[i] == accounts[i]);
        }
        lemma_no_chunks(front, delegated, max);
        lemma_sound(last);
        assert(accounts[accounts.len() - 1] == last);
        assert(accounts =~= front.push(last));
        lemma_push(front, last, delegated, max);
        if delegated.contains(last.pubkey) {
            let l1 = last.l1_account->0.data;
            let er = last.er_account.data;
            lemma_changed_is_empty(last.pubkey, l1, er, 0, max);
            assert((forall|b: int| 0 <= b < er.len() ==> l1[b] == #[trigger] er[b]) <==> l1 =~= er);
        }
        assert forall|i: int| 0 <= i < front.len() implies front[i] == accounts[i] by {}
        if forall|i: int|
            0 <= i < front.len() && delegated.contains((#[trigger] front[i]).pubkey)
                ==> front[i].l1_account->0.data == front[i].er_account.data {
            assert forall|i: int|
                0 <= i < accounts.len() - 1 && delegated.contains(
                    (#[trigger] accounts[i]).pubkey,
                ) implies accounts[i].l1_account->0.data == accounts[i].er_account.data by {
                assert(front[i] == accounts[i]);
            }
        } else {
            let i = choose|i: int|
                0 <= i < front.len() && delegated.contains((#[trigger] front[i]).pubkey)
                    && front[i].l1_account->0.data != front[i].er_account.data;
            assert(accounts[i] == front[i]);
        }
    }
}

proof fn lemma_none_kept(accounts: Seq<DiffModel>, pred: spec_fn(DiffModel) -> bool)
    ensures
        accounts.filter(pred).len() == 0 <==> forall|i: int|
            0 <= i < accounts.len() ==> !pred(#[trigger] accounts[i]),
    decreases accounts.len(),
{
    reveal(Seq::filter);
    if accounts.len() > 0 {
        let front = accounts.drop_last();
        lemma_none_kept(front, pred);
        assert(accounts[accounts.len() - 1] == accounts.last());
        assert forall|i: int| 0 <= i < front.len() implies front[i] == accounts[i] by {}
        if front.filter(pred).len() == 0 {
            assert forall|i: int| 0 <= i < front.len() implies !pred(#[trigger] accounts[i]) by {
                assert(!pred(front[i]));
            }
        } else {
            let i = choose|i: int| 0 <= i < front.len() && pred(#[trigger] front[i]);
            assert(pred(accounts[i]));
        }
    }
}

/// There is no plan if and only if nothing stands in the way, no delegated account
/// has other data, another owner or other lamports on the rollup, and there is no
/// receipt to settle.
pub proof fn there_is_a_plan_for_every_change(
    accounts: Seq<DiffModel>,
    delegated: Set<Pubkey>,
    er_slot: u64,
    receipts: Seq<ReceiptBalanceSettlement>,
    limits: SettlementLimits,
)
    requires
        limits.max_chunk > 0,
    ensures
        plan_of(accounts, delegated, er_slot, receipts, limits) is None <==> {
            &&& receipts.len() == 0
            &&& forall|i: int|
                0 <= i < accounts.len() && delegated.contains((#[trigger] accounts[i]).pubkey)
                    ==> {
                    &&& is_sound(accounts[i])
                    &&& accounts[i].l1_account->0.data == accounts[i].er_account.data
                    &&& accounts[i].l1_account->0.owner == accounts[i].er_account.owner
                    &&& accounts[i].l1_account->0.lamports == accounts[i].er_account.lamports
                }
        },
{
    let n = accounts.len() as int;
    plans_are_blocked_by_delegated_accounts_only(accounts, delegated, er_slot, receipts, limits);
    lemma_changes(accounts, delegated);
    lemma_none_kept(accounts, owner_changed(delegated));
    lemma_none_kept(accounts, lamports_changed(delegated));
    let problems = all_problems(accounts, delegated, limits);
    if plan_of(accounts, delegated, er_slot, receipts, limits) is None {
        lemma_no_chunks(accounts, delegated, limits.max_chunk as int);
        assert forall|i: int|
            0 <= i < accounts.len() && delegated.contains((#[trigger] accounts[i]).pubkey) implies {
            &&& is_sound(accounts[i])
            &&& accounts[i].l1_account->0.data == accounts[i].er_account.data
            &&& accounts[i].l1_account->0.owner == accounts[i].er_account.owner
            &&& accounts[i].l1_account->0.lamports == accounts[i].er_account.lamports
        } by {
            assert(!owner_changed(delegated)(accounts[i]));
            assert(!lamports_changed(delegated)(accounts[i]));
        }
    }
    if receipts.len() == 0 && forall|i: int|
        0 <= i < accounts.len() && delegated.contains((#[trigger] accounts[i]).pubkey) ==> {
            &&& is_sound(accounts[i])
            &&& accounts[i].l1_account->0.data == accounts[i].er_account.data
            &&& accounts[i].l1_account->0.owner == accounts[i].er_account.owner
            &&& accounts[i].l1_account->0.lamports == accounts[i].er_account.lamports
        } {
        lemma_no_chunks(accounts, delegated, limits.max_chunk as int);
        lemma_totals(accounts, delegated);
        assert forall|i: int| 0 <= i < accounts.len() implies !owner_changed(delegated)(
            #[trigger] accounts[i],
        ) by {}
        assert forall|i: int| 0 <= i < accounts.len() implies !lamports_changed(delegated)(
            #[trigger] accounts[i],
        ) by {}
        let candidates = lamport_candidates_of(accounts, delegated, n);
        assert(candidates.len() == 0);
        assert(can_be_settled(accounts, delegated, limits));
    }
}

} // verus!
