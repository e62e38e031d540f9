//! Turning the differences between the rollup and layer one into a settlement.

use vstd::prelude::*;

use crate::accounts::Pubkey;
use crate::codec::same_array;
use crate::keyed::KeySet;
use crate::settlement::checksum::{checksum_settlement, settlement_checksum};
use crate::settlement::chunks::{
    changed_chunks, chunk_models, chunks_are_bounded, chunks_belong_to_the_account,
    chunks_carry_the_data_over, data_chunks_for_account, write_chunks, ChunkModel, SettlementChunk,
};
use crate::settlement::{
    plan_checksum, AccountLamportsSettlement, AccountOwnerSettlement, PlanModel,
    ReceiptBalanceSettlement, SettlementPlan, SettlementUnsupportedChange,
};
use crate::state_diff::{diff_models, DiffModel, ErStateDiff, ErStateDiffAccount};

verus! {

/// What one settlement can carry.
#[derive(Debug, Clone, Copy, PartialEq, Eq)]
pub struct SettlementLimits {
    /// How many bytes one chunk can hold.
    pub max_chunk: usize,
    /// How many accounts can change lamports.
    pub max_lamport_accounts: usize,
}

/// What cannot be settled about an account, lamports and owner aside.
pub open spec fn account_problems(diff: DiffModel) -> Seq<SettlementUnsupportedChange> {
    match diff.l1_account {
        None => seq![SettlementUnsupportedChange::MissingL1Account { account: diff.pubkey }],
        Some(l1) => {
            let er = diff.er_account;
            let length = if l1.data.len() != er.data.len() {
                seq![
                    SettlementUnsupportedChange::DataLengthChanged {
                        account: diff.pubkey,
                        l1_len: l1.data.len() as usize,
                        er_len: er.data.len() as usize,
                    },
                ]
            } else {
                Seq::empty()
            };
            let executable = if l1.executable != er.executable {
                seq![
                    SettlementUnsupportedChange::ExecutableChanged {
                        account: diff.pubkey,
                        l1_executable: l1.executable,
                        er_executable: er.executable,
                    },
                ]
            } else {
                Seq::empty()
            };
            let rent_epoch = if l1.rent_epoch != er.rent_epoch {
                seq![
                    SettlementUnsupportedChange::RentEpochChanged {
                        account: diff.pubkey,
                        l1_rent_epoch: l1.rent_epoch,
                        er_rent_epoch: er.rent_epoch,
                    },
                ]
            } else {
                Seq::empty()
            };
            length + executable + rent_epoch
        },
    }
}

pub fn unsupported_changes_for_account(account_diff: &ErStateDiffAccount) -> (problems: Vec<
    SettlementUnsupportedChange,
>)
    ensures
        problems@ == account_problems(account_diff@),
{
    let mut problems: Vec<SettlementUnsupportedChange> = Vec::new();
    let account = account_diff.pubkey;
    match &account_diff.l1_account {
        None => {
            problems.push(SettlementUnsupportedChange::MissingL1Account { account });
        },
        Some(l1_account) => {
            let er_account = &account_diff.er_account;
            if l1_account.data.len() != er_account.data.len() {
                problems.push(
                    SettlementUnsupportedChange::DataLengthChanged {
                        account,
                        l1_len: l1_account.data.len(),
                        er_len: er_account.data.len(),
                    },
                );
            }
            if l1_account.executable != er_account.executable {
                problems.push(
                    SettlementUnsupportedChange::ExecutableChanged {
                        account,
                        l1_executable: l1_account.executable,
                        er_executable: er_account.executable,
                    },
                );
            }
            if l1_account.rent_epoch != er_account.rent_epoch {
                problems.push(
                    SettlementUnsupportedChange::RentEpochChanged {
                        account,
                        l1_rent_epoch: l1_account.rent_epoch,
                        er_rent_epoch: er_account.rent_epoch,
                    },
                );
            }
        },
    }
    assert(problems@ =~= account_problems(account_diff@));
    problems
}

/// The account is delegated, and nothing about it stands in the way.
pub open spec fn settleable(diff: DiffModel, delegated: Set<Pubkey>) -> bool {
    delegated.contains(diff.pubkey) && account_problems(diff).len() == 0
}

/// What stands in the way of settling the first `k` accounts.
pub open spec fn problems_of(
    accounts: Seq<DiffModel>,
    delegated: Set<Pubkey>,
    k: int,
) -> Seq<SettlementUnsupportedChange>
    decreases k,
{
    if k <= 0 {
        Seq::empty()
    } else {
        problems_of(accounts, delegated, k - 1) + (if delegated.contains(accounts[k - 1].pubkey) {
            account_problems(accounts[k - 1])
        } else {
            Seq::empty()
        })
    }
}

/// The new owners of the first `k` accounts.
pub open spec fn owner_changes_of(
    accounts: Seq<DiffModel>,
    delegated: Set<Pubkey>,
    k: int,
) -> Seq<AccountOwnerSettlement>
    decreases k,
{
    if k <= 0 {
        Seq::empty()
    } else {
        let diff = accounts[k - 1];
        let before = owner_changes_of(accounts, delegated, k - 1);
        if settleable(diff, delegated) && diff.l1_account->0.owner != diff.er_account.owner {
            before.push(
                AccountOwnerSettlement { account: diff.pubkey, owner: diff.er_account.owner },
            )
        } else {
            before
        }
    }
}

/// A change of lamports: the account, its lamports on layer one, and those on
/// the rollup.
#[derive(Debug, Clone, Copy, PartialEq, Eq)]
pub struct LamportCandidate {
    pub account: Pubkey,
    pub l1_lamports: u64,
    pub er_lamports: u64,
}

/// The changes of lamports among the first `k` accounts.
pub open spec fn lamport_candidates_of(
    accounts: Seq<DiffModel>,
    delegated: Set<Pubkey>,
    k: int,
) -> Seq<LamportCandidate>
    decreases k,
{
    if k <= 0 {
        Seq::empty()
    } else {
        let diff = accounts[k - 1];
        let before = lamport_candidates_of(accounts, delegated, k - 1);
        if settleable(diff, delegated) && diff.l1_account->0.lamports != diff.er_account.lamports {
            before.push(
                LamportCandidate {
                    account: diff.pubkey,
                    l1_lamports: diff.l1_account->0.lamports,
                    er_lamports: diff.er_account.lamports,
                },
            )
        } else {
            before
        }
    }
}

/// The chunks of the first `k` accounts.
pub open spec fn chunks_of(
    accounts: Seq<DiffModel>,
    delegated: Set<Pubkey>,
    max: int,
    k: int,
) -> Seq<ChunkModel>
    decreases k,
{
    if k <= 0 {
        Seq::empty()
    } else {
        let diff = accounts[k - 1];
        chunks_of(accounts, delegated, max, k - 1) + (if settleable(diff, delegated) {
            changed_chunks(diff.pubkey, diff.l1_account->0.data, diff.er_account.data, 0, max)
        } else {
            Seq::empty()
        })
    }
}

/// What the candidates hold on layer one.
pub open spec fn l1_total(candidates: Seq<LamportCandidate>) -> nat
    decreases candidates.len(),
{
    if candidates.len() == 0 {
        0
    } else {
        l1_total(candidates.drop_last()) + candidates.last().l1_lamports as nat
    }
}

/// What the candidates hold on the rollup.
pub open spec fn er_total(candidates: Seq<LamportCandidate>) -> nat
    decreases candidates.len(),
{
    if candidates.len() == 0 {
        0
    } else {
        er_total(candidates.drop_last()) + candidates.last().er_lamports as nat
    }
}

/// What stands in the way of the changes of lamports: there are too many, or
/// they create or destroy lamports.
pub open spec fn lamport_problems(candidates: Seq<LamportCandidate>, max: usize) -> Seq<
    SettlementUnsupportedChange,
> {
    if candidates.len() > max {
        seq![
            SettlementUnsupportedChange::TooManyLamportChanges {
                count: candidates.len() as usize,
                max,
            },
        ]
    } else if l1_total(candidates) != er_total(candidates) {
        Seq::new(
            candidates.len(),
            |i: int|
                SettlementUnsupportedChange::LamportsChanged {
                    account: candidates[i].account,
                    l1_lamports: candidates[i].l1_lamports,
                    er_lamports: candidates[i].er_lamports,
                },
        )
    } else {
        Seq::empty()
    }
}

pub open spec fn lamport_changes_of(candidates: Seq<LamportCandidate>) -> Seq<
    AccountLamportsSettlement,
> {
    Seq::new(
        candidates.len(),
        |i: int|
            AccountLamportsSettlement {
                account: candidates[i].account,
                lamports: candidates[i].er_lamports,
            },
    )
}

/// All that stands in the way of the settlement.
pub open spec fn all_problems(
    accounts: Seq<DiffModel>,
    delegated: Set<Pubkey>,
    limits: SettlementLimits,
) -> Seq<SettlementUnsupportedChange> {
    let n = accounts.len() as int;
    problems_of(accounts, delegated, n) + lamport_problems(
        lamport_candidates_of(accounts, delegated, n),
        limits.max_lamport_accounts,
    )
}

/// The settlement of the differences. Where anything stands in the way, no
/// account is settled, but the receipts still are part of the plan.
pub open spec fn plan_of(
    accounts: Seq<DiffModel>,
    delegated: Set<Pubkey>,
    er_slot: u64,
    receipts: Seq<ReceiptBalanceSettlement>,
    limits: SettlementLimits,
) -> Option<PlanModel> {
    let n = accounts.len() as int;
    let problems = all_problems(accounts, delegated, limits);
    let blocked = problems.len() > 0;
    let chunks = if blocked {
        Seq::empty()
    } else {
        chunks_of(accounts, delegated, limits.max_chunk as int, n)
    };
    let owner_changes = if blocked {
        Seq::empty()
    } else {
        owner_changes_of(accounts, delegated, n)
    };
    let lamport_changes = if blocked {
        Seq::empty()
    } else {
        lamport_changes_of(lamport_candidates_of(accounts, delegated, n))
    };
    if chunks.len() == 0 && owner_changes.len() == 0 && lamport_changes.len() == 0
        && receipts.len() == 0 && !blocked {
        None
    } else {
        Some(
            PlanModel {
                er_slot,
                checksum: settlement_checksum(
                    er_slot,
                    chunks,
                    owner_changes,
                    lamport_changes,
                    receipts,
                ),
                chunks,
                owner_changes,
                lamport_changes,
                receipt_balances: receipts,
                unsupported_changes: problems,
            },
        )
    }
}

fn total_lamports(candidates: &Vec<LamportCandidate>) -> (totals: (u128, u128))
    ensures
        totals.0 == l1_total(candidates@),
        totals.1 == er_total(candidates@),
{
    let mut l1: u128 = 0;
    let mut er: u128 = 0;
    let mut i: usize = 0;
    while i < candidates.len()
        invariant
            i <= candidates@.len(),
            l1 == l1_total(candidates@.take(i as int)),
            er == er_total(candidates@.take(i as int)),
            l1 <= i * u64::MAX,
            er <= i * u64::MAX,
        decreases candidates@.len() - i,
    {
        let candidate = &candidates[i];
        proof {
            assert(candidates@.take(i + 1).drop_last() =~= candidates@.take(i as int));
            assert(i * u64::MAX + u64::MAX == (i + 1) * u64::MAX) by (nonlinear_arith);
            assert((i + 1) * u64::MAX <= u64::MAX * u64::MAX) by (nonlinear_arith)
                requires
                    i < usize::MAX,
                    usize::MAX <= u64::MAX,
            ;
        }
        l1 = l1 + candidate.l1_lamports as u128;
        er = er + candidate.er_lamports as u128;
        i += 1;
    }
    assert(candidates@.take(i as int) =~= candidates@);
    (l1, er)
}

/// Appends what stands in the way of the changes of lamports.
fn push_lamport_problems(
    candidates: &Vec<LamportCandidate>,
    max: usize,
    problems: &mut Vec<SettlementUnsupportedChange>,
)
    ensures
        final(problems)@ == old(problems)@ + lamport_problems(candidates@, max),
{
    if candidates.len() > max {
        problems.push(
            SettlementUnsupportedChange::TooManyLamportChanges { count: candidates.len(), max },
        );
        assert(problems@ =~= old(problems)@ + lamport_problems(candidates@, max));
        return;
    }
    let (l1, er): (u128, u128) = total_lamports(candidates);
    if l1 == er {
        assert(problems@ =~= old(problems)@ + lamport_problems(candidates@, max));
        return;
    }
    let ghost all = lamport_problems(candidates@, max);
    let mut i: usize = 0;
    assert(problems@ =~= old(problems)@ + all.take(0));
    while i < candidates.len()
        invariant
            i <= candidates@.len(),
            all == lamport_problems(candidates@, max),
            candidates@.len() <= max,
            l1_total(candidates@) != er_total(candidates@),
            problems@ == old(problems)@ + all.take(i as int),
        decreases candidates@.len() - i,
    {
        let candidate = &candidates[i];
        problems.push(
            SettlementUnsupportedChange::LamportsChanged {
                account: candidate.account,
                l1_lamports: candidate.l1_lamports,
                er_lamports: candidate.er_lamports,
            },
        );
        i += 1;
        assert(problems@ =~= old(problems)@ + all.take(i as int));
    }
    assert(all.take(i as int) =~= all);
}

fn settled_lamports(candidates: &Vec<LamportCandidate>) -> (changes: Vec<
    AccountLamportsSettlement,
>)
    ensures
        changes@ == lamport_changes_of(candidates@),
{
    let mut changes: Vec<AccountLamportsSettlement> = Vec::new();
    let mut i: usize = 0;
    while i < candidates.len()
        invariant
            i <= candidates@.len(),
            changes@ == lamport_changes_of(candidates@).take(i as int),
        decreases candidates@.len() - i,
    {
        changes.push(
            AccountLamportsSettlement {
                account: candidates[i].account,
                lamports: candidates[i].er_lamports,
            },
        );
        i += 1;
        assert(changes@ =~= lamport_changes_of(candidates@).take(i as int));
    }
    assert(changes@ =~= lamport_changes_of(candidates@));
    changes
}

/// Plans the settlement of the differences of delegated accounts, together with
/// the given receipts. Returns `None` if there is nothing to settle and nothing
/// to report.
pub fn build_settlement_plan(
    diff: &ErStateDiff,
    delegated_accounts: &KeySet<32>,
    er_slot: u64,
    receipt_balances: Vec<ReceiptBalanceSettlement>,
    limits: &SettlementLimits,
) -> (r: Option<SettlementPlan>)
    requires
        delegated_accounts.well_formed(),
        limits.max_chunk > 0,
    ensures
        match plan_of(
            diff_models(diff.accounts@),
            delegated_accounts@,
            er_slot,
            receipt_balances@,
            *limits,
        ) {
            Some(model) => r matches Some(plan) && plan@ == model,
            None => r is None,
        },
{
    let ghost ms = diff_models(diff.accounts@);
    let ghost delegated = delegated_accounts@;
    let ghost max = limits.max_chunk as int;
    let ghost receipts = receipt_balances@;
    let mut chunks: Vec<SettlementChunk> = Vec::new();
    let mut owner_changes: Vec<AccountOwnerSettlement> = Vec::new();
    let mut candidates: Vec<LamportCandidate> = Vec::new();
    let mut problems: Vec<SettlementUnsupportedChange> = Vec::new();
    let mut k: usize = 0;
    assert(chunk_models(chunks@) =~= Seq::<ChunkModel>::empty());
    while k < diff.accounts.len()
        invariant
            k <= diff.accounts@.len(),
            ms == diff_models(diff.accounts@),
            delegated_accounts.well_formed(),
            delegated == delegated_accounts@,
            limits.max_chunk > 0,
            max == limits.max_chunk,
            problems@ == problems_of(ms, delegated, k as int),
            owner_changes@ == owner_changes_of(ms, delegated, k as int),
            candidates@ == lamport_candidates_of(ms, delegated, k as int),
            chunk_models(chunks@) == chunks_of(ms, delegated, max, k as int),
        decreases diff.accounts@.len() - k,
    {
        let account_diff = &diff.accounts[k];
        let ghost d = ms[k as int];
        assert(d == account_diff@);
        k += 1;
        let ghost chunks_before = chunk_models(chunks@);
        if !delegated_accounts.contains(&account_diff.pubkey) {
            assert(problems@ =~= problems_of(ms, delegated, k as int));
            assert(chunk_models(chunks@) =~= chunks_of(ms, delegated, max, k as int));
            continue;
        }
        let mut account_problems = unsupported_changes_for_account(account_diff);
        if account_problems.len() > 0 {
            problems.append(&mut account_problems);
            assert(chunk_models(chunks@) =~= chunks_of(ms, delegated, max, k as int));
            continue;
        }
        assert(settleable(d, delegated));
        assert(problems@ =~= problems_of(ms, delegated, k as int));
        match &account_diff.l1_account {
            Some(l1_account) => {
                let er_account = &account_diff.er_account;
                assert(d.l1_account->0 == l1_account@);
                if !same_array(&l1_account.owner, &er_account.owner) {
                    owner_changes.push(
                        AccountOwnerSettlement {
                            account: account_diff.pubkey,
                            owner: er_account.owner,
                        },
                    );
                }
                if l1_account.lamports != er_account.lamports {
                    candidates.push(
                        LamportCandidate {
                            account: account_diff.pubkey,
                            l1_lamports: l1_account.lamports,
                            er_lamports: er_account.lamports,
                        },
                    );
                }
                let mut account_chunks = data_chunks_for_account(
                    account_diff.pubkey,
                    l1_account.data.as_slice(),
                    er_account.data.as_slice(),
                    limits.max_chunk,
                );
                let ghost added = chunk_models(account_chunks@);
                chunks.append(&mut account_chunks);
                assert(chunk_models(chunks@) =~= chunks_before + added);
            },
            None => {},
        }
    }
    push_lamport_problems(&candidates, limits.max_lamport_accounts, &mut problems);
    assert(problems@ == all_problems(ms, delegated, *limits));
    let mut lamport_changes: Vec<AccountLamportsSettlement> = Vec::new();
    if problems.len() > 0 {
        chunks = Vec::new();
        owner_changes = Vec::new();
        assert(chunk_models(chunks@) =~= Seq::<ChunkModel>::empty());
    } else {
        lamport_changes = settled_lamports(&candidates);
    }
    if chunks.len() == 0 && owner_changes.len() == 0 && lamport_changes.len() == 0
        && receipt_balances.len() == 0 && problems.len() == 0 {
        return None;
    }
    let plan = SettlementPlan {
        er_slot,
        checksum: checksum_settlement(
            er_slot,
            &chunks,
            &owner_changes,
            &lamport_changes,
            &receipt_balances,
        ),
        chunks,
        owner_changes,
        lamport_changes,
        receipt_balances,
        unsupported_changes: problems,
    };
    assert(plan@ =~= plan_of(ms, delegated, er_slot, receipts, *limits)->0);
    Some(plan)
}

/// The chunks of one account, in their order.
pub open spec fn chunks_for(chunks: Seq<ChunkModel>, account: Pubkey) -> Seq<ChunkModel>
    decreases chunks.len(),
{
    if chunks.len() == 0 {
        Seq::empty()
    } else if chunks.last().account == account {
        chunks_for(chunks.drop_last(), account).push(chunks.last())
    } else {
        chunks_for(chunks.drop_last(), account)
    }
}

proof fn lemma_chunks_for_append(a: Seq<ChunkModel>, b: Seq<ChunkModel>, account: Pubkey)
    ensures
        chunks_for(a + b, account) == chunks_for(a, account) + chunks_for(b, account),
    decreases b.len(),
{
    if b.len() == 0 {
        assert(a + b =~= a);
        assert(chunks_for(a, account) + chunks_for(b, account) =~= chunks_for(a, account));
    } else {
        assert((a + b).drop_last() =~= a + b.drop_last());
        lemma_chunks_for_append(a, b.drop_last(), account);
        assert(chunks_for(a + b, account) =~= chunks_for(a, account) + chunks_for(b, account));
    }
}

proof fn lemma_chunks_for_same(chunks: Seq<ChunkModel>, owner: Pubkey, account: Pubkey)
    requires
        forall|i: int| 0 <= i < chunks.len() ==> (#[trigger] chunks[i]).account == owner,
    ensures
        chunks_for(chunks, account) == (if owner == account {
            chunks
        } else {
            Seq::empty()
        }),
    decreases chunks.len(),
{
    if chunks.len() > 0 {
        let front = chunks.drop_last();
        assert forall|i: int| 0 <= i < front.len() implies (#[trigger] front[i]).account == owner by {
            assert(front[i] == chunks[i]);
        }
        lemma_chunks_for_same(front, owner, account);
        assert(chunks[chunks.len() - 1].account == owner);
        assert(front.push(chunks.last()) =~= chunks);
    } else {
        assert(chunks =~= Seq::empty());
    }
}

proof fn lemma_chunks_of_account(
    accounts: Seq<DiffModel>,
    delegated: Set<Pubkey>,
    max: int,
    k: int,
    i: int,
)
    requires
        max > 0,
        0 <= k <= accounts.len(),
        0 <= i < accounts.len(),
        forall|a: int, b: int|
            0 <= a < b < accounts.len() ==> (#[trigger] accounts[a]).pubkey != (
            #[trigger] accounts[b]).pubkey,
    ensures
        chunks_for(chunks_of(accounts, delegated, max, k), accounts[i].pubkey) == (if i < k
            && settleable(accounts[i], delegated) {
            changed_chunks(
                accounts[i].pubkey,
                accounts[i].l1_account->0.data,
                accounts[i].er_account.data,
                0,
                max,
            )
        } else {
            Seq::empty()
        }),
    decreases k,
{
    if k > 0 {
        let diff = accounts[k - 1];
        let before = chunks_of(accounts, delegated, max, k - 1);
        let account = accounts[i].pubkey;
        lemma_chunks_of_account(accounts, delegated, max, k - 1, i);
        if settleable(diff, delegated) {
            let added = changed_chunks(
                diff.pubkey,
                diff.l1_account->0.data,
                diff.er_account.data,
                0,
                max,
            );
            assert forall|c: int| 0 <= c < added.len() implies (#[trigger] added[c]).account
                == diff.pubkey by {
                chunks_belong_to_the_account(
                    diff.pubkey,
                    diff.l1_account->0.data,
                    diff.er_account.data,
                    0,
                    max,
                    c,
                );
            }
            lemma_chunks_for_same(added, diff.pubkey, account);
            lemma_chunks_for_append(before, added, account);
            if i == k - 1 {
                assert(chunks_for(before, account) + added =~= added);
            } else {
                assert(diff.pubkey != account);
                assert(chunks_for(before, account) + Seq::<ChunkModel>::empty() =~= chunks_for(
                    before,
                    account,
                ));
            }
        } else {
            assert(before + Seq::<ChunkModel>::empty() =~= before);
        }
    }
}

/// Where nothing stands in the way, writing a delegated account's chunks into
/// its layer-one data gives its data on the rollup.
pub proof fn plans_carry_the_data_over(
    accounts: Seq<DiffModel>,
    delegated: Set<Pubkey>,
    er_slot: u64,
    receipts: Seq<ReceiptBalanceSettlement>,
    limits: SettlementLimits,
    i: int,
)
    requires
        limits.max_chunk > 0,
        0 <= i < accounts.len(),
        forall|a: int, b: int|
            0 <= a < b < accounts.len() ==> (#[trigger] accounts[a]).pubkey != (
            #[trigger] accounts[b]).pubkey,
        delegated.contains(accounts[i].pubkey),
        accounts[i].er_account.data.len() <= u32::MAX,
        plan_of(accounts, delegated, er_slot, receipts, limits) is Some,
        plan_of(accounts, delegated, er_slot, receipts, limits)->0.unsupported_changes.len() == 0,
    ensures
        accounts[i].l1_account is Some,
        write_chunks(
            accounts[i].l1_account->0.data,
            chunks_for(
                plan_of(accounts, delegated, er_slot, receipts, limits)->0.chunks,
                accounts[i].pubkey,
            ),
        ) == accounts[i].er_account.data,
{
    let n = accounts.len() as int;
    let max = limits.max_chunk as int;
    lemma_problem_reported(accounts, delegated, n, i);
    assert(settleable(accounts[i], delegated));
    lemma_chunks_of_account(accounts, delegated, max, n, i);
    assert(accounts[i].l1_account is Some);
    chunks_carry_the_data_over(
        accounts[i].pubkey,
        accounts[i].l1_account->0.data,
        accounts[i].er_account.data,
        max,
    );
}

proof fn lemma_problem_reported(
    accounts: Seq<DiffModel>,
    delegated: Set<Pubkey>,
    k: int,
    i: int,
)
    requires
        0 <= i < k <= accounts.len(),
        delegated.contains(accounts[i].pubkey),
    ensures
        problems_of(accounts, delegated, k).len() >= account_problems(accounts[i]).len(),
    decreases k,
{
    if i < k - 1 {
        lemma_problem_reported(accounts, delegated, k - 1, i);
    }
}

/// Where nothing stands in the way, the plan settles the owner of a delegated
/// account if and only if it has changed, and likewise its lamports.
pub proof fn plans_settle_every_change(
    accounts: Seq<DiffModel>,
    delegated: Set<Pubkey>,
    er_slot: u64,
    receipts: Seq<ReceiptBalanceSettlement>,
    limits: SettlementLimits,
    i: int,
)
    requires
        0 <= i < accounts.len(),
        delegated.contains(accounts[i].pubkey),
        plan_of(accounts, delegated, er_slot, receipts, limits) is Some,
        plan_of(accounts, delegated, er_slot, receipts, limits)->0.unsupported_changes.len() == 0,
    ensures
        accounts[i].l1_account is Some,
        accounts[i].l1_account->0.owner != accounts[i].er_account.owner ==> plan_of(
            accounts,
            delegated,
            er_slot,
            receipts,
            limits,
        )->0.owner_changes.contains(
            AccountOwnerSettlement {
                account: accounts[i].pubkey,
                owner: accounts[i].er_account.owner,
            },
        ),
        accounts[i].l1_account->0.lamports != accounts[i].er_account.lamports ==> plan_of(
            accounts,
            delegated,
            er_slot,
            receipts,
            limits,
        )->0.lamport_changes.contains(
            AccountLamportsSettlement {
                account: accounts[i].pubkey,
                lamports: accounts[i].er_account.lamports,
            },
        ),
{
    let n = accounts.len() as int;
    lemma_problem_reported(accounts, delegated, n, i);
    assert(settleable(accounts[i], delegated));
    if accounts[i].l1_account->0.owner != accounts[i].er_account.owner {
        lemma_owner_change_listed(accounts, delegated, n, i);
    }
    if accounts[i].l1_account->0.lamports != accounts[i].er_account.lamports {
        lemma_candidate_listed(accounts, delegated, n, i);
        let candidates = lamport_candidates_of(accounts, delegated, n);
        let at = choose|at: int|
            0 <= at < candidates.len() && #[trigger] candidates[at] == (LamportCandidate {
                account: accounts[i].pubkey,
                l1_lamports: accounts[i].l1_account->0.lamports,
                er_lamports: accounts[i].er_account.lamports,
            });
        assert(lamport_changes_of(candidates)[at] == (AccountLamportsSettlement {
            account: accounts[i].pubkey,
            lamports: accounts[i].er_account.lamports,
        }));
    }
}

proof fn lemma_owner_change_listed(
    accounts: Seq<DiffModel>,
    delegated: Set<Pubkey>,
    k: int,
    i: int,
)
    requires
        0 <= i < k <= accounts.len(),
        settleable(accounts[i], delegated),
        accounts[i].l1_account->0.owner != accounts[i].er_account.owner,
    ensures
        owner_changes_of(accounts, delegated, k).contains(
            AccountOwnerSettlement {
                account: accounts[i].pubkey,
                owner: accounts[i].er_account.owner,
            },
        ),
    decreases k,
{
    let all = owner_changes_of(accounts, delegated, k);
    let change = AccountOwnerSettlement {
        account: accounts[i].pubkey,
        owner: accounts[i].er_account.owner,
    };
    if i < k - 1 {
        lemma_owner_change_listed(accounts, delegated, k - 1, i);
        let before = owner_changes_of(accounts, delegated, k - 1);
        let at = choose|at: int| 0 <= at < before.len() && before[at] == change;
        assert(all[at] == change);
    } else {
        assert(all.last() == change);
    }
}

proof fn lemma_candidate_listed(
    accounts: Seq<DiffModel>,
    delegated: Set<Pubkey>,
    k: int,
    i: int,
)
    requires
        0 <= i < k <= accounts.len(),
        settleable(accounts[i], delegated),
        accounts[i].l1_account->0.lamports != accounts[i].er_account.lamports,
    ensures
        exists|at: int|
            0 <= at < lamport_candidates_of(accounts, delegated, k).len()
                && #[trigger] lamport_candidates_of(accounts, delegated, k)[at] == (
            LamportCandidate {
                account: accounts[i].pubkey,
                l1_lamports: accounts[i].l1_account->0.lamports,
                er_lamports: accounts[i].er_account.lamports,
            }),
    decreases k,
{
    let all = lamport_candidates_of(accounts, delegated, k);
    let candidate = LamportCandidate {
        account: accounts[i].pubkey,
        l1_lamports: accounts[i].l1_account->0.lamports,
        er_lamports: accounts[i].er_account.lamports,
    };
    if i < k - 1 {
        lemma_candidate_listed(accounts, delegated, k - 1, i);
        let before = lamport_candidates_of(accounts, delegated, k - 1);
        let at = choose|at: int| 0 <= at < before.len() && #[trigger] before[at] == candidate;
        assert(all[at] == candidate);
    } else {
        assert(all[all.len() - 1] == candidate);
    }
}

/// Where anything stands in the way, no account is settled at all.
pub proof fn blocked_plans_settle_no_account(
    accounts: Seq<DiffModel>,
    delegated: Set<Pubkey>,
    er_slot: u64,
    receipts: Seq<ReceiptBalanceSettlement>,
    limits: SettlementLimits,
)
    requires
        all_problems(accounts, delegated, limits).len() > 0,
    ensures
        plan_of(accounts, delegated, er_slot, receipts, limits) matches Some(plan) && {
            &&& plan.unsupported_changes == all_problems(accounts, delegated, limits)
            &&& plan.chunks.len() == 0
            &&& plan.owner_changes.len() == 0
            &&& plan.lamport_changes.len() == 0
        },
{
}

/// The lamports that a plan assigns.
pub open spec fn assigned_lamports(changes: Seq<AccountLamportsSettlement>) -> nat
    decreases changes.len(),
{
    if changes.len() == 0 {
        0
    } else {
        assigned_lamports(changes.drop_last()) + changes.last().lamports as nat
    }
}

proof fn lemma_assigned(candidates: Seq<LamportCandidate>)
    ensures
        assigned_lamports(lamport_changes_of(candidates)) == er_total(candidates),
    decreases candidates.len(),
{
    if candidates.len() > 0 {
        lemma_assigned(candidates.drop_last());
        assert(lamport_changes_of(candidates).drop_last() =~= lamport_changes_of(
            candidates.drop_last(),
        ));
    }
}

/// A plan neither creates nor destroys lamports: the accounts whose lamports it
/// sets hold as many afterwards as they hold on layer one.
pub proof fn plans_conserve_lamports(
    accounts: Seq<DiffModel>,
    delegated: Set<Pubkey>,
    er_slot: u64,
    receipts: Seq<ReceiptBalanceSettlement>,
    limits: SettlementLimits,
)
    requires
        plan_of(accounts, delegated, er_slot, receipts, limits) is Some,
    ensures
        plan_of(accounts, delegated, er_slot, receipts, limits)->0.lamport_changes.len() > 0
            ==> assigned_lamports(
            plan_of(accounts, delegated, er_slot, receipts, limits)->0.lamport_changes,
        ) == l1_total(lamport_candidates_of(accounts, delegated, accounts.len() as int)),
{
    lemma_assigned(lamport_candidates_of(accounts, delegated, accounts.len() as int));
}

/// The plan fits the limits of a settlement.
pub open spec fn plan_fits(plan: PlanModel, limits: SettlementLimits) -> bool {
    &&& forall|c: int|
        0 <= c < plan.chunks.len() ==> (#[trigger] plan.chunks[c]).data.len() <= limits.max_chunk
    &&& plan.lamport_changes.len() <= limits.max_lamport_accounts
}

/// The plan can be made into instructions: it is within the limits, or it is
/// blocked and comes to none.
pub open spec fn can_be_sent(plan: PlanModel, limits: SettlementLimits) -> bool {
    plan.unsupported_changes.len() > 0 || plan_fits(plan, limits)
}

proof fn lemma_chunks_fit(
    accounts: Seq<DiffModel>,
    delegated: Set<Pubkey>,
    max: int,
    k: int,
    c: int,
)
    requires
        max > 0,
        0 <= k <= accounts.len(),
        0 <= c < chunks_of(accounts, delegated, max, k).len(),
    ensures
        chunks_of(accounts, delegated, max, k)[c].data.len() <= max,
    decreases k,
{
    let before = chunks_of(accounts, delegated, max, k - 1);
    if c < before.len() {
        lemma_chunks_fit(accounts, delegated, max, k - 1, c);
    } else {
        let diff = accounts[k - 1];
        chunks_are_bounded(
            diff.pubkey,
            diff.l1_account->0.data,
            diff.er_account.data,
            0,
            max,
            c - before.len(),
        );
    }
}

/// A plan is within the limits that it was made for, and carries the checksum
/// of what it holds.
pub proof fn plans_are_consistent(
    accounts: Seq<DiffModel>,
    delegated: Set<Pubkey>,
    er_slot: u64,
    receipts: Seq<ReceiptBalanceSettlement>,
    limits: SettlementLimits,
)
    requires
        limits.max_chunk > 0,
        plan_of(accounts, delegated, er_slot, receipts, limits) is Some,
    ensures
        plan_fits(plan_of(accounts, delegated, er_slot, receipts, limits)->0, limits),
        plan_of(accounts, delegated, er_slot, receipts, limits)->0.checksum == plan_checksum(
            plan_of(accounts, delegated, er_slot, receipts, limits)->0,
        ),
{
    let plan = plan_of(accounts, delegated, er_slot, receipts, limits)->0;
    let n = accounts.len() as int;
    assert forall|c: int| 0 <= c < plan.chunks.len() implies (#[trigger] plan.chunks[c]).data.len()
        <= limits.max_chunk by {
        lemma_chunks_fit(accounts, delegated, limits.max_chunk as int, n, c);
    }
}

} // verus!
