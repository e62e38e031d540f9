//! Which changes the captures of a checkpoint come to.

use vstd::prelude::*;

use crate::accounts::Pubkey;
use crate::keyed::{lemma_order_exists, ordered};
use crate::order::lex_order_is_total;
use crate::replay::{CaptureModel, CapturedModel};
use crate::settlement::captured::{
    changes_of, checkpoint_changes, plan_of_changes, with_capture, with_captured, ChangeModel,
};

verus! {

/// The account's data has changed.
pub open spec fn has_new_data(captured: CapturedModel) -> bool {
    captured.pre_account.data != captured.post_account.data
}

/// A transaction may leave the account so: as it was, or with its lamports, its owner
/// and the length of its data; a program keeps its data.
pub open spec fn may_be_captured(captured: CapturedModel) -> bool {
    captured.pre_account == captured.post_account || {
        &&& captured.pre_account.lamports == captured.post_account.lamports
        &&& captured.pre_account.owner == captured.post_account.owner
        &&& captured.pre_account.data.len() == captured.post_account.data.len()
        &&& has_new_data(captured) ==> !captured.pre_account.executable
    }
}

/// The account at a place is one of those before the given place.
pub open spec fn is_before(captures: Seq<CaptureModel>, n: nat, k: nat, t: int, a: int) -> bool {
    &&& 0 <= t < captures.len()
    &&& 0 <= a < captures[t].accounts.len()
    &&& t < n || (t == n && a < k)
}

/// The captured account at a place.
pub open spec fn at(captures: Seq<CaptureModel>, t: int, a: int) -> CapturedModel {
    captures[t].accounts[a]
}

/// Every account before the place may be captured so.
pub open spec fn all_may_be(captures: Seq<CaptureModel>, n: nat, k: nat) -> bool {
    forall|t: int, a: int|
        is_before(captures, n, k, t, a) ==> may_be_captured(#[trigger] at(captures, t, a))
}

/// No account before the place gets new data twice.
pub open spec fn none_twice(captures: Seq<CaptureModel>, n: nat, k: nat) -> bool {
    forall|t: int, a: int, u: int, b: int|
        is_before(captures, n, k, t, a) && is_before(captures, n, k, u, b) && (t != u || a != b)
            && has_new_data(#[trigger] at(captures, t, a)) && has_new_data(
            #[trigger] at(captures, u, b),
        ) ==> at(captures, t, a).key != at(captures, u, b).key
}

/// Some account before the place has this address and new data.
pub open spec fn gets_new_data(captures: Seq<CaptureModel>, n: nat, k: nat, key: Pubkey) -> bool {
    exists|t: int, a: int|
        is_before(captures, n, k, t, a) && has_new_data(#[trigger] at(captures, t, a)) && at(
            captures,
            t,
            a,
        ).key == key
}

/// The changes are exactly those of the accounts with new data before the place.
pub open spec fn are_changes(
    captures: Seq<CaptureModel>,
    n: nat,
    k: nat,
    changes: Map<Pubkey, ChangeModel>,
) -> bool {
    &&& forall|t: int, a: int|
        is_before(captures, n, k, t, a) && has_new_data(#[trigger] at(captures, t, a)) ==> {
            let captured = at(captures, t, a);
            &&& changes.contains_key(captured.key)
            &&& changes[captured.key].pre == captured.pre_account
            &&& changes[captured.key].post == captured.post_account
        }
    &&& forall|key: Pubkey| #[trigger]
        changes.contains_key(key) ==> gets_new_data(captures, n, k, key)
}

/// What is right of the changes so far.
pub open spec fn is_right(
    captures: Seq<CaptureModel>,
    n: nat,
    k: nat,
    changes: Option<Map<Pubkey, ChangeModel>>,
) -> bool {
    &&& changes is Some <==> all_may_be(captures, n, k) && none_twice(captures, n, k)
    &&& changes matches Some(held) ==> are_changes(captures, n, k, held)
}

proof fn lemma_next_account(
    captures: Seq<CaptureModel>,
    n: nat,
    k: nat,
    before: Option<Map<Pubkey, ChangeModel>>,
    after: Option<Map<Pubkey, ChangeModel>>,
)
    requires
        n < captures.len(),
        k < captures[n as int].accounts.len(),
        is_right(captures, n, k, before),
        after == match before {
            Some(held) => with_captured(held, at(captures, n as int, k as int)),
            None => None,
        },
    ensures
        is_right(captures, n, k + 1, after),
{
    let here = at(captures, n as int, k as int);
    assert(is_before(captures, n, k + 1, n as int, k as int));
    assert forall|t: int, a: int| is_before(captures, n, k, t, a) implies #[trigger] is_before(
        captures,
        n,
        k + 1,
        t,
        a,
    ) by {
    }
    assert forall|t: int, a: int| #[trigger]
        is_before(captures, n, k + 1, t, a) implies is_before(captures, n, k, t, a) || (t == n && a
        == k) by {
    }
    if all_may_be(captures, n, k + 1) {
        assert(all_may_be(captures, n, k)) by {
            assert forall|t: int, a: int| is_before(captures, n, k, t, a) implies may_be_captured(
                #[trigger] at(captures, t, a),
            ) by {
                assert(is_before(captures, n, k + 1, t, a));
            }
        }
        assert(may_be_captured(here));
    }
    if none_twice(captures, n, k + 1) {
        assert(none_twice(captures, n, k)) by {
            assert forall|t: int, a: int, u: int, b: int|
                is_before(captures, n, k, t, a) && is_before(captures, n, k, u, b) && (t != u || a
                    != b) && has_new_data(#[trigger] at(captures, t, a)) && has_new_data(
                    #[trigger] at(captures, u, b),
                ) implies at(captures, t, a).key != at(captures, u, b).key by {
                assert(is_before(captures, n, k + 1, t, a));
                assert(is_before(captures, n, k + 1, u, b));
            }
        }
    }
    if let Some(held) = before {
        if has_new_data(here) && held.contains_key(here.key) {
            assert(gets_new_data(captures, n, k, here.key));
            let (t, a) = choose|t: int, a: int|
                is_before(captures, n, k, t, a) && has_new_data(#[trigger] at(captures, t, a))
                    && at(captures, t, a).key == here.key;
            assert(is_before(captures, n, k + 1, t, a));
            assert(t != n || a != k);
            assert(!none_twice(captures, n, k + 1));
            assert(after is None);
        }
        if let Some(held_after) = after {
            assert(all_may_be(captures, n, k + 1));
            assert(none_twice(captures, n, k + 1)) by {
                assert forall|t: int, a: int, u: int, b: int|
                    is_before(captures, n, k + 1, t, a) && is_before(captures, n, k + 1, u, b) && (t
                        != u || a != b) && has_new_data(#[trigger] at(captures, t, a))
                        && has_new_data(#[trigger] at(captures, u, b)) implies at(
                    captures,
                    t,
                    a,
                ).key != at(captures, u, b).key by {
                    if t == n && a == k {
                        assert(is_before(captures, n, k, u, b));
                        assert(held.contains_key(at(captures, u, b).key));
                    } else if u == n && b == k {
                        assert(is_before(captures, n, k, t, a));
                        assert(held.contains_key(at(captures, t, a).key));
                    }
                }
            }
            assert forall|key: Pubkey| #[trigger]
                held_after.contains_key(key) implies gets_new_data(captures, n, k + 1, key) by {
                if held.contains_key(key) {
                    assert(gets_new_data(captures, n, k, key));
                    let (t, a) = choose|t: int, a: int|
                        is_before(captures, n, k, t, a) && has_new_data(
                            #[trigger] at(captures, t, a),
                        ) && at(captures, t, a).key == key;
                    assert(is_before(captures, n, k + 1, t, a));
                } else {
                    assert(here.key == key);
                }
            }
        } else {
            if all_may_be(captures, n, k + 1) && none_twice(captures, n, k + 1) {
                assert(may_be_captured(here));
                assert(false);
            }
        }
    }
}

proof fn lemma_captured_accounts(captures: Seq<CaptureModel>, n: nat, k: nat)
    requires
        n < captures.len(),
        k <= captures[n as int].accounts.len(),
        is_right(captures, n, 0, changes_of(captures, n)),
    ensures
        is_right(
            captures,
            n,
            k,
            with_capture(changes_of(captures, n), captures[n as int].accounts, k),
        ),
    decreases k,
{
    if k > 0 {
        lemma_captured_accounts(captures, n, (k - 1) as nat);
        lemma_next_account(
            captures,
            n,
            (k - 1) as nat,
            with_capture(
                changes_of(captures, n),
                captures[n as int].accounts,
                (k - 1) as nat,
            ),
            with_capture(changes_of(captures, n), captures[n as int].accounts, k),
        );
    }
}

proof fn lemma_next_transaction(
    captures: Seq<CaptureModel>,
    n: nat,
    changes: Option<Map<Pubkey, ChangeModel>>,
)
    requires
        n < captures.len(),
        is_right(captures, n, captures[n as int].accounts.len(), changes),
    ensures
        is_right(captures, n + 1, 0, changes),
{
    let len = captures[n as int].accounts.len();
    assert forall|t: int, a: int| #[trigger]
        is_before(captures, n + 1, 0, t, a) == is_before(captures, n, len, t, a) by {
    }
    if all_may_be(captures, n + 1, 0) {
        assert forall|t: int, a: int| is_before(captures, n, len, t, a) implies may_be_captured(
            #[trigger] at(captures, t, a),
        ) by {
            assert(is_before(captures, n + 1, 0, t, a));
        }
    }
    if none_twice(captures, n + 1, 0) {
        assert forall|t: int, a: int, u: int, b: int|
            is_before(captures, n, len, t, a) && is_before(captures, n, len, u, b) && (t != u || a
                != b) && has_new_data(#[trigger] at(captures, t, a)) && has_new_data(
                #[trigger] at(captures, u, b),
            ) implies at(captures, t, a).key != at(captures, u, b).key by {
            assert(is_before(captures, n + 1, 0, t, a));
            assert(is_before(captures, n + 1, 0, u, b));
        }
    }
    if let Some(held) = changes {
        assert forall|key: Pubkey| #[trigger] held.contains_key(key) implies gets_new_data(
            captures,
            n + 1,
            0,
            key,
        ) by {
            assert(gets_new_data(captures, n, len, key));
            let (t, a) = choose|t: int, a: int|
                is_before(captures, n, len, t, a) && has_new_data(#[trigger] at(captures, t, a))
                    && at(captures, t, a).key == key;
            assert(is_before(captures, n + 1, 0, t, a));
        }
    }
}

proof fn lemma_changes(captures: Seq<CaptureModel>, n: nat)
    requires
        n <= captures.len(),
    ensures
        is_right(captures, n, 0, changes_of(captures, n)),
        changes_of(captures, n) matches Some(changes) ==> changes.dom().finite(),
    decreases n,
{
    if n > 0 {
        let m = (n - 1) as nat;
        lemma_changes(captures, m);
        lemma_captured_accounts(captures, m, captures[m as int].accounts.len());
        lemma_next_transaction(captures, m, changes_of(captures, n));
        lemma_finite(
            changes_of(captures, m),
            captures[m as int].accounts,
            captures[m as int].accounts.len(),
        );
    }
}

proof fn lemma_finite(
    start: Option<Map<Pubkey, ChangeModel>>,
    accounts: Seq<CapturedModel>,
    n: nat,
)
    requires
        n <= accounts.len(),
        start matches Some(changes) ==> changes.dom().finite(),
    ensures
        with_capture(start, accounts, n) matches Some(changes) ==> changes.dom().finite(),
    decreases n,
{
    if n > 0 {
        lemma_finite(start, accounts, (n - 1) as nat);
    }
}

/// The addresses of the accounts that get new data.
pub open spec fn changed_keys(captures: Seq<CaptureModel>) -> Set<Pubkey> {
    Set::new(|key: Pubkey| gets_new_data(captures, captures.len(), 0, key))
}

/// The transactions of a checkpoint have changes if and only if each of their accounts
/// may be captured so, no account gets new data twice, and as many accounts get new data
/// as there are transactions. The changes are those of the accounts with new data, each
/// from what it was to what it became, and no other.
pub proof fn changes_are_the_accounts_with_new_data(
    captures: Seq<CaptureModel>,
    t: int,
    a: int,
    key: Pubkey,
)
    ensures
        checkpoint_changes(captures) is Some <==> {
            &&& all_may_be(captures, captures.len(), 0)
            &&& none_twice(captures, captures.len(), 0)
            &&& changed_keys(captures).len() == captures.len()
        },
        checkpoint_changes(captures) matches Some(changes) ==> {
            &&& changes.dom() == changed_keys(captures)
            &&& 0 <= t < captures.len() && 0 <= a < captures[t].accounts.len() && has_new_data(
                at(captures, t, a),
            ) ==> {
                let captured = at(captures, t, a);
                &&& changes[captured.key].pre == captured.pre_account
                &&& changes[captured.key].post == captured.post_account
            }
        },
{
    let n = captures.len();
    lemma_changes(captures, n);
    if let Some(changes) = changes_of(captures, n) {
        assert forall|k: Pubkey| #[trigger] changes.dom().contains(k) <==> changed_keys(
            captures,
        ).contains(k) by {
            if changed_keys(captures).contains(k) {
                let (u, b) = choose|u: int, b: int|
                    is_before(captures, n, 0, u, b) && has_new_data(#[trigger] at(captures, u, b))
                        && at(captures, u, b).key == k;
                assert(changes.contains_key(k));
            }
        }
        assert(changes.dom() =~= changed_keys(captures));
        let keys = ordered(changes.dom());
        lemma_order_exists(changes.dom());
        assert(keys.no_duplicates()) by {
            assert forall|i: int, j: int| 0 <= i < j < keys.len() implies keys[i] != keys[j] by {
                lex_order_is_total(keys[i], keys[j]);
            }
        }
        keys.unique_seq_to_set();
        assert(keys.len() == changes.dom().len());
        if 0 <= t < n && 0 <= a < captures[t].accounts.len() {
            assert(is_before(captures, n, 0, t, a));
        }
    }
}

/// The plan of changes writes the whole new data of every changed account, once each, from
/// its first byte; it changes no owner, no lamports and no receipt, and nothing blocks it.
pub proof fn plans_write_every_change_whole(
    er_slot: u64,
    changes: Map<Pubkey, ChangeModel>,
    key: Pubkey,
    i: int,
    j: int,
)
    requires
        changes.dom().finite(),
    ensures
        ({
            let plan = plan_of_changes(er_slot, changes);
            &&& plan.er_slot == er_slot
            &&& plan.owner_changes.len() == 0
            &&& plan.lamport_changes.len() == 0
            &&& plan.receipt_balances.len() == 0
            &&& plan.unsupported_changes.len() == 0
            &&& plan.chunks.len() == changes.dom().len()
            &&& changes.contains_key(key) ==> exists|c: int|
                0 <= c < plan.chunks.len() && (#[trigger] plan.chunks[c]).account == key
            &&& 0 <= i < plan.chunks.len() ==> {
                let chunk = plan.chunks[i];
                &&& changes.contains_key(chunk.account)
                &&& chunk.account_data_offset == 0
                &&& chunk.data == changes[chunk.account].post.data
            }
            &&& 0 <= i < j < plan.chunks.len() ==> plan.chunks[i].account
                != plan.chunks[j].account
        }),
{
    let plan = plan_of_changes(er_slot, changes);
    let keys = ordered(changes.dom());
    lemma_order_exists(changes.dom());
    assert forall|a: int, b: int| 0 <= a < b < keys.len() implies keys[a] != keys[b] by {
        lex_order_is_total(keys[a], keys[b]);
    }
    assert(keys.no_duplicates());
    keys.unique_seq_to_set();
    if changes.contains_key(key) {
        assert(keys.to_set().contains(key));
        let c = choose|c: int| 0 <= c < keys.len() && keys[c] == key;
        assert(plan.chunks[c].account == key);
    }
    if 0 <= i < keys.len() {
        assert(keys.to_set().contains(keys[i]));
    }
}

} // verus!
