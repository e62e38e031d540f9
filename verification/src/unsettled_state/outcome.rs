//! What a list of updates leaves of a session, told by the updates alone.

use vstd::prelude::*;

use super::{
    all_applied, is_history, mutation_of, no_update_is_lost, session_of, FilesModel,
    RecoveryDisposition, StoredSessionModel,
};
use crate::accounts::{Account, Pubkey};
use crate::unsettled_state::records::{
    MutationKind, MutationModel, PersistedAccountModel, PersistedSignature,
    UnsettledSessionIdentity, WithdrawalPayoutEvent,
};
use crate::unsettled_state::state::{
    accounts_set, applied, is_recovery_of, signatures_set, RecoveredUnsettledState, StateModel,
};

verus! {

/// None of the updates from `k` on has payout events.
pub open spec fn no_payouts_from(mutations: Seq<MutationModel>, k: int) -> bool {
    forall|u: int| k <= u < mutations.len() ==> (#[trigger] mutations[u]).payout_events is None
}

/// None of the accounts from `k` on is at this address.
pub open spec fn address_unset_from(
    accounts: Seq<PersistedAccountModel>,
    key: [u8; 32],
    k: int,
) -> bool {
    forall|a: int| k <= a < accounts.len() ==> (#[trigger] accounts[a]).pubkey != key
}

/// None of the entries from `k` on is of this signature.
pub open spec fn signature_unset_from(
    entries: Seq<PersistedSignature>,
    key: [u8; 64],
    k: int,
) -> bool {
    forall|e: int| k <= e < entries.len() ==> (#[trigger] entries[e]).signature != key
}

/// None of the updates from `k` on sets the account at this address.
pub open spec fn account_unset_from(mutations: Seq<MutationModel>, key: [u8; 32], k: int) -> bool {
    forall|u: int|
        k <= u < mutations.len() ==> address_unset_from(
            (#[trigger] mutations[u]).accounts,
            key,
            0,
        )
}

/// None of the updates from `k` on has this signature.
pub open spec fn unsigned_from(mutations: Seq<MutationModel>, key: [u8; 64], k: int) -> bool {
    forall|u: int|
        k <= u < mutations.len() ==> signature_unset_from(
            (#[trigger] mutations[u]).processed_signatures,
            key,
            0,
        )
}

/// The payout events are those of the last update that has any, or those from
/// before if none has.
pub open spec fn payouts_are_kept(
    before: Seq<WithdrawalPayoutEvent>,
    mutations: Seq<MutationModel>,
    after: Seq<WithdrawalPayoutEvent>,
) -> bool {
    &&& no_payouts_from(mutations, 0) ==> after == before
    &&& forall|u: int|
        0 <= u < mutations.len() && (#[trigger] mutations[u]).payout_events is Some
            && no_payouts_from(mutations, u + 1) ==> after == mutations[u].payout_events->0
}

/// The account at an address is the one that the last update of that address sets,
/// or the one from before if none sets it.
pub open spec fn account_is_kept(
    before: Map<[u8; 32], PersistedAccountModel>,
    mutations: Seq<MutationModel>,
    after: Map<[u8; 32], PersistedAccountModel>,
    key: [u8; 32],
) -> bool {
    &&& account_unset_from(mutations, key, 0) ==> {
        &&& after.contains_key(key) <==> before.contains_key(key)
        &&& before.contains_key(key) ==> after[key] == before[key]
    }
    &&& forall|u: int, a: int|
        0 <= u < mutations.len() && 0 <= a < mutations[u].accounts.len()
            && (#[trigger] mutations[u].accounts[a]).pubkey == key && address_unset_from(
            mutations[u].accounts,
            key,
            a + 1,
        ) && account_unset_from(mutations, key, u + 1) ==> after.contains_key(key) && after[key]
            == mutations[u].accounts[a]
}

/// The slot of a signature is the one that the last update with that signature sets,
/// or the one from before if none has it.
pub open spec fn signature_is_kept(
    before: Map<[u8; 64], u64>,
    mutations: Seq<MutationModel>,
    after: Map<[u8; 64], u64>,
    key: [u8; 64],
) -> bool {
    &&& unsigned_from(mutations, key, 0) ==> {
        &&& after.contains_key(key) <==> before.contains_key(key)
        &&& before.contains_key(key) ==> after[key] == before[key]
    }
    &&& forall|u: int, e: int|
        0 <= u < mutations.len() && 0 <= e < mutations[u].processed_signatures.len() && (
        #[trigger] mutations[u].processed_signatures[e]).signature == key && signature_unset_from(
            mutations[u].processed_signatures,
            key,
            e + 1,
        ) && unsigned_from(mutations, key, u + 1) ==> after.contains_key(key) && after[key]
            == mutations[u].processed_signatures[e].slot
}

/// An account is touched if it was before, or if some update touches it.
pub open spec fn touch_is_kept(
    before: Set<[u8; 32]>,
    mutations: Seq<MutationModel>,
    after: Set<[u8; 32]>,
    key: [u8; 32],
) -> bool {
    after.contains(key) <==> before.contains(key) || exists|u: int, t: int|
        0 <= u < mutations.len() && 0 <= t < mutations[u].touched_accounts.len()
            && #[trigger] mutations[u].touched_accounts[t] == key
}

/// What the updates make of a state, as far as one address and one signature are
/// concerned.
pub open spec fn updates_lead_to(
    before: StateModel,
    mutations: Seq<MutationModel>,
    after: StateModel,
    key: [u8; 32],
    signature: [u8; 64],
) -> bool {
    &&& payouts_are_kept(before.payout_events, mutations, after.payout_events)
    &&& account_is_kept(before.accounts, mutations, after.accounts, key)
    &&& signature_is_kept(
        before.processed_signatures,
        mutations,
        after.processed_signatures,
        signature,
    )
    &&& touch_is_kept(before.touched_accounts, mutations, after.touched_accounts, key)
}

proof fn lemma_accounts_set(
    before: Map<[u8; 32], PersistedAccountModel>,
    updates: Seq<PersistedAccountModel>,
    key: [u8; 32],
)
    ensures
        address_unset_from(updates, key, 0) ==> {
            &&& accounts_set(before, updates).contains_key(key) <==> before.contains_key(key)
            &&& before.contains_key(key) ==> accounts_set(before, updates)[key] == before[key]
        },
        forall|a: int|
            0 <= a < updates.len() && (#[trigger] updates[a]).pubkey == key && address_unset_from(
                updates,
                key,
                a + 1,
            ) ==> accounts_set(before, updates).contains_key(key) && accounts_set(before, updates)[key]
                == updates[a],
    decreases updates.len(),
{
    if updates.len() > 0 {
        let front = updates.drop_last();
        lemma_accounts_set(before, front, key);
        if address_unset_from(updates, key, 0) {
            assert(updates[updates.len() - 1].pubkey != key);
            assert forall|a: int| 0 <= a < front.len() implies (#[trigger] front[a]).pubkey
                != key by {
                assert(front[a] == updates[a]);
            }
        }
        assert forall|a: int|
            0 <= a < updates.len() && (#[trigger] updates[a]).pubkey == key && address_unset_from(
                updates,
                key,
                a + 1,
            ) implies accounts_set(before, updates).contains_key(key) && accounts_set(
            before,
            updates,
        )[key] == updates[a] by {
            if a < front.len() {
                assert(updates[updates.len() - 1].pubkey != key);
                assert(front[a] == updates[a]);
                assert forall|b: int| a + 1 <= b < front.len() implies (
                #[trigger] front[b]).pubkey != key by {
                    assert(front[b] == updates[b]);
                }
                assert(address_unset_from(front, key, a + 1));
            }
        }
    }
}

proof fn lemma_signatures_set(
    before: Map<[u8; 64], u64>,
    updates: Seq<PersistedSignature>,
    key: [u8; 64],
)
    ensures
        signature_unset_from(updates, key, 0) ==> {
            &&& signatures_set(before, updates).contains_key(key) <==> before.contains_key(key)
            &&& before.contains_key(key) ==> signatures_set(before, updates)[key] == before[key]
        },
        forall|a: int|
            0 <= a < updates.len() && (#[trigger] updates[a]).signature == key
                && signature_unset_from(updates, key, a + 1) ==> signatures_set(
                before,
                updates,
            ).contains_key(key) && signatures_set(before, updates)[key] == updates[a].slot,
    decreases updates.len(),
{
    if updates.len() > 0 {
        let front = updates.drop_last();
        lemma_signatures_set(before, front, key);
        if signature_unset_from(updates, key, 0) {
            assert(updates[updates.len() - 1].signature != key);
            assert forall|a: int| 0 <= a < front.len() implies (#[trigger] front[a]).signature
                != key by {
                assert(front[a] == updates[a]);
            }
        }
        assert forall|a: int|
            0 <= a < updates.len() && (#[trigger] updates[a]).signature == key
                && signature_unset_from(updates, key, a + 1) implies signatures_set(
            before,
            updates,
        ).contains_key(key) && signatures_set(before, updates)[key] == updates[a].slot by {
            if a < front.len() {
                assert(updates[updates.len() - 1].signature != key);
                assert(front[a] == updates[a]);
                assert forall|b: int| a + 1 <= b < front.len() implies (
                #[trigger] front[b]).signature != key by {
                    assert(front[b] == updates[b]);
                }
                assert(signature_unset_from(front, key, a + 1));
            }
        }
    }
}

proof fn lemma_payouts_kept(before: StateModel, mutations: Seq<MutationModel>)
    ensures
        payouts_are_kept(
            before.payout_events,
            mutations,
            all_applied(before, mutations).payout_events,
        ),
    decreases mutations.len(),
{
    let after = all_applied(before, mutations);
    if mutations.len() > 0 {
        let front = mutations.drop_last();
        let last = mutations.last();
        let n = mutations.len() - 1;
        lemma_payouts_kept(before, front);
        let middle = all_applied(before, front);
        assert(after == applied(middle, last));
        assert(mutations[n] == last);
        assert forall|u: int| 0 <= u < n implies mutations[u] == front[u] by {}
        if last.payout_events is None {
            if no_payouts_from(mutations, 0) {
                assert forall|u: int| 0 <= u < front.len() implies (
                #[trigger] front[u]).payout_events is None by {
                    assert(mutations[u].payout_events is None);
                }
            }
        }
        assert forall|u: int|
            0 <= u < mutations.len() && (#[trigger] mutations[u]).payout_events is Some
                && no_payouts_from(mutations, u + 1) implies after.payout_events
            == mutations[u].payout_events->0 by {
            if u < n {
                assert(mutations[n].payout_events is None);
                assert(front[u].payout_events is Some);
                assert forall|w: int| u + 1 <= w < front.len() implies (
                #[trigger] front[w]).payout_events is None by {
                    assert(mutations[w].payout_events is None);
                }
            }
        }
        assert(no_payouts_from(mutations, 0) ==> mutations[n].payout_events is None);
    }
}

proof fn lemma_account_kept(before: StateModel, mutations: Seq<MutationModel>, key: [u8; 32])
    ensures
        account_is_kept(
            before.accounts,
            mutations,
            all_applied(before, mutations).accounts,
            key,
        ),
    decreases mutations.len(),
{
    let after = all_applied(before, mutations);
    if mutations.len() > 0 {
        let front = mutations.drop_last();
        let last = mutations.last();
        let n = mutations.len() - 1;
        lemma_account_kept(before, front, key);
        let middle = all_applied(before, front);
        assert(after == applied(middle, last));
        assert(mutations[n] == last);
        assert forall|u: int| 0 <= u < n implies mutations[u] == front[u] by {}
        lemma_accounts_set(middle.accounts, last.accounts, key);
        if account_unset_from(mutations, key, 0) {
            assert(address_unset_from(mutations[n].accounts, key, 0));
            assert forall|u: int| 0 <= u < front.len() implies address_unset_from(
                (#[trigger] front[u]).accounts,
                key,
                0,
            ) by {
                assert(address_unset_from(mutations[u].accounts, key, 0));
            }
        }
        assert forall|u: int, a: int|
            0 <= u < mutations.len() && 0 <= a < mutations[u].accounts.len() && (
            #[trigger] mutations[u].accounts[a]).pubkey == key && address_unset_from(
                mutations[u].accounts,
                key,
                a + 1,
            ) && account_unset_from(mutations, key, u + 1) implies after.accounts.contains_key(key)
            && after.accounts[key] == mutations[u].accounts[a] by {
            if u < n {
                assert(address_unset_from(mutations[n].accounts, key, 0));
                assert(front[u].accounts[a].pubkey == key);
                assert forall|w: int| u + 1 <= w < front.len() implies address_unset_from(
                    (#[trigger] front[w]).accounts,
                    key,
                    0,
                ) by {
                    assert(address_unset_from(mutations[w].accounts, key, 0));
                }
                assert(account_unset_from(front, key, u + 1));
            }
        }
    }
}

proof fn lemma_signature_kept(before: StateModel, mutations: Seq<MutationModel>, signature: [u8; 64])
    ensures
        signature_is_kept(
            before.processed_signatures,
            mutations,
            all_applied(before, mutations).processed_signatures,
            signature,
        ),
    decreases mutations.len(),
{
    let after = all_applied(before, mutations);
    if mutations.len() > 0 {
        let front = mutations.drop_last();
        let last = mutations.last();
        let n = mutations.len() - 1;
        lemma_signature_kept(before, front, signature);
        let middle = all_applied(before, front);
        assert(after == applied(middle, last));
        assert(mutations[n] == last);
        assert forall|u: int| 0 <= u < n implies mutations[u] == front[u] by {}
        lemma_signatures_set(middle.processed_signatures, last.processed_signatures, signature);
        if unsigned_from(mutations, signature, 0) {
            assert(signature_unset_from(mutations[n].processed_signatures, signature, 0));
            assert forall|u: int| 0 <= u < front.len() implies signature_unset_from(
                (#[trigger] front[u]).processed_signatures,
                signature,
                0,
            ) by {
                assert(signature_unset_from(mutations[u].processed_signatures, signature, 0));
            }
        }
        assert forall|u: int, e: int|
            0 <= u < mutations.len() && 0 <= e < mutations[u].processed_signatures.len() && (
            #[trigger] mutations[u].processed_signatures[e]).signature == signature
                && signature_unset_from(mutations[u].processed_signatures, signature, e + 1)
                && unsigned_from(mutations, signature, u + 1) implies
            after.processed_signatures.contains_key(signature)
            && after.processed_signatures[signature] == mutations[u].processed_signatures[e].slot by {
            if u < n {
                assert(signature_unset_from(mutations[n].processed_signatures, signature, 0));
                assert(front[u].processed_signatures[e].signature == signature);
                assert forall|w: int| u + 1 <= w < front.len() implies signature_unset_from(
                    (#[trigger] front[w]).processed_signatures,
                    signature,
                    0,
                ) by {
                    assert(signature_unset_from(mutations[w].processed_signatures, signature, 0));
                }
                assert(unsigned_from(front, signature, u + 1));
            }
        }
    }
}

proof fn lemma_touch_kept(before: StateModel, mutations: Seq<MutationModel>, key: [u8; 32])
    ensures
        touch_is_kept(
            before.touched_accounts,
            mutations,
            all_applied(before, mutations).touched_accounts,
            key,
        ),
    decreases mutations.len(),
{
    let after = all_applied(before, mutations);
    if mutations.len() > 0 {
        let front = mutations.drop_last();
        let last = mutations.last();
        let n = mutations.len() - 1;
        lemma_touch_kept(before, front, key);
        let middle = all_applied(before, front);
        assert(after == applied(middle, last));
        assert(mutations[n] == last);
        assert forall|u: int| 0 <= u < n implies mutations[u] == front[u] by {}
        assert(last.touched_accounts.to_set().contains(key) <==> last.touched_accounts.contains(
            key,
        ));
        if after.touched_accounts.contains(key) && !before.touched_accounts.contains(key) {
            if last.touched_accounts.contains(key) {
                let t = choose|t: int|
                    0 <= t < last.touched_accounts.len() && last.touched_accounts[t] == key;
                assert(mutations[n].touched_accounts[t] == key);
            } else {
                let (u, t) = choose|u: int, t: int|
                    0 <= u < front.len() && 0 <= t < front[u].touched_accounts.len()
                        && #[trigger] front[u].touched_accounts[t] == key;
                assert(mutations[u].touched_accounts[t] == key);
            }
        }
        if exists|u: int, t: int|
            0 <= u < mutations.len() && 0 <= t < mutations[u].touched_accounts.len()
                && #[trigger] mutations[u].touched_accounts[t] == key {
            let (u, t) = choose|u: int, t: int|
                0 <= u < mutations.len() && 0 <= t < mutations[u].touched_accounts.len()
                    && #[trigger] mutations[u].touched_accounts[t] == key;
            if u == n {
                assert(last.touched_accounts[t] == key);
            } else {
                assert(front[u].touched_accounts[t] == key);
            }
        }
    }
}

/// An update sets its accounts and signatures, the last of several under one key
/// counting; it adds its touched accounts; and it replaces the payout events if it has
/// any. Everything else stays as it was.
pub proof fn updates_change_what_they_name(
    before: StateModel,
    mutations: Seq<MutationModel>,
    key: [u8; 32],
    signature: [u8; 64],
)
    ensures
        updates_lead_to(before, mutations, all_applied(before, mutations), key, signature),
{
    lemma_payouts_kept(before, mutations);
    lemma_account_kept(before, mutations, key);
    lemma_signature_kept(before, mutations, signature);
    lemma_touch_kept(before, mutations, key);
}

/// After any number of updates, with the journal compacted behind any of them, a new
/// session with the same identity recovers, of every account, signature and touched
/// account, what the last update that names it says, or what the session started
/// from if none does; and the payout events of the last update that has any.
pub proof fn recovered_sessions_hold_the_last_updates(
    identity: UnsettledSessionIdentity,
    found: FilesModel,
    mutations: Seq<MutationModel>,
    history: Seq<StoredSessionModel>,
    key: [u8; 32],
    signature: [u8; 64],
)
    requires
        is_history(identity, found, mutations, history),
    ensures
        session_of(true, identity, history.last().files).disposition
            == RecoveryDisposition::Recovered,
        updates_lead_to(
            session_of(true, identity, found).state,
            mutations,
            session_of(true, identity, history.last().files).state,
            key,
            signature,
        ),
{
    no_update_is_lost(identity, found, mutations, history, identity);
    updates_change_what_they_name(
        session_of(true, identity, found).state,
        mutations,
        key,
        signature,
    );
}

/// An update that is written holds every account with its address, every touched
/// account, every signature with its slot, and the payout events, as they were given.
pub proof fn written_updates_hold_what_was_given(
    accounts: Seq<(Pubkey, Account)>,
    touched_accounts: Seq<Pubkey>,
    payout_events: Option<Seq<WithdrawalPayoutEvent>>,
    processed_signatures: Seq<([u8; 64], u64)>,
)
    ensures
        ({
            let mutation = mutation_of(
                accounts,
                touched_accounts,
                payout_events,
                processed_signatures,
            );
            &&& mutation.kind == MutationKind::Update
            &&& mutation.accounts.len() == accounts.len()
            &&& forall|a: int|
                0 <= a < accounts.len() ==> {
                    let stored = #[trigger] mutation.accounts[a];
                    &&& stored.pubkey == accounts[a].0
                    &&& stored.lamports == accounts[a].1.lamports
                    &&& stored.data == accounts[a].1.data@
                    &&& stored.owner == accounts[a].1.owner
                    &&& stored.executable == accounts[a].1.executable
                    &&& stored.rent_epoch == accounts[a].1.rent_epoch
                }
            &&& mutation.touched_accounts == touched_accounts
            &&& mutation.payout_events == payout_events
            &&& mutation.processed_signatures.len() == processed_signatures.len()
            &&& forall|e: int|
                0 <= e < processed_signatures.len() ==> {
                    &&& (#[trigger] mutation.processed_signatures[e]).signature
                        == processed_signatures[e].0
                    &&& mutation.processed_signatures[e].slot == processed_signatures[e].1
                }
        }),
{
}

/// What a new process starts from lists every account of the state once, with
/// all its fields, every touched account and every signature, and the payout events in
/// their order.
pub proof fn recovered_state_is_listed_whole(
    recovered: RecoveredUnsettledState,
    state: StateModel,
    key: [u8; 32],
    signature: [u8; 64],
)
    requires
        is_recovery_of(recovered, state),
    ensures
        recovered.payout_events@ == state.payout_events,
        recovered.touched_accounts@.contains(key) <==> state.touched_accounts.contains(key),
        state.accounts.contains_key(key) ==> exists|a: int|
            0 <= a < recovered.accounts@.len() && {
                let listed = #[trigger] recovered.accounts@[a];
                let stored = state.accounts[key];
                &&& listed.0 == stored.pubkey
                &&& listed.1.lamports == stored.lamports
                &&& listed.1.data@ == stored.data
                &&& listed.1.owner == stored.owner
                &&& listed.1.executable == stored.executable
                &&& listed.1.rent_epoch == stored.rent_epoch
            },
        state.processed_signatures.contains_key(signature) <==> exists|e: int|
            0 <= e < recovered.processed_signatures@.len() && #[trigger]
            recovered.processed_signatures@[e].0 == signature,
        forall|e: int|
            0 <= e < recovered.processed_signatures@.len() ==> (
            #[trigger] recovered.processed_signatures@[e]).1 == state.processed_signatures[
            recovered.processed_signatures@[e].0],
{
    assert(recovered.touched_accounts@.to_set().contains(key)
        <==> recovered.touched_accounts@.contains(key));
    if state.accounts.contains_key(key) {
        let keys = choose|keys: Seq<[u8; 32]>|
            {
                &&& #[trigger] super::state::lists_keys(keys, state.accounts)
                &&& keys.len() == recovered.accounts@.len()
                &&& forall|i: int|
                    0 <= i < keys.len() ==> {
                        &&& (#[trigger] recovered.accounts@[i]).0 == state.accounts[keys[i]].pubkey
                        &&& recovered.accounts@[i].1@ == super::state::runtime_account(
                            state.accounts[keys[i]],
                        )
                    }
            };
        let a = choose|a: int| 0 <= a < keys.len() && keys[a] == key;
        assert(recovered.accounts@[a].0 == state.accounts[key].pubkey);
    }
    let signatures = recovered.processed_signatures@.map_values(
        |entry: ([u8; 64], u64)| entry.0,
    );
    if state.processed_signatures.contains_key(signature) {
        let e = choose|e: int| 0 <= e < signatures.len() && signatures[e] == signature;
        assert(recovered.processed_signatures@[e].0 == signature);
    }
    if exists|e: int|
        0 <= e < recovered.processed_signatures@.len() && #[trigger]
        recovered.processed_signatures@[e].0 == signature {
        let e = choose|e: int|
            0 <= e < recovered.processed_signatures@.len() && #[trigger]
            recovered.processed_signatures@[e].0 == signature;
        assert(signatures[e] == signature);
        assert(signatures.contains(signature));
    }
}

} // verus!
