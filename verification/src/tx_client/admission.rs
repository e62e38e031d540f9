//! What the admission of a batch comes to, told by the batch and the accounts
//! alone.

use vstd::prelude::*;

use super::{
    accepted_of, accepts, admitted, batch_writes, captured, inherited_balances_are_not_spent,
    inherited_of, lemma_loaded_writes_finite, lemma_static_writes_finite, loaded_writes,
    may_write, reserved_key, static_writes, writes_static, zeroed_by, zeroing_of, zeroing_update,
    BatchModel,
};
use crate::accounts::{AccountModel, Pubkey};
use crate::keyed::{increasing, lemma_order_exists, ordered};
use crate::order::lex_order_is_total;
use crate::runtime::RuntimeModel;
use crate::well_known::{
    BPF_LOADER_ID, BPF_LOADER_UPGRADEABLE_ID, SYSTEM_PROGRAM_ID, SYSVAR_PROGRAM_ID,
};

verus! {

/// The message of the transaction names the account and may write it.
pub open spec fn names_writable(transaction: BatchModel, key: Pubkey) -> bool {
    exists|i: int|
        0 <= i < transaction.transaction.static_keys.len() && transaction.transaction.writable[i]
            && #[trigger] transaction.transaction.static_keys[i] == key
}

/// The transaction may write the account by way of an address table.
pub open spec fn loads_writable(transaction: BatchModel, key: Pubkey) -> bool {
    transaction.loaded_writable matches Some(loaded) && loaded.contains(key)
}

/// The account is on the bank, but is neither delegated nor the rollup's own nor
/// one of the bank's programs.
pub open spec fn is_foreign(
    key: Pubkey,
    delegated: Set<Pubkey>,
    touched: Set<Pubkey>,
    bank: Map<Pubkey, AccountModel>,
) -> bool {
    &&& bank.contains_key(key)
    &&& !delegated.contains(key)
    &&& !touched.contains(key)
    &&& key != SYSTEM_PROGRAM_ID
    &&& key != SYSVAR_PROGRAM_ID
    &&& key != BPF_LOADER_ID
    &&& key != BPF_LOADER_UPGRADEABLE_ID
}

/// Behind its payer, the transaction may write no foreign account, and its address
/// tables can be resolved.
pub open spec fn leaves_foreign_alone(
    transaction: BatchModel,
    delegated: Set<Pubkey>,
    touched: Set<Pubkey>,
    bank: Map<Pubkey, AccountModel>,
) -> bool {
    &&& transaction.loaded_writable is Some
    &&& forall|i: int|
        1 <= i < transaction.transaction.static_keys.len() && transaction.transaction.writable[i]
            ==> !is_foreign(
            #[trigger] transaction.transaction.static_keys[i],
            delegated,
            touched,
            bank,
        )
    &&& forall|i: int|
        0 <= i < transaction.loaded_writable->0.len() ==> !is_foreign(
            #[trigger] transaction.loaded_writable->0[i],
            delegated,
            touched,
            bank,
        )
}

/// The rollup accepts a transaction if and only if nothing is delegated at all, or
/// the transaction leaves foreign accounts alone.
pub proof fn transactions_are_accepted_by_what_they_write(
    transaction: BatchModel,
    delegated: Set<Pubkey>,
    touched: Set<Pubkey>,
    bank: Map<Pubkey, AccountModel>,
)
    ensures
        accepts(transaction, delegated, touched, bank) <==> delegated =~= Set::<Pubkey>::empty()
            || leaves_foreign_alone(transaction, delegated, touched, bank),
{
    if leaves_foreign_alone(transaction, delegated, touched, bank) {
        let loaded = transaction.loaded_writable->0;
        assert forall|i: int| 1 <= i && writes_static(transaction.transaction, i) implies may_write(
            #[trigger] transaction.transaction.static_keys[i],
            delegated,
            touched,
            bank,
        ) by {
            assert(!is_foreign(
                transaction.transaction.static_keys[i],
                delegated,
                touched,
                bank,
            ));
        }
        assert forall|i: int| 0 <= i < loaded.len() implies may_write(
            #[trigger] loaded[i],
            delegated,
            touched,
            bank,
        ) by {
            assert(!is_foreign(transaction.loaded_writable->0[i], delegated, touched, bank));
        }
    }
    if accepts(transaction, delegated, touched, bank) && !(delegated =~= Set::<Pubkey>::empty()) {
        let loaded = transaction.loaded_writable->0;
        assert forall|i: int|
            1 <= i < transaction.transaction.static_keys.len()
                && transaction.transaction.writable[i] implies !is_foreign(
            #[trigger] transaction.transaction.static_keys[i],
            delegated,
            touched,
            bank,
        ) by {
            assert(writes_static(transaction.transaction, i));
            assert(may_write(
                transaction.transaction.static_keys[i],
                delegated,
                touched,
                bank,
            ));
        }
        assert forall|i: int| 0 <= i < transaction.loaded_writable->0.len() implies !is_foreign(
            #[trigger] transaction.loaded_writable->0[i],
            delegated,
            touched,
            bank,
        ) by {
            assert(may_write(loaded[i], delegated, touched, bank));
        }
    }
}

/// `picked` are the positions at which the transactions are to be executed: those
/// at which they are accepted, in the order of the batch.
pub open spec fn picks_the_accepted(
    picked: Seq<int>,
    batch: Seq<BatchModel>,
    delegated: Set<Pubkey>,
    touched: Set<Pubkey>,
    bank: Map<Pubkey, AccountModel>,
    n: int,
) -> bool {
    &&& forall|a: int, b: int|
        0 <= a < b < picked.len() ==> #[trigger] picked[a] < #[trigger] picked[b]
    &&& forall|a: int| 0 <= a < picked.len() ==> 0 <= #[trigger] picked[a] < n
    &&& forall|t: int|
        0 <= t < n ==> (#[trigger] picked.contains(t) <==> delegated =~= Set::<Pubkey>::empty()
            || leaves_foreign_alone(batch[t], delegated, touched, bank))
}

proof fn lemma_picked(
    batch: Seq<BatchModel>,
    delegated: Set<Pubkey>,
    touched: Set<Pubkey>,
    bank: Map<Pubkey, AccountModel>,
    n: nat,
) -> (picked: Seq<int>)
    requires
        n <= batch.len(),
    ensures
        picks_the_accepted(picked, batch, delegated, touched, bank, n as int),
        accepted_of(batch, delegated, touched, bank, n) == picked.map_values(|t: int| batch[t]),
    decreases n,
{
    if n == 0 {
        let picked = Seq::<int>::empty();
        assert(accepted_of(batch, delegated, touched, bank, 0) =~= picked.map_values(
            |t: int| batch[t],
        ));
        picked
    } else {
        let before = lemma_picked(batch, delegated, touched, bank, (n - 1) as nat);
        let last = n - 1;
        transactions_are_accepted_by_what_they_write(batch[last], delegated, touched, bank);
        let picked = if accepts(batch[last], delegated, touched, bank) {
            before.push(last)
        } else {
            before
        };
        assert forall|t: int| 0 <= t < n implies (#[trigger] picked.contains(t)
            <==> delegated =~= Set::<Pubkey>::empty() || leaves_foreign_alone(
            batch[t],
            delegated,
            touched,
            bank,
        )) by {
            if t < last {
                assert(before.contains(t) ==> picked.contains(t)) by {
                    if before.contains(t) {
                        let a = choose|a: int| 0 <= a < before.len() && before[a] == t;
                        assert(picked[a] == t);
                    }
                }
                if picked.contains(t) {
                    let a = choose|a: int| 0 <= a < picked.len() && picked[a] == t;
                    assert(before[a] == t);
                    assert(before.contains(t));
                }
            } else {
                if accepts(batch[last], delegated, touched, bank) {
                    assert(picked[picked.len() - 1] == last);
                } else if picked.contains(t) {
                    let a = choose|a: int| 0 <= a < before.len() && before[a] == t;
                    assert(before[a] < last);
                }
            }
        }
        assert(accepted_of(batch, delegated, touched, bank, n) =~= picked.map_values(
            |t: int| batch[t],
        ));
        picked
    }
}

/// An active rollup admits exactly those transactions of a batch that it accepts,
/// each as often as it stands in the batch, and in the batch's order. A rollup that
/// is not active admits none.
pub proof fn the_accepted_are_admitted(
    runtime: RuntimeModel,
    batch: Seq<BatchModel>,
    bank: Map<Pubkey, AccountModel>,
) -> (picked: Seq<int>)
    ensures
        runtime.active ==> {
            &&& picks_the_accepted(
                picked,
                batch,
                runtime.delegated,
                runtime.touched,
                bank,
                batch.len() as int,
            )
            &&& admitted(runtime, batch, bank).len() == picked.len()
            &&& forall|a: int|
                0 <= a < picked.len() ==> #[trigger] admitted(runtime, batch, bank)[a]
                    == batch[picked[a]]
        },
        !runtime.active ==> admitted(runtime, batch, bank).len() == 0,
{
    let picked = lemma_picked(batch, runtime.delegated, runtime.touched, bank, batch.len());
    assert forall|a: int| 0 <= a < picked.len() && runtime.active implies #[trigger] admitted(
        runtime,
        batch,
        bank,
    )[a] == batch[picked[a]] by {
        assert(picked.map_values(|t: int| batch[t])[a] == batch[picked[a]]);
    }
    picked
}

/// A batch may write exactly the accounts that the message of some transaction
/// names as writable or that some transaction loads as writable.
pub proof fn batches_write_what_their_transactions_write(batch: Seq<BatchModel>, key: Pubkey)
    ensures
        batch_writes(batch).contains(key) <==> exists|t: int|
            0 <= t < batch.len() && (names_writable(#[trigger] batch[t], key) || loads_writable(
                batch[t],
                key,
            )),
{
    if static_writes(batch, batch.len()).contains(key) {
        let (t, i) = choose|t: int, i: int|
            0 <= t < batch.len() && #[trigger] writes_static(batch[t].transaction, i)
                && batch[t].transaction.static_keys[i] == key;
        assert(batch[t].transaction.static_keys[i] == key);
        assert(names_writable(batch[t], key));
    }
    if loaded_writes(batch, batch.len()).contains(key) {
        let t = choose|t: int|
            0 <= t < batch.len() && ((#[trigger] batch[t]).loaded_writable matches Some(loaded)
                && loaded.contains(key));
        assert(loads_writable(batch[t], key));
    }
    if exists|t: int|
        0 <= t < batch.len() && (names_writable(#[trigger] batch[t], key) || loads_writable(
            batch[t],
            key,
        )) {
        let t = choose|t: int|
            0 <= t < batch.len() && (names_writable(#[trigger] batch[t], key) || loads_writable(
                batch[t],
                key,
            ));
        if names_writable(batch[t], key) {
            let i = choose|i: int|
                0 <= i < batch[t].transaction.static_keys.len() && batch[t].transaction.writable[i]
                    && #[trigger] batch[t].transaction.static_keys[i] == key;
            assert(writes_static(batch[t].transaction, i));
            assert(static_writes(batch, batch.len()).contains(key));
        } else {
            assert(batch[t].loaded_writable->0.contains(key));
            assert(loaded_writes(batch, batch.len()).contains(key));
        }
    }
}

/// The batch may write the account, and what the account has on the bank is from
/// layer one: the account is not delegated, not the rollup's own, and not reserved.
pub open spec fn would_spend(
    batch: Seq<BatchModel>,
    delegated: Set<Pubkey>,
    touched: Set<Pubkey>,
    bank: Map<Pubkey, AccountModel>,
    key: Pubkey,
) -> bool {
    &&& exists|t: int|
        0 <= t < batch.len() && (names_writable(#[trigger] batch[t], key) || loads_writable(
            batch[t],
            key,
        ))
    &&& !delegated.contains(key)
    &&& !touched.contains(key)
    &&& !reserved_key(key)
    &&& bank.contains_key(key)
    &&& bank[key].lamports > 0
}

proof fn lemma_zeroing_writes(bank: Map<Pubkey, AccountModel>, keys: Seq<Pubkey>, n: nat)
    requires
        n <= keys.len(),
        increasing(keys),
    ensures
        zeroing_update(bank, keys, n).reload_programs.len() == 0,
        forall|a: int|
            0 <= a < zeroing_update(bank, keys, n).writes.len() ==> {
                let write = #[trigger] zeroing_update(bank, keys, n).writes[a];
                &&& keys.take(n as int).contains(write.0)
                &&& bank.contains_key(write.0)
                &&& bank[write.0].lamports > 0
                &&& write.1 == (AccountModel { lamports: 0, ..bank[write.0] })
            },
        forall|a: int, b: int|
            0 <= a < b < zeroing_update(bank, keys, n).writes.len() ==> (
            #[trigger] zeroing_update(bank, keys, n).writes[a]).0 != (
            #[trigger] zeroing_update(bank, keys, n).writes[b]).0,
    decreases n,
{
    if n > 0 {
        lemma_zeroing_writes(bank, keys, (n - 1) as nat);
        let before = zeroing_update(bank, keys, (n - 1) as nat).writes;
        let all = zeroing_update(bank, keys, n).writes;
        let front = keys.take(n - 1);
        let now = keys.take(n as int);
        assert(now =~= front.push(keys[n - 1]));
        assert forall|a: int| 0 <= a < all.len() implies {
            let write = #[trigger] all[a];
            &&& now.contains(write.0)
            &&& bank.contains_key(write.0)
            &&& bank[write.0].lamports > 0
            &&& write.1 == (AccountModel { lamports: 0, ..bank[write.0] })
        } by {
            if a < before.len() {
                assert(all[a] == before[a]);
                let i = choose|i: int| 0 <= i < front.len() && front[i] == all[a].0;
                assert(now[i] == all[a].0);
            } else {
                assert(now[n - 1] == all[a].0);
            }
        }
        assert forall|a: int, b: int| 0 <= a < b < all.len() implies (#[trigger] all[a]).0 != (
        #[trigger] all[b]).0 by {
            assert(all[a] == before[a]);
            if b < before.len() {
                assert(all[b] == before[b]);
            } else {
                let i = choose|i: int| 0 <= i < front.len() && front[i] == before[a].0;
                assert(keys[i] == before[a].0);
                lex_order_is_total(keys[i], keys[n - 1]);
            }
        }
    }
}

/// Before a batch is executed, exactly the balances from layer one that it would
/// spend are set to zero: each such account is stored once, as it is but without
/// lamports, it counts as the rollup's own from now on, and no other account is
/// stored or changes hands. Where nothing is delegated, no balance is set to zero.
pub proof fn only_inherited_balances_are_zeroed(
    bank: Map<Pubkey, AccountModel>,
    batch: Seq<BatchModel>,
    delegated: Set<Pubkey>,
    touched: Set<Pubkey>,
    key: Pubkey,
)
    ensures
        ({
            let update = zeroing_of(bank, batch, delegated, touched);
            let zeroed = zeroed_by(bank, batch, delegated, touched);
            &&& update.reload_programs.len() == 0
            &&& delegated =~= Set::<Pubkey>::empty() ==> update.writes.len() == 0
                && !zeroed.contains(key)
            &&& !(delegated =~= Set::<Pubkey>::empty()) ==> {
                &&& zeroed.contains(key) <==> would_spend(batch, delegated, touched, bank, key)
                &&& would_spend(batch, delegated, touched, bank, key) ==> update.writes.contains(
                    (key, (AccountModel { lamports: 0, ..bank[key] })),
                )
                &&& forall|a: int|
                    0 <= a < update.writes.len() ==> {
                        &&& would_spend(
                            batch,
                            delegated,
                            touched,
                            bank,
                            (#[trigger] update.writes[a]).0,
                        )
                        &&& update.writes[a].1 == (AccountModel {
                            lamports: 0,
                            ..bank[update.writes[a].0]
                        })
                    }
                &&& forall|a: int, b: int|
                    0 <= a < b < update.writes.len() ==> (#[trigger] update.writes[a]).0 != (
                    #[trigger] update.writes[b]).0
            }
        }),
{
    let keys = inherited_of(batch, delegated, touched);
    let update = zeroing_of(bank, batch, delegated, touched);
    batches_write_what_their_transactions_write(batch, key);
    if !(delegated =~= Set::<Pubkey>::empty()) {
        lemma_static_writes_finite(batch, batch.len());
        lemma_loaded_writes_finite(batch, batch.len());
        assert(keys =~= batch_writes(batch).intersect(keys));
        lemma_order_exists(keys);
        let listed = ordered(keys);
        lemma_zeroing_writes(bank, listed, listed.len());
        assert(listed.take(listed.len() as int) =~= listed);
        assert forall|a: int| 0 <= a < update.writes.len() implies {
            &&& would_spend(batch, delegated, touched, bank, (#[trigger] update.writes[a]).0)
            &&& update.writes[a].1 == (AccountModel { lamports: 0, ..bank[update.writes[a].0] })
        } by {
            let written = update.writes[a].0;
            batches_write_what_their_transactions_write(batch, written);
            assert(listed.contains(written));
            assert(listed.to_set().contains(written));
            assert(keys.contains(written));
        }
        if would_spend(batch, delegated, touched, bank, key) {
            inherited_balances_are_not_spent(bank, batch, delegated, touched, key);
        }
    }
}

/// After a batch, the overlay holds what the bank has for the accounts that the
/// batch may write, and an empty account where the bank has none. For every other
/// account it holds what it held before.
pub proof fn overlays_follow_the_bank(
    overlay: Map<Pubkey, AccountModel>,
    bank: Map<Pubkey, AccountModel>,
    keys: Set<Pubkey>,
    key: Pubkey,
)
    ensures
        ({
            let after = captured(overlay, bank, keys);
            &&& after.contains_key(key) <==> keys.contains(key) || overlay.contains_key(key)
            &&& keys.contains(key) && bank.contains_key(key) ==> after[key] == bank[key]
            &&& keys.contains(key) && !bank.contains_key(key) ==> {
                &&& after[key].lamports == 0
                &&& after[key].data.len() == 0
                &&& after[key].owner == SYSTEM_PROGRAM_ID
                &&& !after[key].executable
                &&& after[key].rent_epoch == 0
            }
            &&& !keys.contains(key) && overlay.contains_key(key) ==> after[key] == overlay[key]
        }),
{
}

} // verus!
