//! Which transactions the rollup accepts, and what it does around a batch.

use vstd::prelude::*;

use crate::accounts::{copy_items, Account, AccountModel, Pubkey};
use crate::codec::same_array;
use crate::keyed::{lemma_order_exists, ordered, KeySet};
use crate::ledger::{account_at, held, lemma_held_insert, AccountMap};
use crate::runtime::deposits::no_account;
use crate::runtime::{no_update, BankUpdate, EphemeralRuntime, RuntimeModel, UpdateModel};
use crate::well_known::{
    BPF_LOADER_ID, BPF_LOADER_UPGRADEABLE_ID, SYSTEM_PROGRAM_ID, SYSVAR_PROGRAM_ID,
};

pub mod admission;
pub mod bookkeeping;

verus! {

/// A transaction as it was received.
#[derive(Debug, Clone, PartialEq, Eq)]
pub struct WireTransaction {
    pub signature: Option<[u8; 64]>,
    pub recent_blockhash: [u8; 32],
    /// The accounts that the message itself names. The first pays the fee.
    pub static_keys: Vec<Pubkey>,
    /// For each of those accounts, whether the transaction may write it.
    pub writable: Vec<bool>,
}

/// What a `WireTransaction` holds.
#[verifier::ext_equal]
pub struct WireModel {
    pub signature: Option<[u8; 64]>,
    pub recent_blockhash: [u8; 32],
    pub static_keys: Seq<Pubkey>,
    pub writable: Seq<bool>,
}

impl View for WireTransaction {
    type V = WireModel;

    open spec fn view(&self) -> WireModel {
        WireModel {
            signature: self.signature,
            recent_blockhash: self.recent_blockhash,
            static_keys: self.static_keys@,
            writable: self.writable@,
        }
    }
}

/// What an optional transaction holds.
pub open spec fn wire_model(transaction: Option<WireTransaction>) -> Option<WireModel> {
    match transaction {
        Some(transaction) => Some(transaction@),
        None => None,
    }
}

/// The transaction that `bytes` are the encoding of.
pub uninterp spec fn decoded_transaction(bytes: Seq<u8>) -> Option<WireModel>;

/// Calls `bincode::deserialize` for
/// `solana_transaction::versioned::VersionedTransaction`, and
/// `static_account_keys` and `is_maybe_writable` of its message. Claims that what
/// is read depends on nothing but the bytes, and that there is one flag for each
/// account.
#[verifier::external_body]
pub(crate) fn read_transaction(bytes: &[u8]) -> (r: Option<WireTransaction>)
    ensures
        wire_model(r) == decoded_transaction(bytes@),
        r matches Some(transaction) ==> transaction.writable@.len()
            == transaction.static_keys@.len(),
{
    let transaction: solana_transaction::versioned::VersionedTransaction = bincode::deserialize(
        bytes,
    ).ok()?;
    let message = &transaction.message;
    let keys = message.static_account_keys();
    Some(
        WireTransaction {
            signature: transaction.signatures.first().map(|signature| (*signature).into()),
            recent_blockhash: message.recent_blockhash().to_bytes(),
            static_keys: keys.iter().map(|key| key.to_bytes()).collect(),
            writable: (0..keys.len()).map(|i| message.is_maybe_writable(i, None)).collect(),
        },
    )
}

/// The transactions in the first `n` messages. Messages that are no transactions
/// are passed over.
pub open spec fn decoded_batch(messages: Seq<Vec<u8>>, n: nat) -> Seq<WireModel>
    decreases n,
{
    if n == 0 {
        Seq::empty()
    } else {
        let before = decoded_batch(messages, (n - 1) as nat);
        match decoded_transaction(messages[n - 1]@) {
            Some(transaction) => before.push(transaction),
            None => before,
        }
    }
}

/// What the transactions hold.
pub open spec fn wire_models(transactions: Seq<WireTransaction>) -> Seq<WireModel> {
    transactions.map_values(|transaction: WireTransaction| transaction@)
}

/// Each transaction has one flag for each account.
pub open spec fn flags_fit(transactions: Seq<WireTransaction>) -> bool {
    forall|i: int|
        0 <= i < transactions.len() ==> (#[trigger] transactions[i]).writable@.len()
            == transactions[i].static_keys@.len()
}

/// The transactions in a batch of messages.
pub fn decode_batch(messages: &Vec<Vec<u8>>) -> (transactions: Vec<WireTransaction>)
    ensures
        wire_models(transactions@) == decoded_batch(messages@, messages@.len()),
        flags_fit(transactions@),
{
    let mut transactions: Vec<WireTransaction> = Vec::new();
    assert(wire_models(transactions@) =~= Seq::<WireModel>::empty());
    let mut i: usize = 0;
    while i < messages.len()
        invariant
            i <= messages@.len(),
            wire_models(transactions@) == decoded_batch(messages@, i as nat),
            flags_fit(transactions@),
        decreases messages@.len() - i,
    {
        let ghost before = transactions@;
        if let Some(transaction) = read_transaction(&messages[i]) {
            let ghost model = transaction@;
            transactions.push(transaction);
            assert(wire_models(transactions@) =~= wire_models(before).push(model));
        }
        i += 1;
    }
    transactions
}

/// Whether a transaction may write this account on the rollup: the account
/// belongs to the bank, is delegated, has a balance of the rollup's own, or does
/// not exist.
pub open spec fn may_write(
    key: Pubkey,
    delegated: Set<Pubkey>,
    touched: Set<Pubkey>,
    bank: Map<Pubkey, AccountModel>,
) -> bool {
    ||| key == SYSTEM_PROGRAM_ID
    ||| key == SYSVAR_PROGRAM_ID
    ||| key == BPF_LOADER_ID
    ||| key == BPF_LOADER_UPGRADEABLE_ID
    ||| delegated.contains(key)
    ||| touched.contains(key)
    ||| !bank.contains_key(key)
}

/// Whether a transaction may write this account on the rollup.
pub fn is_allowed_writable(
    key: &Pubkey,
    delegated: &KeySet<32>,
    touched: &KeySet<32>,
    bank: &AccountMap,
) -> (allowed: bool)
    requires
        delegated.well_formed(),
        touched.well_formed(),
        bank.well_formed(),
    ensures
        allowed == may_write(*key, delegated@, touched@, held(bank@)),
{
    same_array(key, &SYSTEM_PROGRAM_ID) || same_array(key, &SYSVAR_PROGRAM_ID) || same_array(
        key,
        &BPF_LOADER_ID,
    ) || same_array(key, &BPF_LOADER_UPGRADEABLE_ID) || delegated.contains(key) || touched.contains(
        key,
    ) || account_at(bank, key).is_none()
}

/// A transaction with the accounts that it may write by way of address tables,
/// or `None` if its tables cannot be resolved.
#[derive(Debug, Clone, PartialEq, Eq)]
pub struct BatchTransaction {
    pub transaction: WireTransaction,
    pub loaded_writable: Option<Vec<Pubkey>>,
}

/// What a `BatchTransaction` holds.
#[verifier::ext_equal]
pub struct BatchModel {
    pub transaction: WireModel,
    pub loaded_writable: Option<Seq<Pubkey>>,
}

impl View for BatchTransaction {
    type V = BatchModel;

    open spec fn view(&self) -> BatchModel {
        BatchModel {
            transaction: self.transaction@,
            loaded_writable: match self.loaded_writable {
                Some(keys) => Some(keys@),
                None => None,
            },
        }
    }
}

/// What the transactions hold.
pub open spec fn batch_models(batch: Seq<BatchTransaction>) -> Seq<BatchModel> {
    batch.map_values(|transaction: BatchTransaction| transaction@)
}

/// Each transaction has one flag for each account.
pub open spec fn batch_fits(batch: Seq<BatchTransaction>) -> bool {
    forall|i: int|
        0 <= i < batch.len() ==> (#[trigger] batch[i]).transaction.writable@.len()
            == batch[i].transaction.static_keys@.len()
}

/// Whether the transaction may write account `i` of its message.
pub open spec fn writes_static(transaction: WireModel, i: int) -> bool {
    0 <= i < transaction.static_keys.len() && transaction.writable[i]
}

/// Whether the rollup accepts a transaction: everything, if nothing is delegated;
/// else every account that it may write, the payer aside, must be one that
/// transactions may write.
pub open spec fn accepts(
    transaction: BatchModel,
    delegated: Set<Pubkey>,
    touched: Set<Pubkey>,
    bank: Map<Pubkey, AccountModel>,
) -> bool {
    ||| delegated == Set::<Pubkey>::empty()
    ||| transaction.loaded_writable matches Some(loaded) && {
        &&& forall|i: int|
            1 <= i && writes_static(transaction.transaction, i) ==> may_write(
                #[trigger] transaction.transaction.static_keys[i],
                delegated,
                touched,
                bank,
            )
        &&& forall|i: int|
            0 <= i < loaded.len() ==> may_write(#[trigger] loaded[i], delegated, touched, bank)
    }
}

/// Whether the rollup accepts a transaction.
pub fn is_transaction_allowed(
    transaction: &BatchTransaction,
    delegated: &KeySet<32>,
    touched: &KeySet<32>,
    bank: &AccountMap,
) -> (allowed: bool)
    requires
        transaction.transaction.writable@.len() == transaction.transaction.static_keys@.len(),
        delegated.well_formed(),
        touched.well_formed(),
        bank.well_formed(),
    ensures
        allowed == accepts(transaction@, delegated@, touched@, held(bank@)),
{
    if delegated.is_empty() {
        return true;
    }
    let loaded = match &transaction.loaded_writable {
        Some(loaded) => loaded,
        None => {
            return false;
        },
    };
    let wire = &transaction.transaction;
    let mut i: usize = 1;
    while i < wire.static_keys.len()
        invariant
            1 <= i,
            wire@ == transaction@.transaction,
            transaction@.loaded_writable == Some(loaded@),
            delegated@ != Set::<Pubkey>::empty(),
            wire.writable@.len() == wire.static_keys@.len(),
            delegated.well_formed(),
            touched.well_formed(),
            bank.well_formed(),
            forall|j: int|
                1 <= j < i && writes_static(wire@, j) ==> may_write(
                    #[trigger] wire@.static_keys[j],
                    delegated@,
                    touched@,
                    held(bank@),
                ),
        decreases wire.static_keys@.len() - i,
    {
        if wire.writable[i] && !is_allowed_writable(
            &wire.static_keys[i],
            delegated,
            touched,
            bank,
        ) {
            assert(writes_static(transaction@.transaction, i as int));
            assert(!may_write(
                transaction@.transaction.static_keys[i as int],
                delegated@,
                touched@,
                held(bank@),
            ));
            return false;
        }
        i += 1;
    }
    let mut i: usize = 0;
    while i < loaded.len()
        invariant
            i <= loaded@.len(),
            transaction@.loaded_writable == Some(loaded@),
            delegated@ != Set::<Pubkey>::empty(),
            delegated.well_formed(),
            touched.well_formed(),
            bank.well_formed(),
            forall|j: int|
                0 <= j < i ==> may_write(#[trigger] loaded@[j], delegated@, touched@, held(bank@)),
        decreases loaded@.len() - i,
    {
        if !is_allowed_writable(&loaded[i], delegated, touched, bank) {
            assert(!may_write(
                transaction@.loaded_writable->0[i as int],
                delegated@,
                touched@,
                held(bank@),
            ));
            return false;
        }
        i += 1;
    }
    true
}

/// The accounts named by the messages of the first `n` transactions that these
/// may write.
pub open spec fn static_writes(batch: Seq<BatchModel>, n: nat) -> Set<Pubkey> {
    Set::new(
        |key: Pubkey|
            exists|t: int, i: int|
                0 <= t < n && #[trigger] writes_static(batch[t].transaction, i)
                    && batch[t].transaction.static_keys[i] == key,
    )
}

/// The accounts that the first `n` transactions may write by way of address
/// tables.
pub open spec fn loaded_writes(batch: Seq<BatchModel>, n: nat) -> Set<Pubkey> {
    Set::new(
        |key: Pubkey|
            exists|t: int|
                0 <= t < n && ((#[trigger] batch[t]).loaded_writable matches Some(loaded)
                    && loaded.contains(key)),
    )
}

proof fn lemma_static_writes_next(batch: Seq<BatchModel>, n: nat)
    requires
        n < batch.len(),
    ensures
        static_writes(batch, n + 1) == static_writes(batch, n).union(
            static_writes(seq![batch[n as int]], 1),
        ),
{
    let one = seq![batch[n as int]];
    let both = static_writes(batch, n).union(static_writes(one, 1));
    assert forall|key: Pubkey| static_writes(batch, n + 1).contains(key) <==> #[trigger]
        both.contains(key) by {
        if static_writes(batch, n + 1).contains(key) {
            let (t, i) = choose|t: int, i: int|
                0 <= t < n + 1 && #[trigger] writes_static(batch[t].transaction, i)
                    && batch[t].transaction.static_keys[i] == key;
            if t == n {
                assert(writes_static(one[0].transaction, i));
            }
        }
        if static_writes(one, 1).contains(key) {
            let (t, i) = choose|t: int, i: int|
                0 <= t < 1 && #[trigger] writes_static(one[t].transaction, i)
                    && one[t].transaction.static_keys[i] == key;
            assert(writes_static(batch[n as int].transaction, i));
        }
        if static_writes(batch, n).contains(key) {
            let (t, i) = choose|t: int, i: int|
                0 <= t < n && #[trigger] writes_static(batch[t].transaction, i)
                    && batch[t].transaction.static_keys[i] == key;
            assert(writes_static(batch[t].transaction, i));
        }
    }
    assert(static_writes(batch, n + 1) =~= both);
}

fn add_static_writes(keys: &mut KeySet<32>, transaction: &BatchTransaction)
    requires
        old(keys).well_formed(),
        transaction.transaction.writable@.len() == transaction.transaction.static_keys@.len(),
    ensures
        final(keys).well_formed(),
        final(keys)@ == old(keys)@.union(static_writes(seq![transaction@], 1)),
{
    let wire = &transaction.transaction;
    let ghost one = seq![transaction@];
    let mut i: usize = 0;
    while i < wire.static_keys.len()
        invariant
            i <= wire.static_keys@.len(),
            wire.writable@.len() == wire.static_keys@.len(),
            keys.well_formed(),
            forall|k: Pubkey| #[trigger]
                keys@.contains(k) <==> old(keys)@.contains(k) || exists|j: int|
                    0 <= j < i && #[trigger] writes_static(wire@, j) && wire@.static_keys[j] == k,
        decreases wire.static_keys@.len() - i,
    {
        let ghost before = keys@;
        if wire.writable[i] {
            let _ = keys.insert(wire.static_keys[i]);
            assert(writes_static(wire@, i as int));
        }
        proof {
            assert forall|k: Pubkey| #[trigger]
                keys@.contains(k) <==> old(keys)@.contains(k) || exists|j: int|
                    0 <= j < i + 1 && #[trigger] writes_static(wire@, j) && wire@.static_keys[j]
                        == k by {
                if before.contains(k) && !old(keys)@.contains(k) {
                    let j = choose|j: int|
                        0 <= j < i && #[trigger] writes_static(wire@, j) && wire@.static_keys[j]
                            == k;
                    assert(0 <= j < i + 1 && writes_static(wire@, j));
                }
            }
        }
        i += 1;
    }
    proof {
        let wanted = old(keys)@.union(static_writes(one, 1));
        assert forall|k: Pubkey| keys@.contains(k) <==> #[trigger] wanted.contains(k) by {
            if keys@.contains(k) && !old(keys)@.contains(k) {
                let j = choose|j: int|
                    0 <= j < i && #[trigger] writes_static(wire@, j) && wire@.static_keys[j] == k;
                assert(writes_static(one[0].transaction, j));
            }
            if static_writes(one, 1).contains(k) {
                let (t, j) = choose|t: int, j: int|
                    0 <= t < 1 && #[trigger] writes_static(one[t].transaction, j)
                        && one[t].transaction.static_keys[j] == k;
                assert(writes_static(wire@, j));
            }
        }
        assert(keys@ =~= wanted);
    }
}

fn add_named_writes(batch: &Vec<BatchTransaction>, keys: &mut KeySet<32>)
    requires
        batch_fits(batch@),
        old(keys).well_formed(),
    ensures
        final(keys).well_formed(),
        final(keys)@ == old(keys)@.union(
            static_writes(batch_models(batch@), batch@.len()),
        ),
{
    let ghost models = batch_models(batch@);
    let mut t: usize = 0;
    assert(keys@ =~= old(keys)@.union(static_writes(models, 0)));
    while t < batch.len()
        invariant
            t <= batch@.len(),
            batch_fits(batch@),
            keys.well_formed(),
            models == batch_models(batch@),
            keys@ == old(keys)@.union(static_writes(models, t as nat)),
        decreases batch@.len() - t,
    {
        let transaction = &batch[t];
        assert(models[t as int] == transaction@);
        add_static_writes(keys, transaction);
        proof {
            lemma_static_writes_next(models, t as nat);
        }
        t += 1;
        assert(keys@ =~= old(keys)@.union(static_writes(models, t as nat)));
    }
}

/// The accounts that a batch may write, as its messages name them or by way of
/// address tables.
pub open spec fn batch_writes(batch: Seq<BatchModel>) -> Set<Pubkey> {
    static_writes(batch, batch.len()).union(loaded_writes(batch, batch.len()))
}

/// Marks all accounts that a batch may write as touched, those that the messages
/// name and those that come from address tables alike.
pub fn mark_writable_as_touched_for_batch(batch: &Vec<BatchTransaction>, touched: &mut KeySet<32>)
    requires
        batch_fits(batch@),
        old(touched).well_formed(),
    ensures
        final(touched).well_formed(),
        final(touched)@ == old(touched)@.union(batch_writes(batch_models(batch@))),
{
    let ghost models = batch_models(batch@);
    add_named_writes(batch, touched);
    let ghost fixed = touched@;
    assert(touched@ =~= fixed.union(loaded_writes(models, 0)));
    let mut t: usize = 0;
    while t < batch.len()
        invariant
            t <= batch@.len(),
            touched.well_formed(),
            models == batch_models(batch@),
            touched@ == fixed.union(loaded_writes(models, t as nat)),
        decreases batch@.len() - t,
    {
        let ghost before = touched@;
        assert(models[t as int] == batch@[t as int]@);
        if let Some(loaded) = &batch[t].loaded_writable {
            let mut i: usize = 0;
            while i < loaded.len()
                invariant
                    i <= loaded@.len(),
                    touched.well_formed(),
                    forall|k: Pubkey| #[trigger]
                        touched@.contains(k) <==> before.contains(k) || exists|j: int|
                            0 <= j < i && #[trigger] loaded@[j] == k,
                decreases loaded@.len() - i,
            {
                let _ = touched.insert(loaded[i]);
                i += 1;
            }
            proof {
                assert forall|k: Pubkey| #[trigger]
                    touched@.contains(k) <==> before.contains(k) || loaded@.contains(k) by {}
            }
        }
        proof {
            let wanted = fixed.union(loaded_writes(models, t as nat + 1));
            assert forall|k: Pubkey| touched@.contains(k) <==> #[trigger] wanted.contains(k) by {
                if loaded_writes(models, t as nat).contains(k) {
                    let u = choose|u: int|
                        0 <= u < t && ((#[trigger] models[u]).loaded_writable matches Some(loaded)
                            && loaded.contains(k));
                    assert(models[u].loaded_writable->0.contains(k));
                }
                if loaded_writes(models, t as nat + 1).contains(k) {
                    let u = choose|u: int|
                        0 <= u < t + 1 && ((#[trigger] models[u]).loaded_writable matches Some(
                            loaded,
                        ) && loaded.contains(k));
                    if u < t {
                        assert(loaded_writes(models, t as nat).contains(k));
                    }
                }
                if touched@.contains(k) && !before.contains(k) {
                    assert(models[t as int].loaded_writable->0.contains(k));
                }
            }
            assert(touched@ =~= wanted);
        }
        t += 1;
    }
    assert(touched@ =~= old(touched)@.union(batch_writes(models)));
}

/// The accounts that a batch may write.
pub fn writable_accounts_for_batch(batch: &Vec<BatchTransaction>) -> (keys: KeySet<32>)
    requires
        batch_fits(batch@),
    ensures
        keys.well_formed(),
        keys@ == batch_writes(batch_models(batch@)),
{
    let mut keys: KeySet<32> = KeySet::new();
    mark_writable_as_touched_for_batch(batch, &mut keys);
    assert(keys@ =~= batch_writes(batch_models(batch@)));
    keys
}

/// The key is one of those that the bank reserves.
pub uninterp spec fn reserved_key(key: [u8; 32]) -> bool;

/// Calls `is_reserved` of `agave_reserved_account_keys::ReservedAccountKeys` on
/// the set of all reserved keys, `new_all_activated`. Claims only that whether a
/// key is reserved depends on nothing but the key.
#[verifier::external_body]
pub(crate) fn is_infrastructure_account(key: &Pubkey) -> (reserved: bool)
    ensures
        reserved == reserved_key(*key),
{
    let key = solana_pubkey::Pubkey::new_from_array(*key);
    agave_reserved_account_keys::ReservedAccountKeys::new_all_activated().is_reserved(&key)
}

/// The balance at this address is inherited from layer one: the account is not
/// delegated, the rollup has not written it, and the bank does not reserve it.
pub open spec fn inherits(key: Pubkey, delegated: Set<Pubkey>, touched: Set<Pubkey>) -> bool {
    !delegated.contains(key) && !touched.contains(key) && !reserved_key(key)
}

/// The accounts with an inherited balance that a batch may write.
pub open spec fn inherited_of(
    batch: Seq<BatchModel>,
    delegated: Set<Pubkey>,
    touched: Set<Pubkey>,
) -> Set<Pubkey> {
    batch_writes(batch).filter(|key: Pubkey| inherits(key, delegated, touched))
}

/// The bank has lamports at this address.
pub open spec fn has_lamports(bank: Map<Pubkey, AccountModel>, key: Pubkey) -> bool {
    bank.contains_key(key) && bank[key].lamports > 0
}

/// What sets the balances of the first `n` accounts to zero.
pub open spec fn zeroing_update(
    bank: Map<Pubkey, AccountModel>,
    keys: Seq<Pubkey>,
    n: nat,
) -> UpdateModel
    decreases n,
{
    if n == 0 {
        no_update()
    } else {
        let before = zeroing_update(bank, keys, (n - 1) as nat);
        if has_lamports(bank, keys[n - 1]) {
            before.and_write(keys[n - 1], AccountModel { lamports: 0, ..bank[keys[n - 1]] })
        } else {
            before
        }
    }
}

/// What sets the inherited balances of a batch to zero. Where nothing is
/// delegated, balances are left alone.
pub open spec fn zeroing_of(
    bank: Map<Pubkey, AccountModel>,
    batch: Seq<BatchModel>,
    delegated: Set<Pubkey>,
    touched: Set<Pubkey>,
) -> UpdateModel {
    if delegated == Set::<Pubkey>::empty() {
        no_update()
    } else {
        let keys = ordered(inherited_of(batch, delegated, touched));
        zeroing_update(bank, keys, keys.len())
    }
}

/// The accounts whose inherited balance is set to zero.
pub open spec fn zeroed_by(
    bank: Map<Pubkey, AccountModel>,
    batch: Seq<BatchModel>,
    delegated: Set<Pubkey>,
    touched: Set<Pubkey>,
) -> Set<Pubkey> {
    if delegated == Set::<Pubkey>::empty() {
        Set::empty()
    } else {
        inherited_of(batch, delegated, touched).filter(|key: Pubkey| has_lamports(bank, key))
    }
}

fn inherited_accounts(
    batch: &Vec<BatchTransaction>,
    delegated: &KeySet<32>,
    touched: &KeySet<32>,
) -> (keys: KeySet<32>)
    requires
        batch_fits(batch@),
        delegated.well_formed(),
        touched.well_formed(),
    ensures
        keys.well_formed(),
        keys@ == inherited_of(batch_models(batch@), delegated@, touched@),
{
    let named = writable_accounts_for_batch(batch);
    let ghost listed = named.listed();
    let mut keys: KeySet<32> = KeySet::new();
    let mut i: usize = 0;
    while i < named.len()
        invariant
            delegated.well_formed(),
            touched.well_formed(),
            keys.well_formed(),
            listed == named.listed(),
            i <= named.listed().len(),
            forall|k: Pubkey| #[trigger]
                keys@.contains(k) <==> inherits(k, delegated@, touched@) && exists|j: int|
                    0 <= j < i && #[trigger] listed[j] == k,
        decreases named.listed().len() - i,
    {
        let key = named.key_at(i);
        if !delegated.contains(&key) && !touched.contains(&key) && !is_infrastructure_account(
            &key,
        ) {
            let _ = keys.insert(key);
        }
        i += 1;
    }
    proof {
        named.lemma_listed();
        let wanted = inherited_of(batch_models(batch@), delegated@, touched@);
        assert forall|k: Pubkey| keys@.contains(k) <==> #[trigger] wanted.contains(k) by {
            if keys@.contains(k) {
                let j = choose|j: int| 0 <= j < listed.len() && #[trigger] listed[j] == k;
                assert(listed.contains(k));
                assert(named@.contains(k));
            }
            if wanted.contains(k) {
                assert(named@.contains(k));
                let j = choose|j: int| 0 <= j < listed.len() && #[trigger] listed[j] == k;
                assert(listed[j] == k);
            }
        }
        assert(keys@ =~= wanted);
    }
    keys
}

/// Sets the inherited balances of the accounts that a batch may write to zero,
/// so that nobody spends on the rollup what they have on layer one. Accounts
/// whose balance is set to zero count as touched.
pub fn zero_untouched_writable_accounts_for_batch(
    bank: &AccountMap,
    batch: &Vec<BatchTransaction>,
    touched: &mut KeySet<32>,
    delegated: &KeySet<32>,
) -> (update: BankUpdate)
    requires
        bank.well_formed(),
        batch_fits(batch@),
        old(touched).well_formed(),
        delegated.well_formed(),
    ensures
        final(touched).well_formed(),
        update@ == zeroing_of(held(bank@), batch_models(batch@), delegated@, old(touched)@),
        final(touched)@ == old(touched)@.union(
            zeroed_by(held(bank@), batch_models(batch@), delegated@, old(touched)@),
        ),
{
    let mut update = BankUpdate::new();
    if delegated.is_empty() {
        assert(touched@ =~= old(touched)@.union(
            zeroed_by(held(bank@), batch_models(batch@), delegated@, old(touched)@),
        ));
        return update;
    }
    let keys = inherited_accounts(batch, delegated, touched);
    proof {
        keys.lemma_listed();
    }
    let ghost listed = keys.listed();
    let ghost before = touched@;
    let mut i: usize = 0;
    while i < keys.len()
        invariant
            bank.well_formed(),
            touched.well_formed(),
            listed == keys.listed(),
            i <= keys.listed().len(),
            update@ == zeroing_update(held(bank@), listed, i as nat),
            forall|k: Pubkey| #[trigger]
                touched@.contains(k) <==> before.contains(k) || (has_lamports(held(bank@), k)
                    && exists|j: int| 0 <= j < i && #[trigger] listed[j] == k),
        decreases keys.listed().len() - i,
    {
        let key = keys.key_at(i);
        if let Some(account) = account_at(bank, &key) {
            if account.lamports > 0 {
                let mut zeroed = account.copy();
                zeroed.lamports = 0;
                assert(zeroed@ == (AccountModel { lamports: 0, ..held(bank@)[key] }));
                update.push_write(key, zeroed);
                let _ = touched.insert(key);
            }
        }
        i += 1;
    }
    proof {
        let wanted = before.union(
            zeroed_by(held(bank@), batch_models(batch@), delegated@, before),
        );
        assert forall|k: Pubkey| touched@.contains(k) <==> #[trigger] wanted.contains(k) by {
            if touched@.contains(k) && !before.contains(k) {
                let j = choose|j: int| 0 <= j < listed.len() && #[trigger] listed[j] == k;
                assert(listed.contains(k));
                assert(keys@.contains(k));
            }
            if wanted.contains(k) && !before.contains(k) {
                assert(keys@.contains(k));
                let j = choose|j: int| 0 <= j < listed.len() && #[trigger] listed[j] == k;
                assert(listed[j] == k);
            }
        }
        assert(touched@ =~= wanted);
    }
    update
}

/// What the bank has at an address, or an account that does not exist.
pub open spec fn bank_or_empty(bank: Map<Pubkey, AccountModel>, key: Pubkey) -> AccountModel {
    if bank.contains_key(key) {
        bank[key]
    } else {
        no_account()
    }
}

/// The overlay with what the bank has for these accounts.
pub open spec fn captured(
    overlay: Map<Pubkey, AccountModel>,
    bank: Map<Pubkey, AccountModel>,
    keys: Set<Pubkey>,
) -> Map<Pubkey, AccountModel> {
    Map::new(
        |key: Pubkey| overlay.contains_key(key) || keys.contains(key),
        |key: Pubkey| if keys.contains(key) {
            bank_or_empty(bank, key)
        } else {
            overlay[key]
        },
    )
}

/// Takes what the bank has for these accounts into the overlay.
pub fn capture_overlay_accounts(overlay: &mut AccountMap, bank: &AccountMap, keys: &KeySet<32>)
    requires
        old(overlay).well_formed(),
        bank.well_formed(),
        keys.well_formed(),
    ensures
        final(overlay).well_formed(),
        held(final(overlay)@) == captured(held(old(overlay)@), held(bank@), keys@),
{
    let ghost before = held(overlay@);
    let ghost listed = keys.listed();
    let mut i: usize = 0;
    while i < keys.len()
        invariant
            overlay.well_formed(),
            bank.well_formed(),
            listed == keys.listed(),
            i <= keys.listed().len(),
            forall|k: Pubkey| #[trigger]
                held(overlay@).contains_key(k) <==> before.contains_key(k) || exists|j: int|
                    0 <= j < i && #[trigger] listed[j] == k,
            forall|j: int|
                0 <= j < i ==> held(overlay@)[#[trigger] listed[j]] == bank_or_empty(
                    held(bank@),
                    listed[j],
                ),
            forall|k: Pubkey|
                before.contains_key(k) && !(exists|j: int| 0 <= j < i && #[trigger] listed[j] == k)
                    ==> #[trigger] held(overlay@)[k] == before[k],
        decreases keys.listed().len() - i,
    {
        let key = keys.key_at(i);
        let account = match account_at(bank, &key) {
            Some(account) => account.copy(),
            None => Account {
                lamports: 0,
                data: Vec::new(),
                owner: SYSTEM_PROGRAM_ID,
                executable: false,
                rent_epoch: 0,
            },
        };
        assert(account@ =~= bank_or_empty(held(bank@), key));
        let ghost prior = held(overlay@);
        proof {
            lemma_held_insert(overlay@, key, account);
        }
        overlay.insert(key, account);
        proof {
            assert(held(overlay@) == prior.insert(key, bank_or_empty(held(bank@), key)));
            assert forall|k: Pubkey|
                before.contains_key(k) && !(exists|j: int|
                    0 <= j < i + 1 && #[trigger] listed[j] == k) implies #[trigger] held(
                overlay@,
            )[k] == before[k] by {
                assert(listed[i as int] == key);
                if exists|j: int| 0 <= j < i && #[trigger] listed[j] == k {
                    let j = choose|j: int| 0 <= j < i && #[trigger] listed[j] == k;
                    assert(0 <= j < i + 1 && listed[j] == k);
                }
            }
        }
        i += 1;
    }
    proof {
        keys.lemma_listed();
        let wanted = captured(before, held(bank@), keys@);
        assert forall|k: Pubkey| held(overlay@).contains_key(k) <==> #[trigger] wanted.contains_key(
            k,
        ) by {
            if keys@.contains(k) {
                let j = choose|j: int| 0 <= j < listed.len() && #[trigger] listed[j] == k;
                assert(listed[j] == k);
            }
            if exists|j: int| 0 <= j < listed.len() && #[trigger] listed[j] == k {
                assert(listed.contains(k));
            }
        }
        assert forall|k: Pubkey| wanted.contains_key(k) implies #[trigger] wanted[k] == held(
            overlay@,
        )[k] by {
            if keys@.contains(k) {
                let j = choose|j: int| 0 <= j < listed.len() && #[trigger] listed[j] == k;
                assert(listed[j] == k);
            } else {
                if exists|j: int| 0 <= j < listed.len() && #[trigger] listed[j] == k {
                    assert(listed.contains(k));
                }
            }
        }
        assert(held(overlay@) =~= wanted);
    }
}

/// Those of the first `n` transactions that the rollup accepts.
pub open spec fn accepted_of(
    batch: Seq<BatchModel>,
    delegated: Set<Pubkey>,
    touched: Set<Pubkey>,
    bank: Map<Pubkey, AccountModel>,
    n: nat,
) -> Seq<BatchModel>
    decreases n,
{
    if n == 0 {
        Seq::empty()
    } else {
        let before = accepted_of(batch, delegated, touched, bank, (n - 1) as nat);
        if accepts(batch[n - 1], delegated, touched, bank) {
            before.push(batch[n - 1])
        } else {
            before
        }
    }
}

impl BatchTransaction {
    /// A copy of the transaction.
    pub fn copy(&self) -> (transaction: BatchTransaction)
        ensures
            transaction@ == self@,
    {
        let wire = &self.transaction;
        let transaction = WireTransaction {
            signature: wire.signature,
            recent_blockhash: wire.recent_blockhash,
            static_keys: copy_items(&wire.static_keys),
            writable: copy_items(&wire.writable),
        };
        let loaded_writable = match &self.loaded_writable {
            Some(keys) => Some(copy_items(keys)),
            None => None,
        };
        BatchTransaction { transaction, loaded_writable }
    }
}

/// The transactions of a batch that are to be executed, the accounts that these
/// may write, and what is to be done to the bank first.
pub struct AdmittedBatch {
    pub transactions: Vec<BatchTransaction>,
    pub writable: KeySet<32>,
    pub update: BankUpdate,
}

/// Those transactions of a batch that an active rollup accepts.
pub open spec fn admitted(
    runtime: RuntimeModel,
    batch: Seq<BatchModel>,
    bank: Map<Pubkey, AccountModel>,
) -> Seq<BatchModel> {
    if runtime.active {
        accepted_of(batch, runtime.delegated, runtime.touched, bank, batch.len())
    } else {
        Seq::empty()
    }
}

impl EphemeralRuntime {
    /// Prepares the execution of a batch: the transactions that the rollup
    /// accepts are admitted, and inherited balances that they might spend are set
    /// to zero. Returns `None`, with nothing changed, if the rollup is not active
    /// or accepts none. `bank` is what the rollup's bank has.
    pub fn begin_batch(&mut self, batch: &Vec<BatchTransaction>, bank: &AccountMap) -> (r: Option<
        AdmittedBatch,
    >)
        requires
            old(self).well_formed(),
            bank.well_formed(),
            batch_fits(batch@),
        ensures
            final(self).well_formed(),
            ({
                let taken = admitted(old(self)@, batch_models(batch@), held(bank@));
                match r {
                    None => taken.len() == 0 && final(self)@ == old(self)@,
                    Some(prepared) => {
                        &&& taken.len() > 0
                        &&& batch_models(prepared.transactions@) == taken
                        &&& batch_fits(prepared.transactions@)
                        &&& prepared.writable.well_formed()
                        &&& prepared.writable@ == batch_writes(taken)
                        &&& prepared.update@ == zeroing_of(
                            held(bank@),
                            taken,
                            old(self)@.delegated,
                            old(self)@.touched,
                        )
                        &&& final(self)@ == (RuntimeModel {
                            touched: old(self)@.touched.union(
                                zeroed_by(
                                    held(bank@),
                                    taken,
                                    old(self)@.delegated,
                                    old(self)@.touched,
                                ),
                            ),
                            ..old(self)@
                        })
                    },
                }
            }),
    {
        if !self.active {
            return None;
        }
        let ghost models = batch_models(batch@);
        let mut transactions: Vec<BatchTransaction> = Vec::new();
        assert(batch_models(transactions@) =~= Seq::<BatchModel>::empty());
        let mut t: usize = 0;
        while t < batch.len()
            invariant
                t <= batch@.len(),
                self.well_formed(),
                bank.well_formed(),
                batch_fits(batch@),
                batch_fits(transactions@),
                models == batch_models(batch@),
                batch_models(transactions@) == accepted_of(
                    models,
                    self@.delegated,
                    self@.touched,
                    held(bank@),
                    t as nat,
                ),
            decreases batch@.len() - t,
        {
            let transaction = &batch[t];
            assert(models[t as int] == transaction@);
            if is_transaction_allowed(
                transaction,
                &self.delegated_accounts,
                &self.touched_accounts,
                bank,
            ) {
                let ghost before = transactions@;
                let kept = transaction.copy();
                assert(kept.transaction@ == transaction.transaction@);
                transactions.push(kept);
                assert(batch_models(transactions@) =~= batch_models(before).push(transaction@));
            }
            t += 1;
        }
        assert(batch_models(transactions@) == admitted(self@, models, held(bank@)));
        if transactions.len() == 0 {
            return None;
        }
        let writable = writable_accounts_for_batch(&transactions);
        let update = zero_untouched_writable_accounts_for_batch(
            bank,
            &transactions,
            &mut self.touched_accounts,
            &self.delegated_accounts,
        );
        Some(AdmittedBatch { transactions, writable, update })
    }

    /// Takes over what the execution of a batch has written. `bank` is what the
    /// rollup's bank has after it. The accounts that the transactions may write
    /// count as touched, whether the transactions succeeded or not: a payer may
    /// have been charged.
    pub fn finish_batch(&mut self, prepared: &AdmittedBatch, bank: &AccountMap)
        requires
            old(self).well_formed(),
            bank.well_formed(),
            prepared.writable.well_formed(),
            batch_fits(prepared.transactions@),
        ensures
            final(self).well_formed(),
            final(self)@ == (RuntimeModel {
                overlay: captured(old(self)@.overlay, held(bank@), prepared.writable@),
                touched: old(self)@.touched.union(
                    batch_writes(batch_models(prepared.transactions@)),
                ),
                ..old(self)@
            }),
    {
        capture_overlay_accounts(&mut self.er_account_overlay, bank, &prepared.writable);
        mark_writable_as_touched_for_batch(&prepared.transactions, &mut self.touched_accounts);
    }
}

/// The blockhash of a transaction is known and young enough.
pub open spec fn is_recent(age: Option<u64>, max_age: u64) -> bool {
    age matches Some(age) && age <= max_age
}

/// Those of the first `n` positions at which `is_recent` is `wanted`.
pub open spec fn positions(ages: Seq<Option<u64>>, max_age: u64, wanted: bool, n: nat) -> Seq<int>
    decreases n,
{
    if n == 0 {
        Seq::empty()
    } else {
        let before = positions(ages, max_age, wanted, (n - 1) as nat);
        if is_recent(ages[n - 1], max_age) == wanted {
            before.push(n - 1)
        } else {
            before
        }
    }
}

/// Positions as numbers.
pub open spec fn position_values(positions: Seq<usize>) -> Seq<int> {
    positions.map_values(|position: usize| position as int)
}

/// A batch by the age of its blockhashes: the positions of the transactions that
/// can be executed, and of those that fail because their blockhash is not found.
pub struct AgeSplit {
    pub valid: Vec<usize>,
    pub expired: Vec<usize>,
}

/// Splits a batch by the age of its blockhashes. A blockhash without an age is
/// not known.
pub fn split_by_age(ages: &Vec<Option<u64>>, max_age: u64) -> (split: AgeSplit)
    ensures
        position_values(split.valid@) == positions(ages@, max_age, true, ages@.len()),
        position_values(split.expired@) == positions(ages@, max_age, false, ages@.len()),
{
    let mut valid: Vec<usize> = Vec::new();
    let mut expired: Vec<usize> = Vec::new();
    assert(position_values(valid@) =~= Seq::<int>::empty());
    assert(position_values(expired@) =~= Seq::<int>::empty());
    let mut i: usize = 0;
    while i < ages.len()
        invariant
            i <= ages@.len(),
            position_values(valid@) == positions(ages@, max_age, true, i as nat),
            position_values(expired@) == positions(ages@, max_age, false, i as nat),
        decreases ages@.len() - i,
    {
        let recent = match ages[i] {
            Some(age) => age <= max_age,
            None => false,
        };
        let ghost before = (valid@, expired@);
        if recent {
            valid.push(i);
            assert(position_values(valid@) =~= position_values(before.0).push(i as int));
        } else {
            expired.push(i);
            assert(position_values(expired@) =~= position_values(before.1).push(i as int));
        }
        i += 1;
    }
    AgeSplit { valid, expired }
}

/// What a committed transaction came to. `E` is an error, `D` what else is known
/// of the execution.
pub struct Committed<E, D> {
    pub status: Result<(), E>,
    pub fee: u64,
    pub executed_units: u64,
    pub details: D,
}

/// What the history says about a transaction. `T` is a token balance.
pub struct TransactionRecord<E, D, T> {
    pub status: Result<(), E>,
    pub fee: u64,
    pub pre_balances: Vec<u64>,
    pub post_balances: Vec<u64>,
    pub pre_token_balances: Vec<T>,
    pub post_token_balances: Vec<T>,
    pub compute_units_consumed: u64,
    pub details: Option<D>,
}

/// The balances that were collected for a transaction.
pub struct CollectedBalances<T> {
    pub pre_balances: Option<Vec<u64>>,
    pub post_balances: Option<Vec<u64>>,
    pub pre_token_balances: Option<Vec<T>>,
    pub post_token_balances: Option<Vec<T>>,
}

/// The list, or an empty one if there is none.
pub open spec fn listed_or_empty<A>(list: Option<Vec<A>>) -> Seq<A> {
    match list {
        Some(list) => list@,
        None => Seq::empty(),
    }
}

fn or_empty<A>(list: Option<Vec<A>>) -> (r: Vec<A>)
    ensures
        r@ == listed_or_empty(list),
{
    match list {
        Some(list) => list,
        None => {
            let empty: Vec<A> = Vec::new();
            assert(empty@ =~= Seq::<A>::empty());
            empty
        },
    }
}

/// The record of a transaction that was not committed: the error, without a fee,
/// balances or compute units.
pub open spec fn is_failure<E, D, T>(record: TransactionRecord<E, D, T>, error: E) -> bool {
    &&& record.status == Err::<(), E>(error)
    &&& record.fee == 0
    &&& record.compute_units_consumed == 0
    &&& record.details is None
    &&& record.pre_balances@.len() == 0
    &&& record.post_balances@.len() == 0
    &&& record.pre_token_balances@.len() == 0
    &&& record.post_token_balances@.len() == 0
}

/// The record of a transaction: of one that was committed, what it came to and
/// which balances were collected; of one that was not, the error.
pub open spec fn is_record_of<E, D, T>(
    record: TransactionRecord<E, D, T>,
    outcome: Result<Committed<E, D>, E>,
    balances: CollectedBalances<T>,
) -> bool {
    match outcome {
        Ok(committed) => {
            &&& record.status == committed.status
            &&& record.fee == committed.fee
            &&& record.compute_units_consumed == committed.executed_units
            &&& record.details == Some(committed.details)
            &&& record.pre_balances@ == listed_or_empty(balances.pre_balances)
            &&& record.post_balances@ == listed_or_empty(balances.post_balances)
            &&& record.pre_token_balances@ == listed_or_empty(balances.pre_token_balances)
            &&& record.post_token_balances@ == listed_or_empty(balances.post_token_balances)
        },
        Err(error) => is_failure(record, error),
    }
}

/// What the history says about a transaction.
pub fn transaction_record<E, D, T>(
    outcome: Result<Committed<E, D>, E>,
    balances: CollectedBalances<T>,
) -> (record: TransactionRecord<E, D, T>)
    ensures
        is_record_of(record, outcome, balances),
{
    match outcome {
        Ok(committed) => TransactionRecord {
            status: committed.status,
            fee: committed.fee,
            pre_balances: or_empty(balances.pre_balances),
            post_balances: or_empty(balances.post_balances),
            pre_token_balances: or_empty(balances.pre_token_balances),
            post_token_balances: or_empty(balances.post_token_balances),
            compute_units_consumed: committed.executed_units,
            details: Some(committed.details),
        },
        Err(error) => failure_record(error),
    }
}

fn failure_record<E, D, T>(error: E) -> (record: TransactionRecord<E, D, T>)
    ensures
        is_failure(record, error),
{
    TransactionRecord {
        status: Err(error),
        fee: 0,
        pre_balances: Vec::new(),
        post_balances: Vec::new(),
        pre_token_balances: Vec::new(),
        post_token_balances: Vec::new(),
        compute_units_consumed: 0,
        details: None,
    }
}

/// What the execution of a transaction came to.
pub struct Executed<E, D, T> {
    pub outcome: Result<Committed<E, D>, E>,
    pub balances: CollectedBalances<T>,
}

/// The record of the transaction at a position of a batch.
pub struct PositionedRecord<E, D, T> {
    pub position: usize,
    pub record: TransactionRecord<E, D, T>,
}

/// What is to be recorded of a batch, and what the batch as a whole came to.
pub struct BatchReport<E, D, T> {
    pub records: Vec<PositionedRecord<E, D, T>>,
    pub outcome: Result<(), E>,
}

/// Each of the transactions at these positions failed with a copy of the error.
pub open spec fn all_fail<E: Clone, D, T>(
    records: Seq<PositionedRecord<E, D, T>>,
    positions: Seq<usize>,
    error: E,
) -> bool {
    &&& records.len() == positions.len()
    &&& forall|i: int|
        0 <= i < records.len() ==> {
            &&& (#[trigger] records[i]).position == positions[i]
            &&& records[i].record.status matches Err(copy)
            &&& cloned(error, copy)
            &&& is_failure(records[i].record, copy)
        }
}

/// Each of the transactions at these positions has the record of its execution.
/// What has no counterpart in the other list is left out.
pub open spec fn all_executed<E, D, T>(
    records: Seq<PositionedRecord<E, D, T>>,
    positions: Seq<usize>,
    executed: Seq<Executed<E, D, T>>,
) -> bool {
    &&& records.len() == if positions.len() <= executed.len() {
        positions.len()
    } else {
        executed.len()
    }
    &&& forall|i: int|
        0 <= i < records.len() ==> {
            &&& (#[trigger] records[i]).position == positions[i]
            &&& is_record_of(records[i].record, executed[i].outcome, executed[i].balances)
        }
}

fn push_failures<E: Clone, D, T>(
    records: &mut Vec<PositionedRecord<E, D, T>>,
    positions: &Vec<usize>,
    error: &E,
)
    ensures
        old(records)@.len() <= final(records)@.len(),
        final(records)@.take(old(records)@.len() as int) == old(records)@,
        all_fail(final(records)@.skip(old(records)@.len() as int), positions@, *error),
{
    let ghost before = records@;
    let mut i: usize = 0;
    while i < positions.len()
        invariant
            i <= positions@.len(),
            before == old(records)@,
            records@.len() == before.len() + i,
            records@.take(before.len() as int) == before,
            all_fail(records@.skip(before.len() as int), positions@.take(i as int), *error),
        decreases positions@.len() - i,
    {
        let copy = error.clone();
        let ghost earlier = records@;
        records.push(PositionedRecord { position: positions[i], record: failure_record(copy) });
        assert(records@.take(before.len() as int) =~= earlier.take(before.len() as int));
        assert(records@.skip(before.len() as int) =~= earlier.skip(before.len() as int).push(
            records@.last(),
        ));
        assert(positions@.take(i + 1) =~= positions@.take(i as int).push(positions@[i as int]));
        i += 1;
    }
    assert(positions@.take(i as int) =~= positions@);
}

/// What is to be recorded of a batch that was split by age. The transactions that
/// are too old failed for want of their blockhash. If no others are left, so did
/// the batch, and nothing was executed. If the batch was refused, each of the
/// others failed with its error. Otherwise each has the record of its execution.
pub open spec fn is_report_of<E: Clone, D, T>(
    report: BatchReport<E, D, T>,
    split: AgeSplit,
    execution: Result<Vec<Executed<E, D, T>>, E>,
    blockhash_not_found: E,
) -> bool {
    let expired = split.expired@.len() as int;
    let others = report.records@.skip(expired);
    &&& expired <= report.records@.len()
    &&& all_fail(report.records@.take(expired), split.expired@, blockhash_not_found)
    &&& if split.valid@.len() == 0 {
        &&& others.len() == 0
        &&& report.outcome == Err::<(), E>(blockhash_not_found)
    } else {
        match execution {
            Err(error) => {
                &&& all_fail(others, split.valid@, error)
                &&& report.outcome == Err::<(), E>(error)
            },
            Ok(executed) => {
                &&& all_executed(others, split.valid@, executed@)
                &&& report.outcome is Ok
            },
        }
    }
}

/// What is to be recorded of a batch that was split by age, in the order in which
/// it is recorded.
pub fn report_batch<E: Clone, D, T>(
    split: &AgeSplit,
    execution: Result<Vec<Executed<E, D, T>>, E>,
    blockhash_not_found: E,
) -> (report: BatchReport<E, D, T>)
    ensures
        is_report_of(report, *split, execution, blockhash_not_found),
{
    let mut records: Vec<PositionedRecord<E, D, T>> = Vec::new();
    push_failures(&mut records, &split.expired, &blockhash_not_found);
    let ghost expired = split.expired@.len() as int;
    let ghost first = records@;
    assert(first.skip(0) =~= first);
    assert(first.take(expired) =~= first);
    if split.valid.len() == 0 {
        return BatchReport { records, outcome: Err(blockhash_not_found) };
    }
    match execution {
        Err(error) => {
            push_failures(&mut records, &split.valid, &error);
            BatchReport { records, outcome: Err(error) }
        },
        Ok(executed) => {
            let ghost all = executed@;
            let mut i: usize = 0;
            for one in done: executed
                invariant
                    done.seq() == all,
                    i <= split.valid@.len(),
                    i <= done.index(),
                    i < split.valid@.len() ==> i == done.index(),
                    first.len() == expired,
                    records@.len() == expired + i,
                    records@.take(expired) == first,
                    all_executed(
                        records@.skip(expired),
                        split.valid@,
                        all.take(done.index() as int),
                    ),
            {
                if i < split.valid.len() {
                    let ghost earlier = records@;
                    let record = transaction_record(one.outcome, one.balances);
                    records.push(PositionedRecord { position: split.valid[i], record });
                    assert(records@.take(expired) =~= earlier.take(expired));
                    assert(records@.skip(expired) =~= earlier.skip(expired).push(
                        records@.last(),
                    ));
                    i += 1;
                }
            }
            assert(all.take(all.len() as int) =~= all);
            BatchReport { records, outcome: Ok(()) }
        },
    }
}

proof fn lemma_positions(
    ages: Seq<Option<u64>>,
    max_age: u64,
    wanted: bool,
    n: nat,
)
    requires
        n <= ages.len(),
    ensures
        forall|i: int|
            0 <= i < positions(ages, max_age, wanted, n).len() ==> {
                &&& 0 <= #[trigger] positions(ages, max_age, wanted, n)[i] < n
                &&& is_recent(ages[positions(ages, max_age, wanted, n)[i]], max_age) == wanted
            },
        forall|position: int|
            0 <= position < n && is_recent(#[trigger] ages[position], max_age) == wanted
                ==> positions(ages, max_age, wanted, n).contains(position),
        positions(ages, max_age, wanted, n).no_duplicates(),
    decreases n,
{
    if n > 0 {
        lemma_positions(ages, max_age, wanted, (n - 1) as nat);
        let before = positions(ages, max_age, wanted, (n - 1) as nat);
        let all = positions(ages, max_age, wanted, n);
        assert forall|position: int|
            0 <= position < n && is_recent(
                #[trigger] ages[position],
                max_age,
            ) == wanted implies all.contains(position) by {
            if position == n - 1 {
                assert(all.last() == position);
            } else {
                let i = choose|i: int| 0 <= i < before.len() && before[i] == position;
                assert(all[i] == position);
            }
        }
    }
}

proof fn lemma_position_count(ages: Seq<Option<u64>>, max_age: u64, n: nat)
    ensures
        positions(ages, max_age, true, n).len() + positions(ages, max_age, false, n).len() == n,
    decreases n,
{
    if n > 0 {
        lemma_position_count(ages, max_age, (n - 1) as nat);
    }
}

/// Every transaction of a batch is recorded exactly once, whether the batch was
/// refused or its execution has an outcome for each transaction that was not too
/// old.
pub proof fn every_transaction_is_recorded_once<E: Clone, D, T>(
    ages: Seq<Option<u64>>,
    max_age: u64,
    split: AgeSplit,
    execution: Result<Vec<Executed<E, D, T>>, E>,
    blockhash_not_found: E,
    report: BatchReport<E, D, T>,
    position: int,
)
    requires
        position_values(split.valid@) == positions(ages, max_age, true, ages.len()),
        position_values(split.expired@) == positions(ages, max_age, false, ages.len()),
        execution matches Ok(executed) ==> executed@.len() == split.valid@.len(),
        is_report_of(report, split, execution, blockhash_not_found),
        0 <= position < ages.len(),
    ensures
        report.records@.len() == ages.len(),
        exists|i: int| 0 <= i < ages.len() && (#[trigger] report.records@[i]).position == position,
        forall|i: int, j: int|
            0 <= i < j < ages.len() ==> (#[trigger] report.records@[i]).position != (
            #[trigger] report.records@[j]).position,
{
    let records = report.records@;
    let expired = split.expired@.len() as int;
    let late = positions(ages, max_age, false, ages.len());
    let timely = positions(ages, max_age, true, ages.len());
    lemma_positions(ages, max_age, false, ages.len());
    lemma_positions(ages, max_age, true, ages.len());
    lemma_position_count(ages, max_age, ages.len());
    assert forall|i: int| 0 <= i < records.len() implies (#[trigger] records[i]).position == if i
        < expired {
        late[i]
    } else {
        timely[i - expired]
    } by {
        if i < expired {
            assert(records.take(expired)[i] == records[i]);
            assert(late[i] == position_values(split.expired@)[i]);
        } else {
            assert(records.skip(expired)[i - expired] == records[i]);
            assert(timely[i - expired] == position_values(split.valid@)[i - expired]);
        }
    }
    if is_recent(ages[position], max_age) {
        let i = choose|i: int| 0 <= i < timely.len() && timely[i] == position;
        assert(records[expired + i].position == position);
    } else {
        let i = choose|i: int| 0 <= i < late.len() && late[i] == position;
        assert(records[i].position == position);
    }
}

/// While anything is delegated, an accepted transaction writes nothing but its
/// payer and accounts that transactions may write.
pub proof fn accepted_transactions_write_allowed_accounts(
    transaction: BatchModel,
    delegated: Set<Pubkey>,
    touched: Set<Pubkey>,
    bank: Map<Pubkey, AccountModel>,
    key: Pubkey,
)
    requires
        accepts(transaction, delegated, touched, bank),
        delegated != Set::<Pubkey>::empty(),
        batch_writes(seq![transaction]).contains(key),
        key != transaction.transaction.static_keys[0],
    ensures
        may_write(key, delegated, touched, bank),
{
    let one = seq![transaction];
    if static_writes(one, 1).contains(key) {
        let (t, i) = choose|t: int, i: int|
            0 <= t < 1 && #[trigger] writes_static(one[t].transaction, i)
                && one[t].transaction.static_keys[i] == key;
        assert(writes_static(transaction.transaction, i));
        assert(transaction.transaction.static_keys[i] == key);
    } else {
        let t = choose|t: int|
            0 <= t < 1 && ((#[trigger] one[t]).loaded_writable matches Some(loaded)
                && loaded.contains(key));
        let loaded = transaction.loaded_writable->0;
        let i = choose|i: int| 0 <= i < loaded.len() && loaded[i] == key;
        assert(loaded[i] == key);
    }
}

proof fn lemma_static_writes_finite(batch: Seq<BatchModel>, n: nat)
    requires
        n <= batch.len(),
    ensures
        static_writes(batch, n).finite(),
    decreases n,
{
    if n == 0 {
        assert(static_writes(batch, 0) =~= Set::<Pubkey>::empty());
    } else {
        lemma_static_writes_finite(batch, (n - 1) as nat);
        lemma_static_writes_next(batch, (n - 1) as nat);
        let one = seq![batch[n - 1]];
        let keys = batch[n - 1].transaction.static_keys;
        vstd::seq_lib::seq_to_set_is_finite(keys);
        assert forall|key: Pubkey| static_writes(one, 1).contains(key) implies keys.to_set().contains(
            key,
        ) by {
            let (t, i) = choose|t: int, i: int|
                0 <= t < 1 && #[trigger] writes_static(one[t].transaction, i)
                    && one[t].transaction.static_keys[i] == key;
            assert(keys[i] == key);
        }
        assert(static_writes(one, 1) =~= keys.to_set().intersect(static_writes(one, 1)));
    }
}

proof fn lemma_loaded_writes_finite(batch: Seq<BatchModel>, n: nat)
    requires
        n <= batch.len(),
    ensures
        loaded_writes(batch, n).finite(),
    decreases n,
{
    if n == 0 {
        assert(loaded_writes(batch, 0) =~= Set::<Pubkey>::empty());
    } else {
        let before = loaded_writes(batch, (n - 1) as nat);
        lemma_loaded_writes_finite(batch, (n - 1) as nat);
        let keys = match batch[n - 1].loaded_writable {
            Some(loaded) => loaded.to_set(),
            None => Set::empty(),
        };
        if let Some(loaded) = batch[n - 1].loaded_writable {
            vstd::seq_lib::seq_to_set_is_finite(loaded);
        }
        assert forall|key: Pubkey| loaded_writes(batch, n).contains(key) implies before.union(
            keys,
        ).contains(key) by {
            let t = choose|t: int|
                0 <= t < n && ((#[trigger] batch[t]).loaded_writable matches Some(loaded)
                    && loaded.contains(key));
            if t < n - 1 {
                assert(before.contains(key));
            }
        }
        assert(loaded_writes(batch, n) =~= before.union(keys).intersect(loaded_writes(batch, n)));
    }
}

proof fn lemma_zeroing(
    bank: Map<Pubkey, AccountModel>,
    keys: Seq<Pubkey>,
    n: nat,
    key: Pubkey,
) -> (at: int)
    requires
        n <= keys.len(),
        exists|i: int| 0 <= i < n && keys[i] == key,
        has_lamports(bank, key),
    ensures
        0 <= at < zeroing_update(bank, keys, n).writes.len(),
        zeroing_update(bank, keys, n).writes[at] == (
            key,
            (AccountModel { lamports: 0, ..bank[key] }),
        ),
    decreases n,
{
    if keys[n - 1] == key {
        zeroing_update(bank, keys, (n - 1) as nat).writes.len() as int
    } else {
        let i = choose|i: int| 0 <= i < n && keys[i] == key;
        assert(keys[i] == key && i < n - 1);
        lemma_zeroing(bank, keys, (n - 1) as nat, key)
    }
}

/// While anything is delegated, every balance that an account that a batch may
/// write inherits from layer one is set to zero before the batch is executed: the
/// account is not delegated, not touched before, and not reserved.
pub proof fn inherited_balances_are_not_spent(
    bank: Map<Pubkey, AccountModel>,
    batch: Seq<BatchModel>,
    delegated: Set<Pubkey>,
    touched: Set<Pubkey>,
    key: Pubkey,
)
    requires
        delegated != Set::<Pubkey>::empty(),
        batch_writes(batch).contains(key),
        inherits(key, delegated, touched),
        has_lamports(bank, key),
    ensures
        zeroing_of(bank, batch, delegated, touched).writes.contains(
            (key, (AccountModel { lamports: 0, ..bank[key] })),
        ),
        zeroed_by(bank, batch, delegated, touched).contains(key),
{
    let keys = inherited_of(batch, delegated, touched);
    lemma_static_writes_finite(batch, batch.len());
    lemma_loaded_writes_finite(batch, batch.len());
    assert(keys =~= batch_writes(batch).intersect(keys));
    lemma_order_exists(keys);
    let listed = ordered(keys);
    assert(listed.to_set().contains(key));
    let i = choose|i: int| 0 <= i < listed.len() && listed[i] == key;
    assert(listed[i] == key);
    let at = lemma_zeroing(bank, listed, listed.len(), key);
    assert(zeroing_of(bank, batch, delegated, touched).writes[at] == (
        key,
        (AccountModel { lamports: 0, ..bank[key] }),
    ));
}

} // verus!
