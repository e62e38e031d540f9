//! The unsettled state of a session, what updates do to it, and how it is laid
//! out when it is stored.

use vstd::prelude::*;

use crate::accounts::{Account, AccountModel, Pubkey};
use crate::keyed::{increasing, KeyMap, KeySet};
use crate::unsettled_state::records::{
    AccountEntry, AccountEntryModel, Mutation, MutationModel, PersistedAccount,
    PersistedAccountModel, PersistedSignature, StateImage, StateImageModel, WithdrawalPayoutEvent,
};

verus! {

impl PersistedAccount {
    /// The account at an address, as it is stored.
    pub fn new(pubkey: Pubkey, account: &Account) -> (stored: PersistedAccount)
        ensures
            stored@ == stored_account(pubkey, account@),
    {
        PersistedAccount {
            pubkey,
            lamports: account.lamports,
            data: account.data.clone(),
            owner: account.owner,
            executable: account.executable,
            rent_epoch: account.rent_epoch,
        }
    }

    /// The account, with its address.
    pub fn runtime(&self) -> (r: (Pubkey, Account))
        ensures
            r.0 == self@.pubkey,
            r.1@ == runtime_account(self@),
    {
        (
            self.pubkey,
            Account {
                lamports: self.lamports,
                data: self.data.clone(),
                owner: self.owner,
                executable: self.executable,
                rent_epoch: self.rent_epoch,
            },
        )
    }

    fn copy(&self) -> (copy: PersistedAccount)
        ensures
            copy@ == self@,
    {
        PersistedAccount {
            pubkey: self.pubkey,
            lamports: self.lamports,
            data: self.data.clone(),
            owner: self.owner,
            executable: self.executable,
            rent_epoch: self.rent_epoch,
        }
    }
}

pub open spec fn stored_account(pubkey: Pubkey, account: AccountModel) -> PersistedAccountModel {
    PersistedAccountModel {
        pubkey,
        lamports: account.lamports,
        data: account.data,
        owner: account.owner,
        executable: account.executable,
        rent_epoch: account.rent_epoch,
    }
}

pub open spec fn runtime_account(stored: PersistedAccountModel) -> AccountModel {
    AccountModel {
        lamports: stored.lamports,
        data: stored.data,
        owner: stored.owner,
        executable: stored.executable,
        rent_epoch: stored.rent_epoch,
    }
}

/// What a `PersistedState` holds.
#[verifier::ext_equal]
pub struct StateModel {
    pub accounts: Map<[u8; 32], PersistedAccountModel>,
    pub touched_accounts: Set<[u8; 32]>,
    pub payout_events: Seq<WithdrawalPayoutEvent>,
    pub processed_signatures: Map<[u8; 64], u64>,
}

pub open spec fn empty_state() -> StateModel {
    StateModel {
        accounts: Map::empty(),
        touched_accounts: Set::empty(),
        payout_events: Seq::empty(),
        processed_signatures: Map::empty(),
    }
}

/// The accounts set one after another.
pub open spec fn accounts_set(
    accounts: Map<[u8; 32], PersistedAccountModel>,
    updates: Seq<PersistedAccountModel>,
) -> Map<[u8; 32], PersistedAccountModel>
    decreases updates.len(),
{
    if updates.len() == 0 {
        accounts
    } else {
        accounts_set(accounts, updates.drop_last()).insert(updates.last().pubkey, updates.last())
    }
}

/// The signatures set one after another.
pub open spec fn signatures_set(
    signatures: Map<[u8; 64], u64>,
    updates: Seq<PersistedSignature>,
) -> Map<[u8; 64], u64>
    decreases updates.len(),
{
    if updates.len() == 0 {
        signatures
    } else {
        signatures_set(signatures, updates.drop_last()).insert(
            updates.last().signature,
            updates.last().slot,
        )
    }
}

/// The state after an update: accounts and signatures are set, touched accounts
/// are added, and the payout events are replaced if the update has any.
pub open spec fn applied(state: StateModel, mutation: MutationModel) -> StateModel {
    StateModel {
        accounts: accounts_set(state.accounts, mutation.accounts),
        touched_accounts: state.touched_accounts.union(mutation.touched_accounts.to_set()),
        payout_events: match mutation.payout_events {
            Some(events) => events,
            None => state.payout_events,
        },
        processed_signatures: signatures_set(
            state.processed_signatures,
            mutation.processed_signatures,
        ),
    }
}

/// The unsettled state of a session.
pub struct PersistedState {
    accounts: KeyMap<PersistedAccount, 32>,
    touched_accounts: KeySet<32>,
    payout_events: Vec<WithdrawalPayoutEvent>,
    processed_signatures: KeyMap<u64, 64>,
}

pub open spec fn account_models(accounts: Map<[u8; 32], PersistedAccount>) -> Map<
    [u8; 32],
    PersistedAccountModel,
> {
    accounts.map_values(|account: PersistedAccount| account@)
}

impl View for PersistedState {
    type V = StateModel;

    closed spec fn view(&self) -> StateModel {
        StateModel {
            accounts: account_models(self.accounts@),
            touched_accounts: self.touched_accounts@,
            payout_events: self.payout_events@,
            processed_signatures: self.processed_signatures@,
        }
    }
}

fn copy_events(events: &Vec<WithdrawalPayoutEvent>) -> (copy: Vec<WithdrawalPayoutEvent>)
    ensures
        copy@ == events@,
{
    let mut copy: Vec<WithdrawalPayoutEvent> = Vec::new();
    let mut i: usize = 0;
    while i < events.len()
        invariant
            i <= events@.len(),
            copy@ == events@.take(i as int),
        decreases events@.len() - i,
    {
        copy.push(events[i]);
        i += 1;
        assert(copy@ =~= events@.take(i as int));
    }
    assert(copy@ =~= events@);
    copy
}

/// A recovered state: accounts, touched accounts and signatures in the order of
/// their keys.
#[derive(Debug, Clone, PartialEq, Eq)]
pub struct RecoveredUnsettledState {
    pub accounts: Vec<(Pubkey, Account)>,
    pub touched_accounts: Vec<Pubkey>,
    pub payout_events: Vec<WithdrawalPayoutEvent>,
    pub processed_signatures: Vec<([u8; 64], u64)>,
}

/// The keys are exactly those of the map, in increasing order.
pub open spec fn lists_keys<V, const N: usize>(keys: Seq<[u8; N]>, map: Map<[u8; N], V>) -> bool {
    &&& increasing(keys)
    &&& forall|k: [u8; N]| #[trigger] map.contains_key(k) <==> keys.contains(k)
}

/// The accounts of a recovered state, each with the address that is stored in
/// it, in the order of the keys that they are stored under.
pub open spec fn lists_accounts(
    listed: Seq<(Pubkey, Account)>,
    accounts: Map<[u8; 32], PersistedAccountModel>,
) -> bool {
    exists|keys: Seq<[u8; 32]>|
        {
            &&& #[trigger] lists_keys(keys, accounts)
            &&& keys.len() == listed.len()
            &&& forall|i: int|
                0 <= i < keys.len() ==> {
                    &&& (#[trigger] listed[i]).0 == accounts[keys[i]].pubkey
                    &&& listed[i].1@ == runtime_account(accounts[keys[i]])
                }
        }
}

/// The processed signatures and their slots, in the order of the signatures.
pub open spec fn lists_signatures(
    listed: Seq<([u8; 64], u64)>,
    signatures: Map<[u8; 64], u64>,
) -> bool {
    &&& lists_keys(listed.map_values(|entry: ([u8; 64], u64)| entry.0), signatures)
    &&& forall|i: int|
        0 <= i < listed.len() ==> (#[trigger] listed[i]).1 == signatures[listed[i].0]
}

/// What is recovered of a state.
pub open spec fn is_recovery_of(recovered: RecoveredUnsettledState, state: StateModel) -> bool {
    &&& lists_accounts(recovered.accounts@, state.accounts)
    &&& increasing(recovered.touched_accounts@)
    &&& recovered.touched_accounts@.to_set() == state.touched_accounts
    &&& recovered.payout_events@ == state.payout_events
    &&& lists_signatures(recovered.processed_signatures@, state.processed_signatures)
}

/// How a state is laid out when it is stored: everything in the order of its
/// keys.
pub open spec fn is_image_of(image: StateImageModel, state: StateModel) -> bool {
    &&& lists_keys(image.accounts.map_values(|entry: AccountEntryModel| entry.key), state.accounts)
    &&& forall|i: int|
        0 <= i < image.accounts.len() ==> (#[trigger] image.accounts[i]).account
            == state.accounts[image.accounts[i].key]
    &&& increasing(image.touched_accounts)
    &&& image.touched_accounts.to_set() == state.touched_accounts
    &&& image.payout_events == state.payout_events
    &&& lists_keys(
        image.processed_signatures.map_values(|entry: PersistedSignature| entry.signature),
        state.processed_signatures,
    )
    &&& forall|i: int|
        0 <= i < image.processed_signatures.len() ==> (
        #[trigger] image.processed_signatures[i]).slot
            == state.processed_signatures[image.processed_signatures[i].signature]
}

/// The accounts of an image. Of two entries under one key the later one counts.
pub open spec fn image_accounts(entries: Seq<AccountEntryModel>) -> Map<
    [u8; 32],
    PersistedAccountModel,
>
    decreases entries.len(),
{
    if entries.len() == 0 {
        Map::empty()
    } else {
        image_accounts(entries.drop_last()).insert(entries.last().key, entries.last().account)
    }
}

/// The state that an image stands for.
pub open spec fn image_state(image: StateImageModel) -> StateModel {
    StateModel {
        accounts: image_accounts(image.accounts),
        touched_accounts: image.touched_accounts.to_set(),
        payout_events: image.payout_events,
        processed_signatures: signatures_set(Map::empty(), image.processed_signatures),
    }
}

proof fn lemma_image_accounts(entries: Seq<AccountEntryModel>)
    requires
        increasing(entries.map_values(|entry: AccountEntryModel| entry.key)),
    ensures
        forall|k: [u8; 32]| #[trigger]
            image_accounts(entries).contains_key(k) <==> entries.map_values(
                |entry: AccountEntryModel| entry.key,
            ).contains(k),
        forall|i: int|
            0 <= i < entries.len() ==> image_accounts(entries)[(#[trigger] entries[i]).key]
                == entries[i].account,
    decreases entries.len(),
{
    let keys = entries.map_values(|entry: AccountEntryModel| entry.key);
    if entries.len() > 0 {
        let front = entries.drop_last();
        let front_keys = front.map_values(|entry: AccountEntryModel| entry.key);
        assert(front_keys =~= keys.drop_last());
        assert(increasing(front_keys)) by {
            assert forall|i: int, j: int| 0 <= i < j < front_keys.len() implies crate::order::lex_less(
                #[trigger] front_keys[i],
                #[trigger] front_keys[j],
            ) by {
                assert(front_keys[i] == keys[i] && front_keys[j] == keys[j]);
            }
        }
        lemma_image_accounts(front);
        let last = entries.len() - 1;
        assert forall|k: [u8; 32]| #[trigger]
            image_accounts(entries).contains_key(k) <==> keys.contains(k) by {
            assert(image_accounts(entries).contains_key(k) <==> image_accounts(
                front,
            ).contains_key(k) || k == entries.last().key);
            assert(keys[last] == entries.last().key);
            if keys.contains(k) {
                let i = choose|i: int| 0 <= i < keys.len() && keys[i] == k;
                if i < last {
                    assert(front_keys[i] == k);
                }
            }
            if front_keys.contains(k) {
                let i = choose|i: int| 0 <= i < front_keys.len() && front_keys[i] == k;
                assert(keys[i] == k);
            }
            if k == entries.last().key {
                assert(keys[last] == k);
            }
        }
        assert forall|i: int| 0 <= i < entries.len() implies image_accounts(entries)[(
        #[trigger] entries[i]).key] == entries[i].account by {
            if i < last {
                assert(entries[i] == front[i]);
                assert(crate::order::lex_less(keys[i], keys[last]));
                crate::order::lex_order_is_total(keys[i], keys[last]);
            }
        }
    }
}

proof fn lemma_image_signatures(entries: Seq<PersistedSignature>)
    requires
        increasing(entries.map_values(|entry: PersistedSignature| entry.signature)),
    ensures
        forall|k: [u8; 64]| #[trigger]
            signatures_set(Map::empty(), entries).contains_key(k) <==> entries.map_values(
                |entry: PersistedSignature| entry.signature,
            ).contains(k),
        forall|i: int|
            0 <= i < entries.len() ==> signatures_set(Map::empty(), entries)[(
            #[trigger] entries[i]).signature] == entries[i].slot,
    decreases entries.len(),
{
    let keys = entries.map_values(|entry: PersistedSignature| entry.signature);
    if entries.len() > 0 {
        let front = entries.drop_last();
        let front_keys = front.map_values(|entry: PersistedSignature| entry.signature);
        assert(front_keys =~= keys.drop_last());
        assert(increasing(front_keys)) by {
            assert forall|i: int, j: int| 0 <= i < j < front_keys.len() implies crate::order::lex_less(
                #[trigger] front_keys[i],
                #[trigger] front_keys[j],
            ) by {
                assert(front_keys[i] == keys[i] && front_keys[j] == keys[j]);
            }
        }
        lemma_image_signatures(front);
        let last = entries.len() - 1;
        assert forall|k: [u8; 64]| #[trigger]
            signatures_set(Map::empty(), entries).contains_key(k) <==> keys.contains(k) by {
            assert(signatures_set(Map::empty(), entries).contains_key(k) <==> signatures_set(
                Map::empty(),
                front,
            ).contains_key(k) || k == entries.last().signature);
            assert(keys[last] == entries.last().signature);
            if keys.contains(k) {
                let i = choose|i: int| 0 <= i < keys.len() && keys[i] == k;
                if i < last {
                    assert(front_keys[i] == k);
                }
            }
            if front_keys.contains(k) {
                let i = choose|i: int| 0 <= i < front_keys.len() && front_keys[i] == k;
                assert(keys[i] == k);
            }
            if k == entries.last().signature {
                assert(keys[last] == k);
            }
        }
        assert forall|i: int| 0 <= i < entries.len() implies signatures_set(Map::empty(), entries)[(
        #[trigger] entries[i]).signature] == entries[i].slot by {
            if i < last {
                assert(entries[i] == front[i]);
                assert(crate::order::lex_less(keys[i], keys[last]));
                crate::order::lex_order_is_total(keys[i], keys[last]);
            }
        }
    }
}

/// What is read from the image of a state is the state.
pub proof fn images_are_read_back(image: StateImageModel, state: StateModel)
    requires
        is_image_of(image, state),
    ensures
        image_state(image) == state,
{
    lemma_image_accounts(image.accounts);
    lemma_image_signatures(image.processed_signatures);
    let read = image_state(image);
    let keys = image.accounts.map_values(|entry: AccountEntryModel| entry.key);
    let signatures = image.processed_signatures.map_values(
        |entry: PersistedSignature| entry.signature,
    );
    assert forall|k: [u8; 32]| read.accounts.contains_key(k) implies #[trigger] read.accounts[k]
        == state.accounts[k] by {
        let i = choose|i: int| 0 <= i < keys.len() && keys[i] == k;
        assert(image.accounts[i].key == k);
    }
    assert(read.accounts =~= state.accounts);
    assert forall|k: [u8; 64]| read.processed_signatures.contains_key(k) implies #[trigger]
    read.processed_signatures[k] == state.processed_signatures[k] by {
        let i = choose|i: int| 0 <= i < signatures.len() && signatures[i] == k;
        assert(image.processed_signatures[i].signature == k);
    }
    assert(read.processed_signatures =~= state.processed_signatures);
    assert(read =~= state);
}

impl PersistedState {
    pub closed spec fn well_formed(&self) -> bool {
        &&& self.accounts.well_formed()
        &&& self.touched_accounts.well_formed()
        &&& self.processed_signatures.well_formed()
    }

    /// The state of a session in which nothing has happened.
    pub fn new() -> (state: PersistedState)
        ensures
            state.well_formed(),
            state@ == empty_state(),
    {
        let state = PersistedState {
            accounts: KeyMap::new(),
            touched_accounts: KeySet::new(),
            payout_events: Vec::new(),
            processed_signatures: KeyMap::new(),
        };
        assert(state@.accounts =~= Map::<[u8; 32], PersistedAccountModel>::empty());
        assert(state@ =~= empty_state());
        state
    }

    /// Applies an update.
    pub fn apply(&mut self, mutation: &Mutation)
        requires
            old(self).well_formed(),
        ensures
            final(self).well_formed(),
            final(self)@ == applied(old(self)@, mutation@),
    {
        let ghost before = self@;
        let mut i: usize = 0;
        assert(mutation@.accounts.take(0) =~= Seq::<PersistedAccountModel>::empty());
        while i < mutation.accounts.len()
            invariant
                i <= mutation.accounts@.len(),
                self.well_formed(),
                self@ == (StateModel {
                    accounts: accounts_set(before.accounts, mutation@.accounts.take(i as int)),
                    ..before
                }),
            decreases mutation.accounts@.len() - i,
        {
            let ghost was = self.accounts@;
            let account = mutation.accounts[i].copy();
            let ghost stored = account;
            assert(mutation@.accounts[i as int] == mutation.accounts@[i as int]@);
            self.accounts.insert(account.pubkey, account);
            i += 1;
            proof {
                let now = mutation@.accounts.take(i as int);
                assert(now.drop_last() =~= mutation@.accounts.take(i - 1));
                assert(account_models(self.accounts@) =~= account_models(was).insert(
                    stored.pubkey,
                    stored@,
                ));
            }
        }
        assert(mutation@.accounts.take(i as int) =~= mutation@.accounts);
        let ghost accounts = self@.accounts;
        let mut i: usize = 0;
        assert(mutation.touched_accounts@.take(0).to_set() =~= Set::<[u8; 32]>::empty());
        while i < mutation.touched_accounts.len()
            invariant
                i <= mutation.touched_accounts@.len(),
                self.well_formed(),
                self@.accounts == accounts,
                self@.payout_events == before.payout_events,
                self@.processed_signatures == before.processed_signatures,
                self@.touched_accounts == before.touched_accounts.union(
                    mutation.touched_accounts@.take(i as int).to_set(),
                ),
            decreases mutation.touched_accounts@.len() - i,
        {
            let key = mutation.touched_accounts[i];
            let _ = self.touched_accounts.insert(key);
            i += 1;
            proof {
                let then = mutation.touched_accounts@.take(i - 1);
                let now = mutation.touched_accounts@.take(i as int);
                assert(now =~= then.push(key));
                assert(now.to_set() =~= then.to_set().insert(key)) by {
                    assert forall|k: [u8; 32]| now.contains(k) <==> then.contains(k) || k == key by {
                        if then.contains(k) {
                            let x = choose|x: int| 0 <= x < then.len() && then[x] == k;
                            assert(now[x] == k);
                        }
                        if k == key {
                            assert(now[i - 1] == k);
                        }
                    }
                }
                assert(self@.touched_accounts =~= before.touched_accounts.union(now.to_set()));
            }
        }
        assert(mutation.touched_accounts@.take(i as int) =~= mutation.touched_accounts@);
        match &mutation.payout_events {
            Some(events) => {
                self.payout_events = copy_events(events);
            },
            None => {},
        }
        let ghost events = self@.payout_events;
        let ghost touched = self@.touched_accounts;
        let mut i: usize = 0;
        assert(mutation.processed_signatures@.take(0) =~= Seq::<PersistedSignature>::empty());
        while i < mutation.processed_signatures.len()
            invariant
                i <= mutation.processed_signatures@.len(),
                self.well_formed(),
                self@.accounts == accounts,
                self@.payout_events == events,
                self@.touched_accounts == touched,
                self@.processed_signatures == signatures_set(
                    before.processed_signatures,
                    mutation.processed_signatures@.take(i as int),
                ),
            decreases mutation.processed_signatures@.len() - i,
        {
            let entry = mutation.processed_signatures[i];
            self.processed_signatures.insert(entry.signature, entry.slot);
            i += 1;
            assert(mutation.processed_signatures@.take(i as int).drop_last()
                =~= mutation.processed_signatures@.take(i - 1));
        }
        assert(mutation.processed_signatures@.take(i as int) =~= mutation.processed_signatures@);
        assert(self@ =~= applied(before, mutation@));
    }

    /// What a new validator process starts from.
    pub fn recovered(&self) -> (recovered: RecoveredUnsettledState)
        requires
            self.well_formed(),
        ensures
            is_recovery_of(recovered, self@),
    {
        let ghost state = self@;
        proof {
            self.accounts.lemma_listed();
            self.touched_accounts.lemma_listed();
            self.processed_signatures.lemma_listed();
        }
        let mut accounts: Vec<(Pubkey, Account)> = Vec::new();
        let ghost keys = self.accounts.listed();
        let mut i: usize = 0;
        while i < self.accounts.len()
            invariant
                i <= keys.len(),
                keys == self.accounts.listed(),
                self.well_formed(),
                state == self@,
                accounts@.len() == i,
                forall|j: int|
                    0 <= j < i ==> {
                        &&& (#[trigger] accounts@[j]).0 == state.accounts[keys[j]].pubkey
                        &&& accounts@[j].1@ == runtime_account(state.accounts[keys[j]])
                    },
            decreases keys.len() - i,
        {
            let account = self.accounts.value_at(i).runtime();
            accounts.push(account);
            i += 1;
        }
        proof {
            assert forall|k: [u8; 32]| #[trigger]
                state.accounts.contains_key(k) <==> keys.contains(k) by {
                assert(self.accounts@.contains_key(k) <==> keys.contains(k));
            }
            assert(lists_keys(keys, state.accounts));
        }
        let mut touched_accounts: Vec<Pubkey> = Vec::new();
        let mut i: usize = 0;
        while i < self.touched_accounts.len()
            invariant
                i <= self.touched_accounts.listed().len(),
                touched_accounts@ == self.touched_accounts.listed().take(i as int),
            decreases self.touched_accounts.listed().len() - i,
        {
            touched_accounts.push(self.touched_accounts.key_at(i));
            i += 1;
            assert(touched_accounts@ =~= self.touched_accounts.listed().take(i as int));
        }
        proof {
            assert(touched_accounts@ =~= self.touched_accounts.listed());
            assert forall|k: [u8; 32]| touched_accounts@.to_set().contains(k)
                <==> state.touched_accounts.contains(k) by {
                assert(self.touched_accounts@.contains(k) <==> touched_accounts@.contains(k));
            }
            assert(touched_accounts@.to_set() =~= state.touched_accounts);
        }
        let mut processed_signatures: Vec<([u8; 64], u64)> = Vec::new();
        let ghost signatures = self.processed_signatures.listed();
        let mut i: usize = 0;
        while i < self.processed_signatures.len()
            invariant
                i <= signatures.len(),
                signatures == self.processed_signatures.listed(),
                self.well_formed(),
                state == self@,
                processed_signatures@.len() == i,
                forall|j: int|
                    0 <= j < i ==> {
                        &&& (#[trigger] processed_signatures@[j]).0 == signatures[j]
                        &&& processed_signatures@[j].1 == state.processed_signatures[signatures[j]]
                    },
            decreases signatures.len() - i,
        {
            let signature = self.processed_signatures.key_at(i);
            let slot: u64 = *self.processed_signatures.value_at(i);
            processed_signatures.push((signature, slot));
            i += 1;
        }
        proof {
            assert(processed_signatures@.map_values(|entry: ([u8; 64], u64)| entry.0)
                =~= signatures);
        }
        RecoveredUnsettledState {
            accounts,
            touched_accounts,
            payout_events: copy_events(&self.payout_events),
            processed_signatures,
        }
    }

    /// The layout in which the state is stored.
    pub fn image(&self) -> (image: StateImage)
        requires
            self.well_formed(),
        ensures
            is_image_of(image@, self@),
    {
        let ghost state = self@;
        proof {
            self.accounts.lemma_listed();
            self.touched_accounts.lemma_listed();
            self.processed_signatures.lemma_listed();
        }
        let mut accounts: Vec<AccountEntry> = Vec::new();
        let ghost keys = self.accounts.listed();
        let mut i: usize = 0;
        while i < self.accounts.len()
            invariant
                i <= keys.len(),
                keys == self.accounts.listed(),
                self.well_formed(),
                state == self@,
                accounts@.len() == i,
                forall|j: int|
                    0 <= j < i ==> {
                        &&& (#[trigger] accounts@[j]).key == keys[j]
                        &&& accounts@[j].account@ == state.accounts[keys[j]]
                    },
            decreases keys.len() - i,
        {
            let account = self.accounts.value_at(i).copy();
            accounts.push(AccountEntry { key: self.accounts.key_at(i), account });
            i += 1;
        }
        let mut touched_accounts: Vec<[u8; 32]> = Vec::new();
        let mut i: usize = 0;
        while i < self.touched_accounts.len()
            invariant
                i <= self.touched_accounts.listed().len(),
                touched_accounts@ == self.touched_accounts.listed().take(i as int),
            decreases self.touched_accounts.listed().len() - i,
        {
            touched_accounts.push(self.touched_accounts.key_at(i));
            i += 1;
            assert(touched_accounts@ =~= self.touched_accounts.listed().take(i as int));
        }
        let mut processed_signatures: Vec<PersistedSignature> = Vec::new();
        let ghost signatures = self.processed_signatures.listed();
        let mut i: usize = 0;
        while i < self.processed_signatures.len()
            invariant
                i <= signatures.len(),
                signatures == self.processed_signatures.listed(),
                self.well_formed(),
                state == self@,
                processed_signatures@.len() == i,
                forall|j: int|
                    0 <= j < i ==> {
                        &&& (#[trigger] processed_signatures@[j]).signature == signatures[j]
                        &&& processed_signatures@[j].slot == state.processed_signatures[
                            signatures[j]]
                    },
            decreases signatures.len() - i,
        {
            let signature = self.processed_signatures.key_at(i);
            let slot: u64 = *self.processed_signatures.value_at(i);
            processed_signatures.push(PersistedSignature { signature, slot });
            i += 1;
        }
        let image = StateImage {
            accounts,
            touched_accounts,
            payout_events: copy_events(&self.payout_events),
            processed_signatures,
        };
        proof {
            let image = image@;
            assert(image.accounts.map_values(|entry: AccountEntryModel| entry.key) =~= keys);
            assert forall|k: [u8; 32]| #[trigger]
                state.accounts.contains_key(k) <==> keys.contains(k) by {
                assert(self.accounts@.contains_key(k) <==> keys.contains(k));
            }
            assert forall|j: int| 0 <= j < image.accounts.len() implies (
            #[trigger] image.accounts[j]).account == state.accounts[image.accounts[j].key] by {
                assert(accounts@[j].key == keys[j]);
            }
            assert(touched_accounts@ =~= self.touched_accounts.listed());
            assert forall|k: [u8; 32]| touched_accounts@.to_set().contains(k)
                <==> state.touched_accounts.contains(k) by {
                assert(self.touched_accounts@.contains(k) <==> touched_accounts@.contains(k));
            }
            assert(touched_accounts@.to_set() =~= state.touched_accounts);
            assert(image.processed_signatures.map_values(
                |entry: PersistedSignature| entry.signature,
            ) =~= signatures);
        }
        image
    }

    /// The state that an image stands for.
    pub fn from_image(image: &StateImage) -> (state: PersistedState)
        ensures
            state.well_formed(),
            state@ == image_state(image@),
    {
        let ghost entries = image@.accounts;
        let mut accounts: KeyMap<PersistedAccount, 32> = KeyMap::new();
        let mut i: usize = 0;
        assert(account_models(accounts@) =~= image_accounts(entries.take(0)));
        while i < image.accounts.len()
            invariant
                i <= image.accounts@.len(),
                entries == image@.accounts,
                accounts.well_formed(),
                account_models(accounts@) == image_accounts(entries.take(i as int)),
            decreases image.accounts@.len() - i,
        {
            let ghost was = accounts@;
            let entry = &image.accounts[i];
            let account = entry.account.copy();
            let ghost stored = account@;
            assert(entries[i as int] == entry@);
            accounts.insert(entry.key, account);
            i += 1;
            proof {
                assert(entries.take(i as int).drop_last() =~= entries.take(i - 1));
                assert(account_models(accounts@) =~= account_models(was).insert(
                    entry.key,
                    stored,
                ));
            }
        }
        assert(entries.take(i as int) =~= entries);
        let mut touched_accounts: KeySet<32> = KeySet::new();
        let mut i: usize = 0;
        assert(image.touched_accounts@.take(0).to_set() =~= Set::<[u8; 32]>::empty());
        while i < image.touched_accounts.len()
            invariant
                i <= image.touched_accounts@.len(),
                touched_accounts.well_formed(),
                touched_accounts@ == image.touched_accounts@.take(i as int).to_set(),
            decreases image.touched_accounts@.len() - i,
        {
            let key = image.touched_accounts[i];
            let _ = touched_accounts.insert(key);
            i += 1;
            proof {
                let then = image.touched_accounts@.take(i - 1);
                let now = image.touched_accounts@.take(i as int);
                assert(now =~= then.push(key));
                assert forall|k: [u8; 32]| now.contains(k) <==> then.contains(k) || k == key by {
                    if then.contains(k) {
                        let x = choose|x: int| 0 <= x < then.len() && then[x] == k;
                        assert(now[x] == k);
                    }
                    if k == key {
                        assert(now[i - 1] == k);
                    }
                }
                assert(touched_accounts@ =~= now.to_set());
            }
        }
        assert(image.touched_accounts@.take(i as int) =~= image.touched_accounts@);
        let mut processed_signatures: KeyMap<u64, 64> = KeyMap::new();
        let mut i: usize = 0;
        assert(image.processed_signatures@.take(0) =~= Seq::<PersistedSignature>::empty());
        while i < image.processed_signatures.len()
            invariant
                i <= image.processed_signatures@.len(),
                processed_signatures.well_formed(),
                processed_signatures@ == signatures_set(
                    Map::empty(),
                    image.processed_signatures@.take(i as int),
                ),
            decreases image.processed_signatures@.len() - i,
        {
            let entry = image.processed_signatures[i];
            processed_signatures.insert(entry.signature, entry.slot);
            i += 1;
            assert(image.processed_signatures@.take(i as int).drop_last()
                =~= image.processed_signatures@.take(i - 1));
        }
        assert(image.processed_signatures@.take(i as int) =~= image.processed_signatures@);
        let state = PersistedState {
            accounts,
            touched_accounts,
            payout_events: copy_events(&image.payout_events),
            processed_signatures,
        };
        assert(state@ =~= image_state(image@));
        state
    }
}

} // verus!
