//! How the rollup's state differs from layer one's.

use vstd::prelude::*;

use crate::accounts::{account_model, Account, AccountModel, Pubkey};
use crate::keyed::ordered;
use crate::ledger::SnapshotModel;
use crate::runtime::delegation::{
    delegated_owner, delegation_model, effective, effective_delegated_account, reset_model,
};
use crate::runtime::{EphemeralRuntime, RuntimeModel};
use crate::state_diff::{
    diff_models, is_identity, lt_hash_account, lt_hash_of, DiffModel, ErStateDiff,
    ErStateDiffAccount, LtHash,
};

verus! {

/// What layer one has at an address, as the rollup compares with it: a delegated
/// account of the portal program under the owner that its record names.
pub open spec fn l1_side(runtime: RuntimeModel, key: Pubkey) -> Option<AccountModel> {
    match runtime.anchor.account(key) {
        None => None,
        Some(account) => if runtime.delegated.contains(key) {
            match effective(
                runtime.anchor,
                runtime.portal_program_id,
                runtime.grid_id,
                key,
                account,
            ) {
                Some(normal) => Some(normal),
                None => Some(account),
            }
        } else {
            Some(account)
        },
    }
}

/// The hash of nothing.
pub open spec fn zero_hash() -> LtHash {
    choose|hash: LtHash| is_identity(hash)
}

/// The hash of what layer one has.
pub open spec fn l1_hash(account: Option<AccountModel>, key: Pubkey) -> LtHash {
    match account {
        Some(account) => lt_hash_of(account, key),
        None => zero_hash(),
    }
}

/// The comparison of one account of the rollup with layer one.
pub open spec fn comparison(runtime: RuntimeModel, key: Pubkey) -> DiffModel {
    DiffModel {
        pubkey: key,
        l1_account: l1_side(runtime, key),
        er_account: runtime.overlay[key],
        l1_lt_hash: l1_hash(l1_side(runtime, key), key),
        er_lt_hash: lt_hash_of(runtime.overlay[key], key),
    }
}

/// Whether the rollup's account has another hash than layer one's.
pub open spec fn differs(runtime: RuntimeModel, key: Pubkey) -> bool {
    comparison(runtime, key).l1_lt_hash != comparison(runtime, key).er_lt_hash
}

/// The comparisons of those of the first `n` keys whose hashes differ.
pub open spec fn differences(runtime: RuntimeModel, keys: Seq<Pubkey>, n: nat) -> Seq<DiffModel>
    decreases n,
{
    if n == 0 {
        Seq::empty()
    } else {
        let before = differences(runtime, keys, (n - 1) as nat);
        if differs(runtime, keys[n - 1]) {
            before.push(comparison(runtime, keys[n - 1]))
        } else {
            before
        }
    }
}

/// The accounts that the rollup has written and whose hashes differ, in the order
/// of their addresses.
pub open spec fn all_differences(runtime: RuntimeModel) -> Seq<DiffModel> {
    let keys = ordered(runtime.overlay.dom());
    differences(runtime, keys, keys.len())
}

/// Element `i` of the sum of the rollup's hashes less the sum of layer one's.
pub open spec fn accumulated(accounts: Seq<DiffModel>, i: int) -> int
    decreases accounts.len(),
{
    if accounts.len() == 0 {
        0
    } else {
        accumulated(accounts.drop_last(), i) + accounts.last().er_lt_hash.elements@[i]
            - accounts.last().l1_lt_hash.elements@[i]
    }
}

/// The hash is the accumulated difference.
pub open spec fn accumulates(hash: LtHash, accounts: Seq<DiffModel>) -> bool {
    forall|i: int|
        0 <= i < 1024 ==> (#[trigger] hash.elements@[i]) as int == accumulated(accounts, i) % 65536
}

proof fn lemma_zero_hash(hash: LtHash)
    requires
        is_identity(hash),
    ensures
        hash == zero_hash(),
{
    let other = zero_hash();
    assert(is_identity(other));
    assert(hash.elements =~= other.elements);
}

impl EphemeralRuntime {
    /// What layer one has at an address, as the rollup compares with it.
    pub fn l1_account_for_state_diff(&self, key: &Pubkey) -> (account: Option<Account>)
        requires
            self.well_formed(),
        ensures
            account_model(account) == l1_side(self@, *key),
    {
        match self.anchor.account(key) {
            None => None,
            Some(account) => {
                if self.delegated_accounts.contains(key) {
                    if let Some(normal) = effective_delegated_account(
                        &self.anchor,
                        &self.portal_program_id,
                        self.grid_id,
                        key,
                        account,
                    ) {
                        return Some(normal);
                    }
                }
                Some(account.copy())
            },
        }
    }

    fn compare(&self, key: &Pubkey, er_account: &Account) -> (r: ErStateDiffAccount)
        requires
            self.well_formed(),
            self@.overlay.contains_key(*key),
            self@.overlay[*key] == er_account@,
        ensures
            r@ == comparison(self@, *key),
    {
        let l1_account = self.l1_account_for_state_diff(key);
        let l1_lt_hash = match &l1_account {
            Some(account) => lt_hash_account(account, key),
            None => LtHash::identity(),
        };
        proof {
            if l1_account is None {
                lemma_zero_hash(l1_lt_hash);
            }
        }
        let er_lt_hash = lt_hash_account(er_account, key);
        let r = ErStateDiffAccount {
            pubkey: *key,
            l1_account,
            er_account: er_account.copy(),
            l1_lt_hash,
            er_lt_hash,
        };
        assert(r@ =~= comparison(self@, *key));
        r
    }

    /// The accounts that the rollup has written and whose hash is not that of
    /// layer one, in the order of their addresses, and the sum of the rollup's
    /// hashes less that of layer one's.
    pub fn state_diff_from_l1(&self) -> (diff: ErStateDiff)
        requires
            self.well_formed(),
        ensures
            diff_models(diff.accounts@) == all_differences(self@),
            accumulates(diff.lt_hash, diff_models(diff.accounts@)),
    {
        let ghost keys = self.er_account_overlay.listed();
        proof {
            self.er_account_overlay.lemma_listed();
            assert(self.er_account_overlay@.dom() =~= self@.overlay.dom());
        }
        let mut accounts: Vec<ErStateDiffAccount> = Vec::new();
        let mut lt_hash = LtHash::identity();
        assert(diff_models(accounts@) =~= Seq::<DiffModel>::empty());
        let mut i: usize = 0;
        while i < self.er_account_overlay.len()
            invariant
                self.well_formed(),
                keys == self.er_account_overlay.listed(),
                i <= self.er_account_overlay.listed().len(),
                diff_models(accounts@) == differences(self@, keys, i as nat),
                accumulates(lt_hash, diff_models(accounts@)),
            decreases self.er_account_overlay.listed().len() - i,
        {
            let key = self.er_account_overlay.key_at(i);
            let er_account = self.er_account_overlay.value_at(i);
            let compared = self.compare(&key, er_account);
            if !compared.l1_lt_hash.same(&compared.er_lt_hash) {
                let mut delta = LtHash::identity();
                let ghost zero = delta;
                delta.mix_out(&compared.l1_lt_hash);
                let ghost out = delta;
                delta.mix_in(&compared.er_lt_hash);
                let ghost before = lt_hash;
                lt_hash.mix_in(&delta);
                let ghost models = diff_models(accounts@);
                let ghost last = compared@;
                accounts.push(compared);
                proof {
                    assert(diff_models(accounts@) =~= models.push(last));
                    assert(models.push(last).drop_last() =~= models);
                    assert forall|k: int| 0 <= k < 1024 implies (
                    #[trigger] lt_hash.elements@[k]) as int == accumulated(models.push(last), k)
                        % 65536 by {
                        assert(before.elements@[k] as int == accumulated(models, k) % 65536);
                        assert(out.elements@[k] as int == (zero.elements@[k]
                            - last.l1_lt_hash.elements@[k]) % 65536);
                        assert(delta.elements@[k] as int == (out.elements@[k]
                            + last.er_lt_hash.elements@[k]) % 65536);
                    }
                }
            }
            i += 1;
        }
        ErStateDiff { accounts, lt_hash }
    }
}

/// An account that was just delegated, and that nothing on the rollup has
/// written since, is no difference.
pub proof fn fresh_delegations_are_no_difference(
    before: RuntimeModel,
    key: Pubkey,
    account: AccountModel,
    owner_program: Pubkey,
)
    requires
        before.anchor.account(key) == Some(account),
        account.owner == before.portal_program_id,
        delegated_owner(before.anchor, before.portal_program_id, before.grid_id, key) == Some(
            owner_program,
        ),
    ensures
        !differs(delegation_model(before, key, account, Some(owner_program)), key),
{
}

proof fn lemma_differences(runtime: RuntimeModel, keys: Seq<Pubkey>, n: nat, key: Pubkey) -> (at: int)
    requires
        n <= keys.len(),
        exists|i: int| 0 <= i < n && keys[i] == key,
        differs(runtime, key),
    ensures
        0 <= at < differences(runtime, keys, n).len(),
        differences(runtime, keys, n)[at] == comparison(runtime, key),
    decreases n,
{
    let before = differences(runtime, keys, (n - 1) as nat);
    if keys[n - 1] == key {
        before.len() as int
    } else {
        let i = choose|i: int| 0 <= i < n && keys[i] == key;
        assert(keys[i] == key && i < n - 1);
        lemma_differences(runtime, keys, (n - 1) as nat, key)
    }
}

/// Every account that the rollup has written and whose hash is not that of layer
/// one is listed as a difference.
pub proof fn no_difference_is_left_out(runtime: &EphemeralRuntime, key: Pubkey)
    requires
        runtime.well_formed(),
        runtime@.overlay.contains_key(key),
        differs(runtime@, key),
    ensures
        all_differences(runtime@).contains(comparison(runtime@, key)),
{
    let keys = runtime.er_account_overlay.listed();
    runtime.er_account_overlay.lemma_listed();
    assert(runtime.er_account_overlay@.dom() =~= runtime@.overlay.dom());
    assert(runtime.er_account_overlay@.contains_key(key));
    let at = lemma_differences(runtime@, keys, keys.len(), key);
    assert(all_differences(runtime@)[at] == comparison(runtime@, key));
}

proof fn lemma_no_differences(runtime: RuntimeModel, keys: Seq<Pubkey>, n: nat)
    requires
        n <= keys.len(),
        forall|i: int| 0 <= i < n ==> !differs(runtime, #[trigger] keys[i]),
    ensures
        differences(runtime, keys, n) == Seq::<DiffModel>::empty(),
    decreases n,
{
    if n > 0 {
        lemma_no_differences(runtime, keys, (n - 1) as nat);
    }
}

/// Right after a reset the rollup does not differ from layer one, whether a
/// session is active or not.
pub proof fn resets_leave_no_difference(
    runtime: &EphemeralRuntime,
    before: RuntimeModel,
    anchor_slot: u64,
    l1: SnapshotModel,
)
    requires
        runtime.well_formed(),
        runtime@ == (RuntimeModel {
            active: runtime@.active,
            advancing: runtime@.advancing,
            session: runtime@.session,
            ..reset_model(before, anchor_slot, l1)
        }),
    ensures
        all_differences(runtime@) == Seq::<DiffModel>::empty(),
{
    let keys = runtime.er_account_overlay.listed();
    runtime.er_account_overlay.lemma_listed();
    assert(runtime.er_account_overlay@.dom() =~= runtime@.overlay.dom());
    assert forall|i: int| 0 <= i < keys.len() implies !differs(runtime@, #[trigger] keys[i]) by {
        assert(keys.contains(keys[i]));
        assert(runtime.er_account_overlay@.contains_key(keys[i]));
        assert(runtime@.overlay.contains_key(keys[i]));
    }
    lemma_no_differences(runtime@, keys, keys.len());
}

} // verus!
