//! Settling what the captured transactions of a checkpoint have changed.

use vstd::prelude::*;

use crate::accounts::{copy_items, Account, AccountModel, Pubkey, ZEROS};
use crate::codec::{same_array, same_bytes};
use crate::keyed::{lemma_order_exists, ordered, KeyMap};
use crate::replay::{CaptureModel, CapturedAccount, CapturedModel, ReplayCapture};
use crate::settlement::chunks::{chunk_models, write_chunk, ChunkModel, SettlementChunk};
use crate::settlement::{plan_checksum, PlanModel, SettlementPlan};

verus! {

/// An account before and after the transaction that changed it.
#[derive(Debug, Clone, PartialEq, Eq)]
pub struct ChangedAccount {
    pub pre: Account,
    pub post: Account,
}

/// What a `ChangedAccount` holds.
#[verifier::ext_equal]
pub struct ChangeModel {
    pub pre: AccountModel,
    pub post: AccountModel,
}

impl View for ChangedAccount {
    type V = ChangeModel;

    open spec fn view(&self) -> ChangeModel {
        ChangeModel { pre: self.pre@, post: self.post@ }
    }
}

/// What the changed accounts hold.
pub open spec fn changes_held(changes: Map<Pubkey, ChangedAccount>) -> Map<Pubkey, ChangeModel> {
    changes.map_values(|change: ChangedAccount| change@)
}

/// The account keeps its lamports, its owner and the length of its data.
pub open spec fn keeps_shape(captured: CapturedModel) -> bool {
    &&& captured.pre_account.lamports == captured.post_account.lamports
    &&& captured.pre_account.owner == captured.post_account.owner
    &&& captured.pre_account.data.len() == captured.post_account.data.len()
}

/// The changes so far and one captured account more: nothing if the account is as
/// it was, or only its data is; `None` if it does not keep its shape, is a
/// program, or was changed before.
pub open spec fn with_captured(changes: Map<Pubkey, ChangeModel>, captured: CapturedModel) -> Option<
    Map<Pubkey, ChangeModel>,
> {
    if captured.pre_account == captured.post_account {
        Some(changes)
    } else if !keeps_shape(captured) {
        None
    } else if captured.pre_account.data == captured.post_account.data {
        Some(changes)
    } else if captured.pre_account.executable || changes.contains_key(captured.key) {
        None
    } else {
        Some(
            changes.insert(
                captured.key,
                ChangeModel { pre: captured.pre_account, post: captured.post_account },
            ),
        )
    }
}

/// The changes so far and the first `n` captured accounts of a transaction.
pub open spec fn with_capture(
    changes: Option<Map<Pubkey, ChangeModel>>,
    accounts: Seq<CapturedModel>,
    n: nat,
) -> Option<Map<Pubkey, ChangeModel>>
    decreases n,
{
    if n == 0 {
        changes
    } else {
        match with_capture(changes, accounts, (n - 1) as nat) {
            Some(before) => with_captured(before, accounts[n - 1]),
            None => None,
        }
    }
}

/// What the first `n` transactions have changed.
pub open spec fn changes_of(captures: Seq<CaptureModel>, n: nat) -> Option<
    Map<Pubkey, ChangeModel>,
>
    decreases n,
{
    if n == 0 {
        Some(Map::empty())
    } else {
        with_capture(
            changes_of(captures, (n - 1) as nat),
            captures[n - 1].accounts,
            captures[n - 1].accounts.len(),
        )
    }
}

/// What the captures hold.
pub open spec fn capture_models(captures: Seq<ReplayCapture>) -> Seq<CaptureModel> {
    captures.map_values(|capture: ReplayCapture| capture@)
}

/// What the transactions of a checkpoint have changed, if each changes one
/// account, no account is changed twice, and nothing but data changes.
pub open spec fn checkpoint_changes(captures: Seq<CaptureModel>) -> Option<
    Map<Pubkey, ChangeModel>,
> {
    match changes_of(captures, captures.len()) {
        None => None,
        Some(changes) => if ordered(changes.dom()).len() == captures.len() {
            Some(changes)
        } else {
            None
        },
    }
}

fn same_accounts(a: &Account, b: &Account) -> (same: bool)
    ensures
        same == (a@ == b@),
{
    let same = a.lamports == b.lamports && a.executable == b.executable && a.rent_epoch
        == b.rent_epoch && same_array(&a.owner, &b.owner) && same_bytes(&a.data, &b.data);
    proof {
        if same {
            assert(a@ =~= b@);
        }
    }
    same
}

fn add_captured(changes: &mut KeyMap<ChangedAccount, 32>, captured: &CapturedAccount) -> (ok: bool)
    requires
        old(changes).well_formed(),
    ensures
        final(changes).well_formed(),
        match with_captured(changes_held(old(changes)@), captured@) {
            Some(after) => ok && changes_held(final(changes)@) == after,
            None => !ok,
        },
{
    let pre = &captured.pre_account;
    let post = &captured.post_account;
    if same_accounts(pre, post) {
        return true;
    }
    if pre.lamports != post.lamports || !same_array(&pre.owner, &post.owner) || pre.data.len()
        != post.data.len() {
        return false;
    }
    if same_bytes(&pre.data, &post.data) {
        return true;
    }
    if pre.executable || changes.get(&captured.key).is_some() {
        return false;
    }
    let change = ChangedAccount { pre: pre.copy(), post: post.copy() };
    let ghost before = changes@;
    let ghost model = change@;
    changes.insert(captured.key, change);
    assert(changes_held(changes@) =~= changes_held(before).insert(captured.key, model));
    true
}

/// What the transactions of a checkpoint have changed, one capture for each.
/// `None` if a transaction changes anything but the data of one account, or if
/// two change the same.
pub fn changed_accounts(captures: &Vec<ReplayCapture>) -> (r: Option<KeyMap<ChangedAccount, 32>>)
    ensures
        match checkpoint_changes(capture_models(captures@)) {
            None => r is None,
            Some(changes) => r matches Some(found) && found.well_formed() && changes_held(found@)
                == changes,
        },
{
    let ghost models = capture_models(captures@);
    let mut changes: KeyMap<ChangedAccount, 32> = KeyMap::new();
    assert(changes_held(changes@) =~= Map::<Pubkey, ChangeModel>::empty());
    let mut i: usize = 0;
    while i < captures.len()
        invariant
            i <= captures@.len(),
            models == capture_models(captures@),
            changes.well_formed(),
            changes_of(models, i as nat) == Some(changes_held(changes@)),
        decreases captures@.len() - i,
    {
        let accounts = &captures[i].accounts;
        let ghost listed = models[i as int].accounts;
        let ghost start = changes_of(models, i as nat);
        let mut j: usize = 0;
        while j < accounts.len()
            invariant
                i < captures@.len(),
                j <= accounts@.len(),
                models == capture_models(captures@),
                listed == models[i as int].accounts,
                listed == accounts@.map_values(|account: CapturedAccount| account@),
                start == changes_of(models, i as nat),
                changes.well_formed(),
                with_capture(start, listed, j as nat) == Some(changes_held(changes@)),
            decreases accounts@.len() - j,
        {
            assert(listed[j as int] == accounts@[j as int]@);
            if !add_captured(&mut changes, &accounts[j]) {
                proof {
                    lemma_stays_none(start, listed, j as nat + 1, listed.len());
                    lemma_changes_stay_none(models, i as nat + 1, models.len());
                }
                return None;
            }
            j += 1;
        }
        i += 1;
    }
    proof {
        changes.lemma_listed();
        assert(changes@.dom() =~= changes_held(changes@).dom());
    }
    if changes.len() == captures.len() {
        Some(changes)
    } else {
        None
    }
}

proof fn lemma_stays_none(
    start: Option<Map<Pubkey, ChangeModel>>,
    accounts: Seq<CapturedModel>,
    j: nat,
    n: nat,
)
    requires
        j <= n,
        with_capture(start, accounts, j) is None,
    ensures
        with_capture(start, accounts, n) is None,
    decreases n - j,
{
    if j < n {
        lemma_stays_none(start, accounts, j + 1, n);
    }
}

proof fn lemma_none_gives_none(accounts: Seq<CapturedModel>, n: nat)
    ensures
        with_capture(None, accounts, n) is None,
    decreases n,
{
    if n > 0 {
        lemma_none_gives_none(accounts, (n - 1) as nat);
    }
}

proof fn lemma_changes_stay_none(captures: Seq<CaptureModel>, i: nat, n: nat)
    requires
        i <= n,
        changes_of(captures, i) is None,
    ensures
        changes_of(captures, n) is None,
    decreases n - i,
{
    if i < n {
        lemma_none_gives_none(captures[i as int].accounts, captures[i as int].accounts.len());
        lemma_changes_stay_none(captures, i + 1, n);
    }
}

/// The chunk that writes the data of a changed account.
pub open spec fn whole_chunk(account: Pubkey, change: ChangeModel) -> ChunkModel {
    ChunkModel { account, account_data_offset: 0, data: change.post.data }
}

/// The plan that settles changes: the whole data of each changed account, in the
/// order of their addresses.
pub open spec fn plan_of_changes(er_slot: u64, changes: Map<Pubkey, ChangeModel>) -> PlanModel {
    let keys = ordered(changes.dom());
    let plan = PlanModel {
        er_slot,
        checksum: ZEROS,
        chunks: Seq::new(keys.len(), |i: int| whole_chunk(keys[i], changes[keys[i]])),
        owner_changes: Seq::empty(),
        lamport_changes: Seq::empty(),
        receipt_balances: Seq::empty(),
        unsupported_changes: Seq::empty(),
    };
    PlanModel { checksum: plan_checksum(plan), ..plan }
}

/// The plan that settles what the transactions of a checkpoint have changed.
pub fn settlement_plan_of_changes(er_slot: u64, changes: &KeyMap<ChangedAccount, 32>) -> (plan:
    SettlementPlan)
    requires
        changes.well_formed(),
    ensures
        plan@ == plan_of_changes(er_slot, changes_held(changes@)),
{
    let ghost keys = changes.listed();
    let ghost held = changes_held(changes@);
    proof {
        changes.lemma_listed();
        assert(changes@.dom() =~= held.dom());
    }
    let mut chunks: Vec<SettlementChunk> = Vec::new();
    let mut i: usize = 0;
    assert(chunk_models(chunks@) =~= Seq::new(0, |j: int| whole_chunk(keys[j], held[keys[j]])));
    while i < changes.len()
        invariant
            changes.well_formed(),
            keys == changes.listed(),
            held == changes_held(changes@),
            i <= changes.listed().len(),
            chunk_models(chunks@) == Seq::new(
                i as nat,
                |j: int| whole_chunk(keys[j], held[keys[j]]),
            ),
        decreases changes.listed().len() - i,
    {
        let key = changes.key_at(i);
        let change = changes.value_at(i);
        let chunk = SettlementChunk {
            account: key,
            account_data_offset: 0,
            data: copy_items(&change.post.data),
        };
        let ghost before = chunks@;
        assert(chunk@ =~= whole_chunk(key, held[key]));
        chunks.push(chunk);
        i += 1;
        proof {
            assert(chunk_models(chunks@) =~= chunk_models(before).push(
                whole_chunk(key, held[key]),
            ));
            assert(chunk_models(chunks@) =~= Seq::new(
                i as nat,
                |j: int| whole_chunk(keys[j], held[keys[j]]),
            ));
        }
    }
    let mut plan = SettlementPlan {
        er_slot,
        checksum: ZEROS,
        chunks,
        owner_changes: Vec::new(),
        lamport_changes: Vec::new(),
        receipt_balances: Vec::new(),
        unsupported_changes: Vec::new(),
    };
    plan.checksum = plan.recomputed_checksum();
    assert(plan@ =~= plan_of_changes(er_slot, held));
    plan
}

proof fn lemma_capture_is_finite(
    start: Option<Map<Pubkey, ChangeModel>>,
    accounts: Seq<CapturedModel>,
    n: nat,
)
    requires
        start matches Some(changes) ==> changes.dom().finite(),
    ensures
        with_capture(start, accounts, n) matches Some(changes) ==> changes.dom().finite(),
    decreases n,
{
    if n > 0 {
        lemma_capture_is_finite(start, accounts, (n - 1) as nat);
    }
}

proof fn lemma_changes_are_finite(captures: Seq<CaptureModel>, n: nat)
    ensures
        changes_of(captures, n) matches Some(changes) ==> changes.dom().finite(),
    decreases n,
{
    if n > 0 {
        lemma_changes_are_finite(captures, (n - 1) as nat);
        lemma_capture_is_finite(
            changes_of(captures, (n - 1) as nat),
            captures[n - 1].accounts,
            captures[n - 1].accounts.len(),
        );
    }
}

proof fn lemma_changes_keep_shape(captures: Seq<CaptureModel>, n: nat, key: Pubkey)
    requires
        n <= captures.len(),
        changes_of(captures, n) matches Some(changes) && changes.contains_key(key),
    ensures
        (changes_of(captures, n)->0)[key].pre.data.len() == (changes_of(
            captures,
            n,
        )->0)[key].post.data.len(),
    decreases n,
{
    if n > 0 {
        let start = changes_of(captures, (n - 1) as nat);
        let accounts = captures[n - 1].accounts;
        if start is None {
            lemma_none_gives_none(accounts, accounts.len());
        }
        if (start->0).contains_key(key) {
            lemma_changes_keep_shape(captures, (n - 1) as nat, key);
        }
        lemma_capture_keeps_shape(start, accounts, accounts.len(), key);
    }
}

proof fn lemma_capture_keeps_shape(
    start: Option<Map<Pubkey, ChangeModel>>,
    accounts: Seq<CapturedModel>,
    n: nat,
    key: Pubkey,
)
    requires
        n <= accounts.len(),
        start is Some,
        (start->0).contains_key(key) ==> (start->0)[key].pre.data.len()
            == (start->0)[key].post.data.len(),
        with_capture(start, accounts, n) matches Some(changes) && changes.contains_key(key),
    ensures
        (with_capture(start, accounts, n)->0)[key].pre.data.len() == (with_capture(
            start,
            accounts,
            n,
        )->0)[key].post.data.len(),
    decreases n,
{
    if n > 0 {
        let before = with_capture(start, accounts, (n - 1) as nat);
        if (before->0).contains_key(key) {
            lemma_capture_keeps_shape(start, accounts, (n - 1) as nat, key);
        }
    }
}

/// Writing the plan's chunk for a changed account into its data before gives its
/// data after.
pub proof fn captured_changes_are_carried_over(
    captures: Seq<CaptureModel>,
    er_slot: u64,
    i: int,
)
    requires
        checkpoint_changes(captures) is Some,
        0 <= i < plan_of_changes(er_slot, checkpoint_changes(captures)->0).chunks.len(),
    ensures
        ({
            let changes = checkpoint_changes(captures)->0;
            let chunk = plan_of_changes(er_slot, changes).chunks[i];
            write_chunk(changes[chunk.account].pre.data, chunk)
                == changes[chunk.account].post.data
        }),
{
    let changes = checkpoint_changes(captures)->0;
    let chunk = plan_of_changes(er_slot, changes).chunks[i];
    let keys = ordered(changes.dom());
    lemma_changes_are_finite(captures, captures.len());
    lemma_order_exists(changes.dom());
    assert(keys.contains(keys[i]));
    assert(keys.to_set().contains(keys[i]));
    lemma_changes_keep_shape(captures, captures.len(), chunk.account);
    assert(write_chunk(changes[chunk.account].pre.data, chunk)
        =~= changes[chunk.account].post.data);
}

} // verus!
