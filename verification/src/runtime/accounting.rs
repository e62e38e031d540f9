//! What deposits, differences and receipts come to, told by the accounts alone.

use vstd::prelude::*;

use crate::accounts::{AccountModel, Pubkey};
use crate::addresses::{program_address, DELEGATION_SEED, DEPOSIT_RECEIPT_SEED};
use crate::keyed::{increasing, lemma_order_exists, ordered};
use crate::order::lex_less;
use crate::portal_state::{DepositReceipt, PortalAccount};
use crate::runtime::deposits::{deposit_model, deposit_update, WithdrawalSink};
use crate::runtime::diff::{
    accumulated, all_differences, comparison, differences, differs, l1_side, zero_hash,
};
use crate::runtime::receipts::{
    all_receipt_settlements, receipt_settlement, receipt_settlements, withdrawn,
};
use crate::runtime::RuntimeModel;
use crate::settlement::ReceiptBalanceSettlement;
use crate::state_diff::{account_lt_hash, is_identity, DiffModel, LtHash};
use crate::well_known::SYSTEM_PROGRAM_ID;

verus! {

/// A new plain account with just the lamports that exempt it from rent.
pub open spec fn is_new_sink(account: AccountModel) -> bool {
    &&& account.lamports == 128 * 6960
    &&& account.data.len() == 0
    &&& account.owner == SYSTEM_PROGRAM_ID
    &&& !account.executable
    &&& account.rent_epoch == 0
}

/// A deposit adds its lamports to what the depositor has on the rollup: to the balance
/// of the account if that is delegated or the rollup's own, and to nothing otherwise.
/// Nothing else about the account changes. In a session, a sink that the bank lacks is
/// made. Both accounts are stored, count as written and as the rollup's own, and
/// nothing else about the rollup changes but its slot.
pub proof fn deposits_credit_what_was_deposited(
    before: RuntimeModel,
    depositor: Pubkey,
    account: AccountModel,
    lamports: u64,
    sink: WithdrawalSink,
    other: Pubkey,
)
    requires
        sink.address != depositor,
    ensures
        ({
            let after = deposit_model(before, depositor, account, lamports, sink);
            let update = deposit_update(before, depositor, account, lamports, sink);
            let had = if before.delegated.contains(depositor) || before.touched.contains(
                depositor,
            ) {
                account.lamports as int
            } else {
                0
            };
            let makes_sink = before.session is Some && !sink.exists;
            let credited = after.overlay[depositor];
            &&& after.overlay.contains_key(depositor)
            &&& had + lamports <= u64::MAX ==> credited.lamports == had + lamports
            &&& had + lamports > u64::MAX ==> credited.lamports == u64::MAX
            &&& credited.data == account.data
            &&& credited.owner == account.owner
            &&& credited.executable == account.executable
            &&& credited.rent_epoch == account.rent_epoch
            &&& update.reload_programs.len() == 0
            &&& update.writes.len() == if makes_sink {
                2nat
            } else {
                1
            }
            &&& update.writes[0] == (depositor, credited)
            &&& makes_sink ==> {
                &&& update.writes[1] == (sink.address, after.overlay[sink.address])
                &&& after.overlay.contains_key(sink.address)
                &&& is_new_sink(after.overlay[sink.address])
            }
            &&& !makes_sink ==> {
                &&& after.overlay.contains_key(sink.address) <==> before.overlay.contains_key(
                    sink.address,
                )
                &&& before.overlay.contains_key(sink.address) ==> after.overlay[sink.address]
                    == before.overlay[sink.address]
            }
            &&& other != depositor && other != sink.address ==> {
                &&& after.overlay.contains_key(other) <==> before.overlay.contains_key(other)
                &&& before.overlay.contains_key(other) ==> after.overlay[other]
                    == before.overlay[other]
            }
            &&& after.touched.contains(other) <==> before.touched.contains(other) || other
                == depositor || (before.session is Some && other == sink.address)
            &&& after.delegated == before.delegated
            &&& after.snapshots == before.snapshots
            &&& after.session == before.session
            &&& after.active == before.active
            &&& after.anchor == before.anchor
            &&& after.anchor_slot == before.anchor_slot
            &&& before.working_slot < u64::MAX ==> after.working_slot == before.working_slot + 1
        }),
{
}

/// The record that layer one has for a delegated account names this grid and this
/// owner.
pub open spec fn is_recorded(
    runtime: RuntimeModel,
    key: Pubkey,
    owner: Pubkey,
) -> bool {
    let found = program_address(seq![DELEGATION_SEED@, key@], runtime.portal_program_id);
    &&& found is Some
    &&& runtime.anchor.accounts.contains_key((found->0).0)
    &&& runtime.anchor.portal.contains_key((found->0).0)
    &&& runtime.anchor.portal[(found->0).0] matches PortalAccount::DelegationRecord(record)
    &&& record.grid_id == runtime.grid_id
    &&& record.owner_program == owner
}

/// What layer one has at an address is compared as it is, except for a delegated
/// account of the portal program that has a record for the grid: that one is compared
/// under the owner that the record names.
pub proof fn layer_one_is_compared_under_recorded_owners(
    runtime: RuntimeModel,
    key: Pubkey,
    owner: Pubkey,
)
    ensures
        !runtime.anchor.accounts.contains_key(key) <==> l1_side(runtime, key) is None,
        runtime.anchor.accounts.contains_key(key) ==> {
            let there = runtime.anchor.accounts[key];
            let seen = l1_side(runtime, key)->0;
            &&& seen.lamports == there.lamports
            &&& seen.data == there.data
            &&& seen.executable == there.executable
            &&& seen.rent_epoch == there.rent_epoch
            &&& runtime.delegated.contains(key) && there.owner == runtime.portal_program_id
                && is_recorded(runtime, key, owner) ==> seen.owner == owner
            &&& !runtime.delegated.contains(key) || there.owner != runtime.portal_program_id || (
            forall|o: Pubkey| !is_recorded(runtime, key, o)) ==> seen.owner == there.owner
        },
{
    let found = program_address(seq![DELEGATION_SEED@, key@], runtime.portal_program_id);
    if found is Some && runtime.anchor.portal.contains_key((found->0).0) {
        if let PortalAccount::DelegationRecord(record) = runtime.anchor.portal[(found->0).0] {
            if forall|o: Pubkey| !is_recorded(runtime, key, o) {
                assert(!is_recorded(runtime, key, record.owner_program));
            }
        }
    }
}

/// The hash of an account at an address.
pub open spec fn is_hash_of(hash: LtHash, account: AccountModel, key: Pubkey) -> bool {
    hash.elements == account_lt_hash(
        account.lamports,
        account.data,
        account.owner,
        account.executable,
        key,
    )
}

proof fn lemma_listed_differences(runtime: RuntimeModel, keys: Seq<Pubkey>, n: nat)
    requires
        n <= keys.len(),
        increasing(keys),
    ensures
        forall|a: int|
            0 <= a < differences(runtime, keys, n).len() ==> {
                let diff = #[trigger] differences(runtime, keys, n)[a];
                &&& exists|i: int| 0 <= i < n && keys[i] == diff.pubkey
                &&& diff == comparison(runtime, diff.pubkey)
                &&& diff.l1_lt_hash != diff.er_lt_hash
            },
        forall|a: int, b: int|
            0 <= a < b < differences(runtime, keys, n).len() ==> lex_less(
                (#[trigger] differences(runtime, keys, n)[a]).pubkey,
                (#[trigger] differences(runtime, keys, n)[b]).pubkey,
            ),
    decreases n,
{
    if n > 0 {
        lemma_listed_differences(runtime, keys, (n - 1) as nat);
        let before = differences(runtime, keys, (n - 1) as nat);
        let all = differences(runtime, keys, n);
        assert forall|a: int| 0 <= a < all.len() implies {
            let diff = #[trigger] all[a];
            &&& exists|i: int| 0 <= i < n && keys[i] == diff.pubkey
            &&& diff == comparison(runtime, diff.pubkey)
            &&& diff.l1_lt_hash != diff.er_lt_hash
        } by {
            if a < before.len() {
                assert(all[a] == before[a]);
                let i = choose|i: int| 0 <= i < n - 1 && keys[i] == before[a].pubkey;
                assert(0 <= i < n && keys[i] == all[a].pubkey);
            } else {
                assert(keys[n - 1] == all[a].pubkey);
            }
        }
        assert forall|a: int, b: int| 0 <= a < b < all.len() implies lex_less(
            (#[trigger] all[a]).pubkey,
            (#[trigger] all[b]).pubkey,
        ) by {
            assert(all[a] == before[a]);
            if b < before.len() {
                assert(all[b] == before[b]);
            } else {
                let i = choose|i: int| 0 <= i < n - 1 && keys[i] == before[a].pubkey;
                assert(lex_less(keys[i], keys[n - 1]));
            }
        }
    }
}

proof fn lemma_difference_listed(
    runtime: RuntimeModel,
    keys: Seq<Pubkey>,
    n: nat,
    i: int,
) -> (at: int)
    requires
        0 <= i < n <= keys.len(),
        differs(runtime, keys[i]),
    ensures
        0 <= at < differences(runtime, keys, n).len(),
        differences(runtime, keys, n)[at].pubkey == keys[i],
    decreases n,
{
    let before = differences(runtime, keys, (n - 1) as nat);
    if i == n - 1 {
        before.len() as int
    } else {
        lemma_difference_listed(runtime, keys, (n - 1) as nat, i)
    }
}

/// The rollup's differences are, in the order of their addresses and each once, exactly
/// the accounts that it has written and whose hash is not that of what layer one has;
/// nothing on layer one has the hash zero. Each is listed with what the two layers
/// have.
pub proof fn differences_are_listed_once(runtime: RuntimeModel, key: Pubkey, zero: LtHash)
    requires
        runtime.overlay.dom().finite(),
        is_identity(zero),
    ensures
        ({
            let all = all_differences(runtime);
            &&& forall|a: int, b: int|
                0 <= a < b < all.len() ==> lex_less(
                    (#[trigger] all[a]).pubkey,
                    (#[trigger] all[b]).pubkey,
                )
            &&& forall|a: int|
                0 <= a < all.len() ==> {
                    let diff = #[trigger] all[a];
                    &&& runtime.overlay.contains_key(diff.pubkey)
                    &&& diff.er_account == runtime.overlay[diff.pubkey]
                    &&& diff.l1_account == l1_side(runtime, diff.pubkey)
                    &&& is_hash_of(diff.er_lt_hash, diff.er_account, diff.pubkey)
                    &&& diff.l1_account matches Some(account) ==> is_hash_of(
                        diff.l1_lt_hash,
                        account,
                        diff.pubkey,
                    )
                    &&& diff.l1_account is None ==> is_identity(diff.l1_lt_hash)
                    &&& diff.l1_lt_hash != diff.er_lt_hash
                }
            &&& runtime.overlay.contains_key(key) && (forall|a: int|
                0 <= a < all.len() ==> (#[trigger] all[a]).pubkey != key) ==> {
                let er = runtime.overlay[key];
                let hash = account_lt_hash(er.lamports, er.data, er.owner, er.executable, key);
                match l1_side(runtime, key) {
                    Some(account) => hash == account_lt_hash(
                        account.lamports,
                        account.data,
                        account.owner,
                        account.executable,
                        key,
                    ),
                    None => is_identity((LtHash { elements: hash })),
                }
            }
        }),
{
    let keys = ordered(runtime.overlay.dom());
    let all = all_differences(runtime);
    lemma_order_exists(runtime.overlay.dom());
    lemma_listed_differences(runtime, keys, keys.len());
    assert(is_identity(zero_hash()));
    assert forall|a: int| 0 <= a < all.len() implies {
        let diff = #[trigger] all[a];
        &&& runtime.overlay.contains_key(diff.pubkey)
        &&& diff.er_account == runtime.overlay[diff.pubkey]
        &&& diff.l1_account == l1_side(runtime, diff.pubkey)
        &&& is_hash_of(diff.er_lt_hash, diff.er_account, diff.pubkey)
        &&& diff.l1_account matches Some(account) ==> is_hash_of(
            diff.l1_lt_hash,
            account,
            diff.pubkey,
        )
        &&& diff.l1_account is None ==> is_identity(diff.l1_lt_hash)
        &&& diff.l1_lt_hash != diff.er_lt_hash
    } by {
        let diff = all[a];
        let i = choose|i: int| 0 <= i < keys.len() && keys[i] == diff.pubkey;
        assert(keys.to_set().contains(keys[i]));
        assert(runtime.overlay.dom().contains(diff.pubkey));
    }
    if runtime.overlay.contains_key(key) && (forall|a: int|
        0 <= a < all.len() ==> (#[trigger] all[a]).pubkey != key) {
        assert(keys.to_set().contains(key));
        let i = choose|i: int| 0 <= i < keys.len() && keys[i] == key;
        if differs(runtime, key) {
            let at = lemma_difference_listed(runtime, keys, keys.len(), i);
            assert(all[at].pubkey == key);
        }
    }
}

/// The receipt that layer one has for a recipient in a session.
pub open spec fn is_receipt_on_l1(
    runtime: RuntimeModel,
    session: Pubkey,
    recipient: Pubkey,
    receipt: DepositReceipt,
) -> bool {
    let found = program_address(
        seq![DEPOSIT_RECEIPT_SEED@, session@, recipient@],
        runtime.portal_program_id,
    );
    &&& found is Some
    &&& runtime.anchor.accounts.contains_key((found->0).0)
    &&& runtime.anchor.portal.contains_key((found->0).0)
    &&& runtime.anchor.portal[(found->0).0] == PortalAccount::DepositReceipt(receipt)
}

/// What a recipient has withdrawn is what is in their sink on the rollup beyond what
/// layer one has there, or beyond the rent exemption if layer one has no sink. Where the
/// rollup has not written the sink, it is what the receipt says.
pub proof fn withdrawals_are_what_the_sink_has_gained(
    runtime: RuntimeModel,
    sinks: Map<Pubkey, Pubkey>,
    recipient: Pubkey,
    receipt: DepositReceipt,
)
    ensures
        ({
            let total = withdrawn(runtime, sinks, recipient, receipt);
            let sink = sinks[recipient];
            &&& !sinks.contains_key(recipient) || !runtime.overlay.contains_key(sink) ==> total
                == receipt.withdrawn
            &&& sinks.contains_key(recipient) && runtime.overlay.contains_key(sink) ==> {
                let base = if runtime.anchor.accounts.contains_key(sink) {
                    runtime.anchor.accounts[sink].lamports as int
                } else {
                    128 * 6960int
                };
                let there = runtime.overlay[sink].lamports as int;
                &&& there >= base ==> total == there - base
                &&& there < base ==> total == 0
            }
        }),
{
}

/// A receipt has to be settled: it is that of a plain account that is not delegated,
/// and its balance or what was withdrawn is not what the rollup has.
pub open spec fn must_be_settled(
    runtime: RuntimeModel,
    sinks: Map<Pubkey, Pubkey>,
    recipient: Pubkey,
    receipt: DepositReceipt,
) -> bool {
    &&& runtime.overlay.contains_key(recipient)
    &&& !runtime.delegated.contains(recipient)
    &&& runtime.overlay[recipient].owner == SYSTEM_PROGRAM_ID
    &&& runtime.overlay[recipient].data.len() == 0
    &&& receipt.balance != runtime.overlay[recipient].lamports || receipt.withdrawn != withdrawn(
        runtime,
        sinks,
        recipient,
        receipt,
    )
}

/// The settlement is that of a receipt that has to be settled, to what the rollup has.
pub open spec fn settles_a_receipt(
    runtime: RuntimeModel,
    session: Pubkey,
    sinks: Map<Pubkey, Pubkey>,
    settled: ReceiptBalanceSettlement,
) -> bool {
    exists|receipt: DepositReceipt|
        {
            &&& #[trigger] is_receipt_on_l1(runtime, session, settled.recipient, receipt)
            &&& must_be_settled(runtime, sinks, settled.recipient, receipt)
            &&& settled.balance == runtime.overlay[settled.recipient].lamports
            &&& settled.withdrawn == withdrawn(runtime, sinks, settled.recipient, receipt)
        }
}

proof fn lemma_receipt_listed(
    runtime: RuntimeModel,
    session: Pubkey,
    sinks: Map<Pubkey, Pubkey>,
    recipients: Seq<Pubkey>,
    n: nat,
    i: int,
) -> (at: int)
    requires
        0 <= i < n <= recipients.len(),
        receipt_settlement(runtime, session, sinks, recipients[i]) is Some,
    ensures
        0 <= at < receipt_settlements(runtime, session, sinks, recipients, n).len(),
        receipt_settlements(runtime, session, sinks, recipients, n)[at] == receipt_settlement(
            runtime,
            session,
            sinks,
            recipients[i],
        )->0,
    decreases n,
{
    let before = receipt_settlements(runtime, session, sinks, recipients, (n - 1) as nat);
    if i == n - 1 {
        before.len() as int
    } else {
        lemma_receipt_listed(runtime, session, sinks, recipients, (n - 1) as nat, i)
    }
}

proof fn lemma_receipt_sources(
    runtime: RuntimeModel,
    session: Pubkey,
    sinks: Map<Pubkey, Pubkey>,
    recipients: Seq<Pubkey>,
    n: nat,
)
    requires
        n <= recipients.len(),
        increasing(recipients),
    ensures
        forall|a: int|
            0 <= a < receipt_settlements(runtime, session, sinks, recipients, n).len() ==> {
                let settled = #[trigger] receipt_settlements(
                    runtime,
                    session,
                    sinks,
                    recipients,
                    n,
                )[a];
                &&& exists|i: int| 0 <= i < n && recipients[i] == settled.recipient
                &&& receipt_settlement(runtime, session, sinks, settled.recipient) == Some(settled)
            },
        forall|a: int, b: int|
            0 <= a < b < receipt_settlements(runtime, session, sinks, recipients, n).len()
                ==> lex_less(
                (#[trigger] receipt_settlements(runtime, session, sinks, recipients, n)[a]).recipient,
                (#[trigger] receipt_settlements(runtime, session, sinks, recipients, n)[b]).recipient,
            ),
    decreases n,
{
    if n > 0 {
        lemma_receipt_sources(runtime, session, sinks, recipients, (n - 1) as nat);
        let before = receipt_settlements(runtime, session, sinks, recipients, (n - 1) as nat);
        let all = receipt_settlements(runtime, session, sinks, recipients, n);
        assert forall|a: int| 0 <= a < all.len() implies {
            let settled = #[trigger] all[a];
            &&& exists|i: int| 0 <= i < n && recipients[i] == settled.recipient
            &&& receipt_settlement(runtime, session, sinks, settled.recipient) == Some(settled)
        } by {
            if a < before.len() {
                assert(all[a] == before[a]);
                let i = choose|i: int| 0 <= i < n - 1 && recipients[i] == before[a].recipient;
                assert(0 <= i < n && recipients[i] == all[a].recipient);
            } else {
                assert(recipients[n - 1] == all[a].recipient);
            }
        }
        assert forall|a: int, b: int| 0 <= a < b < all.len() implies lex_less(
            (#[trigger] all[a]).recipient,
            (#[trigger] all[b]).recipient,
        ) by {
            assert(all[a] == before[a]);
            if b < before.len() {
                assert(all[b] == before[b]);
            } else {
                let i = choose|i: int| 0 <= i < n - 1 && recipients[i] == before[a].recipient;
                assert(lex_less(recipients[i], recipients[n - 1]));
            }
        }
    }
}

/// Exactly the receipts that have to be settled are settled, each once and in the order
/// of the recipients: to the recipient's balance on the rollup, and to what the
/// recipient has withdrawn.
pub proof fn receipts_are_settled_to_the_rollup(
    runtime: RuntimeModel,
    session: Pubkey,
    sinks: Map<Pubkey, Pubkey>,
    recipient: Pubkey,
    receipt: DepositReceipt,
)
    requires
        runtime.overlay.dom().finite(),
    ensures
        ({
            let all = all_receipt_settlements(runtime, session, sinks);
            &&& forall|a: int, b: int|
                0 <= a < b < all.len() ==> lex_less(
                    (#[trigger] all[a]).recipient,
                    (#[trigger] all[b]).recipient,
                )
            &&& is_receipt_on_l1(runtime, session, recipient, receipt) && must_be_settled(
                runtime,
                sinks,
                recipient,
                receipt,
            ) ==> all.contains(
                ReceiptBalanceSettlement {
                    recipient,
                    balance: runtime.overlay[recipient].lamports,
                    withdrawn: withdrawn(runtime, sinks, recipient, receipt),
                },
            )
            &&& forall|a: int|
                0 <= a < all.len() ==> settles_a_receipt(
                    runtime,
                    session,
                    sinks,
                    #[trigger] all[a],
                )
        }),
{
    let recipients = ordered(runtime.overlay.dom());
    let all = all_receipt_settlements(runtime, session, sinks);
    lemma_order_exists(runtime.overlay.dom());
    lemma_receipt_sources(runtime, session, sinks, recipients, recipients.len());
    if is_receipt_on_l1(runtime, session, recipient, receipt) && must_be_settled(
        runtime,
        sinks,
        recipient,
        receipt,
    ) {
        assert(recipients.to_set().contains(recipient));
        let i = choose|i: int| 0 <= i < recipients.len() && recipients[i] == recipient;
        let at = lemma_receipt_listed(
            runtime,
            session,
            sinks,
            recipients,
            recipients.len(),
            i,
        );
        assert(all[at] == (ReceiptBalanceSettlement {
            recipient,
            balance: runtime.overlay[recipient].lamports,
            withdrawn: withdrawn(runtime, sinks, recipient, receipt),
        }));
    }
    assert forall|a: int| 0 <= a < all.len() implies settles_a_receipt(
        runtime,
        session,
        sinks,
        #[trigger] all[a],
    ) by {
        let settled = all[a];
        let i = choose|i: int| 0 <= i < recipients.len() && recipients[i] == settled.recipient;
        assert(recipients.to_set().contains(recipients[i]));
        assert(runtime.overlay.dom().contains(settled.recipient));
        let found = crate::runtime::receipts::receipt_of(
            runtime,
            session,
            settled.recipient,
        )->0;
        assert(is_receipt_on_l1(runtime, session, settled.recipient, found));
    }
}

proof fn lemma_joined(a: Seq<DiffModel>, b: Seq<DiffModel>, i: int)
    ensures
        accumulated(a + b, i) == accumulated(a, i) + accumulated(b, i),
    decreases b.len(),
{
    if b.len() > 0 {
        lemma_joined(a, b.drop_last(), i);
        assert((a + b).drop_last() =~= a + b.drop_last());
    } else {
        assert(a + b =~= a);
    }
}

/// The accumulated difference adds up over the accounts: one account contributes what its
/// hash on the rollup is beyond that on layer one, and lists contribute together what each
/// of them contributes.
pub proof fn differences_add_up(a: Seq<DiffModel>, b: Seq<DiffModel>, diff: DiffModel, i: int)
    requires
        0 <= i < 1024,
    ensures
        accumulated(a + b, i) == accumulated(a, i) + accumulated(b, i),
        accumulated(seq![diff], i) == diff.er_lt_hash.elements@[i] - diff.l1_lt_hash.elements@[i],
        accumulated(Seq::empty(), i) == 0,
{
    lemma_joined(a, b, i);
    assert(seq![diff].drop_last() =~= Seq::empty());
    assert(accumulated(Seq::empty(), i) == 0);
}

} // verus!
