//! What every operation keeps.

use vstd::prelude::*;

use crate::accounts::{AccountModel, Pubkey};
use crate::ledger::SnapshotModel;
use crate::runtime::delegation::{delegation_model, new_model, reset_model};
use crate::runtime::deposits::{deposit_model, WithdrawalSink};
use crate::runtime::refresh::anchored_model;
use crate::runtime::{EphemeralRollupSettings, RuntimeModel};
use crate::tx_client::captured;

verus! {

/// Every delegated account is among those that the rollup has written, so that a
/// new anchor never loses one.
pub open spec fn delegations_are_written(runtime: RuntimeModel) -> bool {
    forall|key: Pubkey| #[trigger]
        runtime.delegated.contains(key) ==> runtime.overlay.contains_key(key)
}

/// A new rollup has written every delegated account.
pub proof fn new_rollups_have_written_delegations(
    anchor_slot: u64,
    l1: SnapshotModel,
    settings: EphemeralRollupSettings,
    portal: Pubkey,
)
    ensures
        delegations_are_written(new_model(anchor_slot, l1, settings, portal)),
{
}

/// A reset leaves every delegated account written.
pub proof fn resets_keep_delegations_written(
    before: RuntimeModel,
    anchor_slot: u64,
    l1: SnapshotModel,
)
    ensures
        delegations_are_written(reset_model(before, anchor_slot, l1)),
{
}

/// A new delegation, a deposit, a new anchor and a batch of transactions keep
/// every delegated account written.
pub proof fn operations_keep_delegations_written(
    before: RuntimeModel,
    key: Pubkey,
    account: AccountModel,
    owner_program: Option<Pubkey>,
    lamports: u64,
    sink: WithdrawalSink,
    anchor_slot: u64,
    l1: SnapshotModel,
    bank: Map<Pubkey, AccountModel>,
    written: Set<Pubkey>,
)
    requires
        delegations_are_written(before),
    ensures
        delegations_are_written(delegation_model(before, key, account, owner_program)),
        delegations_are_written(deposit_model(before, key, account, lamports, sink)),
        delegations_are_written(anchored_model(before, anchor_slot, l1)),
        delegations_are_written(
            (RuntimeModel { overlay: captured(before.overlay, bank, written), ..before }),
        ),
{
}

/// Nothing that is touched stops being so, except by a reset.
pub proof fn touched_accounts_stay_touched(
    before: RuntimeModel,
    key: Pubkey,
    account: AccountModel,
    owner_program: Option<Pubkey>,
    lamports: u64,
    sink: WithdrawalSink,
    anchor_slot: u64,
    l1: SnapshotModel,
)
    ensures
        before.touched.subset_of(delegation_model(before, key, account, owner_program).touched),
        before.touched.subset_of(deposit_model(before, key, account, lamports, sink).touched),
        before.touched.subset_of(anchored_model(before, anchor_slot, l1).touched),
{
}

} // verus!
