//! Settlement of the rollup's state on layer one.

use vstd::prelude::*;

pub use chunks::SettlementChunk;
pub use plan::build_settlement_plan;

use crate::accounts::{copy_items, Pubkey};
use crate::settlement::checksum::{checksum_settlement, settlement_checksum};
use crate::settlement::chunks::{chunk_models, ChunkModel};
use crate::settlement::plan::{plan_fits, SettlementLimits};

pub mod batches;
pub mod captured;
pub mod checksum;
pub mod chunks;
pub mod completeness;
pub mod delivery;
pub mod packing;
pub mod plan;
pub mod portal;
pub mod recording;
pub mod sealing;

verus! {

/// What a deposit receipt is settled to.
#[derive(Debug, Clone, Copy, PartialEq, Eq)]
pub struct ReceiptBalanceSettlement {
    pub recipient: Pubkey,
    pub balance: u64,
    /// All lamports that withdrawals on the rollup have ever moved into the
    /// recipient's withdrawal sink.
    pub withdrawn: u64,
}

#[derive(Debug, Clone, Copy, PartialEq, Eq)]
pub struct AccountOwnerSettlement {
    pub account: Pubkey,
    pub owner: Pubkey,
}

#[derive(Debug, Clone, Copy, PartialEq, Eq)]
pub struct AccountLamportsSettlement {
    pub account: Pubkey,
    pub lamports: u64,
}

/// A change that cannot be settled.
#[derive(Debug, Clone, Copy, PartialEq, Eq)]
pub enum SettlementUnsupportedChange {
    MissingL1Account { account: Pubkey },
    DataLengthChanged { account: Pubkey, l1_len: usize, er_len: usize },
    LamportsChanged { account: Pubkey, l1_lamports: u64, er_lamports: u64 },
    OwnerChanged { account: Pubkey, l1_owner: Pubkey, er_owner: Pubkey },
    ExecutableChanged { account: Pubkey, l1_executable: bool, er_executable: bool },
    RentEpochChanged { account: Pubkey, l1_rent_epoch: u64, er_rent_epoch: u64 },
    TooManyLamportChanges { count: usize, max: usize },
}

/// Everything that one settlement applies on layer one.
#[derive(Debug, Clone, PartialEq, Eq)]
pub struct SettlementPlan {
    pub er_slot: u64,
    pub checksum: [u8; 32],
    pub chunks: Vec<SettlementChunk>,
    pub owner_changes: Vec<AccountOwnerSettlement>,
    pub lamport_changes: Vec<AccountLamportsSettlement>,
    pub receipt_balances: Vec<ReceiptBalanceSettlement>,
    pub unsupported_changes: Vec<SettlementUnsupportedChange>,
}

/// What a `SettlementPlan` holds.
#[verifier::ext_equal]
pub struct PlanModel {
    pub er_slot: u64,
    pub checksum: [u8; 32],
    pub chunks: Seq<ChunkModel>,
    pub owner_changes: Seq<AccountOwnerSettlement>,
    pub lamport_changes: Seq<AccountLamportsSettlement>,
    pub receipt_balances: Seq<ReceiptBalanceSettlement>,
    pub unsupported_changes: Seq<SettlementUnsupportedChange>,
}

impl View for SettlementPlan {
    type V = PlanModel;

    open spec fn view(&self) -> PlanModel {
        PlanModel {
            er_slot: self.er_slot,
            checksum: self.checksum,
            chunks: chunk_models(self.chunks@),
            owner_changes: self.owner_changes@,
            lamport_changes: self.lamport_changes@,
            receipt_balances: self.receipt_balances@,
            unsupported_changes: self.unsupported_changes@,
        }
    }
}

/// Nothing is to be applied.
pub open spec fn plan_is_empty(plan: PlanModel) -> bool {
    &&& plan.chunks.len() == 0
    &&& plan.owner_changes.len() == 0
    &&& plan.lamport_changes.len() == 0
    &&& plan.receipt_balances.len() == 0
}

/// The checksum that belongs to what the plan holds.
pub open spec fn plan_checksum(plan: PlanModel) -> [u8; 32] {
    settlement_checksum(
        plan.er_slot,
        plan.chunks,
        plan.owner_changes,
        plan.lamport_changes,
        plan.receipt_balances,
    )
}

impl SettlementPlan {
    pub fn is_empty(&self) -> (empty: bool)
        ensures
            empty == plan_is_empty(self@),
    {
        self.chunks.len() == 0 && self.owner_changes.len() == 0 && self.lamport_changes.len() == 0
            && self.receipt_balances.len() == 0
    }

    pub fn has_unsupported_changes(&self) -> (blocked: bool)
        ensures
            blocked == (self@.unsupported_changes.len() > 0),
    {
        self.unsupported_changes.len() > 0
    }

    /// The checksum that belongs to what the plan holds.
    pub fn recomputed_checksum(&self) -> (checksum: [u8; 32])
        ensures
            checksum == plan_checksum(self@),
    {
        checksum_settlement(
            self.er_slot,
            &self.chunks,
            &self.owner_changes,
            &self.lamport_changes,
            &self.receipt_balances,
        )
    }

    /// A copy of the plan.
    pub fn copy(&self) -> (plan: SettlementPlan)
        ensures
            plan@ == self@,
    {
        let mut chunks: Vec<SettlementChunk> = Vec::new();
        let mut i: usize = 0;
        while i < self.chunks.len()
            invariant
                i <= self.chunks@.len(),
                chunk_models(chunks@) == chunk_models(self.chunks@).take(i as int),
            decreases self.chunks@.len() - i,
        {
            let chunk = &self.chunks[i];
            let ghost before = chunks@;
            chunks.push(
                SettlementChunk {
                    account: chunk.account,
                    account_data_offset: chunk.account_data_offset,
                    data: chunk.data.clone(),
                },
            );
            assert(chunks@.last()@ == chunk@);
            assert(chunk_models(chunks@) =~= chunk_models(before).push(chunk@));
            assert(chunk_models(self.chunks@)[i as int] == chunk@);
            i += 1;
            assert(chunk_models(chunks@) =~= chunk_models(self.chunks@).take(i as int));
        }
        assert(chunk_models(chunks@) =~= chunk_models(self.chunks@));
        SettlementPlan {
            er_slot: self.er_slot,
            checksum: self.checksum,
            chunks,
            owner_changes: copy_items(&self.owner_changes),
            lamport_changes: copy_items(&self.lamport_changes),
            receipt_balances: copy_items(&self.receipt_balances),
            unsupported_changes: copy_items(&self.unsupported_changes),
        }
    }

    /// Whether the plan is within the limits of a settlement.
    pub fn fits(&self, limits: &SettlementLimits) -> (fits: bool)
        ensures
            fits == plan_fits(self@, *limits),
    {
        if self.lamport_changes.len() > limits.max_lamport_accounts {
            return false;
        }
        let mut i: usize = 0;
        while i < self.chunks.len()
            invariant
                i <= self.chunks@.len(),
                forall|c: int|
                    0 <= c < i ==> (#[trigger] self@.chunks[c]).data.len() <= limits.max_chunk,
            decreases self.chunks@.len() - i,
        {
            assert(self@.chunks[i as int] == self.chunks@[i as int]@);
            if self.chunks[i].data.len() > limits.max_chunk {
                return false;
            }
            i += 1;
        }
        true
    }
}

} // verus!
