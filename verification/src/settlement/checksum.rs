//! The checksum that a settlement is begun and finished under.
//!
//! It is accumulated over the parts of the settlement in the order in which
//! they are submitted, so that the program that applies them can recompute it.

use vstd::prelude::*;

use crate::accounts::Pubkey;
use crate::codec::{le, put_bytes, put_le};
use crate::hashing::{hash_bytes, sha256};
use crate::settlement::chunks::{chunk_models, ChunkModel, SettlementChunk};
use crate::settlement::{
    AccountLamportsSettlement, AccountOwnerSettlement, ReceiptBalanceSettlement,
};

verus! {

/// `northstar-settlement-v0`
pub const SETTLEMENT_CHECKSUM_DOMAIN: [u8; 23] = [
    110u8, 111u8, 114u8, 116u8, 104u8, 115u8, 116u8, 97u8, 114u8, 45u8, 115u8, 101u8, 116u8,
    116u8, 108u8, 101u8, 109u8, 101u8, 110u8, 116u8, 45u8, 118u8, 48u8,
];

/// `data`
pub const DATA_LABEL: [u8; 4] = [100u8, 97u8, 116u8, 97u8];

/// `owner`
pub const OWNER_LABEL: [u8; 5] = [111u8, 119u8, 110u8, 101u8, 114u8];

/// `lamports`
pub const LAMPORTS_LABEL: [u8; 8] = [108u8, 97u8, 109u8, 112u8, 111u8, 114u8, 116u8, 115u8];

/// `receipt`
pub const RECEIPT_LABEL: [u8; 7] = [114u8, 101u8, 99u8, 101u8, 105u8, 112u8, 116u8];

pub open spec fn initial_checksum(er_slot: u64) -> [u8; 32] {
    sha256(SETTLEMENT_CHECKSUM_DOMAIN@ + le(er_slot as nat, 8))
}

/// The length of the data is written modulo 2^32.
pub open spec fn with_chunk(accumulator: [u8; 32], chunk: ChunkModel) -> [u8; 32] {
    sha256(
        accumulator@ + DATA_LABEL@ + chunk.account@ + le(chunk.account_data_offset as nat, 4) + le(
            (chunk.data.len() as u32) as nat,
            4,
        ) + chunk.data,
    )
}

pub open spec fn with_owner(accumulator: [u8; 32], change: AccountOwnerSettlement) -> [u8; 32] {
    sha256(accumulator@ + OWNER_LABEL@ + change.account@ + change.owner@)
}

pub open spec fn with_lamports(
    accumulator: [u8; 32],
    change: AccountLamportsSettlement,
) -> [u8; 32] {
    sha256(accumulator@ + LAMPORTS_LABEL@ + change.account@ + le(change.lamports as nat, 8))
}

pub open spec fn with_receipt(
    accumulator: [u8; 32],
    receipt: ReceiptBalanceSettlement,
) -> [u8; 32] {
    sha256(
        accumulator@ + RECEIPT_LABEL@ + receipt.recipient@ + le(receipt.balance as nat, 8) + le(
            receipt.withdrawn as nat,
            8,
        ),
    )
}

pub open spec fn with_chunks(accumulator: [u8; 32], chunks: Seq<ChunkModel>) -> [u8; 32]
    decreases chunks.len(),
{
    if chunks.len() == 0 {
        accumulator
    } else {
        with_chunk(with_chunks(accumulator, chunks.drop_last()), chunks.last())
    }
}

pub open spec fn with_owners(
    accumulator: [u8; 32],
    changes: Seq<AccountOwnerSettlement>,
) -> [u8; 32]
    decreases changes.len(),
{
    if changes.len() == 0 {
        accumulator
    } else {
        with_owner(with_owners(accumulator, changes.drop_last()), changes.last())
    }
}

pub open spec fn with_all_lamports(
    accumulator: [u8; 32],
    changes: Seq<AccountLamportsSettlement>,
) -> [u8; 32]
    decreases changes.len(),
{
    if changes.len() == 0 {
        accumulator
    } else {
        with_lamports(with_all_lamports(accumulator, changes.drop_last()), changes.last())
    }
}

pub open spec fn with_receipts(
    accumulator: [u8; 32],
    receipts: Seq<ReceiptBalanceSettlement>,
) -> [u8; 32]
    decreases receipts.len(),
{
    if receipts.len() == 0 {
        accumulator
    } else {
        with_receipt(with_receipts(accumulator, receipts.drop_last()), receipts.last())
    }
}

/// The slot, and then the chunks, the owners, the lamports and the receipts.
pub open spec fn settlement_checksum(
    er_slot: u64,
    chunks: Seq<ChunkModel>,
    owner_changes: Seq<AccountOwnerSettlement>,
    lamport_changes: Seq<AccountLamportsSettlement>,
    receipt_balances: Seq<ReceiptBalanceSettlement>,
) -> [u8; 32] {
    with_receipts(
        with_all_lamports(
            with_owners(with_chunks(initial_checksum(er_slot), chunks), owner_changes),
            lamport_changes,
        ),
        receipt_balances,
    )
}

pub fn initial_settlement_checksum(er_slot: u64) -> (checksum: [u8; 32])
    ensures
        checksum == initial_checksum(er_slot),
{
    let mut buffer: Vec<u8> = Vec::new();
    put_bytes(&mut buffer, &SETTLEMENT_CHECKSUM_DOMAIN);
    put_le(&mut buffer, er_slot, 8);
    assert(Seq::<u8>::empty() + SETTLEMENT_CHECKSUM_DOMAIN@ =~= SETTLEMENT_CHECKSUM_DOMAIN@);
    hash_bytes(buffer.as_slice())
}

pub fn accumulate_data_chunk_checksum(
    accumulator: [u8; 32],
    account: &Pubkey,
    account_data_offset: u32,
    data: &[u8],
) -> (checksum: [u8; 32])
    ensures
        checksum == with_chunk(
            accumulator,
            ChunkModel { account: *account, account_data_offset, data: data@ },
        ),
{
    let mut buffer: Vec<u8> = Vec::new();
    put_bytes(&mut buffer, &accumulator);
    put_bytes(&mut buffer, &DATA_LABEL);
    put_bytes(&mut buffer, account);
    put_le(&mut buffer, account_data_offset as u64, 4);
    let len: u32 = data.len() as u32;
    assert(data.len() as nat == data@.len());
    put_le(&mut buffer, len as u64, 4);
    put_bytes(&mut buffer, data);
    assert(Seq::<u8>::empty() + accumulator@ =~= accumulator@);
    hash_bytes(buffer.as_slice())
}

pub fn accumulate_owner_checksum(accumulator: [u8; 32], account: &Pubkey, owner: &Pubkey) -> (checksum:
    [u8; 32])
    ensures
        checksum == with_owner(
            accumulator,
            AccountOwnerSettlement { account: *account, owner: *owner },
        ),
{
    let mut buffer: Vec<u8> = Vec::new();
    put_bytes(&mut buffer, &accumulator);
    put_bytes(&mut buffer, &OWNER_LABEL);
    put_bytes(&mut buffer, account);
    put_bytes(&mut buffer, owner);
    assert(Seq::<u8>::empty() + accumulator@ =~= accumulator@);
    hash_bytes(buffer.as_slice())
}

pub fn accumulate_lamports_checksum(
    accumulator: [u8; 32],
    account: &Pubkey,
    lamports: u64,
) -> (checksum: [u8; 32])
    ensures
        checksum == with_lamports(
            accumulator,
            AccountLamportsSettlement { account: *account, lamports },
        ),
{
    let mut buffer: Vec<u8> = Vec::new();
    put_bytes(&mut buffer, &accumulator);
    put_bytes(&mut buffer, &LAMPORTS_LABEL);
    put_bytes(&mut buffer, account);
    put_le(&mut buffer, lamports, 8);
    assert(Seq::<u8>::empty() + accumulator@ =~= accumulator@);
    hash_bytes(buffer.as_slice())
}

pub fn accumulate_receipt_checksum(
    accumulator: [u8; 32],
    recipient: &Pubkey,
    balance: u64,
    withdrawn: u64,
) -> (checksum: [u8; 32])
    ensures
        checksum == with_receipt(
            accumulator,
            ReceiptBalanceSettlement { recipient: *recipient, balance, withdrawn },
        ),
{
    let mut buffer: Vec<u8> = Vec::new();
    put_bytes(&mut buffer, &accumulator);
    put_bytes(&mut buffer, &RECEIPT_LABEL);
    put_bytes(&mut buffer, recipient);
    put_le(&mut buffer, balance, 8);
    put_le(&mut buffer, withdrawn, 8);
    assert(Seq::<u8>::empty() + accumulator@ =~= accumulator@);
    hash_bytes(buffer.as_slice())
}

pub fn checksum_settlement(
    er_slot: u64,
    chunks: &Vec<SettlementChunk>,
    owner_changes: &Vec<AccountOwnerSettlement>,
    lamport_changes: &Vec<AccountLamportsSettlement>,
    receipt_balances: &Vec<ReceiptBalanceSettlement>,
) -> (checksum: [u8; 32])
    ensures
        checksum == settlement_checksum(
            er_slot,
            chunk_models(chunks@),
            owner_changes@,
            lamport_changes@,
            receipt_balances@,
        ),
{
    let mut checksum = initial_settlement_checksum(er_slot);
    let ghost start = checksum;
    let ghost models = chunk_models(chunks@);
    let mut i: usize = 0;
    while i < chunks.len()
        invariant
            i <= chunks@.len(),
            models == chunk_models(chunks@),
            checksum == with_chunks(start, models.take(i as int)),
        decreases chunks@.len() - i,
    {
        let chunk = &chunks[i];
        checksum = accumulate_data_chunk_checksum(
            checksum,
            &chunk.account,
            chunk.account_data_offset,
            chunk.data.as_slice(),
        );
        i += 1;
        assert(models.take(i as int).drop_last() =~= models.take(i - 1));
        assert(models.take(i as int).last() == chunk@);
    }
    assert(models.take(i as int) =~= models);
    let ghost start = checksum;
    let mut i: usize = 0;
    while i < owner_changes.len()
        invariant
            i <= owner_changes@.len(),
            checksum == with_owners(start, owner_changes@.take(i as int)),
        decreases owner_changes@.len() - i,
    {
        let change = &owner_changes[i];
        checksum = accumulate_owner_checksum(checksum, &change.account, &change.owner);
        i += 1;
        assert(owner_changes@.take(i as int).drop_last() =~= owner_changes@.take(i - 1));
    }
    assert(owner_changes@.take(i as int) =~= owner_changes@);
    let ghost start = checksum;
    let mut i: usize = 0;
    while i < lamport_changes.len()
        invariant
            i <= lamport_changes@.len(),
            checksum == with_all_lamports(start, lamport_changes@.take(i as int)),
        decreases lamport_changes@.len() - i,
    {
        let change = &lamport_changes[i];
        checksum = accumulate_lamports_checksum(checksum, &change.account, change.lamports);
        i += 1;
        assert(lamport_changes@.take(i as int).drop_last() =~= lamport_changes@.take(i - 1));
    }
    assert(lamport_changes@.take(i as int) =~= lamport_changes@);
    let ghost start = checksum;
    let mut i: usize = 0;
    while i < receipt_balances.len()
        invariant
            i <= receipt_balances@.len(),
            checksum == with_receipts(start, receipt_balances@.take(i as int)),
        decreases receipt_balances@.len() - i,
    {
        let receipt = &receipt_balances[i];
        checksum = accumulate_receipt_checksum(
            checksum,
            &receipt.recipient,
            receipt.balance,
            receipt.withdrawn,
        );
        i += 1;
        assert(receipt_balances@.take(i as int).drop_last() =~= receipt_balances@.take(i - 1));
    }
    assert(receipt_balances@.take(i as int) =~= receipt_balances@);
    checksum
}

} // verus!
