//! Checksums bind settlements, as far as the hash function has no collisions.

use vstd::prelude::*;

use crate::codec::{le, lemma_le_len, lemma_pow256_values};
use crate::hashing::sha256;
use crate::merkle::binding::{lemma_same_hash, lemma_same_le, lemma_same_parts};
use crate::settlement::checksum::{
    initial_checksum, settlement_checksum, with_all_lamports, with_chunk, with_chunks,
    with_lamports, with_owner, with_owners, with_receipt, with_receipts, DATA_LABEL,
    LAMPORTS_LABEL, OWNER_LABEL, RECEIPT_LABEL, SETTLEMENT_CHECKSUM_DOMAIN,
};
use crate::settlement::chunks::ChunkModel;
use crate::settlement::{
    plan_checksum, AccountLamportsSettlement, AccountOwnerSettlement, PlanModel,
    ReceiptBalanceSettlement,
};

verus! {

/// A part of a settlement.
pub ghost enum Part {
    Chunk(ChunkModel),
    Owner(AccountOwnerSettlement),
    Lamports(AccountLamportsSettlement),
    Receipt(ReceiptBalanceSettlement),
}

/// What a part adds to the checksum: its label (`data`, `owner`, `lamports` or
/// `receipt`), its account and its values. The length of data is written modulo 2^32.
pub open spec fn part_bytes(part: Part) -> Seq<u8> {
    match part {
        Part::Chunk(chunk) => seq![100u8, 97u8, 116u8, 97u8] + chunk.account@ + le(
            chunk.account_data_offset as nat,
            4,
        ) + le((chunk.data.len() as u32) as nat, 4) + chunk.data,
        Part::Owner(change) => seq![111u8, 119u8, 110u8, 101u8, 114u8] + change.account@
            + change.owner@,
        Part::Lamports(change) => seq![
            108u8, 97u8, 109u8, 112u8, 111u8, 114u8, 116u8, 115u8,
        ] + change.account@ + le(change.lamports as nat, 8),
        Part::Receipt(receipt) => seq![114u8, 101u8, 99u8, 101u8, 105u8, 112u8, 116u8]
            + receipt.recipient@ + le(receipt.balance as nat, 8) + le(
            receipt.withdrawn as nat,
            8,
        ),
    }
}

/// What is hashed before any part: `northstar-settlement-v0` and the slot.
pub open spec fn opening_bytes(er_slot: u64) -> Seq<u8> {
    seq![
        110u8, 111u8, 114u8, 116u8, 104u8, 115u8, 116u8, 97u8, 114u8, 45u8, 115u8, 101u8, 116u8,
        116u8, 108u8, 101u8, 109u8, 101u8, 110u8, 116u8, 45u8, 118u8, 48u8,
    ] + le(er_slot as nat, 8)
}

/// The checksum with one part more.
pub open spec fn accumulated(accumulator: [u8; 32], part: Part) -> [u8; 32] {
    match part {
        Part::Chunk(chunk) => with_chunk(accumulator, chunk),
        Part::Owner(change) => with_owner(accumulator, change),
        Part::Lamports(change) => with_lamports(accumulator, change),
        Part::Receipt(receipt) => with_receipt(accumulator, receipt),
    }
}

/// No two of these byte strings have the same digest.
pub open spec fn has_no_collision(inputs: Set<Seq<u8>>) -> bool {
    forall|a: Seq<u8>, b: Seq<u8>|
        inputs.contains(a) && inputs.contains(b) && #[trigger] sha256(a) == #[trigger] sha256(b)
            ==> a == b
}

proof fn lemma_opening(er_slot: u64)
    ensures
        initial_checksum(er_slot) == sha256(opening_bytes(er_slot)),
        opening_bytes(er_slot).len() == 31,
{
    lemma_le_len(er_slot as nat, 8);
    assert(SETTLEMENT_CHECKSUM_DOMAIN@ + le(er_slot as nat, 8) =~= opening_bytes(er_slot));
}

proof fn lemma_hashed(accumulator: [u8; 32], part: Part)
    ensures
        accumulated(accumulator, part) == sha256(accumulator@ + part_bytes(part)),
        part_bytes(part).len() >= 4,
{
    match part {
        Part::Chunk(chunk) => {
            assert(accumulator@ + DATA_LABEL@ + chunk.account@ + le(
                chunk.account_data_offset as nat,
                4,
            ) + le((chunk.data.len() as u32) as nat, 4) + chunk.data =~= accumulator@ + part_bytes(
                part,
            ));
        },
        Part::Owner(change) => {
            assert(accumulator@ + OWNER_LABEL@ + change.account@ + change.owner@ =~= accumulator@
                + part_bytes(part));
        },
        Part::Lamports(change) => {
            assert(accumulator@ + LAMPORTS_LABEL@ + change.account@ + le(change.lamports as nat, 8)
                =~= accumulator@ + part_bytes(part));
        },
        Part::Receipt(receipt) => {
            assert(accumulator@ + RECEIPT_LABEL@ + receipt.recipient@ + le(
                receipt.balance as nat,
                8,
            ) + le(receipt.withdrawn as nat, 8) =~= accumulator@ + part_bytes(part));
        },
    }
}

proof fn lemma_same_chunks(a: ChunkModel, b: ChunkModel)
    requires
        part_bytes(Part::Chunk(a)) == part_bytes(Part::Chunk(b)),
    ensures
        a == b,
{
    let label = seq![100u8, 97u8, 116u8, 97u8];
    let a_offset = le(a.account_data_offset as nat, 4);
    let b_offset = le(b.account_data_offset as nat, 4);
    let a_len = le((a.data.len() as u32) as nat, 4);
    let b_len = le((b.data.len() as u32) as nat, 4);
    lemma_le_len(a.account_data_offset as nat, 4);
    lemma_le_len(b.account_data_offset as nat, 4);
    lemma_le_len((a.data.len() as u32) as nat, 4);
    lemma_le_len((b.data.len() as u32) as nat, 4);
    lemma_pow256_values();
    lemma_same_parts(
        label + a.account@ + a_offset + a_len,
        a.data,
        label + b.account@ + b_offset + b_len,
        b.data,
    );
    lemma_same_parts(
        label + a.account@ + a_offset,
        a_len,
        label + b.account@ + b_offset,
        b_len,
    );
    lemma_same_parts(label + a.account@, a_offset, label + b.account@, b_offset);
    lemma_same_parts(label, a.account@, label, b.account@);
    lemma_same_hash(a.account, b.account);
    lemma_same_le(a.account_data_offset as nat, b.account_data_offset as nat, 4);
}

proof fn lemma_same_owners(a: AccountOwnerSettlement, b: AccountOwnerSettlement)
    requires
        part_bytes(Part::Owner(a)) == part_bytes(Part::Owner(b)),
    ensures
        a == b,
{
    let label = seq![111u8, 119u8, 110u8, 101u8, 114u8];
    lemma_same_parts(label + a.account@, a.owner@, label + b.account@, b.owner@);
    lemma_same_parts(label, a.account@, label, b.account@);
    lemma_same_hash(a.account, b.account);
    lemma_same_hash(a.owner, b.owner);
}

proof fn lemma_same_lamports(a: AccountLamportsSettlement, b: AccountLamportsSettlement)
    requires
        part_bytes(Part::Lamports(a)) == part_bytes(Part::Lamports(b)),
    ensures
        a == b,
{
    let label = seq![108u8, 97u8, 109u8, 112u8, 111u8, 114u8, 116u8, 115u8];
    let a_value = le(a.lamports as nat, 8);
    let b_value = le(b.lamports as nat, 8);
    lemma_pow256_values();
    lemma_same_parts(label + a.account@, a_value, label + b.account@, b_value);
    lemma_same_parts(label, a.account@, label, b.account@);
    lemma_same_hash(a.account, b.account);
    lemma_same_le(a.lamports as nat, b.lamports as nat, 8);
}

proof fn lemma_same_receipts(a: ReceiptBalanceSettlement, b: ReceiptBalanceSettlement)
    requires
        part_bytes(Part::Receipt(a)) == part_bytes(Part::Receipt(b)),
    ensures
        a == b,
{
    let label = seq![114u8, 101u8, 99u8, 101u8, 105u8, 112u8, 116u8];
    let a_balance = le(a.balance as nat, 8);
    let b_balance = le(b.balance as nat, 8);
    let a_withdrawn = le(a.withdrawn as nat, 8);
    let b_withdrawn = le(b.withdrawn as nat, 8);
    lemma_pow256_values();
    lemma_le_len(a.balance as nat, 8);
    lemma_le_len(b.balance as nat, 8);
    lemma_same_parts(
        label + a.recipient@ + a_balance,
        a_withdrawn,
        label + b.recipient@ + b_balance,
        b_withdrawn,
    );
    lemma_same_parts(label + a.recipient@, a_balance, label + b.recipient@, b_balance);
    lemma_same_parts(label, a.recipient@, label, b.recipient@);
    lemma_same_hash(a.recipient, b.recipient);
    lemma_same_le(a.balance as nat, b.balance as nat, 8);
    lemma_same_le(a.withdrawn as nat, b.withdrawn as nat, 8);
}

proof fn lemma_first_byte(part: Part)
    ensures
        part_bytes(part)[0] == match part {
            Part::Chunk(_) => 100u8,
            Part::Owner(_) => 111u8,
            Part::Lamports(_) => 108u8,
            Part::Receipt(_) => 114u8,
        },
{
    let _ = part_bytes(part);
}

/// Equal checksums with one part more come from equal checksums before and from equal
/// parts: no part can stand for another, whatever their kinds.
pub proof fn accumulated_checksums_bind_their_parts(
    inputs: Set<Seq<u8>>,
    before: ([u8; 32], [u8; 32]),
    parts: (Part, Part),
)
    requires
        has_no_collision(inputs),
        inputs.contains(before.0@ + part_bytes(parts.0)),
        inputs.contains(before.1@ + part_bytes(parts.1)),
        accumulated(before.0, parts.0) == accumulated(before.1, parts.1),
    ensures
        before.0 == before.1,
        parts.0 == parts.1,
{
    lemma_hashed(before.0, parts.0);
    lemma_hashed(before.1, parts.1);
    lemma_same_parts(before.0@, part_bytes(parts.0), before.1@, part_bytes(parts.1));
    lemma_same_hash(before.0, before.1);
    lemma_first_byte(parts.0);
    lemma_first_byte(parts.1);
    match (parts.0, parts.1) {
        (Part::Chunk(a), Part::Chunk(b)) => lemma_same_chunks(a, b),
        (Part::Owner(a), Part::Owner(b)) => lemma_same_owners(a, b),
        (Part::Lamports(a), Part::Lamports(b)) => lemma_same_lamports(a, b),
        (Part::Receipt(a), Part::Receipt(b)) => lemma_same_receipts(a, b),
        _ => {},
    }
}

/// The checksum of the parts, one after another.
pub open spec fn sealed(er_slot: u64, parts: Seq<Part>) -> [u8; 32]
    decreases parts.len(),
{
    if parts.len() == 0 {
        initial_checksum(er_slot)
    } else {
        accumulated(sealed(er_slot, parts.drop_last()), parts.last())
    }
}

/// Everything that is hashed for the parts is among the inputs.
pub open spec fn hashes_parts(inputs: Set<Seq<u8>>, er_slot: u64, parts: Seq<Part>) -> bool
    decreases parts.len(),
{
    if parts.len() == 0 {
        inputs.contains(opening_bytes(er_slot))
    } else {
        &&& hashes_parts(inputs, er_slot, parts.drop_last())
        &&& inputs.contains(sealed(er_slot, parts.drop_last())@ + part_bytes(parts.last()))
    }
}

/// The parts of a plan: the chunks, the owners, the lamports and the receipts.
pub open spec fn parts_of(plan: PlanModel) -> Seq<Part> {
    plan.chunks.map_values(|chunk: ChunkModel| Part::Chunk(chunk)) + plan.owner_changes.map_values(
        |change: AccountOwnerSettlement| Part::Owner(change),
    ) + plan.lamport_changes.map_values(
        |change: AccountLamportsSettlement| Part::Lamports(change),
    ) + plan.receipt_balances.map_values(
        |receipt: ReceiptBalanceSettlement| Part::Receipt(receipt),
    )
}

proof fn lemma_sealed_binds(
    inputs: Set<Seq<u8>>,
    a_slot: u64,
    a: Seq<Part>,
    b_slot: u64,
    b: Seq<Part>,
)
    requires
        has_no_collision(inputs),
        hashes_parts(inputs, a_slot, a),
        hashes_parts(inputs, b_slot, b),
        sealed(a_slot, a) == sealed(b_slot, b),
    ensures
        a_slot == b_slot,
        a == b,
    decreases a.len() + b.len(),
{
    if a.len() == 0 && b.len() == 0 {
        lemma_opening(a_slot);
        lemma_opening(b_slot);
        let front = opening_bytes(0).take(23);
        lemma_le_len(a_slot as nat, 8);
        lemma_le_len(b_slot as nat, 8);
        lemma_le_len(0, 8);
        assert(opening_bytes(a_slot) =~= front + le(a_slot as nat, 8));
        assert(opening_bytes(b_slot) =~= front + le(b_slot as nat, 8));
        lemma_same_parts(front, le(a_slot as nat, 8), front, le(b_slot as nat, 8));
        lemma_pow256_values();
        lemma_same_le(a_slot as nat, b_slot as nat, 8);
        assert(a =~= b);
    } else if a.len() == 0 {
        let before = sealed(b_slot, b.drop_last());
        lemma_opening(a_slot);
        lemma_hashed(before, b.last());
        assert(opening_bytes(a_slot).len() == (before@ + part_bytes(b.last())).len());
    } else if b.len() == 0 {
        let before = sealed(a_slot, a.drop_last());
        lemma_opening(b_slot);
        lemma_hashed(before, a.last());
        assert(opening_bytes(b_slot).len() == (before@ + part_bytes(a.last())).len());
    } else {
        accumulated_checksums_bind_their_parts(
            inputs,
            (sealed(a_slot, a.drop_last()), sealed(b_slot, b.drop_last())),
            (a.last(), b.last()),
        );
        lemma_sealed_binds(inputs, a_slot, a.drop_last(), b_slot, b.drop_last());
        assert(a =~= a.drop_last().push(a.last()));
        assert(b =~= b.drop_last().push(b.last()));
    }
}

proof fn lemma_sealed_chunks(er_slot: u64, chunks: Seq<ChunkModel>)
    ensures
        with_chunks(initial_checksum(er_slot), chunks) == sealed(
            er_slot,
            chunks.map_values(|chunk: ChunkModel| Part::Chunk(chunk)),
        ),
    decreases chunks.len(),
{
    let parts = chunks.map_values(|chunk: ChunkModel| Part::Chunk(chunk));
    if chunks.len() > 0 {
        let rest = chunks.drop_last();
        lemma_sealed_chunks(er_slot, rest);
        assert(parts.drop_last() =~= rest.map_values(|chunk: ChunkModel| Part::Chunk(chunk)));
    }
}

proof fn lemma_sealed_owners(er_slot: u64, before: Seq<Part>, changes: Seq<AccountOwnerSettlement>)
    ensures
        with_owners(sealed(er_slot, before), changes) == sealed(
            er_slot,
            before + changes.map_values(|change: AccountOwnerSettlement| Part::Owner(change)),
        ),
    decreases changes.len(),
{
    let parts = before + changes.map_values(|change: AccountOwnerSettlement| Part::Owner(change));
    if changes.len() > 0 {
        let rest = changes.drop_last();
        lemma_sealed_owners(er_slot, before, rest);
        assert(parts.drop_last() =~= before + rest.map_values(
            |change: AccountOwnerSettlement| Part::Owner(change),
        ));
    } else {
        assert(parts =~= before);
    }
}

proof fn lemma_sealed_lamports(
    er_slot: u64,
    before: Seq<Part>,
    changes: Seq<AccountLamportsSettlement>,
)
    ensures
        with_all_lamports(sealed(er_slot, before), changes) == sealed(
            er_slot,
            before + changes.map_values(|change: AccountLamportsSettlement| Part::Lamports(change)),
        ),
    decreases changes.len(),
{
    let parts = before + changes.map_values(
        |change: AccountLamportsSettlement| Part::Lamports(change),
    );
    if changes.len() > 0 {
        let rest = changes.drop_last();
        lemma_sealed_lamports(er_slot, before, rest);
        assert(parts.drop_last() =~= before + rest.map_values(
            |change: AccountLamportsSettlement| Part::Lamports(change),
        ));
    } else {
        assert(parts =~= before);
    }
}

proof fn lemma_sealed_receipts(
    er_slot: u64,
    before: Seq<Part>,
    receipts: Seq<ReceiptBalanceSettlement>,
)
    ensures
        with_receipts(sealed(er_slot, before), receipts) == sealed(
            er_slot,
            before + receipts.map_values(
                |receipt: ReceiptBalanceSettlement| Part::Receipt(receipt),
            ),
        ),
    decreases receipts.len(),
{
    let parts = before + receipts.map_values(
        |receipt: ReceiptBalanceSettlement| Part::Receipt(receipt),
    );
    if receipts.len() > 0 {
        let rest = receipts.drop_last();
        lemma_sealed_receipts(er_slot, before, rest);
        assert(parts.drop_last() =~= before + rest.map_values(
            |receipt: ReceiptBalanceSettlement| Part::Receipt(receipt),
        ));
    } else {
        assert(parts =~= before);
    }
}

proof fn lemma_plan_is_sealed(plan: PlanModel)
    ensures
        plan_checksum(plan) == sealed(plan.er_slot, parts_of(plan)),
{
    let chunks = plan.chunks.map_values(|chunk: ChunkModel| Part::Chunk(chunk));
    let owners = plan.owner_changes.map_values(
        |change: AccountOwnerSettlement| Part::Owner(change),
    );
    let lamports = plan.lamport_changes.map_values(
        |change: AccountLamportsSettlement| Part::Lamports(change),
    );
    lemma_sealed_chunks(plan.er_slot, plan.chunks);
    lemma_sealed_owners(plan.er_slot, chunks, plan.owner_changes);
    lemma_sealed_lamports(plan.er_slot, chunks + owners, plan.lamport_changes);
    lemma_sealed_receipts(plan.er_slot, chunks + owners + lamports, plan.receipt_balances);
    assert(plan_checksum(plan) == settlement_checksum(
        plan.er_slot,
        plan.chunks,
        plan.owner_changes,
        plan.lamport_changes,
        plan.receipt_balances,
    ));
}

proof fn lemma_parts_at(plan: PlanModel, i: int)
    ensures
        ({
            let parts = parts_of(plan);
            let c = plan.chunks.len();
            let o = plan.owner_changes.len();
            let l = plan.lamport_changes.len();
            let r = plan.receipt_balances.len();
            &&& parts.len() == c + o + l + r
            &&& 0 <= i < c ==> parts[i] == Part::Chunk(plan.chunks[i])
            &&& c <= i < c + o ==> parts[i] == Part::Owner(plan.owner_changes[i - c])
            &&& c + o <= i < c + o + l ==> parts[i] == Part::Lamports(
                plan.lamport_changes[i - c - o],
            )
            &&& c + o + l <= i < c + o + l + r ==> parts[i] == Part::Receipt(
                plan.receipt_balances[i - c - o - l],
            )
        }),
{
}

proof fn lemma_same_counts(a: PlanModel, b: PlanModel)
    requires
        parts_of(a) == parts_of(b),
    ensures
        a.chunks.len() <= b.chunks.len(),
        a.chunks.len() + a.owner_changes.len() <= b.chunks.len() + b.owner_changes.len(),
        a.chunks.len() + a.owner_changes.len() + a.lamport_changes.len() <= b.chunks.len()
            + b.owner_changes.len() + b.lamport_changes.len(),
        parts_of(a).len() == a.chunks.len() + a.owner_changes.len() + a.lamport_changes.len()
            + a.receipt_balances.len(),
{
    let c = b.chunks.len() as int;
    let o = c + b.owner_changes.len();
    let l = o + b.lamport_changes.len();
    lemma_parts_at(a, c);
    lemma_parts_at(b, c);
    lemma_parts_at(a, o);
    lemma_parts_at(b, o);
    lemma_parts_at(a, l);
    lemma_parts_at(b, l);
}

/// Plans with equal checksums settle the same for the same slot: the same chunks, owners,
/// lamports and receipts, in the same order.
pub proof fn checksums_bind_plans(inputs: Set<Seq<u8>>, a: PlanModel, b: PlanModel)
    requires
        has_no_collision(inputs),
        hashes_parts(inputs, a.er_slot, parts_of(a)),
        hashes_parts(inputs, b.er_slot, parts_of(b)),
        plan_checksum(a) == plan_checksum(b),
    ensures
        a.er_slot == b.er_slot,
        a.chunks == b.chunks,
        a.owner_changes == b.owner_changes,
        a.lamport_changes == b.lamport_changes,
        a.receipt_balances == b.receipt_balances,
{
    lemma_plan_is_sealed(a);
    lemma_plan_is_sealed(b);
    lemma_sealed_binds(inputs, a.er_slot, parts_of(a), b.er_slot, parts_of(b));
    lemma_same_counts(a, b);
    lemma_same_counts(b, a);
    let c = a.chunks.len() as int;
    let o = a.owner_changes.len() as int;
    let l = a.lamport_changes.len() as int;
    assert forall|i: int| 0 <= i < a.chunks.len() implies a.chunks[i] == b.chunks[i] by {
        lemma_parts_at(a, i);
        lemma_parts_at(b, i);
    }
    assert(a.chunks =~= b.chunks);
    assert forall|i: int| 0 <= i < a.owner_changes.len() implies a.owner_changes[i]
        == b.owner_changes[i] by {
        lemma_parts_at(a, c + i);
        lemma_parts_at(b, c + i);
    }
    assert(a.owner_changes =~= b.owner_changes);
    assert forall|i: int| 0 <= i < a.lamport_changes.len() implies a.lamport_changes[i]
        == b.lamport_changes[i] by {
        lemma_parts_at(a, c + o + i);
        lemma_parts_at(b, c + o + i);
    }
    assert(a.lamport_changes =~= b.lamport_changes);
    assert forall|i: int| 0 <= i < a.receipt_balances.len() implies a.receipt_balances[i]
        == b.receipt_balances[i] by {
        lemma_parts_at(a, c + o + l + i);
        lemma_parts_at(b, c + o + l + i);
    }
    assert(a.receipt_balances =~= b.receipt_balances);
}

} // verus!
