//! What the instructions of a settlement say, byte by byte.

use vstd::prelude::*;

use crate::accounts::Pubkey;
use crate::addresses::{
    delegation_record_address, deposit_receipt_address, program_address, session_address,
    DELEGATION_SEED, DEPOSIT_RECEIPT_SEED, SESSION_SEED,
};
use crate::codec::{holds_at, le, lemma_le_len};
use crate::instructions::InstructionModel;
use crate::settlement::batches::{
    batches_of, fits_packet, message_keys, serialized_transaction_size,
};
use crate::settlement::portal::{
    begin_instruction, chunk_instruction, finish_instruction, lamport_bytes, lamport_metas,
    lamports_instruction, owner_instruction, receipt_instruction, settlement_header,
    settlement_instructions, submission, zeros, PortalProtocol, SettlementTarget,
};
use crate::settlement::{AccountLamportsSettlement, PlanModel};

verus! {

/// The seeds of the record of a delegated account: `delegation` and the account.
pub open spec fn record_seeds(account: Pubkey) -> Seq<Seq<u8>> {
    seq![seq![100u8, 101u8, 108u8, 101u8, 103u8, 97u8, 116u8, 105u8, 111u8, 110u8], account@]
}

/// The seeds of a deposit receipt: `deposit_receipt`, the session and the recipient.
pub open spec fn receipt_seeds(session: Pubkey, recipient: Pubkey) -> Seq<Seq<u8>> {
    seq![
        seq![
            100u8, 101u8, 112u8, 111u8, 115u8, 105u8, 116u8, 95u8, 114u8, 101u8, 99u8, 101u8,
            105u8, 112u8, 116u8,
        ],
        session@,
        recipient@,
    ]
}

/// The seeds of the session: `session`.
pub open spec fn session_seeds() -> Seq<Seq<u8>> {
    seq![seq![115u8, 101u8, 115u8, 115u8, 105u8, 111u8, 110u8]]
}

/// Every derived address is the one that its program derives from its seeds, and is
/// known if and only if the program can derive one.
pub proof fn addresses_are_derived_from_seeds(
    program_id: Pubkey,
    session: Pubkey,
    account: Pubkey,
)
    ensures
        match program_address(record_seeds(account), program_id) {
            Some((address, _)) => delegation_record_address(program_id, account) == Some(address),
            None => delegation_record_address(program_id, account) is None,
        },
        match program_address(receipt_seeds(session, account), program_id) {
            Some((address, _)) => deposit_receipt_address(program_id, session, account) == Some(
                address,
            ),
            None => deposit_receipt_address(program_id, session, account) is None,
        },
        match program_address(session_seeds(), program_id) {
            Some((address, _)) => session_address(program_id) == Some(address),
            None => session_address(program_id) is None,
        },
{
    assert(DELEGATION_SEED@ =~= record_seeds(account)[0]);
    assert(seq![DELEGATION_SEED@, account@] =~= record_seeds(account));
    assert(DEPOSIT_RECEIPT_SEED@ =~= receipt_seeds(session, account)[0]);
    assert(seq![DEPOSIT_RECEIPT_SEED@, session@, account@] =~= receipt_seeds(session, account));
    assert(SESSION_SEED@ =~= session_seeds()[0]);
    assert(seq![SESSION_SEED@] =~= session_seeds());
}

/// The instruction names the account at a place, with these rights.
pub open spec fn names(
    instruction: InstructionModel,
    at: int,
    key: Pubkey,
    is_signer: bool,
    is_writable: bool,
) -> bool {
    &&& 0 <= at < instruction.accounts.len()
    &&& instruction.accounts[at].pubkey == key
    &&& instruction.accounts[at].is_signer == is_signer
    &&& instruction.accounts[at].is_writable == is_writable
}

/// The bytes are zero from a place on.
pub open spec fn is_zero_from(data: Seq<u8>, at: int) -> bool {
    forall|i: int| at <= i < data.len() ==> #[trigger] data[i] == 0
}

/// The instruction goes to the portal program, signed by the validator, for the
/// session; its data starts with the tag, the slot and the checksum.
pub open spec fn belongs_to(
    instruction: InstructionModel,
    plan: PlanModel,
    target: SettlementTarget,
    tag: u8,
) -> bool {
    &&& instruction.program_id == target.program_id
    &&& names(instruction, 0, target.validator, true, false)
    &&& names(instruction, 1, target.session, false, true)
    &&& instruction.data.len() >= 41
    &&& instruction.data[0] == tag
    &&& holds_at(instruction.data, 1, le(plan.er_slot as nat, 8))
    &&& holds_at(instruction.data, 9, plan.checksum@)
}

/// The address that the program derives from the seeds.
pub open spec fn derived(program_id: Pubkey, seeds: Seq<Seq<u8>>) -> Pubkey {
    (program_address(seeds, program_id)->0).0
}

/// Nothing is too large for one instruction.
pub open spec fn is_within(plan: PlanModel, protocol: PortalProtocol) -> bool {
    &&& protocol.limits.max_lamport_accounts <= 255
    &&& plan.lamport_changes.len() <= protocol.limits.max_lamport_accounts
    &&& forall|i: int|
        0 <= i < plan.chunks.len() ==> (#[trigger] plan.chunks[i]).data.len()
            <= protocol.limits.max_chunk
    &&& protocol.limits.max_chunk <= u16::MAX
}

/// The address of every record and of every receipt can be derived.
pub open spec fn can_be_addressed(plan: PlanModel, target: SettlementTarget) -> bool {
    let program = target.program_id;
    &&& forall|i: int|
        0 <= i < plan.chunks.len() ==> program_address(
            record_seeds((#[trigger] plan.chunks[i]).account),
            program,
        ) is Some
    &&& forall|i: int|
        0 <= i < plan.owner_changes.len() ==> program_address(
            record_seeds((#[trigger] plan.owner_changes[i]).account),
            program,
        ) is Some
    &&& forall|i: int|
        0 <= i < plan.lamport_changes.len() ==> program_address(
            record_seeds((#[trigger] plan.lamport_changes[i]).account),
            program,
        ) is Some
    &&& forall|i: int|
        0 <= i < plan.receipt_balances.len() ==> program_address(
            receipt_seeds(target.session, (#[trigger] plan.receipt_balances[i]).recipient),
            program,
        ) is Some
}

/// How many instructions come before the chunks.
pub open spec fn begun(include_begin: bool) -> int {
    if include_begin {
        1
    } else {
        0
    }
}

/// How many instructions carry the lamports.
pub open spec fn carriers(plan: PlanModel) -> int {
    if plan.lamport_changes.len() > 0 {
        1
    } else {
        0
    }
}

proof fn lemma_header(tag: u8, er_slot: u64, checksum: [u8; 32], rest: Seq<u8>)
    ensures
        ({
            let data = settlement_header(tag, er_slot, checksum) + rest;
            &&& settlement_header(tag, er_slot, checksum).len() == 41
            &&& data[0] == tag
            &&& holds_at(data, 1, le(er_slot as nat, 8))
            &&& holds_at(data, 9, checksum@)
            &&& data.skip(41) == rest
        }),
{
    lemma_le_len(er_slot as nat, 8);
    let data = settlement_header(tag, er_slot, checksum) + rest;
    assert(data.subrange(1, 9) =~= le(er_slot as nat, 8));
    assert(data.subrange(9, 41) =~= checksum@);
    assert(data.skip(41) =~= rest);
}

proof fn lemma_lamport_parts(
    program_id: Pubkey,
    changes: Seq<AccountLamportsSettlement>,
    i: int,
)
    requires
        0 <= i < changes.len(),
    ensures
        lamport_bytes(changes).len() == 8 * changes.len(),
        lamport_metas(program_id, changes).len() == 2 * changes.len(),
        holds_at(lamport_bytes(changes), 8 * i, le(changes[i].lamports as nat, 8)),
        ({
            let metas = lamport_metas(program_id, changes);
            &&& metas[2 * i].pubkey == changes[i].account
            &&& !metas[2 * i].is_signer
            &&& metas[2 * i].is_writable
            &&& metas[2 * i + 1].pubkey == derived(program_id, record_seeds(changes[i].account))
                || program_address(record_seeds(changes[i].account), program_id) is None
            &&& !metas[2 * i + 1].is_signer
            &&& !metas[2 * i + 1].is_writable
        }),
    decreases changes.len(),
{
    let rest = changes.drop_last();
    let last = changes.last();
    lemma_le_len(last.lamports as nat, 8);
    addresses_are_derived_from_seeds(program_id, program_id, last.account);
    lemma_lamport_lengths(program_id, rest);
    if i < rest.len() {
        lemma_lamport_parts(program_id, rest, i);
    }
    let bytes = lamport_bytes(changes);
    lemma_le_len(changes[i].lamports as nat, 8);
    if i < rest.len() {
        assert(rest[i] == changes[i]);
        let before = lamport_bytes(rest);
        assert(bytes.subrange(8 * i, 8 * i + 8) =~= before.subrange(8 * i, 8 * i + 8));
    } else {
        assert(bytes.subrange(8 * i, 8 * i + 8) =~= le(last.lamports as nat, 8));
    }
}

proof fn lemma_lamport_lengths(program_id: Pubkey, changes: Seq<AccountLamportsSettlement>)
    ensures
        lamport_bytes(changes).len() == 8 * changes.len(),
        lamport_metas(program_id, changes).len() == 2 * changes.len(),
    decreases changes.len(),
{
    if changes.len() > 0 {
        lemma_lamport_lengths(program_id, changes.drop_last());
        lemma_le_len(changes.last().lamports as nat, 8);
    }
}

proof fn lemma_places(
    plan: PlanModel,
    protocol: PortalProtocol,
    target: SettlementTarget,
    include_begin: bool,
    i: int,
)
    ensures
        ({
            let sent = settlement_instructions(plan, protocol, target, include_begin);
            let b = begun(include_begin);
            let c = plan.chunks.len();
            let o = plan.owner_changes.len();
            let l = carriers(plan);
            let r = plan.receipt_balances.len();
            &&& sent.len() == b + c + o + l + r + 1
            &&& include_begin ==> sent[0] == begin_instruction(plan, protocol, target)
            &&& 0 <= i < c ==> sent[b + i] == chunk_instruction(
                plan,
                protocol,
                target,
                plan.chunks[i],
            )
            &&& 0 <= i < o ==> sent[b + c + i] == owner_instruction(
                plan,
                protocol,
                target,
                plan.owner_changes[i],
            )
            &&& l == 1 ==> sent[b + c + o] == lamports_instruction(plan, protocol, target)
            &&& 0 <= i < r ==> sent[b + c + o + l + i] == receipt_instruction(
                plan,
                protocol,
                target,
                plan.receipt_balances[i],
            )
            &&& sent[sent.len() - 1] == finish_instruction(plan, protocol, target)
        }),
{
}

/// A settlement has one instruction for each chunk, each new owner and each receipt, one
/// for all lamports, and one at its end; one at its beginning unless it has begun. All
/// of them belong to the settlement.
pub proof fn settlements_have_a_beginning_and_an_end(
    plan: PlanModel,
    protocol: PortalProtocol,
    target: SettlementTarget,
    include_begin: bool,
)
    ensures
        ({
            let sent = settlement_instructions(plan, protocol, target, include_begin);
            let first = sent[0];
            let last = sent[sent.len() - 1];
            &&& sent.len() == begun(include_begin) + plan.chunks.len() + plan.owner_changes.len()
                + carriers(plan) + plan.receipt_balances.len() + 1
            &&& include_begin ==> {
                &&& belongs_to(first, plan, target, protocol.begin_settlement)
                &&& first.accounts.len() == 2
                &&& first.data.len() == 41
            }
            &&& belongs_to(last, plan, target, protocol.finish_settlement)
            &&& last.accounts.len() == 2
            &&& last.data.len() == 41
        }),
{
    lemma_places(plan, protocol, target, include_begin, 0);
    lemma_header(protocol.begin_settlement, plan.er_slot, plan.checksum, Seq::empty());
    lemma_header(protocol.finish_settlement, plan.er_slot, plan.checksum, Seq::empty());
    let begin = settlement_header(protocol.begin_settlement, plan.er_slot, plan.checksum);
    let finish = settlement_header(protocol.finish_settlement, plan.er_slot, plan.checksum);
    assert(begin + Seq::<u8>::empty() =~= begin);
    assert(finish + Seq::<u8>::empty() =~= finish);
}

/// Each chunk is written at its offset, after the beginning and in the order of the
/// plan: offset, length, bytes, and zeros up to the length that all of them have. The
/// account is written to, and its record is only read.
pub proof fn settlements_carry_every_chunk(
    plan: PlanModel,
    protocol: PortalProtocol,
    target: SettlementTarget,
    include_begin: bool,
    i: int,
)
    requires
        is_within(plan, protocol),
        can_be_addressed(plan, target),
        0 <= i < plan.chunks.len(),
    ensures
        ({
            let sent = settlement_instructions(plan, protocol, target, include_begin)[begun(
                include_begin,
            ) + i];
            let chunk = plan.chunks[i];
            &&& belongs_to(sent, plan, target, protocol.write_settlement_chunk)
            &&& sent.accounts.len() == 4
            &&& names(sent, 2, chunk.account, false, true)
            &&& names(
                sent,
                3,
                derived(target.program_id, record_seeds(chunk.account)),
                false,
                false,
            )
            &&& sent.data.len() == 47 + protocol.limits.max_chunk
            &&& holds_at(sent.data, 41, le(chunk.account_data_offset as nat, 4))
            &&& holds_at(sent.data, 45, le(chunk.data.len(), 2))
            &&& holds_at(sent.data, 47, chunk.data)
            &&& is_zero_from(sent.data, 47int + chunk.data.len())
        }),
{
    lemma_places(plan, protocol, target, include_begin, i);
    let chunk = plan.chunks[i];
    let sent = settlement_instructions(plan, protocol, target, include_begin)[begun(include_begin)
        + i];
    addresses_are_derived_from_seeds(target.program_id, target.session, chunk.account);
    let header = settlement_header(protocol.write_settlement_chunk, plan.er_slot, plan.checksum);
    let offset = le(chunk.account_data_offset as nat, 4);
    let len = le(chunk.data.len(), 2);
    let tail = zeros((protocol.limits.max_chunk - chunk.data.len()) as nat);
    let rest = offset + len + chunk.data + tail;
    lemma_le_len(chunk.account_data_offset as nat, 4);
    lemma_le_len(chunk.data.len(), 2);
    lemma_header(protocol.write_settlement_chunk, plan.er_slot, plan.checksum, rest);
    assert(sent.data =~= header + rest);
    assert(sent.data.subrange(41, 45) =~= offset);
    assert(sent.data.subrange(45, 47) =~= len);
    assert(sent.data.subrange(47, 47int + chunk.data.len()) =~= chunk.data);
}

/// Each new owner is written after the chunks and in the order of the plan. The account
/// and its record are written to.
pub proof fn settlements_carry_every_owner(
    plan: PlanModel,
    protocol: PortalProtocol,
    target: SettlementTarget,
    include_begin: bool,
    i: int,
)
    requires
        can_be_addressed(plan, target),
        0 <= i < plan.owner_changes.len(),
    ensures
        ({
            let sent = settlement_instructions(plan, protocol, target, include_begin)[begun(
                include_begin,
            ) + plan.chunks.len() + i];
            let change = plan.owner_changes[i];
            &&& belongs_to(sent, plan, target, protocol.settle_account_owner)
            &&& sent.accounts.len() == 4
            &&& names(sent, 2, change.account, false, true)
            &&& names(
                sent,
                3,
                derived(target.program_id, record_seeds(change.account)),
                false,
                true,
            )
            &&& sent.data.len() == 73
            &&& holds_at(sent.data, 41, change.owner@)
        }),
{
    lemma_places(plan, protocol, target, include_begin, i);
    let change = plan.owner_changes[i];
    let sent = settlement_instructions(plan, protocol, target, include_begin)[begun(include_begin)
        + plan.chunks.len() + i];
    addresses_are_derived_from_seeds(target.program_id, target.session, change.account);
    lemma_header(protocol.settle_account_owner, plan.er_slot, plan.checksum, change.owner@);
    assert(sent.data.subrange(41, 73) =~= change.owner@);
}

/// All lamports are written by one instruction after the owners: how many accounts there
/// are, their lamports in the order of the plan, and zeros up to the length that it
/// always has. Each account is written to and followed by its record.
pub proof fn settlements_carry_all_lamports(
    plan: PlanModel,
    protocol: PortalProtocol,
    target: SettlementTarget,
    include_begin: bool,
    i: int,
)
    requires
        is_within(plan, protocol),
        can_be_addressed(plan, target),
        0 <= i < plan.lamport_changes.len(),
    ensures
        ({
            let sent = settlement_instructions(plan, protocol, target, include_begin)[begun(
                include_begin,
            ) + plan.chunks.len() + plan.owner_changes.len()];
            let changes = plan.lamport_changes;
            &&& belongs_to(sent, plan, target, protocol.settle_account_lamports)
            &&& sent.accounts.len() == 2 + 2 * changes.len()
            &&& names(sent, 2 + 2 * i, changes[i].account, false, true)
            &&& names(
                sent,
                3 + 2 * i,
                derived(target.program_id, record_seeds(changes[i].account)),
                false,
                false,
            )
            &&& sent.data.len() == 42 + 8 * protocol.limits.max_lamport_accounts
            &&& sent.data[41] as nat == changes.len()
            &&& holds_at(sent.data, 42 + 8 * i, le(changes[i].lamports as nat, 8))
            &&& is_zero_from(sent.data, 42int + 8 * changes.len())
        }),
{
    lemma_places(plan, protocol, target, include_begin, 0);
    let changes = plan.lamport_changes;
    let sent = settlement_instructions(plan, protocol, target, include_begin)[begun(include_begin)
        + plan.chunks.len() + plan.owner_changes.len()];
    let header = settlement_header(protocol.settle_account_lamports, plan.er_slot, plan.checksum);
    let bytes = lamport_bytes(changes);
    let tail = zeros((8 * (protocol.limits.max_lamport_accounts - changes.len())) as nat);
    let rest = seq![changes.len() as u8] + bytes + tail;
    lemma_lamport_parts(target.program_id, changes, i);
    lemma_lamport_lengths(target.program_id, changes);
    lemma_header(protocol.settle_account_lamports, plan.er_slot, plan.checksum, rest);
    assert(sent.data =~= header + rest);
    lemma_le_len(changes[i].lamports as nat, 8);
    assert(sent.data.subrange(42 + 8 * i, 50 + 8 * i) =~= bytes.subrange(8 * i, 8 * i + 8));
}

/// Each receipt is written after the lamports and in the order of the plan: its balance,
/// and what was withdrawn. The receipt and its recipient are written to.
pub proof fn settlements_carry_every_receipt(
    plan: PlanModel,
    protocol: PortalProtocol,
    target: SettlementTarget,
    include_begin: bool,
    i: int,
)
    requires
        can_be_addressed(plan, target),
        0 <= i < plan.receipt_balances.len(),
    ensures
        ({
            let sent = settlement_instructions(plan, protocol, target, include_begin)[begun(
                include_begin,
            ) + plan.chunks.len() + plan.owner_changes.len() + carriers(plan) + i];
            let receipt = plan.receipt_balances[i];
            &&& belongs_to(sent, plan, target, protocol.settle_deposit_receipt)
            &&& sent.accounts.len() == 4
            &&& names(
                sent,
                2,
                derived(target.program_id, receipt_seeds(target.session, receipt.recipient)),
                false,
                true,
            )
            &&& names(sent, 3, receipt.recipient, false, true)
            &&& sent.data.len() == 57
            &&& holds_at(sent.data, 41, le(receipt.balance as nat, 8))
            &&& holds_at(sent.data, 49, le(receipt.withdrawn as nat, 8))
        }),
{
    lemma_places(plan, protocol, target, include_begin, i);
    let receipt = plan.receipt_balances[i];
    let sent = settlement_instructions(plan, protocol, target, include_begin)[begun(include_begin)
        + plan.chunks.len() + plan.owner_changes.len() + carriers(plan) + i];
    addresses_are_derived_from_seeds(target.program_id, target.session, receipt.recipient);
    let header = settlement_header(protocol.settle_deposit_receipt, plan.er_slot, plan.checksum);
    let balance = le(receipt.balance as nat, 8);
    let withdrawn = le(receipt.withdrawn as nat, 8);
    lemma_le_len(receipt.balance as nat, 8);
    lemma_le_len(receipt.withdrawn as nat, 8);
    lemma_header(
        protocol.settle_deposit_receipt,
        plan.er_slot,
        plan.checksum,
        balance + withdrawn,
    );
    assert(sent.data =~= header + (balance + withdrawn));
    assert(sent.data.subrange(41, 49) =~= balance);
    assert(sent.data.subrange(49, 57) =~= withdrawn);
}

/// Nothing is submitted of a plan that settles nothing or that something blocks. Any
/// other plan is submitted whole if and only if every address can be derived.
pub proof fn plans_are_submitted_whole_or_not_at_all(
    plan: PlanModel,
    protocol: PortalProtocol,
    target: SettlementTarget,
    include_begin: bool,
)
    ensures
        ({
            let sent = submission(plan, protocol, target, include_begin);
            let settles_nothing = plan.chunks.len() == 0 && plan.owner_changes.len() == 0
                && plan.lamport_changes.len() == 0 && plan.receipt_balances.len() == 0;
            let is_blocked = plan.unsupported_changes.len() > 0;
            &&& settles_nothing || is_blocked ==> (sent matches Some(instructions)
                && instructions.len() == 0)
            &&& !settles_nothing && !is_blocked ==> {
                &&& sent is Some <==> can_be_addressed(plan, target)
                &&& sent matches Some(instructions) ==> instructions == settlement_instructions(
                    plan,
                    protocol,
                    target,
                    include_begin,
                )
            }
        }),
{
    let program = target.program_id;
    assert forall|i: int| 0 <= i < plan.chunks.len() implies program_address(
        record_seeds((#[trigger] plan.chunks[i]).account),
        program,
    ) is Some == delegation_record_address(program, plan.chunks[i].account) is Some by {
        addresses_are_derived_from_seeds(program, target.session, plan.chunks[i].account);
    }
    assert forall|i: int| 0 <= i < plan.owner_changes.len() implies program_address(
        record_seeds((#[trigger] plan.owner_changes[i]).account),
        program,
    ) is Some == delegation_record_address(program, plan.owner_changes[i].account) is Some by {
        addresses_are_derived_from_seeds(program, target.session, plan.owner_changes[i].account);
    }
    assert forall|i: int| 0 <= i < plan.lamport_changes.len() implies program_address(
        record_seeds((#[trigger] plan.lamport_changes[i]).account),
        program,
    ) is Some == delegation_record_address(program, plan.lamport_changes[i].account) is Some by {
        addresses_are_derived_from_seeds(program, target.session, plan.lamport_changes[i].account);
    }
    assert forall|i: int| 0 <= i < plan.receipt_balances.len() implies program_address(
        receipt_seeds(target.session, (#[trigger] plan.receipt_balances[i]).recipient),
        program,
    ) is Some == deposit_receipt_address(
        program,
        target.session,
        plan.receipt_balances[i].recipient,
    ) is Some by {
        addresses_are_derived_from_seeds(
            program,
            target.session,
            plan.receipt_balances[i].recipient,
        );
    }
}

/// One transaction can carry instructions if and only if they name no more than 255
/// addresses and the transaction has no more than 1232 bytes. If one instruction does not
/// fit alone there is no batch at all.
pub proof fn batches_fit_packets(
    instructions: Seq<InstructionModel>,
    payer: Pubkey,
    i: int,
)
    ensures
        fits_packet(instructions, payer) <==> message_keys(instructions, payer).len() <= 255
            && serialized_transaction_size(instructions, payer) is Some
            && serialized_transaction_size(instructions, payer)->0 <= 1232,
        0 <= i < instructions.len() && !fits_packet(seq![instructions[i]], payer) ==> batches_of(
            instructions,
            payer,
        ).len() == 0,
{
}

} // verus!
