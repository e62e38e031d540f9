//! The portal instructions that apply a settlement.

use vstd::prelude::*;

use crate::accounts::Pubkey;
use crate::addresses::{
    delegation_record_address, deposit_receipt_address, find_delegation_record_pda,
    find_deposit_receipt_pda,
};
use crate::codec::{le, put_bytes, put_le};
use crate::instructions::{
    instruction_models, readonly, writable, AccountMeta, Instruction, InstructionModel,
};
use crate::settlement::chunks::{ChunkModel, SettlementChunk};
use crate::settlement::plan::{can_be_sent, plan_fits, SettlementLimits};
use crate::settlement::{
    plan_is_empty, AccountLamportsSettlement, AccountOwnerSettlement, PlanModel,
    ReceiptBalanceSettlement, SettlementPlan,
};

verus! {

/// The first byte of each portal instruction, and what one settlement can
/// carry.
#[derive(Debug, Clone, Copy, PartialEq, Eq)]
pub struct PortalProtocol {
    pub begin_settlement: u8,
    pub write_settlement_chunk: u8,
    pub settle_account_owner: u8,
    pub settle_account_lamports: u8,
    pub settle_deposit_receipt: u8,
    pub finish_settlement: u8,
    pub limits: SettlementLimits,
}

/// The length of a chunk fits in 16 bits, and the number of accounts that change
/// lamports in eight.
pub open spec fn protocol_ok(protocol: PortalProtocol) -> bool {
    &&& 0 < protocol.limits.max_chunk <= u16::MAX
    &&& protocol.limits.max_lamport_accounts <= u8::MAX
}

/// `n` zero bytes.
pub open spec fn zeros(n: nat) -> Seq<u8> {
    Seq::new(n, |i: int| 0u8)
}

/// What every settlement instruction starts with.
pub open spec fn settlement_header(tag: u8, er_slot: u64, checksum: [u8; 32]) -> Seq<u8> {
    seq![tag] + le(er_slot as nat, 8) + checksum@
}

/// The lamports of the changes, one after another.
pub open spec fn lamport_bytes(changes: Seq<AccountLamportsSettlement>) -> Seq<u8>
    decreases changes.len(),
{
    if changes.len() == 0 {
        Seq::empty()
    } else {
        lamport_bytes(changes.drop_last()) + le(changes.last().lamports as nat, 8)
    }
}

/// The accounts whose lamports change, each followed by its delegation record.
pub open spec fn lamport_metas(program_id: Pubkey, changes: Seq<AccountLamportsSettlement>) -> Seq<
    AccountMeta,
>
    decreases changes.len(),
{
    if changes.len() == 0 {
        Seq::empty()
    } else {
        lamport_metas(program_id, changes.drop_last()).push(
            writable(changes.last().account, false),
        ).push(readonly(delegation_record_address(program_id, changes.last().account)->0, false))
    }
}

/// Whom a settlement is addressed to, and by whom.
pub struct SettlementTarget {
    pub program_id: Pubkey,
    pub session: Pubkey,
    pub validator: Pubkey,
}

pub open spec fn begin_instruction(
    plan: PlanModel,
    protocol: PortalProtocol,
    target: SettlementTarget,
) -> InstructionModel {
    InstructionModel {
        program_id: target.program_id,
        accounts: seq![readonly(target.validator, true), writable(target.session, false)],
        data: settlement_header(protocol.begin_settlement, plan.er_slot, plan.checksum),
    }
}

pub open spec fn chunk_instruction(
    plan: PlanModel,
    protocol: PortalProtocol,
    target: SettlementTarget,
    chunk: ChunkModel,
) -> InstructionModel {
    InstructionModel {
        program_id: target.program_id,
        accounts: seq![
            readonly(target.validator, true),
            writable(target.session, false),
            writable(chunk.account, false),
            readonly(delegation_record_address(target.program_id, chunk.account)->0, false),
        ],
        data: settlement_header(protocol.write_settlement_chunk, plan.er_slot, plan.checksum) + le(
            chunk.account_data_offset as nat,
            4,
        ) + le(chunk.data.len(), 2) + chunk.data + zeros(
            (protocol.limits.max_chunk - chunk.data.len()) as nat,
        ),
    }
}

pub open spec fn owner_instruction(
    plan: PlanModel,
    protocol: PortalProtocol,
    target: SettlementTarget,
    change: AccountOwnerSettlement,
) -> InstructionModel {
    InstructionModel {
        program_id: target.program_id,
        accounts: seq![
            readonly(target.validator, true),
            writable(target.session, false),
            writable(change.account, false),
            writable(delegation_record_address(target.program_id, change.account)->0, false),
        ],
        data: settlement_header(protocol.settle_account_owner, plan.er_slot, plan.checksum)
            + change.owner@,
    }
}

pub open spec fn lamports_instruction(
    plan: PlanModel,
    protocol: PortalProtocol,
    target: SettlementTarget,
) -> InstructionModel {
    let changes = plan.lamport_changes;
    InstructionModel {
        program_id: target.program_id,
        accounts: seq![readonly(target.validator, true), writable(target.session, false)]
            + lamport_metas(target.program_id, changes),
        data: settlement_header(protocol.settle_account_lamports, plan.er_slot, plan.checksum)
            + seq![changes.len() as u8] + lamport_bytes(changes) + zeros(
            (8 * (protocol.limits.max_lamport_accounts - changes.len())) as nat,
        ),
    }
}

pub open spec fn receipt_instruction(
    plan: PlanModel,
    protocol: PortalProtocol,
    target: SettlementTarget,
    receipt: ReceiptBalanceSettlement,
) -> InstructionModel {
    InstructionModel {
        program_id: target.program_id,
        accounts: seq![
            readonly(target.validator, true),
            writable(target.session, false),
            writable(
                deposit_receipt_address(target.program_id, target.session, receipt.recipient)->0,
                false,
            ),
            writable(receipt.recipient, false),
        ],
        data: settlement_header(protocol.settle_deposit_receipt, plan.er_slot, plan.checksum) + le(
            receipt.balance as nat,
            8,
        ) + le(receipt.withdrawn as nat, 8),
    }
}

pub open spec fn finish_instruction(
    plan: PlanModel,
    protocol: PortalProtocol,
    target: SettlementTarget,
) -> InstructionModel {
    InstructionModel {
        program_id: target.program_id,
        accounts: seq![readonly(target.validator, true), writable(target.session, false)],
        data: settlement_header(protocol.finish_settlement, plan.er_slot, plan.checksum),
    }
}

/// The settlement: its beginning (unless it has begun already), the chunks, the
/// owners, the lamports, the receipts and its end, in this order.
pub open spec fn settlement_instructions(
    plan: PlanModel,
    protocol: PortalProtocol,
    target: SettlementTarget,
    include_begin: bool,
) -> Seq<InstructionModel> {
    let begin = if include_begin {
        seq![begin_instruction(plan, protocol, target)]
    } else {
        Seq::empty()
    };
    let chunks = plan.chunks.map_values(
        |chunk: ChunkModel| chunk_instruction(plan, protocol, target, chunk),
    );
    let owners = plan.owner_changes.map_values(
        |change: AccountOwnerSettlement| owner_instruction(plan, protocol, target, change),
    );
    let lamports = if plan.lamport_changes.len() > 0 {
        seq![lamports_instruction(plan, protocol, target)]
    } else {
        Seq::empty()
    };
    let receipts = plan.receipt_balances.map_values(
        |receipt: ReceiptBalanceSettlement| receipt_instruction(plan, protocol, target, receipt),
    );
    begin + chunks + owners + lamports + receipts + seq![finish_instruction(plan, protocol, target)]
}

/// Every address that the instructions name can be derived.
pub open spec fn addresses_found(plan: PlanModel, target: SettlementTarget) -> bool {
    &&& forall|i: int|
        0 <= i < plan.chunks.len() ==> delegation_record_address(
            target.program_id,
            (#[trigger] plan.chunks[i]).account,
        ) is Some
    &&& forall|i: int|
        0 <= i < plan.owner_changes.len() ==> delegation_record_address(
            target.program_id,
            (#[trigger] plan.owner_changes[i]).account,
        ) is Some
    &&& forall|i: int|
        0 <= i < plan.lamport_changes.len() ==> delegation_record_address(
            target.program_id,
            (#[trigger] plan.lamport_changes[i]).account,
        ) is Some
    &&& forall|i: int|
        0 <= i < plan.receipt_balances.len() ==> deposit_receipt_address(
            target.program_id,
            target.session,
            (#[trigger] plan.receipt_balances[i]).recipient,
        ) is Some
}

/// What a plan comes to: nothing if it is empty or blocked, and otherwise its
/// instructions, if every address can be derived.
pub open spec fn submission(
    plan: PlanModel,
    protocol: PortalProtocol,
    target: SettlementTarget,
    include_begin: bool,
) -> Option<Seq<InstructionModel>> {
    if plan_is_empty(plan) || plan.unsupported_changes.len() > 0 {
        Some(Seq::empty())
    } else if addresses_found(plan, target) {
        Some(settlement_instructions(plan, protocol, target, include_begin))
    } else {
        None
    }
}

fn put_zeros(out: &mut Vec<u8>, n: usize)
    ensures
        final(out)@ == old(out)@ + zeros(n as nat),
{
    let mut i: usize = 0;
    assert(out@ =~= old(out)@ + zeros(0));
    while i < n
        invariant
            i <= n,
            out@ == old(out)@ + zeros(i as nat),
        decreases n - i,
    {
        out.push(0);
        i += 1;
        assert(out@ =~= old(out)@ + zeros(i as nat));
    }
}

impl SettlementPlan {
    fn header(&self, tag: u8) -> (data: Vec<u8>)
        ensures
            data@ == settlement_header(tag, self.er_slot, self.checksum),
    {
        let mut data: Vec<u8> = Vec::new();
        data.push(tag);
        put_le(&mut data, self.er_slot, 8);
        put_bytes(&mut data, &self.checksum);
        assert(data@ =~= settlement_header(tag, self.er_slot, self.checksum));
        data
    }

    fn push_begin(
        &self,
        protocol: &PortalProtocol,
        target: &SettlementTarget,
        instructions: &mut Vec<Instruction>,
    )
        ensures
            instruction_models(final(instructions)@) == instruction_models(old(instructions)@)
                + seq![begin_instruction(self@, *protocol, *target)],
    {
        let mut accounts: Vec<AccountMeta> = Vec::new();
        accounts.push(AccountMeta::new_readonly(target.validator, true));
        accounts.push(AccountMeta::new(target.session, false));
        let data = self.header(protocol.begin_settlement);
        let instruction = Instruction { program_id: target.program_id, accounts, data };
        assert(instruction@ =~= begin_instruction(self@, *protocol, *target));
        instructions.push(instruction);
        assert(instruction_models(instructions@) =~= instruction_models(old(instructions)@)
            + seq![begin_instruction(self@, *protocol, *target)]);
    }

    fn push_finish(
        &self,
        protocol: &PortalProtocol,
        target: &SettlementTarget,
        instructions: &mut Vec<Instruction>,
    )
        ensures
            instruction_models(final(instructions)@) == instruction_models(old(instructions)@)
                + seq![finish_instruction(self@, *protocol, *target)],
    {
        let mut accounts: Vec<AccountMeta> = Vec::new();
        accounts.push(AccountMeta::new_readonly(target.validator, true));
        accounts.push(AccountMeta::new(target.session, false));
        let data = self.header(protocol.finish_settlement);
        let instruction = Instruction { program_id: target.program_id, accounts, data };
        assert(instruction@ =~= finish_instruction(self@, *protocol, *target));
        instructions.push(instruction);
        assert(instruction_models(instructions@) =~= instruction_models(old(instructions)@)
            + seq![finish_instruction(self@, *protocol, *target)]);
    }

    fn build_chunk(
        &self,
        protocol: &PortalProtocol,
        target: &SettlementTarget,
        chunk: &SettlementChunk,
    ) -> (r: Option<Instruction>)
        requires
            chunk@.data.len() <= protocol.limits.max_chunk,
            protocol_ok(*protocol),
        ensures
            match r {
                Some(instruction) => {
                    &&& delegation_record_address(target.program_id, chunk.account) is Some
                    &&& instruction@ == chunk_instruction(self@, *protocol, *target, chunk@)
                },
                None => delegation_record_address(target.program_id, chunk.account) is None,
            },
    {
        let record = match find_delegation_record_pda(&target.program_id, &chunk.account) {
            Some(record) => record,
            None => {
                return None;
            },
        };
        let mut accounts: Vec<AccountMeta> = Vec::new();
        accounts.push(AccountMeta::new_readonly(target.validator, true));
        accounts.push(AccountMeta::new(target.session, false));
        accounts.push(AccountMeta::new(chunk.account, false));
        accounts.push(AccountMeta::new_readonly(record, false));
        let mut data = self.header(protocol.write_settlement_chunk);
        put_le(&mut data, chunk.account_data_offset as u64, 4);
        put_le(&mut data, chunk.data.len() as u64, 2);
        put_bytes(&mut data, chunk.data.as_slice());
        put_zeros(&mut data, protocol.limits.max_chunk - chunk.data.len());
        let instruction = Instruction { program_id: target.program_id, accounts, data };
        assert(instruction@ =~= chunk_instruction(self@, *protocol, *target, chunk@));
        Some(instruction)
    }

    fn build_owner(
        &self,
        protocol: &PortalProtocol,
        target: &SettlementTarget,
        change: &AccountOwnerSettlement,
    ) -> (r: Option<Instruction>)
        ensures
            match r {
                Some(instruction) => {
                    &&& delegation_record_address(target.program_id, change.account) is Some
                    &&& instruction@ == owner_instruction(self@, *protocol, *target, *change)
                },
                None => delegation_record_address(target.program_id, change.account) is None,
            },
    {
        let record = match find_delegation_record_pda(&target.program_id, &change.account) {
            Some(record) => record,
            None => {
                return None;
            },
        };
        let mut accounts: Vec<AccountMeta> = Vec::new();
        accounts.push(AccountMeta::new_readonly(target.validator, true));
        accounts.push(AccountMeta::new(target.session, false));
        accounts.push(AccountMeta::new(change.account, false));
        accounts.push(AccountMeta::new(record, false));
        let mut data = self.header(protocol.settle_account_owner);
        put_bytes(&mut data, &change.owner);
        let instruction = Instruction { program_id: target.program_id, accounts, data };
        assert(instruction@ =~= owner_instruction(self@, *protocol, *target, *change));
        Some(instruction)
    }

    fn build_lamports(&self, protocol: &PortalProtocol, target: &SettlementTarget) -> (r: Option<
        Instruction,
    >)
        requires
            self@.lamport_changes.len() <= protocol.limits.max_lamport_accounts,
            protocol_ok(*protocol),
        ensures
            match r {
                Some(instruction) => {
                    &&& forall|i: int|
                        0 <= i < self@.lamport_changes.len() ==> delegation_record_address(
                            target.program_id,
                            (#[trigger] self@.lamport_changes[i]).account,
                        ) is Some
                    &&& instruction@ == lamports_instruction(self@, *protocol, *target)
                },
                None => exists|i: int|
                    0 <= i < self@.lamport_changes.len() && delegation_record_address(
                        target.program_id,
                        (#[trigger] self@.lamport_changes[i]).account,
                    ) is None,
            },
    {
        let ghost changes = self.lamport_changes@;
        let mut accounts: Vec<AccountMeta> = Vec::new();
        accounts.push(AccountMeta::new_readonly(target.validator, true));
        accounts.push(AccountMeta::new(target.session, false));
        let ghost first = accounts@;
        let mut data = self.header(protocol.settle_account_lamports);
        data.push(self.lamport_changes.len() as u8);
        let ghost header = data@;
        let mut i: usize = 0;
        assert(accounts@ =~= first + lamport_metas(target.program_id, changes.take(0)));
        assert(data@ =~= header + lamport_bytes(changes.take(0)));
        while i < self.lamport_changes.len()
            invariant
                i <= changes.len(),
                changes == self.lamport_changes@,
                accounts@ == first + lamport_metas(target.program_id, changes.take(i as int)),
                data@ == header + lamport_bytes(changes.take(i as int)),
                forall|j: int|
                    0 <= j < i ==> delegation_record_address(
                        target.program_id,
                        (#[trigger] changes[j]).account,
                    ) is Some,
            decreases changes.len() - i,
        {
            let change = &self.lamport_changes[i];
            assert(changes[i as int] == *change);
            let record = match find_delegation_record_pda(&target.program_id, &change.account) {
                Some(record) => record,
                None => {
                    assert(self@.lamport_changes[i as int] == *change);
                    return None;
                },
            };
            put_le(&mut data, change.lamports, 8);
            accounts.push(AccountMeta::new(change.account, false));
            accounts.push(AccountMeta::new_readonly(record, false));
            i += 1;
            proof {
                let now = changes.take(i as int);
                assert(now.drop_last() =~= changes.take(i - 1));
                assert(now.last() == *change);
                assert(accounts@ =~= first + lamport_metas(target.program_id, now));
                assert(data@ =~= header + lamport_bytes(now));
            }
        }
        assert(changes.take(i as int) =~= changes);
        put_zeros(
            &mut data,
            8 * (protocol.limits.max_lamport_accounts - self.lamport_changes.len()),
        );
        let instruction = Instruction { program_id: target.program_id, accounts, data };
        assert(instruction@ =~= lamports_instruction(self@, *protocol, *target));
        Some(instruction)
    }

    fn build_receipt(
        &self,
        protocol: &PortalProtocol,
        target: &SettlementTarget,
        receipt: &ReceiptBalanceSettlement,
    ) -> (r: Option<Instruction>)
        ensures
            match r {
                Some(instruction) => {
                    &&& deposit_receipt_address(
                        target.program_id,
                        target.session,
                        receipt.recipient,
                    ) is Some
                    &&& instruction@ == receipt_instruction(self@, *protocol, *target, *receipt)
                },
                None => deposit_receipt_address(
                    target.program_id,
                    target.session,
                    receipt.recipient,
                ) is None,
            },
    {
        let deposit_receipt = match find_deposit_receipt_pda(
            &target.program_id,
            &target.session,
            &receipt.recipient,
        ) {
            Some(address) => address,
            None => {
                return None;
            },
        };
        let mut accounts: Vec<AccountMeta> = Vec::new();
        accounts.push(AccountMeta::new_readonly(target.validator, true));
        accounts.push(AccountMeta::new(target.session, false));
        accounts.push(AccountMeta::new(deposit_receipt, false));
        accounts.push(AccountMeta::new(receipt.recipient, false));
        let mut data = self.header(protocol.settle_deposit_receipt);
        put_le(&mut data, receipt.balance, 8);
        put_le(&mut data, receipt.withdrawn, 8);
        let instruction = Instruction { program_id: target.program_id, accounts, data };
        assert(instruction@ =~= receipt_instruction(self@, *protocol, *target, *receipt));
        Some(instruction)
    }

    /// The instructions that apply the plan. Returns `None` if an address that
    /// they name cannot be derived.
    pub fn portal_instructions(
        &self,
        protocol: &PortalProtocol,
        portal_program_id: Pubkey,
        session_pda: Pubkey,
        validator: Pubkey,
    ) -> (r: Option<Vec<Instruction>>)
        requires
            protocol_ok(*protocol),
            can_be_sent(self@, protocol.limits),
        ensures
            match submission(
                self@,
                *protocol,
                (SettlementTarget {
                    program_id: portal_program_id,
                    session: session_pda,
                    validator,
                }),
                true,
            ) {
                Some(models) => r matches Some(list) && instruction_models(list@) == models,
                None => r is None,
            },
    {
        let target = SettlementTarget {
            program_id: portal_program_id,
            session: session_pda,
            validator,
        };
        self.portal_instructions_inner(protocol, &target, true)
    }

    /// The instructions that apply the plan, with or without its beginning.
    pub fn portal_instructions_inner(
        &self,
        protocol: &PortalProtocol,
        target: &SettlementTarget,
        include_begin: bool,
    ) -> (r: Option<Vec<Instruction>>)
        requires
            protocol_ok(*protocol),
            can_be_sent(self@, protocol.limits),
        ensures
            match submission(self@, *protocol, *target, include_begin) {
                Some(models) => r matches Some(list) && instruction_models(list@) == models,
                None => r is None,
            },
    {
        let ghost plan = self@;
        let mut list: Vec<Instruction> = Vec::new();
        assert(instruction_models(list@) =~= Seq::<InstructionModel>::empty());
        if self.is_empty() || self.has_unsupported_changes() {
            return Some(list);
        }
        if include_begin {
            self.push_begin(protocol, target, &mut list);
        }
        let ghost begin = instruction_models(list@);
        let ghost chunks = plan.chunks.map_values(
            |chunk: ChunkModel| chunk_instruction(plan, *protocol, *target, chunk),
        );
        let mut i: usize = 0;
        assert(begin + chunks.take(0) =~= begin);
        while i < self.chunks.len()
            invariant
                i <= self.chunks@.len(),
                plan == self@,
                protocol_ok(*protocol),
                plan_fits(plan, protocol.limits),
                !plan_is_empty(plan) && plan.unsupported_changes.len() == 0,
                chunks == plan.chunks.map_values(
                    |chunk: ChunkModel| chunk_instruction(plan, *protocol, *target, chunk),
                ),
                instruction_models(list@) == begin + chunks.take(i as int),
                forall|j: int|
                    0 <= j < i ==> delegation_record_address(
                        target.program_id,
                        (#[trigger] plan.chunks[j]).account,
                    ) is Some,
            decreases self.chunks@.len() - i,
        {
            assert(plan.chunks[i as int] == self.chunks@[i as int]@);
            let ghost before = instruction_models(list@);
            match self.build_chunk(protocol, target, &self.chunks[i]) {
                Some(instruction) => {
                    let ghost model = instruction@;
                    list.push(instruction);
                    assert(instruction_models(list@) =~= before.push(model));
                },
                None => {
                    return None;
                },
            }
            i += 1;
            assert(instruction_models(list@) =~= begin + chunks.take(i as int));
        }
        assert(chunks.take(i as int) =~= chunks);
        let ghost base = instruction_models(list@);
        let ghost owners = plan.owner_changes.map_values(
            |change: AccountOwnerSettlement| owner_instruction(plan, *protocol, *target, change),
        );
        let mut i: usize = 0;
        assert(base + owners.take(0) =~= base);
        while i < self.owner_changes.len()
            invariant
                i <= self.owner_changes@.len(),
                plan == self@,
                !plan_is_empty(plan) && plan.unsupported_changes.len() == 0,
                owners == plan.owner_changes.map_values(
                    |change: AccountOwnerSettlement|
                        owner_instruction(plan, *protocol, *target, change),
                ),
                instruction_models(list@) == base + owners.take(i as int),
                forall|j: int|
                    0 <= j < i ==> delegation_record_address(
                        target.program_id,
                        (#[trigger] plan.owner_changes[j]).account,
                    ) is Some,
            decreases self.owner_changes@.len() - i,
        {
            assert(plan.owner_changes[i as int] == self.owner_changes@[i as int]);
            let ghost before = instruction_models(list@);
            match self.build_owner(protocol, target, &self.owner_changes[i]) {
                Some(instruction) => {
                    let ghost model = instruction@;
                    list.push(instruction);
                    assert(instruction_models(list@) =~= before.push(model));
                },
                None => {
                    return None;
                },
            }
            i += 1;
            assert(instruction_models(list@) =~= base + owners.take(i as int));
        }
        assert(owners.take(i as int) =~= owners);
        let ghost before = instruction_models(list@);
        if self.lamport_changes.len() > 0 {
            match self.build_lamports(protocol, target) {
                Some(instruction) => {
                    let ghost model = instruction@;
                    list.push(instruction);
                    assert(instruction_models(list@) =~= before + seq![model]);
                },
                None => {
                    return None;
                },
            }
        } else {
            assert(instruction_models(list@) =~= before + Seq::<InstructionModel>::empty());
        }
        let ghost base = instruction_models(list@);
        let ghost receipts = plan.receipt_balances.map_values(
            |receipt: ReceiptBalanceSettlement|
                receipt_instruction(plan, *protocol, *target, receipt),
        );
        let mut i: usize = 0;
        assert(base + receipts.take(0) =~= base);
        while i < self.receipt_balances.len()
            invariant
                i <= self.receipt_balances@.len(),
                plan == self@,
                !plan_is_empty(plan) && plan.unsupported_changes.len() == 0,
                receipts == plan.receipt_balances.map_values(
                    |receipt: ReceiptBalanceSettlement|
                        receipt_instruction(plan, *protocol, *target, receipt),
                ),
                instruction_models(list@) == base + receipts.take(i as int),
                forall|j: int|
                    0 <= j < i ==> deposit_receipt_address(
                        target.program_id,
                        target.session,
                        (#[trigger] plan.receipt_balances[j]).recipient,
                    ) is Some,
            decreases self.receipt_balances@.len() - i,
        {
            assert(plan.receipt_balances[i as int] == self.receipt_balances@[i as int]);
            let ghost before = instruction_models(list@);
            match self.build_receipt(protocol, target, &self.receipt_balances[i]) {
                Some(instruction) => {
                    let ghost model = instruction@;
                    list.push(instruction);
                    assert(instruction_models(list@) =~= before.push(model));
                },
                None => {
                    return None;
                },
            }
            i += 1;
            assert(instruction_models(list@) =~= base + receipts.take(i as int));
        }
        assert(receipts.take(i as int) =~= receipts);
        self.push_finish(protocol, target, &mut list);
        assert(instruction_models(list@) =~= settlement_instructions(
            plan,
            *protocol,
            *target,
            include_begin,
        ));
        Some(list)
    }
}

} // verus!
