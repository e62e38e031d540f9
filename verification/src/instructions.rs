//! Instructions as plain values.

use vstd::prelude::*;

use crate::accounts::Pubkey;

verus! {

/// An account that an instruction uses.
#[derive(Debug, Clone, Copy, PartialEq, Eq)]
pub struct AccountMeta {
    pub pubkey: Pubkey,
    pub is_signer: bool,
    pub is_writable: bool,
}

impl AccountMeta {
    /// An account that is written.
    pub fn new(pubkey: Pubkey, is_signer: bool) -> (meta: AccountMeta)
        ensures
            meta == writable(pubkey, is_signer),
    {
        AccountMeta { pubkey, is_signer, is_writable: true }
    }

    /// An account that is only read.
    pub fn new_readonly(pubkey: Pubkey, is_signer: bool) -> (meta: AccountMeta)
        ensures
            meta == readonly(pubkey, is_signer),
    {
        AccountMeta { pubkey, is_signer, is_writable: false }
    }
}

pub open spec fn writable(pubkey: Pubkey, is_signer: bool) -> AccountMeta {
    AccountMeta { pubkey, is_signer, is_writable: true }
}

pub open spec fn readonly(pubkey: Pubkey, is_signer: bool) -> AccountMeta {
    AccountMeta { pubkey, is_signer, is_writable: false }
}

/// A call of a program.
#[derive(Debug, Clone, PartialEq, Eq)]
pub struct Instruction {
    pub program_id: Pubkey,
    pub accounts: Vec<AccountMeta>,
    pub data: Vec<u8>,
}

/// What an `Instruction` holds.
#[verifier::ext_equal]
pub struct InstructionModel {
    pub program_id: Pubkey,
    pub accounts: Seq<AccountMeta>,
    pub data: Seq<u8>,
}

impl View for Instruction {
    type V = InstructionModel;

    open spec fn view(&self) -> InstructionModel {
        InstructionModel {
            program_id: self.program_id,
            accounts: self.accounts@,
            data: self.data@,
        }
    }
}

impl Instruction {
    /// A copy of the instruction.
    pub fn copy(&self) -> (instruction: Instruction)
        ensures
            instruction@ == self@,
    {
        let mut accounts: Vec<AccountMeta> = Vec::new();
        let mut i: usize = 0;
        while i < self.accounts.len()
            invariant
                i <= self.accounts@.len(),
                accounts@ == self.accounts@.take(i as int),
            decreases self.accounts@.len() - i,
        {
            accounts.push(self.accounts[i]);
            i += 1;
            assert(accounts@ =~= self.accounts@.take(i as int));
        }
        assert(accounts@ =~= self.accounts@);
        Instruction { program_id: self.program_id, accounts, data: self.data.clone() }
    }
}

/// What the instructions hold.
pub open spec fn instruction_models(instructions: Seq<Instruction>) -> Seq<InstructionModel> {
    instructions.map_values(|instruction: Instruction| instruction@)
}

} // verus!
