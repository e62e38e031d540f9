//! Withdrawals from the rollup.

use vstd::prelude::*;

use crate::accounts::Pubkey;
use crate::codec::{le, lemma_le_len, put_le};
use crate::instructions::{readonly, writable, AccountMeta, Instruction, InstructionModel};
use crate::well_known::{CLOCK_SYSVAR_ID, SYSTEM_PROGRAM_ID};

verus! {

/// The instruction that withdraws lamports: the number 13 and the lamports.
pub open spec fn withdrawal(
    portal: Pubkey,
    source: Pubkey,
    l1_recipient: Pubkey,
    sink: Pubkey,
    lamports: u64,
) -> InstructionModel {
    InstructionModel {
        program_id: portal,
        accounts: seq![
            writable(source, true),
            readonly(l1_recipient, false),
            writable(sink, false),
            readonly(SYSTEM_PROGRAM_ID, false),
            readonly(CLOCK_SYSVAR_ID, false),
        ],
        data: seq![13u8] + le(lamports as nat, 8),
    }
}

/// The instruction that withdraws lamports from `source` to a recipient on layer
/// one. `sink` is the account on the rollup that takes all withdrawals.
pub fn er_withdrawal_instruction(
    portal_program_id: &Pubkey,
    source: &Pubkey,
    l1_recipient: &Pubkey,
    sink: &Pubkey,
    lamports: u64,
) -> (instruction: Instruction)
    ensures
        instruction@ == withdrawal(*portal_program_id, *source, *l1_recipient, *sink, lamports),
{
    let mut data: Vec<u8> = Vec::new();
    data.push(13);
    put_le(&mut data, lamports, 8);
    let mut accounts: Vec<AccountMeta> = Vec::new();
    accounts.push(AccountMeta::new(*source, true));
    accounts.push(AccountMeta::new_readonly(*l1_recipient, false));
    accounts.push(AccountMeta::new(*sink, false));
    accounts.push(AccountMeta::new_readonly(SYSTEM_PROGRAM_ID, false));
    accounts.push(AccountMeta::new_readonly(CLOCK_SYSVAR_ID, false));
    let instruction = Instruction { program_id: *portal_program_id, accounts, data };
    assert(instruction@ =~= withdrawal(
        *portal_program_id,
        *source,
        *l1_recipient,
        *sink,
        lamports,
    ));
    instruction
}

/// A withdrawal is signed by its source, which pays into the sink; the recipient on layer
/// one is only named. Its data are the number 13 and the lamports in eight bytes.
pub proof fn withdrawals_pay_from_the_source_into_the_sink(
    portal: Pubkey,
    source: Pubkey,
    l1_recipient: Pubkey,
    sink: Pubkey,
    lamports: u64,
)
    ensures
        ({
            let sent = withdrawal(portal, source, l1_recipient, sink, lamports);
            let accounts = sent.accounts;
            &&& sent.program_id == portal
            &&& accounts.len() == 5
            &&& accounts[0].pubkey == source
            &&& accounts[0].is_signer
            &&& accounts[0].is_writable
            &&& accounts[1].pubkey == l1_recipient
            &&& !accounts[1].is_writable
            &&& accounts[2].pubkey == sink
            &&& accounts[2].is_writable
            &&& accounts[3].pubkey == SYSTEM_PROGRAM_ID
            &&& !accounts[3].is_writable
            &&& accounts[4].pubkey == CLOCK_SYSVAR_ID
            &&& !accounts[4].is_writable
            &&& forall|i: int| 1 <= i < 5 ==> !(#[trigger] accounts[i]).is_signer
            &&& sent.data.len() == 9
            &&& sent.data[0] == 13
            &&& sent.data.skip(1) == le(lamports as nat, 8)
        }),
{
    lemma_le_len(lamports as nat, 8);
    let sent = withdrawal(portal, source, l1_recipient, sink, lamports);
    assert(sent.data.skip(1) =~= le(lamports as nat, 8));
}

} // verus!
