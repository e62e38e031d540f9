//! When a token deposit is credited, told by the accounts of the two layers alone.

use vstd::prelude::*;

use crate::accounts::Pubkey;
use crate::addresses::{program_address, DELEGATION_SEED};
use crate::codec::le;
use crate::instructions::AccountMeta;
use crate::keyed::{increasing, lemma_order_exists};
use crate::runtime::token_deposit::{
    accounts_to_credit, deposit_of, pending, token_credit, CreditModel, ProgressKind, TokenDeposit,
    TokenModel, TokenProtocol,
};
use crate::runtime::RuntimeModel;
use crate::well_known::SYSTEM_PROGRAM_ID;

verus! {

/// The accounts that keep track of the deposits into a token account.
pub struct Tracking {
    pub origin: Pubkey,
    pub origin_bump: u8,
    pub cursor: Pubkey,
    pub cursor_bump: u8,
}

/// Layer one has the program's origin account of the token account, which says
/// that the account was taken over at `opened`, and the addresses are those that the
/// program derives.
pub open spec fn is_tracked(
    l1: TokenModel,
    protocol: TokenProtocol,
    program: Pubkey,
    account: Pubkey,
    tracking: Tracking,
    opened: u64,
) -> bool {
    &&& program_address(seq![protocol.origin_seed@, account@], program) == Some(
        (tracking.origin, tracking.origin_bump),
    )
    &&& l1.accounts.contains_key(tracking.origin)
    &&& l1.accounts[tracking.origin].owner == program
    &&& l1.progress.contains_key(tracking.origin)
    &&& l1.progress[tracking.origin].kind == ProgressKind::Origin
    &&& l1.progress[tracking.origin].balance == opened
    &&& program_address(
        seq![protocol.cursor_seed@, account@, le(opened as nat, 8)],
        program,
    ) == Some((tracking.cursor, tracking.cursor_bump))
}

/// Nothing is at the cursor's address yet, or only lamports are.
pub open spec fn cursor_is_unused(er: TokenModel, tracking: Tracking) -> bool {
    !er.accounts.contains_key(tracking.cursor) || (er.accounts[tracking.cursor].owner
        == SYSTEM_PROGRAM_ID && er.accounts[tracking.cursor].data.len() == 0)
}

/// The program's cursor says that deposits are credited up to `credited`.
pub open spec fn cursor_says(
    er: TokenModel,
    program: Pubkey,
    tracking: Tracking,
    credited: u64,
) -> bool {
    &&& !cursor_is_unused(er, tracking)
    &&& er.accounts[tracking.cursor].owner == program
    &&& er.progress.contains_key(tracking.cursor)
    &&& er.progress[tracking.cursor].kind == ProgressKind::Cursor
    &&& er.progress[tracking.cursor].bump == tracking.cursor_bump
    &&& er.progress[tracking.cursor].balance == credited
}

/// The deposits into the account are credited up to `credited`, which is not less
/// than the balance at which the account was taken over.
pub open spec fn is_credited_up_to(
    er: TokenModel,
    program: Pubkey,
    tracking: Tracking,
    opened: u64,
    credited: u64,
) -> bool {
    ||| cursor_is_unused(er, tracking) && credited == opened
    ||| cursor_says(er, program, tracking, credited) && opened <= credited
}

/// On an active rollup that is not frozen, for a delegated account whose origin and
/// cursor are in order: a deposit counts as credited if and only if its balance is
/// not beyond what is credited so far. One that is beyond is applied, if and only if
/// there is a session, a delegation record's address, and a payer in the bank;
/// otherwise it is refused. Before the first deposit the balance of the origin is
/// what is credited so far.
pub proof fn deposits_beyond_the_credit_are_applied(
    runtime: RuntimeModel,
    l1: TokenModel,
    er: TokenModel,
    protocol: TokenProtocol,
    payer: Pubkey,
    deposit: TokenDeposit,
    tracking: Tracking,
    opened: u64,
    credited: u64,
)
    requires
        runtime.active,
        runtime.delegated.contains(deposit.account),
        is_tracked(l1, protocol, deposit.program, deposit.account, tracking, opened),
        is_credited_up_to(er, deposit.program, tracking, opened, credited),
    ensures
        ({
            let credit = token_credit(runtime, l1, er, protocol, false, payer, deposit);
            let record = program_address(
                seq![DELEGATION_SEED@, deposit.account@],
                runtime.portal_program_id,
            );
            &&& credit == CreditModel::Credited <==> deposit.balance <= credited
            &&& credit is Apply <==> deposit.balance > credited && runtime.session is Some
                && record is Some && er.accounts.contains_key(payer)
            &&& credit is Apply ==> credit->cursor == tracking.cursor
        }),
{
}

/// A deposit is refused while the rollup is not active or frozen, if the account is
/// not delegated, if its origin is not in order, or if its cursor is neither unused
/// nor the program's with a balance that is not below the origin's.
pub proof fn other_deposits_are_refused(
    runtime: RuntimeModel,
    l1: TokenModel,
    er: TokenModel,
    protocol: TokenProtocol,
    frozen: bool,
    payer: Pubkey,
    deposit: TokenDeposit,
)
    requires
        token_credit(runtime, l1, er, protocol, frozen, payer, deposit) != CreditModel::Refused,
    ensures
        runtime.active,
        !frozen,
        runtime.delegated.contains(deposit.account),
        exists|tracking: Tracking, opened: u64, credited: u64|
            #[trigger] is_tracked(
                l1,
                protocol,
                deposit.program,
                deposit.account,
                tracking,
                opened,
            ) && #[trigger] is_credited_up_to(er, deposit.program, tracking, opened, credited),
{
    let found = program_address(
        seq![protocol.origin_seed@, deposit.account@],
        deposit.program,
    )->0;
    let opened = l1.progress[found.0].balance;
    let cursor = program_address(
        seq![protocol.cursor_seed@, deposit.account@, le(opened as nat, 8)],
        deposit.program,
    )->0;
    let tracking = Tracking {
        origin: found.0,
        origin_bump: found.1,
        cursor: cursor.0,
        cursor_bump: cursor.1,
    };
    let credited = if cursor_is_unused(er, tracking) {
        opened
    } else {
        er.progress[cursor.0].balance
    };
    assert(is_tracked(l1, protocol, deposit.program, deposit.account, tracking, opened));
    assert(is_credited_up_to(er, deposit.program, tracking, opened, credited));
}

/// An account of an instruction.
pub open spec fn uses(
    meta: AccountMeta,
    pubkey: Pubkey,
    is_signer: bool,
    is_writable: bool,
) -> bool {
    meta.pubkey == pubkey && meta.is_signer == is_signer && meta.is_writable == is_writable
}

/// The instruction that applies a deposit is one of the deposit's own program. It
/// carries the balance up to which deposits are to be credited. The payer signs for
/// it, and it writes the payer, the token account and the cursor, and nothing else.
pub proof fn applied_deposits_carry_the_balance(
    runtime: RuntimeModel,
    l1: TokenModel,
    er: TokenModel,
    protocol: TokenProtocol,
    frozen: bool,
    payer: Pubkey,
    deposit: TokenDeposit,
)
    requires
        token_credit(runtime, l1, er, protocol, frozen, payer, deposit) is Apply,
    ensures
        ({
            let credit = token_credit(runtime, l1, er, protocol, frozen, payer, deposit);
            let instruction = credit->instruction;
            let origin = program_address(
                seq![protocol.origin_seed@, deposit.account@],
                deposit.program,
            )->0;
            let record = program_address(
                seq![DELEGATION_SEED@, deposit.account@],
                runtime.portal_program_id,
            )->0;
            &&& instruction.program_id == deposit.program
            &&& instruction.data.len() == 9
            &&& instruction.data[0] == protocol.apply_tag
            &&& instruction.data.skip(1) =~= le(deposit.balance as nat, 8)
            &&& instruction.accounts.len() == 10
            &&& uses(instruction.accounts[0], payer, true, true)
            &&& uses(instruction.accounts[1], deposit.account, false, true)
            &&& uses(instruction.accounts[2], deposit.bridge, false, false)
            &&& uses(instruction.accounts[3], runtime.portal_program_id, false, false)
            &&& uses(instruction.accounts[4], runtime.session->0, false, false)
            &&& uses(instruction.accounts[5], record.0, false, false)
            &&& uses(instruction.accounts[6], deposit.receipt, false, false)
            &&& uses(instruction.accounts[7], origin.0, false, false)
            &&& uses(instruction.accounts[8], credit->cursor, false, true)
            &&& uses(instruction.accounts[9], SYSTEM_PROGRAM_ID, false, false)
        }),
{
    crate::codec::lemma_le_len(deposit.balance as nat, 8);
}

/// The receipt of a token account stands for a deposit if and only if the rollup has
/// the account as a valid token account and layer one has the receipt. The deposit
/// is that of the account's owner program and bridge, with the receipt's balance.
pub proof fn receipts_stand_for_deposits(
    l1: TokenModel,
    er: TokenModel,
    account: Pubkey,
    receipt: Pubkey,
)
    ensures
        deposit_of(l1, er, account, receipt) is Some <==> er.accounts.contains_key(account)
            && er.tokens.contains_key(account) && er.tokens[account].valid
            && l1.accounts.contains_key(receipt) && l1.receipts.contains_key(receipt),
        deposit_of(l1, er, account, receipt) matches Some(deposit) ==> {
            &&& deposit.program == er.accounts[account].owner
            &&& deposit.bridge == er.tokens[account].session_bridge
            &&& deposit.account == account
            &&& deposit.receipt == receipt
            &&& deposit.balance == l1.receipts[receipt]
        },
{
}

/// A deposit waits for a valid token account with a receipt unless what is credited
/// so far is exactly the receipt's balance. Without a valid token account or without
/// a receipt, none waits. Where the origin does not exist yet, one waits as soon as
/// the receipt has a balance.
pub proof fn deposits_wait_until_they_are_credited(
    l1: TokenModel,
    er: TokenModel,
    protocol: TokenProtocol,
    account: Pubkey,
    receipt: Pubkey,
    tracking: Tracking,
    opened: u64,
    credited: u64,
)
    ensures
        !er.accounts.contains_key(account) || !er.tokens.contains_key(account)
            || !er.tokens[account].valid || !l1.accounts.contains_key(receipt) ==> !pending(
            l1,
            er,
            protocol,
            account,
            receipt,
        ),
        er.accounts.contains_key(account) && er.tokens.contains_key(account)
            && er.tokens[account].valid && l1.accounts.contains_key(receipt) ==> {
            let program = er.accounts[account].owner;
            let waits = pending(l1, er, protocol, account, receipt);
            &&& l1.accounts[receipt].owner != program || !l1.receipts.contains_key(receipt)
                ==> waits
            &&& l1.accounts[receipt].owner == program && l1.receipts.contains_key(receipt) ==> {
                &&& is_tracked(l1, protocol, program, account, tracking, opened)
                    && is_credited_up_to(er, program, tracking, opened, credited) ==> (waits
                    <==> l1.receipts[receipt] != credited)
                &&& is_tracked(l1, protocol, program, account, tracking, opened)
                    && !cursor_is_unused(er, tracking) && !cursor_says(
                    er,
                    program,
                    tracking,
                    er.progress[tracking.cursor].balance,
                ) ==> waits
                &&& program_address(seq![protocol.origin_seed@, account@], program) == Some(
                    (tracking.origin, tracking.origin_bump),
                ) && !l1.accounts.contains_key(tracking.origin) ==> (waits
                    <==> l1.receipts[receipt] != 0)
                &&& program_address(seq![protocol.origin_seed@, account@], program) == Some(
                    (tracking.origin, tracking.origin_bump),
                ) && l1.accounts.contains_key(tracking.origin) && (
                l1.accounts[tracking.origin].owner != program || !l1.progress.contains_key(
                    tracking.origin,
                ) || l1.progress[tracking.origin].kind != ProgressKind::Origin) ==> waits
            }
        },
{
}

/// While the rollup is active and not frozen, the deposits of every delegated
/// account are looked at, once each and in the order of the addresses. Otherwise
/// none is.
pub proof fn every_delegated_account_is_looked_at(
    runtime: RuntimeModel,
    frozen: bool,
    account: Pubkey,
)
    requires
        runtime.delegated.finite(),
    ensures
        accounts_to_credit(runtime, frozen).contains(account) <==> runtime.active && !frozen
            && runtime.delegated.contains(account),
        increasing(accounts_to_credit(runtime, frozen)),
{
    lemma_order_exists(runtime.delegated);
    let accounts = accounts_to_credit(runtime, frozen);
    assert(accounts.to_set().contains(account) <==> accounts.contains(account));
}

} // verus!
