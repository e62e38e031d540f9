//! Crediting token deposits.

use vstd::prelude::*;

use crate::accounts::{Account, AccountModel, Pubkey};
use crate::addresses::{
    bytes_of, delegation_record_address, find_address, find_delegation_record_pda, program_address,
};
use crate::codec::{le, put_le, same_array};
use crate::instructions::{readonly, writable, AccountMeta, Instruction, InstructionModel};
use crate::keyed::{ordered, KeyMap};
use crate::ledger::{account_at, held, AccountMap};
use crate::runtime::{EphemeralRuntime, RuntimeModel};
use crate::well_known::SYSTEM_PROGRAM_ID;

verus! {

/// A token account on the rollup. `valid` says whether it passes the bridge
/// program's own check.
#[derive(Debug, Clone, Copy, PartialEq, Eq)]
pub struct ErTokenAccount {
    pub valid: bool,
    pub session_bridge: Pubkey,
}

/// What an account that keeps track of token deposits is.
#[derive(Debug, Clone, Copy, PartialEq, Eq)]
pub enum ProgressKind {
    Origin,
    Cursor,
    Other,
}

/// How far token deposits have been credited.
#[derive(Debug, Clone, Copy, PartialEq, Eq)]
pub struct TokenDepositProgress {
    pub kind: ProgressKind,
    pub bump: u8,
    pub balance: u64,
}

/// The accounts of a bank, with what the data of the bridge program's accounts
/// reads as.
pub struct TokenView {
    pub accounts: AccountMap,
    pub tokens: KeyMap<ErTokenAccount, 32>,
    pub progress: KeyMap<TokenDepositProgress, 32>,
    /// The balances of deposit receipts.
    pub receipts: KeyMap<u64, 32>,
}

/// What a `TokenView` holds.
#[verifier::ext_equal]
pub struct TokenModel {
    pub accounts: Map<Pubkey, AccountModel>,
    pub tokens: Map<Pubkey, ErTokenAccount>,
    pub progress: Map<Pubkey, TokenDepositProgress>,
    pub receipts: Map<Pubkey, u64>,
}

impl View for TokenView {
    type V = TokenModel;

    open spec fn view(&self) -> TokenModel {
        TokenModel {
            accounts: held(self.accounts@),
            tokens: self.tokens@,
            progress: self.progress@,
            receipts: self.receipts@,
        }
    }
}

impl TokenView {
    pub open spec fn well_formed(&self) -> bool {
        &&& self.accounts.well_formed()
        &&& self.tokens.well_formed()
        &&& self.progress.well_formed()
        &&& self.receipts.well_formed()
    }
}

/// The bridge program's protocol: the seeds of the accounts that keep track of
/// deposits, and the first byte of the instruction that applies one.
#[derive(Debug, Clone, PartialEq, Eq)]
pub struct TokenProtocol {
    pub origin_seed: Vec<u8>,
    pub cursor_seed: Vec<u8>,
    pub apply_tag: u8,
}

/// Where the balance is kept at which an account was taken over.
pub open spec fn origin_address(
    protocol: TokenProtocol,
    program: Pubkey,
    account: Pubkey,
) -> Option<Pubkey> {
    match program_address(seq![protocol.origin_seed@, account@], program) {
        Some((address, _)) => Some(address),
        None => None,
    }
}

/// Where it is kept how far deposits beyond that balance are credited, with the
/// bump seed.
pub open spec fn cursor_address(
    protocol: TokenProtocol,
    program: Pubkey,
    account: Pubkey,
    origin_balance: u64,
) -> Option<(Pubkey, u8)> {
    program_address(
        seq![protocol.cursor_seed@, account@, le(origin_balance as nat, 8)],
        program,
    )
}

fn find_origin_address(protocol: &TokenProtocol, program: &Pubkey, account: &Pubkey) -> (r: Option<
    Pubkey,
>)
    ensures
        r == origin_address(*protocol, *program, *account),
{
    let mut seeds: Vec<Vec<u8>> = Vec::new();
    seeds.push(bytes_of(&protocol.origin_seed));
    seeds.push(bytes_of(account));
    assert(seeds@.map_values(|seed: Vec<u8>| seed@) =~= seq![protocol.origin_seed@, account@]);
    match find_address(&seeds, program) {
        Some((address, _)) => Some(address),
        None => None,
    }
}

fn find_cursor_address(
    protocol: &TokenProtocol,
    program: &Pubkey,
    account: &Pubkey,
    origin_balance: u64,
) -> (r: Option<(Pubkey, u8)>)
    ensures
        r == cursor_address(*protocol, *program, *account, origin_balance),
{
    let mut balance: Vec<u8> = Vec::new();
    put_le(&mut balance, origin_balance, 8);
    assert(balance@ =~= le(origin_balance as nat, 8));
    let mut seeds: Vec<Vec<u8>> = Vec::new();
    seeds.push(bytes_of(&protocol.cursor_seed));
    seeds.push(bytes_of(account));
    seeds.push(balance);
    assert(seeds@.map_values(|seed: Vec<u8>| seed@) =~= seq![
        protocol.cursor_seed@,
        account@,
        le(origin_balance as nat, 8),
    ]);
    find_address(&seeds, program)
}

/// The account is one that was never used.
pub open spec fn is_blank(account: AccountModel) -> bool {
    account.owner == SYSTEM_PROGRAM_ID && account.data.len() == 0
}

fn is_blank_account(account: &Account) -> (blank: bool)
    ensures
        blank == is_blank(account@),
{
    same_array(&account.owner, &SYSTEM_PROGRAM_ID) && account.data.len() == 0
}

/// How far deposits are credited, as the account at the cursor's address says:
/// the origin's balance if there is no such account or it was never used, and
/// `None` if the account is not the program's cursor.
pub open spec fn cursor_balance(
    er: TokenModel,
    program: Pubkey,
    cursor: (Pubkey, u8),
    origin_balance: u64,
) -> Option<u64> {
    if !er.accounts.contains_key(cursor.0) || is_blank(er.accounts[cursor.0]) {
        Some(origin_balance)
    } else if !er.progress.contains_key(cursor.0) {
        None
    } else {
        let progress = er.progress[cursor.0];
        if er.accounts[cursor.0].owner == program && progress.kind is Cursor && progress.bump
            == cursor.1 {
            Some(progress.balance)
        } else {
            None
        }
    }
}

fn find_cursor_balance(
    er: &TokenView,
    program: &Pubkey,
    cursor: &(Pubkey, u8),
    origin_balance: u64,
) -> (r: Option<u64>)
    requires
        er.well_formed(),
    ensures
        r == cursor_balance(er@, *program, *cursor, origin_balance),
{
    match account_at(&er.accounts, &cursor.0) {
        None => Some(origin_balance),
        Some(account) => {
            if is_blank_account(account) {
                return Some(origin_balance);
            }
            match er.progress.get(&cursor.0) {
                None => None,
                Some(progress) => {
                    if same_array(&account.owner, program) && matches!(
                        progress.kind,
                        ProgressKind::Cursor,
                    ) && progress.bump == cursor.1 {
                        Some(progress.balance)
                    } else {
                        None
                    }
                },
            }
        },
    }
}

/// The balance at which an account was taken over, if the program has it on
/// layer one.
pub open spec fn origin_balance(
    l1: TokenModel,
    protocol: TokenProtocol,
    program: Pubkey,
    account: Pubkey,
) -> Option<u64> {
    match origin_address(protocol, program, account) {
        None => None,
        Some(origin) => if l1.accounts.contains_key(origin) && l1.accounts[origin].owner == program
            && l1.progress.contains_key(origin) && l1.progress[origin].kind is Origin {
            Some(l1.progress[origin].balance)
        } else {
            None
        },
    }
}

/// How far the deposits into an account are credited, and where that is kept.
/// `None` if the origin or the cursor is not in order.
pub open spec fn credited_so_far(
    l1: TokenModel,
    er: TokenModel,
    protocol: TokenProtocol,
    program: Pubkey,
    account: Pubkey,
) -> Option<(Pubkey, u64)> {
    match origin_balance(l1, protocol, program, account) {
        None => None,
        Some(origin) => match cursor_address(protocol, program, account, origin) {
            None => None,
            Some(cursor) => match cursor_balance(er, program, cursor, origin) {
                None => None,
                Some(credited) => if credited < origin {
                    None
                } else {
                    Some((cursor.0, credited))
                },
            },
        },
    }
}

fn find_origin_balance(
    l1: &TokenView,
    protocol: &TokenProtocol,
    program: &Pubkey,
    account: &Pubkey,
) -> (r: Option<u64>)
    requires
        l1.well_formed(),
    ensures
        r == origin_balance(l1@, *protocol, *program, *account),
{
    let origin = match find_origin_address(protocol, program, account) {
        Some(origin) => origin,
        None => {
            return None;
        },
    };
    match (account_at(&l1.accounts, &origin), l1.progress.get(&origin)) {
        (Some(found), Some(progress)) => {
            if same_array(&found.owner, program) && matches!(progress.kind, ProgressKind::Origin) {
                Some(progress.balance)
            } else {
                None
            }
        },
        _ => None,
    }
}

/// A token deposit to be credited.
#[derive(Debug, Clone, Copy, PartialEq, Eq)]
pub struct TokenDeposit {
    pub program: Pubkey,
    pub bridge: Pubkey,
    pub account: Pubkey,
    pub receipt: Pubkey,
    pub balance: u64,
}

/// What is to be done about a token deposit.
#[derive(Debug, Clone, PartialEq, Eq)]
pub enum TokenCredit {
    /// It cannot be credited.
    Refused,
    /// It is credited already.
    Credited,
    /// It is credited by this instruction. `cursor` then says how far.
    Apply { cursor: Pubkey, instruction: Instruction },
}

/// What a `TokenCredit` holds.
#[verifier::ext_equal]
pub enum CreditModel {
    Refused,
    Credited,
    Apply { cursor: Pubkey, instruction: InstructionModel },
}

impl View for TokenCredit {
    type V = CreditModel;

    open spec fn view(&self) -> CreditModel {
        match *self {
            TokenCredit::Refused => CreditModel::Refused,
            TokenCredit::Credited => CreditModel::Credited,
            TokenCredit::Apply { cursor, instruction } => {
                CreditModel::Apply { cursor, instruction: instruction@ }
            },
        }
    }
}

/// The instruction that credits a deposit.
pub open spec fn apply_instruction(
    protocol: TokenProtocol,
    portal: Pubkey,
    session: Pubkey,
    payer: Pubkey,
    deposit: TokenDeposit,
    delegation: Pubkey,
    origin: Pubkey,
    cursor: Pubkey,
) -> InstructionModel {
    InstructionModel {
        program_id: deposit.program,
        accounts: seq![
            writable(payer, true),
            writable(deposit.account, false),
            readonly(deposit.bridge, false),
            readonly(portal, false),
            readonly(session, false),
            readonly(delegation, false),
            readonly(deposit.receipt, false),
            readonly(origin, false),
            writable(cursor, false),
            readonly(SYSTEM_PROGRAM_ID, false),
        ],
        data: seq![protocol.apply_tag] + le(deposit.balance as nat, 8),
    }
}

/// What is to be done about a token deposit. `frozen` says that the rollup's
/// state is committed to a checkpoint.
pub open spec fn token_credit(
    runtime: RuntimeModel,
    l1: TokenModel,
    er: TokenModel,
    protocol: TokenProtocol,
    frozen: bool,
    payer: Pubkey,
    deposit: TokenDeposit,
) -> CreditModel {
    if !runtime.active || !runtime.delegated.contains(deposit.account) || frozen {
        CreditModel::Refused
    } else {
        match credited_so_far(l1, er, protocol, deposit.program, deposit.account) {
            None => CreditModel::Refused,
            Some((cursor, credited)) => if deposit.balance <= credited {
                CreditModel::Credited
            } else {
                match (
                    runtime.session,
                    delegation_record_address(runtime.portal_program_id, deposit.account),
                ) {
                    (Some(session), Some(delegation)) => if er.accounts.contains_key(payer) {
                        CreditModel::Apply {
                            cursor,
                            instruction: apply_instruction(
                                protocol,
                                runtime.portal_program_id,
                                session,
                                payer,
                                deposit,
                                delegation,
                                origin_address(protocol, deposit.program, deposit.account)->0,
                                cursor,
                            ),
                        }
                    } else {
                        CreditModel::Refused
                    },
                    _ => CreditModel::Refused,
                }
            },
        }
    }
}

/// Whether a deposit waits to be credited to a token account, and when it is not
/// clear whether one does.
pub open spec fn pending(
    l1: TokenModel,
    er: TokenModel,
    protocol: TokenProtocol,
    account: Pubkey,
    receipt: Pubkey,
) -> bool {
    &&& er.accounts.contains_key(account)
    &&& er.tokens.contains_key(account)
    &&& er.tokens[account].valid
    &&& l1.accounts.contains_key(receipt)
    &&& {
        let program = er.accounts[account].owner;
        if l1.accounts[receipt].owner != program || !l1.receipts.contains_key(receipt) {
            true
        } else {
            match origin_address(protocol, program, account) {
                None => true,
                Some(origin) => if !l1.accounts.contains_key(origin) {
                    l1.receipts[receipt] != 0
                } else {
                    match origin_balance(l1, protocol, program, account) {
                        None => true,
                        Some(balance) => match cursor_address(protocol, program, account, balance) {
                            None => true,
                            Some(cursor) => cursor_balance(er, program, cursor, balance) != Some(
                                l1.receipts[receipt],
                            ),
                        },
                    }
                },
            }
        }
    }
}

/// The deposit that the receipt of a token account stands for, if the account is
/// a valid token account and layer one has a receipt.
pub open spec fn deposit_of(
    l1: TokenModel,
    er: TokenModel,
    account: Pubkey,
    receipt: Pubkey,
) -> Option<TokenDeposit> {
    if er.accounts.contains_key(account) && er.tokens.contains_key(account)
        && er.tokens[account].valid && l1.accounts.contains_key(receipt)
        && l1.receipts.contains_key(receipt) {
        Some(
            TokenDeposit {
                program: er.accounts[account].owner,
                bridge: er.tokens[account].session_bridge,
                account,
                receipt,
                balance: l1.receipts[receipt],
            },
        )
    } else {
        None
    }
}

/// The deposit that the receipt of a token account stands for.
pub fn token_deposit_of(l1: &TokenView, er: &TokenView, account: &Pubkey, receipt: &Pubkey) -> (r: Option<
    TokenDeposit,
>)
    requires
        l1.well_formed(),
        er.well_formed(),
    ensures
        r == deposit_of(l1@, er@, *account, *receipt),
{
    match (
        account_at(&er.accounts, account),
        er.tokens.get(account),
        account_at(&l1.accounts, receipt),
        l1.receipts.get(receipt),
    ) {
        (Some(found), Some(token), Some(_), Some(balance)) => {
            if token.valid {
                Some(
                    TokenDeposit {
                        program: found.owner,
                        bridge: token.session_bridge,
                        account: *account,
                        receipt: *receipt,
                        balance: *balance,
                    },
                )
            } else {
                None
            }
        },
        _ => None,
    }
}

/// Whether a deposit waits to be credited to a token account. `receipt` is where
/// the account's deposit receipt is. Accounts that are not in order count as a
/// deposit that waits.
pub fn has_pending_token_deposit(
    l1: &TokenView,
    er: &TokenView,
    protocol: &TokenProtocol,
    account: &Pubkey,
    receipt: &Pubkey,
) -> (r: bool)
    requires
        l1.well_formed(),
        er.well_formed(),
    ensures
        r == pending(l1@, er@, *protocol, *account, *receipt),
{
    let program = match (account_at(&er.accounts, account), er.tokens.get(account)) {
        (Some(found), Some(token)) => {
            if !token.valid {
                return false;
            }
            found.owner
        },
        _ => {
            return false;
        },
    };
    let received: u64 = match account_at(&l1.accounts, receipt) {
        None => {
            return false;
        },
        Some(found) => {
            if !same_array(&found.owner, &program) {
                return true;
            }
            match l1.receipts.get(receipt) {
                Some(balance) => *balance,
                None => {
                    return true;
                },
            }
        },
    };
    let origin = match find_origin_address(protocol, &program, account) {
        Some(origin) => origin,
        None => {
            return true;
        },
    };
    if account_at(&l1.accounts, &origin).is_none() {
        return received != 0;
    }
    let balance: u64 = match find_origin_balance(l1, protocol, &program, account) {
        Some(balance) => balance,
        None => {
            return true;
        },
    };
    let cursor = match find_cursor_address(protocol, &program, account, balance) {
        Some(cursor) => cursor,
        None => {
            return true;
        },
    };
    match find_cursor_balance(er, &program, &cursor, balance) {
        Some(credited) => credited != received,
        None => true,
    }
}

/// Whether a deposit is credited, once its instruction was executed: the cursor
/// has got that far.
pub fn is_token_deposit_credited(er: &TokenView, cursor: &Pubkey, balance: u64) -> (r: bool)
    requires
        er.well_formed(),
    ensures
        r == (er@.accounts.contains_key(*cursor) && er@.progress.contains_key(*cursor)
            && er@.progress[*cursor].balance >= balance),
{
    match (account_at(&er.accounts, cursor), er.progress.get(cursor)) {
        (Some(_), Some(progress)) => progress.balance >= balance,
        _ => false,
    }
}

fn apply_deposit_instruction(
    protocol: &TokenProtocol,
    portal: &Pubkey,
    session: &Pubkey,
    payer: &Pubkey,
    deposit: &TokenDeposit,
    delegation: &Pubkey,
    origin: &Pubkey,
    cursor: &Pubkey,
) -> (instruction: Instruction)
    ensures
        instruction@ == apply_instruction(
            *protocol,
            *portal,
            *session,
            *payer,
            *deposit,
            *delegation,
            *origin,
            *cursor,
        ),
{
    let mut accounts: Vec<AccountMeta> = Vec::new();
    accounts.push(AccountMeta::new(*payer, true));
    accounts.push(AccountMeta::new(deposit.account, false));
    accounts.push(AccountMeta::new_readonly(deposit.bridge, false));
    accounts.push(AccountMeta::new_readonly(*portal, false));
    accounts.push(AccountMeta::new_readonly(*session, false));
    accounts.push(AccountMeta::new_readonly(*delegation, false));
    accounts.push(AccountMeta::new_readonly(deposit.receipt, false));
    accounts.push(AccountMeta::new_readonly(*origin, false));
    accounts.push(AccountMeta::new(*cursor, false));
    accounts.push(AccountMeta::new_readonly(SYSTEM_PROGRAM_ID, false));
    let mut data: Vec<u8> = Vec::new();
    data.push(protocol.apply_tag);
    put_le(&mut data, deposit.balance, 8);
    let instruction = Instruction { program_id: deposit.program, accounts, data };
    assert(instruction@ =~= apply_instruction(
        *protocol,
        *portal,
        *session,
        *payer,
        *deposit,
        *delegation,
        *origin,
        *cursor,
    ));
    instruction
}

/// The accounts whose token deposits are to be credited, in order.
pub open spec fn accounts_to_credit(runtime: RuntimeModel, frozen: bool) -> Seq<Pubkey> {
    if runtime.active && !frozen {
        ordered(runtime.delegated)
    } else {
        Seq::empty()
    }
}

impl EphemeralRuntime {
    /// The accounts whose token deposits are to be credited, one after another:
    /// every delegated account, in order of the addresses, while the rollup is
    /// active and its state is not frozen.
    pub fn process_token_deposits(&self, frozen: bool) -> (accounts: Vec<Pubkey>)
        requires
            self.well_formed(),
        ensures
            accounts@ == accounts_to_credit(self@, frozen),
    {
        let mut accounts: Vec<Pubkey> = Vec::new();
        if !self.active || frozen {
            return accounts;
        }
        let ghost listed = self.delegated_accounts.listed();
        let mut i: usize = 0;
        while i < self.delegated_accounts.len()
            invariant
                listed == self.delegated_accounts.listed(),
                i <= listed.len(),
                accounts@ == listed.take(i as int),
            decreases listed.len() - i,
        {
            accounts.push(self.delegated_accounts.key_at(i));
            i += 1;
            assert(listed.take(i as int) =~= listed.take(i - 1).push(listed[i - 1]));
        }
        proof {
            self.delegated_accounts.lemma_listed();
            assert(listed.take(i as int) =~= listed);
        }
        accounts
    }

    /// What is to be done about a token deposit: nothing unless the rollup is
    /// active, the account is delegated, and the state is not frozen; it is
    /// credited if the balance on layer one is beyond what is credited so far.
    pub fn credit_token_deposit(
        &self,
        l1: &TokenView,
        er: &TokenView,
        protocol: &TokenProtocol,
        frozen: bool,
        payer: &Pubkey,
        deposit: &TokenDeposit,
    ) -> (r: TokenCredit)
        requires
            self.well_formed(),
            l1.well_formed(),
            er.well_formed(),
        ensures
            r@ == token_credit(self@, l1@, er@, *protocol, frozen, *payer, *deposit),
    {
        if !self.active || !self.delegated_accounts.contains(&deposit.account) || frozen {
            return TokenCredit::Refused;
        }
        let origin_balance: u64 = match find_origin_balance(
            l1,
            protocol,
            &deposit.program,
            &deposit.account,
        ) {
            Some(balance) => balance,
            None => {
                return TokenCredit::Refused;
            },
        };
        let cursor = match find_cursor_address(
            protocol,
            &deposit.program,
            &deposit.account,
            origin_balance,
        ) {
            Some(cursor) => cursor,
            None => {
                return TokenCredit::Refused;
            },
        };
        let credited: u64 = match find_cursor_balance(
            er,
            &deposit.program,
            &cursor,
            origin_balance,
        ) {
            Some(credited) => credited,
            None => {
                return TokenCredit::Refused;
            },
        };
        if credited < origin_balance {
            return TokenCredit::Refused;
        }
        if deposit.balance <= credited {
            return TokenCredit::Credited;
        }
        let session = match self.session {
            Some(session) => session,
            None => {
                return TokenCredit::Refused;
            },
        };
        if account_at(&er.accounts, payer).is_none() {
            return TokenCredit::Refused;
        }
        match (
            find_delegation_record_pda(&self.portal_program_id, &deposit.account),
            find_origin_address(protocol, &deposit.program, &deposit.account),
        ) {
            (Some(delegation), Some(origin)) => TokenCredit::Apply {
                cursor: cursor.0,
                instruction: apply_deposit_instruction(
                    protocol,
                    &self.portal_program_id,
                    &session,
                    payer,
                    deposit,
                    &delegation,
                    &origin,
                    &cursor.0,
                ),
            },
            _ => TokenCredit::Refused,
        }
    }
}

/// A deposit that was credited is not credited again: once the cursor is at its
/// balance, it counts as credited.
pub proof fn token_deposits_are_credited_once(
    runtime: RuntimeModel,
    l1: TokenModel,
    er: TokenModel,
    protocol: TokenProtocol,
    payer: Pubkey,
    deposit: TokenDeposit,
)
    requires
        runtime.active,
        runtime.delegated.contains(deposit.account),
        origin_balance(l1, protocol, deposit.program, deposit.account) matches Some(origin)
            && cursor_address(protocol, deposit.program, deposit.account, origin) matches Some(
            cursor,
        ) && cursor_balance(er, deposit.program, cursor, origin) == Some(deposit.balance)
            && deposit.balance >= origin,
    ensures
        token_credit(runtime, l1, er, protocol, false, payer, deposit) is Credited,
{
}

/// Only a deposit beyond what is credited so far is credited.
pub proof fn token_credits_only_grow(
    runtime: RuntimeModel,
    l1: TokenModel,
    er: TokenModel,
    protocol: TokenProtocol,
    frozen: bool,
    payer: Pubkey,
    deposit: TokenDeposit,
)
    requires
        token_credit(runtime, l1, er, protocol, frozen, payer, deposit) is Apply,
    ensures
        credited_so_far(l1, er, protocol, deposit.program, deposit.account) matches Some(
            (_, credited),
        ) && credited < deposit.balance,
        runtime.active && !frozen && runtime.delegated.contains(deposit.account),
{
}

} // verus!
