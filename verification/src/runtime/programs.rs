//! Programs that own delegated accounts.

use vstd::prelude::*;

use crate::accounts::{Account, AccountModel, Pubkey};
use crate::codec::same_array;
use crate::ledger::{Snapshot, SnapshotModel};
use crate::runtime::{BankUpdate, UpdateModel};
use crate::well_known::{
    BPF_LOADER_DEPRECATED_ID, BPF_LOADER_ID, BPF_LOADER_UPGRADEABLE_ID, LOADER_V4_ID,
};

verus! {

/// The data starts as that of an upgradeable program does: the number two in
/// four bytes, and the address of its code.
pub open spec fn names_programdata(data: Seq<u8>) -> bool {
    &&& data.len() >= 36
    &&& data[0] == 2
    &&& data[1] == 0
    &&& data[2] == 0
    &&& data[3] == 0
}

/// The address in bytes 4 to 35.
pub open spec fn programdata_in(data: Seq<u8>) -> Pubkey {
    choose|address: Pubkey| address@ == data.subrange(4, 36)
}

/// Where the code of an upgradeable program is.
pub open spec fn programdata_address(data: Seq<u8>) -> Option<Pubkey> {
    if names_programdata(data) {
        Some(programdata_in(data))
    } else {
        None
    }
}

/// Calls `bincode::deserialize` for
/// `solana_loader_v3_interface::state::UpgradeableLoaderState`. Claims that it
/// reads a `Program` exactly where the data starts with the number two in four
/// little-endian bytes and 32 bytes follow, and that those are the address.
#[verifier::external_body]
pub(crate) fn read_programdata_address(data: &[u8]) -> (address: Option<Pubkey>)
    ensures
        match address {
            Some(address) => names_programdata(data@) && address@ == data@.subrange(4, 36),
            None => !names_programdata(data@),
        },
{
    match bincode::deserialize(data) {
        Ok(
            solana_loader_v3_interface::state::UpgradeableLoaderState::Program {
                programdata_address,
            },
        ) => Some(programdata_address.to_bytes()),
        _ => None,
    }
}

fn find_programdata_address(data: &Vec<u8>) -> (address: Option<Pubkey>)
    ensures
        address == programdata_address(data@),
{
    let address = read_programdata_address(data);
    proof {
        if let Some(address) = address {
            let other = programdata_in(data@);
            assert(other@ == data@.subrange(4, 36));
            assert(other =~= address);
        }
    }
    address
}

/// A program and, if it is upgradeable and there, its code.
#[derive(Debug, Clone, PartialEq, Eq)]
pub struct OwnerProgram {
    pub account: Account,
    pub programdata: Option<(Pubkey, Account)>,
}

/// What an `OwnerProgram` holds.
#[verifier::ext_equal]
pub struct ProgramModel {
    pub account: AccountModel,
    pub programdata: Option<(Pubkey, AccountModel)>,
}

/// What optional code holds.
pub open spec fn programdata_model(programdata: Option<(Pubkey, Account)>) -> Option<
    (Pubkey, AccountModel),
> {
    match programdata {
        Some((address, account)) => Some((address, account@)),
        None => None,
    }
}

impl View for OwnerProgram {
    type V = ProgramModel;

    open spec fn view(&self) -> ProgramModel {
        ProgramModel {
            account: self.account@,
            programdata: programdata_model(self.programdata),
        }
    }
}

/// Where the code of a program is, if the program is upgradeable.
pub open spec fn code_address(program: AccountModel) -> Option<Pubkey> {
    if program.owner == BPF_LOADER_UPGRADEABLE_ID {
        programdata_address(program.data)
    } else {
        None
    }
}

/// Where the code of a program is, if the program is upgradeable.
pub fn find_code_address(program: &Account) -> (address: Option<Pubkey>)
    ensures
        address == code_address(program@),
{
    if same_array(&program.owner, &BPF_LOADER_UPGRADEABLE_ID) {
        find_programdata_address(&program.data)
    } else {
        None
    }
}

/// A program as layer one has it: with its code, if it is upgradeable and its
/// code is there.
pub open spec fn program_on(l1: SnapshotModel, program: Pubkey) -> Option<ProgramModel> {
    match l1.account(program) {
        None => None,
        Some(account) => Some(
            ProgramModel {
                account,
                programdata: match code_address(account) {
                    None => None,
                    Some(address) => match l1.account(address) {
                        None => None,
                        Some(code) => Some((address, code)),
                    },
                },
            },
        ),
    }
}

/// What an optional program holds.
pub open spec fn program_model(program: Option<OwnerProgram>) -> Option<ProgramModel> {
    match program {
        Some(program) => Some(program@),
        None => None,
    }
}

/// A program as layer one has it.
pub fn find_program_on(l1: &Snapshot, program: &Pubkey) -> (r: Option<OwnerProgram>)
    requires
        l1.well_formed(),
    ensures
        program_model(r) == program_on(l1@, *program),
{
    match l1.account(program) {
        None => None,
        Some(account) => {
            let programdata = match find_code_address(account) {
                None => None,
                Some(address) => match l1.account(&address) {
                    None => None,
                    Some(code) => Some((address, code.copy())),
                },
            };
            Some(OwnerProgram { account: account.copy(), programdata })
        },
    }
}

/// The update with the writes of a program: the program and its code.
pub open spec fn with_program(
    update: UpdateModel,
    program: Pubkey,
    found: ProgramModel,
) -> UpdateModel {
    let update = update.and_write(program, found.account);
    match found.programdata {
        Some((address, code)) => update.and_write(address, code),
        None => update,
    }
}

/// Adds the writes of a program.
pub fn push_program(update: &mut BankUpdate, program: Pubkey, found: &OwnerProgram)
    ensures
        final(update)@ == with_program(old(update)@, program, found@),
{
    update.push_write(program, found.account.copy());
    if let Some((address, code)) = &found.programdata {
        update.push_write(*address, code.copy());
    }
}

/// Whether a program is loaded by one of the loaders, and not part of the bank.
pub open spec fn is_reloadable(program: AccountModel) -> bool {
    ||| program.owner == BPF_LOADER_UPGRADEABLE_ID
    ||| program.owner == BPF_LOADER_ID
    ||| program.owner == BPF_LOADER_DEPRECATED_ID
    ||| program.owner == LOADER_V4_ID
}

/// Whether a program is loaded by one of the loaders.
pub fn is_reloadable_program_account(program: &Account) -> (reloadable: bool)
    ensures
        reloadable == is_reloadable(program@),
{
    same_array(&program.owner, &BPF_LOADER_UPGRADEABLE_ID) || same_array(
        &program.owner,
        &BPF_LOADER_ID,
    ) || same_array(&program.owner, &BPF_LOADER_DEPRECATED_ID) || same_array(
        &program.owner,
        &LOADER_V4_ID,
    )
}

/// The update with the program to be loaded anew, if it is loaded at all.
pub open spec fn with_reload(
    update: UpdateModel,
    program: Pubkey,
    account: AccountModel,
) -> UpdateModel {
    if is_reloadable(account) {
        update.and_reload(program)
    } else {
        update
    }
}

/// Adds the program to those to be loaded anew, if it is loaded at all.
pub fn push_reload_of(update: &mut BankUpdate, program: Pubkey, account: &Account)
    ensures
        final(update)@ == with_reload(old(update)@, program, account@),
{
    if is_reloadable_program_account(account) {
        update.push_reload(program);
    }
}

} // verus!
