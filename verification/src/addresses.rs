//! Addresses that the portal program derives.

use vstd::prelude::*;

use crate::accounts::Pubkey;

verus! {

/// `delegation`
pub const DELEGATION_SEED: [u8; 10] = [
    100u8, 101u8, 108u8, 101u8, 103u8, 97u8, 116u8, 105u8, 111u8, 110u8,
];

/// `deposit_receipt`
pub const DEPOSIT_RECEIPT_SEED: [u8; 15] = [
    100u8, 101u8, 112u8, 111u8, 115u8, 105u8, 116u8, 95u8, 114u8, 101u8, 99u8, 101u8, 105u8,
    112u8, 116u8,
];

/// `session`
pub const SESSION_SEED: [u8; 7] = [115u8, 101u8, 115u8, 115u8, 105u8, 111u8, 110u8];

/// The address that a program derives from seeds, with its bump seed.
pub uninterp spec fn program_address(
    seeds: Seq<Seq<u8>>,
    program_id: [u8; 32],
) -> Option<([u8; 32], u8)>;

/// Calls `solana_pubkey::Pubkey::try_find_program_address`. Claims only that
/// the address, or that there is none, depends on nothing but the seeds and the
/// program.
#[verifier::external_body]
pub(crate) fn find_address(seeds: &Vec<Vec<u8>>, program_id: &Pubkey) -> (r: Option<(Pubkey, u8)>)
    ensures
        r == program_address(seeds@.map_values(|seed: Vec<u8>| seed@), *program_id),
{
    let seeds: Vec<&[u8]> = seeds.iter().map(|seed| seed.as_slice()).collect();
    let program_id = solana_pubkey::Pubkey::new_from_array(*program_id);
    solana_pubkey::Pubkey::try_find_program_address(&seeds, &program_id).map(
        |(address, bump)| (address.to_bytes(), bump),
    )
}

/// The address of the record of a delegated account.
pub open spec fn delegation_record_address(program_id: Pubkey, account: Pubkey) -> Option<Pubkey> {
    match program_address(seq![DELEGATION_SEED@, account@], program_id) {
        Some((address, _)) => Some(address),
        None => None,
    }
}

/// The address of the deposit receipt of a recipient in a session.
pub open spec fn deposit_receipt_address(
    program_id: Pubkey,
    session: Pubkey,
    recipient: Pubkey,
) -> Option<Pubkey> {
    match program_address(seq![DEPOSIT_RECEIPT_SEED@, session@, recipient@], program_id) {
        Some((address, _)) => Some(address),
        None => None,
    }
}

pub(crate) fn bytes_of(bytes: &[u8]) -> (copy: Vec<u8>)
    ensures
        copy@ == bytes@,
{
    let mut copy: Vec<u8> = Vec::new();
    copy.extend_from_slice(bytes);
    assert(copy@ =~= bytes@);
    copy
}

/// The address of the record of a delegated account, or `None` if no bump seed
/// gives one.
pub fn find_delegation_record_pda(program_id: &Pubkey, account: &Pubkey) -> (r: Option<Pubkey>)
    ensures
        r == delegation_record_address(*program_id, *account),
{
    let mut seeds: Vec<Vec<u8>> = Vec::new();
    seeds.push(bytes_of(&DELEGATION_SEED));
    seeds.push(bytes_of(account));
    assert(seeds@.map_values(|seed: Vec<u8>| seed@) =~= seq![DELEGATION_SEED@, account@]);
    match find_address(&seeds, program_id) {
        Some((address, _)) => Some(address),
        None => None,
    }
}

/// The address of the deposit receipt of a recipient in a session, or `None` if
/// no bump seed gives one.
pub fn find_deposit_receipt_pda(
    program_id: &Pubkey,
    session: &Pubkey,
    recipient: &Pubkey,
) -> (r: Option<Pubkey>)
    ensures
        r == deposit_receipt_address(*program_id, *session, *recipient),
{
    let mut seeds: Vec<Vec<u8>> = Vec::new();
    seeds.push(bytes_of(&DEPOSIT_RECEIPT_SEED));
    seeds.push(bytes_of(session));
    seeds.push(bytes_of(recipient));
    assert(seeds@.map_values(|seed: Vec<u8>| seed@) =~= seq![
        DEPOSIT_RECEIPT_SEED@,
        session@,
        recipient@,
    ]);
    match find_address(&seeds, program_id) {
        Some((address, _)) => Some(address),
        None => None,
    }
}

/// The address of the session.
pub open spec fn session_address(program_id: Pubkey) -> Option<Pubkey> {
    match program_address(seq![SESSION_SEED@], program_id) {
        Some((address, _)) => Some(address),
        None => None,
    }
}

/// The address of the session, or `None` if no bump seed gives one.
pub fn find_session_pda(program_id: &Pubkey) -> (r: Option<Pubkey>)
    ensures
        r == session_address(*program_id),
{
    let mut seeds: Vec<Vec<u8>> = Vec::new();
    seeds.push(bytes_of(&SESSION_SEED));
    assert(seeds@.map_values(|seed: Vec<u8>| seed@) =~= seq![SESSION_SEED@]);
    match find_address(&seeds, program_id) {
        Some((address, _)) => Some(address),
        None => None,
    }
}

} // verus!
