//! Rent exemption.

use vstd::prelude::*;

verus! {

/// The lamports that exempt an account with this much data from rent.
pub open spec fn rent_exemption(data_len: nat) -> nat {
    (128 + data_len) * 6960
}

/// Calls `solana_rent::Rent::default().minimum_balance`. Claims that the default
/// rent asks 6960 lamports for each byte of data and for 128 bytes more. The
/// bound on the length keeps the crate's floating-point product exact.
#[verifier::external_body]
pub(crate) fn minimum_balance(data_len: usize) -> (lamports: u64)
    requires
        data_len <= 0xffff_ffff,
    ensures
        lamports == rent_exemption(data_len as nat),
{
    solana_rent::Rent::default().minimum_balance(data_len)
}

/// The lamports that a deposit receipt holds beyond its rent exemption.
pub open spec fn escrow(lamports: u64, receipt_len: u32) -> u64 {
    if lamports >= rent_exemption(receipt_len as nat) {
        (lamports - rent_exemption(receipt_len as nat)) as u64
    } else {
        0
    }
}

/// The lamports that a deposit receipt holds beyond its rent exemption, or zero
/// if it holds less than that. `receipt_len` is the length of a receipt's data.
pub fn deposit_receipt_escrow_lamports(lamports: u64, receipt_len: u32) -> (held: u64)
    ensures
        held == escrow(lamports, receipt_len),
{
    let minimum: u64 = minimum_balance(receipt_len as usize);
    if lamports >= minimum {
        lamports - minimum
    } else {
        0
    }
}

} // verus!
