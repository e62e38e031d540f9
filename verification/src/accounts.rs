//! Accounts as plain values.

use vstd::prelude::*;

use crate::codec::same_array;

verus! {

/// An account address.
pub type Pubkey = [u8; 32];

/// Thirty-two zero bytes.
pub const ZEROS: [u8; 32] = [
    0u8, 0u8, 0u8, 0u8, 0u8, 0u8, 0u8, 0u8,
    0u8, 0u8, 0u8, 0u8, 0u8, 0u8, 0u8, 0u8,
    0u8, 0u8, 0u8, 0u8, 0u8, 0u8, 0u8, 0u8,
    0u8, 0u8, 0u8, 0u8, 0u8, 0u8, 0u8, 0u8,
];

/// The state of one account.
#[derive(Debug, Clone, PartialEq, Eq)]
pub struct Account {
    pub lamports: u64,
    pub data: Vec<u8>,
    pub owner: Pubkey,
    pub executable: bool,
    pub rent_epoch: u64,
}

/// What an `Account` holds.
#[verifier::ext_equal]
pub struct AccountModel {
    pub lamports: u64,
    pub data: Seq<u8>,
    pub owner: Pubkey,
    pub executable: bool,
    pub rent_epoch: u64,
}

impl View for Account {
    type V = AccountModel;

    open spec fn view(&self) -> AccountModel {
        AccountModel {
            lamports: self.lamports,
            data: self.data@,
            owner: self.owner,
            executable: self.executable,
            rent_epoch: self.rent_epoch,
        }
    }
}

impl Account {
    /// A copy of the account.
    pub fn copy(&self) -> (account: Account)
        ensures
            account@ == self@,
    {
        Account {
            lamports: self.lamports,
            data: self.data.clone(),
            owner: self.owner,
            executable: self.executable,
            rent_epoch: self.rent_epoch,
        }
    }
}

/// What an optional account holds.
pub open spec fn account_model(account: Option<Account>) -> Option<AccountModel> {
    match account {
        Some(account) => Some(account@),
        None => None,
    }
}

/// A copy of a list of plain values.
pub fn copy_items<T: Copy>(items: &Vec<T>) -> (copy: Vec<T>)
    ensures
        copy@ == items@,
{
    let mut copy: Vec<T> = Vec::new();
    let mut i: usize = 0;
    while i < items.len()
        invariant
            i <= items@.len(),
            copy@ == items@.take(i as int),
        decreases items@.len() - i,
    {
        copy.push(items[i]);
        i += 1;
        assert(copy@ =~= items@.take(i as int));
    }
    assert(copy@ =~= items@);
    copy
}

/// Whether `key` is one of `keys`.
pub fn contains_key(keys: &Vec<Pubkey>, key: &Pubkey) -> (found: bool)
    ensures
        found == keys@.contains(*key),
{
    let mut i: usize = 0;
    while i < keys.len()
        invariant
            i <= keys@.len(),
            forall|j: int| 0 <= j < i ==> keys@[j] != *key,
        decreases keys@.len() - i,
    {
        if same_array(&keys[i], key) {
            return true;
        }
        i += 1;
    }
    false
}

} // verus!
