//! What the rollup has changed, account by account.

use vstd::prelude::*;

use crate::accounts::{account_model, Account, AccountModel, Pubkey};

verus! {

/// A lattice hash: a vector of 1024 numbers modulo 65536.
#[derive(Debug, Clone, Copy, PartialEq, Eq)]
pub struct LtHash {
    pub elements: [u16; 1024],
}

/// One account whose rollup state hash differs from its layer-one state hash.
#[derive(Debug, Clone, PartialEq, Eq)]
pub struct ErStateDiffAccount {
    pub pubkey: Pubkey,
    pub l1_account: Option<Account>,
    pub er_account: Account,
    pub l1_lt_hash: LtHash,
    pub er_lt_hash: LtHash,
}

/// What an `ErStateDiffAccount` holds.
#[verifier::ext_equal]
pub struct DiffModel {
    pub pubkey: Pubkey,
    pub l1_account: Option<AccountModel>,
    pub er_account: AccountModel,
    pub l1_lt_hash: LtHash,
    pub er_lt_hash: LtHash,
}

impl View for ErStateDiffAccount {
    type V = DiffModel;

    open spec fn view(&self) -> DiffModel {
        DiffModel {
            pubkey: self.pubkey,
            l1_account: account_model(self.l1_account),
            er_account: self.er_account@,
            l1_lt_hash: self.l1_lt_hash,
            er_lt_hash: self.er_lt_hash,
        }
    }
}

/// The hash that every account without lamports has.
pub open spec fn is_identity(hash: LtHash) -> bool {
    forall|i: int| 0 <= i < 1024 ==> hash.elements@[i] == 0
}

/// The sum of two hashes.
pub open spec fn is_sum(a: LtHash, b: LtHash, sum: LtHash) -> bool {
    forall|i: int|
        0 <= i < 1024 ==> (#[trigger] sum.elements@[i]) as int == (a.elements@[i] + b.elements@[i])
            % 65536
}

/// The difference of two hashes.
pub open spec fn is_difference(a: LtHash, b: LtHash, difference: LtHash) -> bool {
    forall|i: int|
        0 <= i < 1024 ==> (#[trigger] difference.elements@[i]) as int == (a.elements@[i]
            - b.elements@[i]) % 65536
}

/// The lattice hash of an account.
pub uninterp spec fn account_lt_hash(
    lamports: u64,
    data: Seq<u8>,
    owner: [u8; 32],
    executable: bool,
    pubkey: [u8; 32],
) -> [u16; 1024];

/// The lattice hash of an account.
pub open spec fn lt_hash_of(account: AccountModel, pubkey: Pubkey) -> LtHash {
    LtHash {
        elements: account_lt_hash(
            account.lamports,
            account.data,
            account.owner,
            account.executable,
            pubkey,
        ),
    }
}

/// Calls `solana_accounts_db::accounts_db::AccountsDb::lt_hash_account`. Claims
/// that the hash depends on nothing but the address and the account's lamports,
/// data, owner and executable flag, and that it is zero throughout if there are
/// no lamports.
#[verifier::external_body]
pub(crate) fn lt_hash_account(account: &Account, pubkey: &Pubkey) -> (hash: LtHash)
    ensures
        hash.elements == account_lt_hash(
            account.lamports,
            account.data@,
            account.owner,
            account.executable,
            *pubkey,
        ),
        account.lamports == 0 ==> is_identity(hash),
{
    let key = solana_pubkey::Pubkey::new_from_array(*pubkey);
    let account = solana_account::Account {
        lamports: account.lamports,
        data: account.data.clone(),
        owner: solana_pubkey::Pubkey::new_from_array(account.owner),
        executable: account.executable,
        rent_epoch: account.rent_epoch,
    };
    let hash = solana_accounts_db::accounts_db::AccountsDb::lt_hash_account(&account, &key);
    LtHash { elements: (hash.0).0 }
}

/// The checksum of a lattice hash.
pub uninterp spec fn lt_checksum(elements: Seq<u16>) -> [u8; 32];

impl LtHash {
    /// The hash of nothing.
    pub fn identity() -> (hash: LtHash)
        ensures
            is_identity(hash),
    {
        LtHash { elements: [0u16; 1024] }
    }

    /// Calls `solana_lattice_hash::lt_hash::LtHash::mix_in`. Claims that it adds
    /// the other hash, element by element, modulo 65536.
    #[verifier::external_body]
    pub(crate) fn mix_in(&mut self, other: &LtHash)
        ensures
            is_sum(*old(self), *other, *final(self)),
    {
        let mut hash = solana_lattice_hash::lt_hash::LtHash(self.elements);
        hash.mix_in(&solana_lattice_hash::lt_hash::LtHash(other.elements));
        self.elements = hash.0;
    }

    /// Calls `solana_lattice_hash::lt_hash::LtHash::mix_out`. Claims that it
    /// subtracts the other hash, element by element, modulo 65536.
    #[verifier::external_body]
    pub(crate) fn mix_out(&mut self, other: &LtHash)
        ensures
            is_difference(*old(self), *other, *final(self)),
    {
        let mut hash = solana_lattice_hash::lt_hash::LtHash(self.elements);
        hash.mix_out(&solana_lattice_hash::lt_hash::LtHash(other.elements));
        self.elements = hash.0;
    }

    /// Calls `solana_lattice_hash::lt_hash::LtHash::checksum`. Claims only that
    /// the checksum depends on nothing but the elements.
    #[verifier::external_body]
    fn short_checksum(&self) -> (checksum: [u8; 32])
        ensures
            checksum == lt_checksum(self.elements@),
    {
        solana_lattice_hash::lt_hash::LtHash(self.elements).checksum().0
    }

    /// Whether two hashes are equal.
    pub fn same(&self, other: &LtHash) -> (same: bool)
        ensures
            same == (*self == *other),
    {
        let mut i: usize = 0;
        while i < 1024
            invariant
                i <= 1024,
                forall|j: int| 0 <= j < i ==> self.elements@[j] == other.elements@[j],
            decreases 1024 - i,
        {
            if self.elements[i] != other.elements[i] {
                return false;
            }
            i += 1;
        }
        assert(self.elements =~= other.elements);
        true
    }
}

/// All accounts that differ, with the accumulated difference of their hashes.
#[derive(Debug, Clone, PartialEq, Eq)]
pub struct ErStateDiff {
    pub accounts: Vec<ErStateDiffAccount>,
    pub lt_hash: LtHash,
}

impl ErStateDiff {
    /// The checksum of the accumulated difference.
    pub fn checksum(&self) -> (checksum: [u8; 32])
        ensures
            checksum == lt_checksum(self.lt_hash.elements@),
    {
        self.lt_hash.short_checksum()
    }
}

/// What the differences hold.
pub open spec fn diff_models(accounts: Seq<ErStateDiffAccount>) -> Seq<DiffModel> {
    accounts.map_values(|account: ErStateDiffAccount| account@)
}

} // verus!
