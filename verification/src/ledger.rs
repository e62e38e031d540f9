//! What is read of a bank.

use vstd::prelude::*;

use crate::accounts::{Account, AccountModel, Pubkey};
use crate::keyed::KeyMap;
use crate::portal_state::PortalAccount;

verus! {

/// Accounts by address.
pub type AccountMap = KeyMap<Account, 32>;

/// What the accounts of a map hold.
pub open spec fn held(accounts: Map<Pubkey, Account>) -> Map<Pubkey, AccountModel> {
    accounts.map_values(|account: Account| account@)
}

/// Setting an account sets what the map holds there.
pub proof fn lemma_held_insert(accounts: Map<Pubkey, Account>, key: Pubkey, account: Account)
    ensures
        held(accounts.insert(key, account)) == held(accounts).insert(key, account@),
{
    assert(held(accounts.insert(key, account)) =~= held(accounts).insert(key, account@));
}

/// The account at an address, if there is one.
pub fn account_at<'a>(accounts: &'a AccountMap, key: &Pubkey) -> (account: Option<&'a Account>)
    requires
        accounts.well_formed(),
    ensures
        match account {
            Some(account) => held(accounts@).contains_key(*key) && held(accounts@)[*key]
                == account@,
            None => !held(accounts@).contains_key(*key),
        },
{
    accounts.get(key)
}

/// The accounts that exist in a bank, with what the data of portal accounts
/// reads as.
pub struct Snapshot {
    pub accounts: AccountMap,
    pub portal: KeyMap<PortalAccount, 32>,
}

/// What a `Snapshot` holds. `keys` are the addresses of its accounts in
/// increasing order.
#[verifier::ext_equal]
pub struct SnapshotModel {
    pub keys: Seq<Pubkey>,
    pub accounts: Map<Pubkey, AccountModel>,
    pub portal: Map<Pubkey, PortalAccount>,
}

impl View for Snapshot {
    type V = SnapshotModel;

    open spec fn view(&self) -> SnapshotModel {
        SnapshotModel {
            keys: self.accounts.listed(),
            accounts: held(self.accounts@),
            portal: self.portal@,
        }
    }
}

impl SnapshotModel {
    /// The account at an address.
    pub open spec fn account(self, key: Pubkey) -> Option<AccountModel> {
        if self.accounts.contains_key(key) {
            Some(self.accounts[key])
        } else {
            None
        }
    }

    /// What the data of the account at an address reads as.
    pub open spec fn portal_account(self, key: Pubkey) -> Option<PortalAccount> {
        if self.accounts.contains_key(key) && self.portal.contains_key(key) {
            Some(self.portal[key])
        } else {
            None
        }
    }

    /// Whether there is an account of this owner at an address.
    pub open spec fn owned_by(self, key: Pubkey, owner: Pubkey) -> bool {
        self.accounts.contains_key(key) && self.accounts[key].owner == owner
    }
}

impl Snapshot {
    pub open spec fn well_formed(&self) -> bool {
        self.accounts.well_formed() && self.portal.well_formed()
    }

    /// A snapshot without accounts.
    pub fn new() -> (snapshot: Snapshot)
        ensures
            snapshot.well_formed(),
            snapshot@.keys == Seq::<Pubkey>::empty(),
            snapshot@.accounts == Map::<Pubkey, AccountModel>::empty(),
            snapshot@.portal == Map::<Pubkey, PortalAccount>::empty(),
    {
        let snapshot = Snapshot { accounts: KeyMap::new(), portal: KeyMap::new() };
        assert(snapshot@.accounts =~= Map::<Pubkey, AccountModel>::empty());
        snapshot
    }

    /// The account at an address.
    pub fn account(&self, key: &Pubkey) -> (account: Option<&Account>)
        requires
            self.well_formed(),
        ensures
            match account {
                Some(account) => self@.account(*key) == Some(account@),
                None => self@.account(*key) is None,
            },
    {
        account_at(&self.accounts, key)
    }

    /// What the data of the account at an address reads as.
    pub fn portal_account(&self, key: &Pubkey) -> (account: Option<PortalAccount>)
        requires
            self.well_formed(),
        ensures
            account == self@.portal_account(*key),
    {
        match account_at(&self.accounts, key) {
            None => None,
            Some(_) => match self.portal.get(key) {
                Some(account) => Some(*account),
                None => None,
            },
        }
    }
}

/// An account that the bank has written since its parent. It is listed also
/// where the write removed it.
#[derive(Debug, Clone, PartialEq, Eq)]
pub struct ModifiedAccount {
    pub pubkey: Pubkey,
    pub account: Account,
    /// What the account's data reads as.
    pub portal: Option<PortalAccount>,
}

/// What a `ModifiedAccount` holds.
#[verifier::ext_equal]
pub struct ModifiedModel {
    pub pubkey: Pubkey,
    pub account: AccountModel,
    pub portal: Option<PortalAccount>,
}

impl View for ModifiedAccount {
    type V = ModifiedModel;

    open spec fn view(&self) -> ModifiedModel {
        ModifiedModel { pubkey: self.pubkey, account: self.account@, portal: self.portal }
    }
}

/// A layer-one bank: its slot, its accounts, those of its parent, and what it
/// has written since.
pub struct L1Bank {
    pub slot: u64,
    pub now: Snapshot,
    pub parent: Option<Snapshot>,
    pub modified: Vec<ModifiedAccount>,
}

/// What an `L1Bank` holds.
#[verifier::ext_equal]
pub struct L1Model {
    pub slot: u64,
    pub now: SnapshotModel,
    pub parent: Option<SnapshotModel>,
    pub modified: Seq<ModifiedModel>,
}

/// What the written accounts hold.
pub open spec fn modified_models(modified: Seq<ModifiedAccount>) -> Seq<ModifiedModel> {
    modified.map_values(|account: ModifiedAccount| account@)
}

impl View for L1Bank {
    type V = L1Model;

    open spec fn view(&self) -> L1Model {
        L1Model {
            slot: self.slot,
            now: self.now@,
            parent: match self.parent {
                Some(parent) => Some(parent@),
                None => None,
            },
            modified: modified_models(self.modified@),
        }
    }
}

impl L1Model {
    /// The account that the parent has at an address.
    pub open spec fn parent_account(self, key: Pubkey) -> Option<AccountModel> {
        match self.parent {
            Some(parent) => parent.account(key),
            None => None,
        }
    }

    /// What the data of the parent's account at an address reads as.
    pub open spec fn parent_portal_account(self, key: Pubkey) -> Option<PortalAccount> {
        match self.parent {
            Some(parent) => parent.portal_account(key),
            None => None,
        }
    }
}

impl L1Bank {
    pub open spec fn well_formed(&self) -> bool {
        &&& self.now.well_formed()
        &&& self.parent matches Some(parent) ==> parent.well_formed()
    }

    /// The account that the parent has at an address.
    pub fn parent_account(&self, key: &Pubkey) -> (account: Option<&Account>)
        requires
            self.well_formed(),
        ensures
            match account {
                Some(account) => self@.parent_account(*key) == Some(account@),
                None => self@.parent_account(*key) is None,
            },
    {
        match &self.parent {
            Some(parent) => parent.account(key),
            None => None,
        }
    }

    /// What the data of the parent's account at an address reads as.
    pub fn parent_portal_account(&self, key: &Pubkey) -> (account: Option<PortalAccount>)
        requires
            self.well_formed(),
        ensures
            account == self@.parent_portal_account(*key),
    {
        match &self.parent {
            Some(parent) => parent.portal_account(key),
            None => None,
        }
    }
}

} // verus!
