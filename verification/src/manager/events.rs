//! Events on layer one.

use vstd::prelude::*;

use crate::accounts::Pubkey;
use crate::addresses::{delegation_record_address, find_delegation_record_pda};
use crate::codec::same_array;
use crate::ledger::{L1Bank, L1Model, ModifiedAccount, ModifiedModel};
use crate::portal_state::PortalAccount;
use crate::rent::{deposit_receipt_escrow_lamports, escrow};

verus! {

/// Something that happened on layer one and matters to the rollup.
#[derive(Debug, Clone, Copy, PartialEq, Eq)]
pub enum L1Event {
    /// A session was created.
    SessionOpened { session_pda: Pubkey, grid_id: u64, ttl_slots: u64, fee_cap: u64 },
    /// A session was closed.
    SessionClosed { session_pda: Pubkey, grid_id: u64 },
    /// An account was delegated to the portal program.
    AccountDelegated {
        delegation_record_pda: Pubkey,
        delegated_account: Pubkey,
        owner_program: Pubkey,
        grid_id: u64,
    },
    /// An account went back to its owner.
    AccountUndelegated { delegation_record_pda: Pubkey, delegated_account: Pubkey },
    /// A deposit was made.
    FeeDeposited {
        session_pda: Pubkey,
        /// All lamports in escrow after the deposit.
        amount: u64,
        /// What was deposited in this slot.
        delta: u64,
        /// Who is credited on the rollup.
        depositor: Pubkey,
    },
}

/// The portal program on layer one.
#[derive(Debug, Clone, Copy, PartialEq, Eq)]
pub struct PortalConfig {
    pub program_id: Pubkey,
    /// The length of a deposit receipt's data.
    pub deposit_receipt_len: u32,
}

/// Every byte is zero.
pub open spec fn zeroed(data: Seq<u8>) -> bool {
    forall|i: int| 0 <= i < data.len() ==> data[i] == 0
}

/// Whether the bank's parent has no account at an address.
pub open spec fn new_in_slot(bank: L1Model, key: Pubkey) -> bool {
    bank.parent_account(key) is None
}

/// Whether the written account is one of the portal program, is not the record
/// itself, and has its delegation record there.
pub open spec fn delegated_under(portal: Pubkey, record: Pubkey, modified: ModifiedModel) -> bool {
    &&& modified.pubkey != record
    &&& modified.account.owner == portal
    &&& delegation_record_address(portal, modified.pubkey) == Some(record)
}

/// Whether the written account was one of the portal program and is no longer,
/// is not the record itself, and has its delegation record there.
pub open spec fn undelegated_under(
    portal: Pubkey,
    bank: L1Model,
    record: Pubkey,
    modified: ModifiedModel,
) -> bool {
    &&& modified.pubkey != record
    &&& modified.account.owner != portal
    &&& bank.parent_account(modified.pubkey) matches Some(before) && before.owner == portal
    &&& delegation_record_address(portal, modified.pubkey) == Some(record)
}

/// The first written account, from `from` on, that is delegated under a record.
pub open spec fn delegated_account(
    portal: Pubkey,
    bank: L1Model,
    record: Pubkey,
    from: nat,
) -> Option<Pubkey>
    decreases bank.modified.len() - from,
{
    if from >= bank.modified.len() {
        None
    } else if delegated_under(portal, record, bank.modified[from as int]) {
        Some(bank.modified[from as int].pubkey)
    } else {
        delegated_account(portal, bank, record, from + 1)
    }
}

/// The first written account, from `from` on, that is no longer delegated under
/// a record.
pub open spec fn undelegated_account(
    portal: Pubkey,
    bank: L1Model,
    record: Pubkey,
    from: nat,
) -> Option<Pubkey>
    decreases bank.modified.len() - from,
{
    if from >= bank.modified.len() {
        None
    } else if undelegated_under(portal, bank, record, bank.modified[from as int]) {
        Some(bank.modified[from as int].pubkey)
    } else {
        undelegated_account(portal, bank, record, from + 1)
    }
}

/// The event of an account that the portal program has given up, by what it was
/// in the parent.
pub open spec fn removal_event(portal: Pubkey, bank: L1Model, key: Pubkey) -> Option<L1Event> {
    match bank.parent_portal_account(key) {
        Some(PortalAccount::Session(session)) => Some(
            L1Event::SessionClosed { session_pda: key, grid_id: session.grid_id },
        ),
        Some(PortalAccount::DelegationRecord(_)) => match undelegated_account(portal, bank, key, 0) {
            Some(account) => Some(
                L1Event::AccountUndelegated {
                    delegation_record_pda: key,
                    delegated_account: account,
                },
            ),
            None => None,
        },
        _ => None,
    }
}

/// The escrow of a deposit receipt in the bank's parent: zero if there was no
/// such account or its data was no portal account.
pub open spec fn previous_escrow(bank: L1Model, key: Pubkey, receipt_len: u32) -> u64 {
    if bank.parent_portal_account(key) is Some {
        escrow(bank.parent_account(key)->0.lamports, receipt_len)
    } else {
        0
    }
}

/// The event of a written account that the portal program owns.
pub open spec fn portal_event(
    config: PortalConfig,
    bank: L1Model,
    modified: ModifiedModel,
) -> Option<L1Event> {
    let key = modified.pubkey;
    if zeroed(modified.account.data) {
        removal_event(config.program_id, bank, key)
    } else {
        match modified.portal {
            Some(PortalAccount::Session(session)) => if new_in_slot(bank, key) {
                Some(
                    L1Event::SessionOpened {
                        session_pda: key,
                        grid_id: session.grid_id,
                        ttl_slots: session.ttl_slots,
                        fee_cap: session.fee_cap,
                    },
                )
            } else {
                None
            },
            Some(PortalAccount::DelegationRecord(record)) => if new_in_slot(bank, key) {
                match delegated_account(config.program_id, bank, key, 0) {
                    Some(account) => Some(
                        L1Event::AccountDelegated {
                            delegation_record_pda: key,
                            delegated_account: account,
                            owner_program: record.owner_program,
                            grid_id: record.grid_id,
                        },
                    ),
                    None => None,
                }
            } else {
                None
            },
            Some(PortalAccount::DepositReceipt(receipt)) => {
                let before = previous_escrow(bank, key, config.deposit_receipt_len);
                let after = escrow(modified.account.lamports, config.deposit_receipt_len);
                if after > before {
                    Some(
                        L1Event::FeeDeposited {
                            session_pda: receipt.session,
                            amount: after,
                            delta: (after - before) as u64,
                            depositor: receipt.recipient,
                        },
                    )
                } else {
                    None
                }
            },
            _ => None,
        }
    }
}

/// The event of a written account.
pub open spec fn event_of(
    config: PortalConfig,
    bank: L1Model,
    modified: ModifiedModel,
) -> Option<L1Event> {
    if modified.account.owner == config.program_id {
        portal_event(config, bank, modified)
    } else if bank.parent_account(modified.pubkey) matches Some(before) && before.owner
        == config.program_id {
        removal_event(config.program_id, bank, modified.pubkey)
    } else {
        None
    }
}

/// The events of the first `n` written accounts, in their order.
pub open spec fn events_of(config: PortalConfig, bank: L1Model, n: nat) -> Seq<L1Event>
    decreases n,
{
    if n == 0 {
        Seq::empty()
    } else {
        let before = events_of(config, bank, (n - 1) as nat);
        match event_of(config, bank, bank.modified[n - 1]) {
            Some(event) => before.push(event),
            None => before,
        }
    }
}

fn is_zeroed(data: &Vec<u8>) -> (r: bool)
    ensures
        r == zeroed(data@),
{
    let mut i: usize = 0;
    while i < data.len()
        invariant
            i <= data@.len(),
            forall|j: int| 0 <= j < i ==> data@[j] == 0,
        decreases data@.len() - i,
    {
        if data[i] != 0 {
            return false;
        }
        i += 1;
    }
    true
}

/// The delegated account under a new delegation record.
pub fn find_delegated_account(config: &PortalConfig, bank: &L1Bank, record: &Pubkey) -> (r: Option<
    Pubkey,
>)
    ensures
        r == delegated_account(config.program_id, bank@, *record, 0),
{
    let mut i: usize = 0;
    while i < bank.modified.len()
        invariant
            i <= bank.modified@.len(),
            delegated_account(config.program_id, bank@, *record, 0) == delegated_account(
                config.program_id,
                bank@,
                *record,
                i as nat,
            ),
        decreases bank.modified@.len() - i,
    {
        let modified = &bank.modified[i];
        assert(bank@.modified[i as int] == modified@);
        if !same_array(&modified.pubkey, record) && same_array(
            &modified.account.owner,
            &config.program_id,
        ) {
            if let Some(address) = find_delegation_record_pda(
                &config.program_id,
                &modified.pubkey,
            ) {
                if same_array(&address, record) {
                    return Some(modified.pubkey);
                }
            }
        }
        i += 1;
    }
    None
}

/// The account that is no longer delegated under a removed delegation record.
pub fn find_undelegated_account(config: &PortalConfig, bank: &L1Bank, record: &Pubkey) -> (r: Option<
    Pubkey,
>)
    requires
        bank.well_formed(),
    ensures
        r == undelegated_account(config.program_id, bank@, *record, 0),
{
    let mut i: usize = 0;
    while i < bank.modified.len()
        invariant
            bank.well_formed(),
            i <= bank.modified@.len(),
            undelegated_account(config.program_id, bank@, *record, 0) == undelegated_account(
                config.program_id,
                bank@,
                *record,
                i as nat,
            ),
        decreases bank.modified@.len() - i,
    {
        let modified = &bank.modified[i];
        assert(bank@.modified[i as int] == modified@);
        if !same_array(&modified.pubkey, record) && !same_array(
            &modified.account.owner,
            &config.program_id,
        ) {
            let was_portal = match bank.parent_account(&modified.pubkey) {
                Some(before) => same_array(&before.owner, &config.program_id),
                None => false,
            };
            if was_portal {
                if let Some(address) = find_delegation_record_pda(
                    &config.program_id,
                    &modified.pubkey,
                ) {
                    if same_array(&address, record) {
                        return Some(modified.pubkey);
                    }
                }
            }
        }
        i += 1;
    }
    None
}

/// The event of an account that the portal program has given up.
pub fn parse_zeroed_account(config: &PortalConfig, bank: &L1Bank, key: &Pubkey) -> (event: Option<
    L1Event,
>)
    requires
        bank.well_formed(),
    ensures
        event == removal_event(config.program_id, bank@, *key),
{
    match bank.parent_portal_account(key) {
        Some(PortalAccount::Session(session)) => Some(
            L1Event::SessionClosed { session_pda: *key, grid_id: session.grid_id },
        ),
        Some(PortalAccount::DelegationRecord(_)) => match find_undelegated_account(
            config,
            bank,
            key,
        ) {
            Some(account) => Some(
                L1Event::AccountUndelegated {
                    delegation_record_pda: *key,
                    delegated_account: account,
                },
            ),
            None => None,
        },
        _ => None,
    }
}

/// The event of a written account that the portal program owns.
pub fn parse_event(config: &PortalConfig, bank: &L1Bank, modified: &ModifiedAccount) -> (event: Option<
    L1Event,
>)
    requires
        bank.well_formed(),
    ensures
        event == portal_event(*config, bank@, modified@),
{
    let key = modified.pubkey;
    if is_zeroed(&modified.account.data) {
        return parse_zeroed_account(config, bank, &key);
    }
    match modified.portal {
        Some(PortalAccount::Session(session)) => {
            if bank.parent_account(&key).is_none() {
                Some(
                    L1Event::SessionOpened {
                        session_pda: key,
                        grid_id: session.grid_id,
                        ttl_slots: session.ttl_slots,
                        fee_cap: session.fee_cap,
                    },
                )
            } else {
                None
            }
        },
        Some(PortalAccount::DelegationRecord(record)) => {
            if bank.parent_account(&key).is_some() {
                return None;
            }
            match find_delegated_account(config, bank, &key) {
                Some(account) => Some(
                    L1Event::AccountDelegated {
                        delegation_record_pda: key,
                        delegated_account: account,
                        owner_program: record.owner_program,
                        grid_id: record.grid_id,
                    },
                ),
                None => None,
            }
        },
        Some(PortalAccount::DepositReceipt(receipt)) => {
            let before: u64 = match (bank.parent_account(&key), bank.parent_portal_account(&key)) {
                (Some(account), Some(_)) => deposit_receipt_escrow_lamports(
                    account.lamports,
                    config.deposit_receipt_len,
                ),
                _ => 0,
            };
            let after: u64 = deposit_receipt_escrow_lamports(
                modified.account.lamports,
                config.deposit_receipt_len,
            );
            if after > before {
                Some(
                    L1Event::FeeDeposited {
                        session_pda: receipt.session,
                        amount: after,
                        delta: after - before,
                        depositor: receipt.recipient,
                    },
                )
            } else {
                None
            }
        },
        _ => None,
    }
}

/// The events of a bank: one for each written account that has one, in the order
/// in which the bank lists them.
pub fn get_l1_events(config: &PortalConfig, bank: &L1Bank) -> (events: Vec<L1Event>)
    requires
        bank.well_formed(),
    ensures
        events@ == events_of(*config, bank@, bank@.modified.len()),
{
    let mut events: Vec<L1Event> = Vec::new();
    let mut i: usize = 0;
    while i < bank.modified.len()
        invariant
            bank.well_formed(),
            i <= bank.modified@.len(),
            events@ == events_of(*config, bank@, i as nat),
        decreases bank.modified@.len() - i,
    {
        let modified = &bank.modified[i];
        assert(bank@.modified[i as int] == modified@);
        let event = if same_array(&modified.account.owner, &config.program_id) {
            parse_event(config, bank, modified)
        } else {
            let was_portal = match bank.parent_account(&modified.pubkey) {
                Some(before) => same_array(&before.owner, &config.program_id),
                None => false,
            };
            if was_portal {
                parse_zeroed_account(config, bank, &modified.pubkey)
            } else {
                None
            }
        };
        if let Some(event) = event {
            events.push(event);
        }
        i += 1;
    }
    events
}

/// A deposit event reports what the receipt's escrow has grown by: never zero,
/// and what was there before and the growth make up the whole.
pub proof fn deposits_report_the_growth(
    config: PortalConfig,
    bank: L1Model,
    modified: ModifiedModel,
    event: L1Event,
)
    requires
        event_of(config, bank, modified) == Some(event),
        event is FeeDeposited,
    ensures
        event->delta > 0,
        event->amount == previous_escrow(bank, modified.pubkey, config.deposit_receipt_len)
            + event->delta,
        event->amount == escrow(modified.account.lamports, config.deposit_receipt_len),
{
}

/// Only accounts that the portal program owns, or owned in the parent, have
/// events.
pub proof fn events_concern_portal_accounts(
    config: PortalConfig,
    bank: L1Model,
    modified: ModifiedModel,
)
    requires
        modified.account.owner != config.program_id,
        !(bank.parent_account(modified.pubkey) matches Some(before) && before.owner
            == config.program_id),
    ensures
        event_of(config, bank, modified) is None,
{
}

proof fn lemma_delegated_account_qualifies(
    portal: Pubkey,
    bank: L1Model,
    record: Pubkey,
    from: nat,
) -> (i: int)
    requires
        delegated_account(portal, bank, record, from) is Some,
    ensures
        from <= i < bank.modified.len(),
        delegated_account(portal, bank, record, from) == Some(bank.modified[i].pubkey),
        delegated_under(portal, record, bank.modified[i]),
    decreases bank.modified.len() - from,
{
    if delegated_under(portal, record, bank.modified[from as int]) {
        from as int
    } else {
        lemma_delegated_account_qualifies(portal, bank, record, from + 1)
    }
}

/// An account is reported as delegated only if the portal program owns it in
/// this bank and the record is the one derived from its address.
pub proof fn delegations_name_portal_accounts(
    config: PortalConfig,
    bank: L1Model,
    modified: ModifiedModel,
    event: L1Event,
)
    requires
        event_of(config, bank, modified) == Some(event),
        event is AccountDelegated,
    ensures
        event->AccountDelegated_delegation_record_pda == modified.pubkey,
        delegation_record_address(config.program_id, event->AccountDelegated_delegated_account)
            == Some(modified.pubkey),
        exists|i: int|
            0 <= i < bank.modified.len() && (#[trigger] bank.modified[i]).pubkey
                == event->AccountDelegated_delegated_account && bank.modified[i].account.owner
                == config.program_id,
{
    let i = lemma_delegated_account_qualifies(config.program_id, bank, modified.pubkey, 0);
}

} // verus!
