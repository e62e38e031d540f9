//! Which events layer one has, told by what it had and what it has written.

use vstd::prelude::*;

use crate::accounts::Pubkey;
use crate::addresses::program_address;
use crate::ledger::{L1Model, ModifiedModel};
use crate::manager::events::{
    delegated_account, event_of, events_of, undelegated_account, L1Event, PortalConfig,
};
use crate::portal_state::{DelegationRecord, DepositReceipt, PortalAccount, Session};
use crate::settlement::delivery::{addresses_are_derived_from_seeds, record_seeds};

verus! {

/// The parent has an account at the address.
pub open spec fn was_there(bank: L1Model, key: Pubkey) -> bool {
    bank.parent is Some && (bank.parent->0).accounts.contains_key(key)
}

/// The parent's account at the address belonged to the portal program.
pub open spec fn was_the_portals(config: PortalConfig, bank: L1Model, key: Pubkey) -> bool {
    was_there(bank, key) && (bank.parent->0).accounts[key].owner == config.program_id
}

/// The data of the parent's account at the address was this portal account.
pub open spec fn was(bank: L1Model, key: Pubkey, account: PortalAccount) -> bool {
    &&& was_there(bank, key)
    &&& (bank.parent->0).portal.contains_key(key)
    &&& (bank.parent->0).portal[key] == account
}

/// The account still belongs to the portal program and has data other than zeros.
pub open spec fn is_live(config: PortalConfig, modified: ModifiedModel) -> bool {
    &&& modified.account.owner == config.program_id
    &&& exists|i: int| 0 <= i < modified.account.data.len() && modified.account.data[i] != 0
}

/// The portal program has given the account up: its data is zeros, or another program
/// owns it now.
pub open spec fn is_given_up(config: PortalConfig, bank: L1Model, modified: ModifiedModel) -> bool {
    if modified.account.owner == config.program_id {
        forall|i: int|
            0 <= i < modified.account.data.len() ==> #[trigger] modified.account.data[i] == 0
    } else {
        was_the_portals(config, bank, modified.pubkey)
    }
}

/// The record of the account is at the address.
pub open spec fn has_record_at(portal: Pubkey, account: Pubkey, record: Pubkey) -> bool {
    let found = program_address(record_seeds(account), portal);
    found is Some && (found->0).0 == record
}

/// The written account at a place is delegated under the record.
pub open spec fn is_delegated_at(
    config: PortalConfig,
    bank: L1Model,
    record: Pubkey,
    i: int,
) -> bool {
    &&& 0 <= i < bank.modified.len()
    &&& bank.modified[i].pubkey != record
    &&& bank.modified[i].account.owner == config.program_id
    &&& has_record_at(config.program_id, bank.modified[i].pubkey, record)
}

/// The written account at a place was delegated under the record, and no longer is.
pub open spec fn is_released_at(
    config: PortalConfig,
    bank: L1Model,
    record: Pubkey,
    i: int,
) -> bool {
    &&& 0 <= i < bank.modified.len()
    &&& bank.modified[i].pubkey != record
    &&& bank.modified[i].account.owner != config.program_id
    &&& was_the_portals(config, bank, bank.modified[i].pubkey)
    &&& has_record_at(config.program_id, bank.modified[i].pubkey, record)
}

proof fn lemma_first_delegated(config: PortalConfig, bank: L1Model, record: Pubkey, from: nat)
    ensures
        match delegated_account(config.program_id, bank, record, from) {
            Some(account) => exists|i: int|
                from <= i && #[trigger] is_delegated_at(config, bank, record, i)
                    && bank.modified[i].pubkey == account && forall|j: int|
                    from <= j < i ==> !#[trigger] is_delegated_at(config, bank, record, j),
            None => forall|j: int|
                from <= j ==> !#[trigger] is_delegated_at(config, bank, record, j),
        },
    decreases bank.modified.len() - from,
{
    if from < bank.modified.len() {
        addresses_are_derived_from_seeds(
            config.program_id,
            record,
            bank.modified[from as int].pubkey,
        );
        if is_delegated_at(config, bank, record, from as int) {
        } else {
            lemma_first_delegated(config, bank, record, from + 1);
            if let Some(account) = delegated_account(config.program_id, bank, record, from + 1) {
                let i = choose|i: int|
                    from + 1 <= i && #[trigger] is_delegated_at(config, bank, record, i)
                        && bank.modified[i].pubkey == account && forall|j: int|
                        from + 1 <= j < i ==> !#[trigger] is_delegated_at(config, bank, record, j);
                assert(from <= i);
            }
        }
    }
}

proof fn lemma_first_released(config: PortalConfig, bank: L1Model, record: Pubkey, from: nat)
    ensures
        match undelegated_account(config.program_id, bank, record, from) {
            Some(account) => exists|i: int|
                from <= i && #[trigger] is_released_at(config, bank, record, i)
                    && bank.modified[i].pubkey == account && forall|j: int|
                    from <= j < i ==> !#[trigger] is_released_at(config, bank, record, j),
            None => forall|j: int|
                from <= j ==> !#[trigger] is_released_at(config, bank, record, j),
        },
    decreases bank.modified.len() - from,
{
    if from < bank.modified.len() {
        addresses_are_derived_from_seeds(
            config.program_id,
            record,
            bank.modified[from as int].pubkey,
        );
        if is_released_at(config, bank, record, from as int) {
        } else {
            lemma_first_released(config, bank, record, from + 1);
            if let Some(account) = undelegated_account(config.program_id, bank, record, from + 1) {
                let i = choose|i: int|
                    from + 1 <= i && #[trigger] is_released_at(config, bank, record, i)
                        && bank.modified[i].pubkey == account && forall|j: int|
                        from + 1 <= j < i ==> !#[trigger] is_released_at(config, bank, record, j);
                assert(from <= i);
            }
        }
    }
}

/// A session is reported as opened if and only if the portal program's account reads as a
/// session and was not there before.
pub proof fn new_sessions_are_reported(
    config: PortalConfig,
    bank: L1Model,
    modified: ModifiedModel,
    session: Session,
)
    ensures
        is_live(config, modified) && modified.portal == Some(PortalAccount::Session(session))
            && !was_there(bank, modified.pubkey) ==> event_of(config, bank, modified) == Some(
            L1Event::SessionOpened {
                session_pda: modified.pubkey,
                grid_id: session.grid_id,
                ttl_slots: session.ttl_slots,
                fee_cap: session.fee_cap,
            },
        ),
        (event_of(config, bank, modified) matches Some(event) && event is SessionOpened) ==> {
            &&& is_live(config, modified)
            &&& modified.portal matches Some(PortalAccount::Session(_))
            &&& !was_there(bank, modified.pubkey)
        },
{
}

/// A session is reported as closed if and only if the portal program has given up an
/// account that was a session.
pub proof fn closed_sessions_are_reported(
    config: PortalConfig,
    bank: L1Model,
    modified: ModifiedModel,
    session: Session,
)
    ensures
        is_given_up(config, bank, modified) && was(
            bank,
            modified.pubkey,
            PortalAccount::Session(session),
        ) ==> event_of(config, bank, modified) == Some(
            L1Event::SessionClosed { session_pda: modified.pubkey, grid_id: session.grid_id },
        ),
        (event_of(config, bank, modified) matches Some(event) && event is SessionClosed)
            ==> is_given_up(config, bank, modified) && exists|before: Session|
            was(bank, modified.pubkey, PortalAccount::Session(before)),
{
    if event_of(config, bank, modified) matches Some(event) && event is SessionClosed {
        let before = (bank.parent->0).portal[modified.pubkey]->Session_0;
        assert(was(bank, modified.pubkey, PortalAccount::Session(before)));
    }
}

/// A new record is reported with the first written account that is delegated under it,
/// and with the owner and the grid that it names; without such an account nothing is
/// reported.
pub proof fn new_delegations_are_reported(
    config: PortalConfig,
    bank: L1Model,
    modified: ModifiedModel,
    record: DelegationRecord,
)
    ensures
        is_live(config, modified) && modified.portal == Some(
            PortalAccount::DelegationRecord(record),
        ) && !was_there(bank, modified.pubkey) ==> match event_of(config, bank, modified) {
            Some(event) => exists|i: int| #[trigger]
                is_delegated_at(config, bank, modified.pubkey, i) && (forall|j: int|
                    0 <= j < i ==> !#[trigger] is_delegated_at(config, bank, modified.pubkey, j))
                    && event == (L1Event::AccountDelegated {
                    delegation_record_pda: modified.pubkey,
                    delegated_account: bank.modified[i].pubkey,
                    owner_program: record.owner_program,
                    grid_id: record.grid_id,
                }),
            None => forall|j: int| !#[trigger] is_delegated_at(config, bank, modified.pubkey, j),
        },
        (event_of(config, bank, modified) matches Some(event) && event is AccountDelegated) ==> {
            &&& is_live(config, modified)
            &&& modified.portal matches Some(PortalAccount::DelegationRecord(_))
            &&& !was_there(bank, modified.pubkey)
        },
{
    lemma_first_delegated(config, bank, modified.pubkey, 0);
}

/// A record that the portal program has given up is reported with the first written
/// account that was delegated under it and no longer is; without such an account nothing
/// is reported.
pub proof fn ended_delegations_are_reported(
    config: PortalConfig,
    bank: L1Model,
    modified: ModifiedModel,
    record: DelegationRecord,
)
    ensures
        is_given_up(config, bank, modified) && was(
            bank,
            modified.pubkey,
            PortalAccount::DelegationRecord(record),
        ) ==> match event_of(config, bank, modified) {
            Some(event) => exists|i: int| #[trigger]
                is_released_at(config, bank, modified.pubkey, i) && (forall|j: int|
                    0 <= j < i ==> !#[trigger] is_released_at(config, bank, modified.pubkey, j))
                    && event == (L1Event::AccountUndelegated {
                    delegation_record_pda: modified.pubkey,
                    delegated_account: bank.modified[i].pubkey,
                }),
            None => forall|j: int| !#[trigger] is_released_at(config, bank, modified.pubkey, j),
        },
        (event_of(config, bank, modified) matches Some(event) && event is AccountUndelegated)
            ==> is_given_up(config, bank, modified) && exists|before: DelegationRecord|
            was(bank, modified.pubkey, PortalAccount::DelegationRecord(before)),
{
    lemma_first_released(config, bank, modified.pubkey, 0);
    if event_of(config, bank, modified) matches Some(event) && event is AccountUndelegated {
        let before = (bank.parent->0).portal[modified.pubkey]->DelegationRecord_0;
        assert(was(bank, modified.pubkey, PortalAccount::DelegationRecord(before)));
    }
}

/// What an account with these lamports holds beyond its rent: 6960 lamports for each byte
/// of data and for 128 bytes more.
pub open spec fn beyond_rent(lamports: u64, data_len: u32) -> int {
    if lamports >= (128 + data_len) * 6960 {
        lamports - (128 + data_len) * 6960
    } else {
        0
    }
}

/// What the receipt held beyond its rent before.
pub open spec fn held_before(config: PortalConfig, bank: L1Model, key: Pubkey) -> int {
    if was_there(bank, key) && (bank.parent->0).portal.contains_key(key) {
        beyond_rent((bank.parent->0).accounts[key].lamports, config.deposit_receipt_len)
    } else {
        0
    }
}

/// A deposit is reported if and only if a receipt holds more beyond its rent than before:
/// all that it holds, what was added, the receipt's session and its recipient.
pub proof fn deposits_are_reported(
    config: PortalConfig,
    bank: L1Model,
    modified: ModifiedModel,
    receipt: DepositReceipt,
)
    ensures
        ({
            let held = beyond_rent(modified.account.lamports, config.deposit_receipt_len);
            let before = held_before(config, bank, modified.pubkey);
            &&& is_live(config, modified) && modified.portal == Some(
                PortalAccount::DepositReceipt(receipt),
            ) ==> {
                &&& held <= before ==> event_of(config, bank, modified) is None
                &&& held > before ==> event_of(config, bank, modified) == Some(
                    L1Event::FeeDeposited {
                        session_pda: receipt.session,
                        amount: held as u64,
                        delta: (held - before) as u64,
                        depositor: receipt.recipient,
                    },
                )
            }
            &&& (event_of(config, bank, modified) matches Some(event) && event is FeeDeposited)
                ==> {
                &&& is_live(config, modified)
                &&& modified.portal matches Some(PortalAccount::DepositReceipt(_))
            }
        }),
{
}

/// The account has an event.
pub open spec fn has_event(config: PortalConfig, bank: L1Model) -> spec_fn(ModifiedModel) -> bool {
    |modified: ModifiedModel| event_of(config, bank, modified) is Some
}

/// The event of the account.
pub open spec fn the_event(config: PortalConfig, bank: L1Model) -> spec_fn(
    ModifiedModel,
) -> L1Event {
    |modified: ModifiedModel| event_of(config, bank, modified)->0
}

proof fn lemma_events(config: PortalConfig, bank: L1Model, n: nat)
    requires
        n <= bank.modified.len(),
    ensures
        events_of(config, bank, n) == bank.modified.take(n as int).filter(
            has_event(config, bank),
        ).map_values(the_event(config, bank)),
    decreases n,
{
    reveal(Seq::filter);
    let taken = bank.modified.take(n as int);
    if n > 0 {
        lemma_events(config, bank, (n - 1) as nat);
        assert(taken.drop_last() =~= bank.modified.take(n - 1));
        let before = taken.drop_last().filter(has_event(config, bank));
        let last = bank.modified[n - 1];
        if event_of(config, bank, last) is Some {
            assert(before.push(last).map_values(the_event(config, bank)) =~= before.map_values(
                the_event(config, bank),
            ).push(the_event(config, bank)(last)));
        }
        assert(events_of(config, bank, n) =~= taken.filter(has_event(config, bank)).map_values(
            the_event(config, bank),
        ));
    } else {
        assert(taken.filter(has_event(config, bank)).map_values(the_event(config, bank))
            =~= Seq::empty());
    }
}

/// The events of a bank are those of the accounts that it has written, one for each that
/// has one, in the order in which they were written.
pub proof fn every_event_is_reported_once(config: PortalConfig, bank: L1Model)
    ensures
        events_of(config, bank, bank.modified.len()) == bank.modified.filter(
            has_event(config, bank),
        ).map_values(the_event(config, bank)),
{
    lemma_events(config, bank, bank.modified.len());
    assert(bank.modified.take(bank.modified.len() as int) =~= bank.modified);
}

} // verus!
