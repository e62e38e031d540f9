//! Crediting deposits.

use vstd::prelude::*;

use crate::accounts::{Account, AccountModel, Pubkey};
use crate::ledger::lemma_held_insert;
use crate::rent::{minimum_balance, rent_exemption};
use crate::runtime::slots::next_slot;
use crate::runtime::{no_update, BankUpdate, EphemeralRuntime, RuntimeModel, UpdateModel};
use crate::well_known::SYSTEM_PROGRAM_ID;

verus! {

/// The account that withdrawals of a depositor go to, and whether the rollup's
/// bank has it.
#[derive(Debug, Clone, Copy, PartialEq, Eq)]
pub struct WithdrawalSink {
    pub address: Pubkey,
    pub exists: bool,
}

/// An account that does not exist.
pub open spec fn no_account() -> AccountModel {
    AccountModel {
        lamports: 0,
        data: Seq::empty(),
        owner: SYSTEM_PROGRAM_ID,
        executable: false,
        rent_epoch: 0,
    }
}

/// What a depositor has on the rollup before a deposit: nothing, unless the
/// account is delegated or the rollup has written it. Any other balance is
/// layer one's.
pub open spec fn own_balance(
    before: RuntimeModel,
    depositor: Pubkey,
    account: AccountModel,
) -> u64 {
    if before.delegated.contains(depositor) || before.touched.contains(depositor) {
        account.lamports
    } else {
        0
    }
}

/// The sum, or the greatest number if the sum is beyond it.
pub open spec fn capped_sum(a: u64, b: u64) -> u64 {
    if a + b <= u64::MAX {
        (a + b) as u64
    } else {
        u64::MAX
    }
}

/// The depositor's account after a deposit.
pub open spec fn credited(
    before: RuntimeModel,
    depositor: Pubkey,
    account: AccountModel,
    lamports: u64,
) -> AccountModel {
    AccountModel {
        lamports: capped_sum(own_balance(before, depositor, account), lamports),
        ..account
    }
}

/// A new withdrawal sink.
pub open spec fn new_sink() -> AccountModel {
    AccountModel { lamports: rent_exemption(0) as u64, ..no_account() }
}

/// The sink to be made: there is a session, and the bank has no account there.
pub open spec fn sink_to_make(before: RuntimeModel, sink: WithdrawalSink) -> bool {
    before.session is Some && !sink.exists
}

/// What a deposit does to the bank.
pub open spec fn deposit_update(
    before: RuntimeModel,
    depositor: Pubkey,
    account: AccountModel,
    lamports: u64,
    sink: WithdrawalSink,
) -> UpdateModel {
    let stored = no_update().and_write(depositor, credited(before, depositor, account, lamports));
    if sink_to_make(before, sink) {
        stored.and_write(sink.address, new_sink())
    } else {
        stored
    }
}

/// The rollup after a deposit.
pub open spec fn deposit_model(
    before: RuntimeModel,
    depositor: Pubkey,
    account: AccountModel,
    lamports: u64,
    sink: WithdrawalSink,
) -> RuntimeModel {
    let overlay = before.overlay.insert(depositor, credited(before, depositor, account, lamports));
    RuntimeModel {
        working_slot: next_slot(before.working_slot),
        overlay: if sink_to_make(before, sink) {
            overlay.insert(sink.address, new_sink())
        } else {
            overlay
        },
        touched: if before.session is Some {
            before.touched.insert(sink.address).insert(depositor)
        } else {
            before.touched.insert(depositor)
        },
        ..before
    }
}

/// What the bank has at an address, if anything.
pub open spec fn present_or_empty(account: Option<&Account>) -> AccountModel {
    match account {
        Some(account) => account@,
        None => no_account(),
    }
}

impl EphemeralRuntime {
    /// Credits a deposit. `account` is what the rollup's bank has for the
    /// depositor, and `sink` is where withdrawals of the depositor go. The
    /// depositor's balance on layer one is not carried over.
    pub fn credit_deposit(
        &mut self,
        depositor: &Pubkey,
        lamports: u64,
        account: Option<&Account>,
        sink: &WithdrawalSink,
    ) -> (update: BankUpdate)
        requires
            old(self).well_formed(),
        ensures
            final(self).well_formed(),
            final(self)@ == deposit_model(
                old(self)@,
                *depositor,
                present_or_empty(account),
                lamports,
                *sink,
            ),
            update@ == deposit_update(
                old(self)@,
                *depositor,
                present_or_empty(account),
                lamports,
                *sink,
            ),
    {
        let mut stored = match account {
            Some(account) => account.copy(),
            None => Account {
                lamports: 0,
                data: Vec::new(),
                owner: SYSTEM_PROGRAM_ID,
                executable: false,
                rent_epoch: 0,
            },
        };
        assert(stored@ =~= present_or_empty(account));
        let base: u64 = if self.delegated_accounts.contains(depositor)
            || self.touched_accounts.contains(depositor) {
            stored.lamports
        } else {
            0
        };
        stored.lamports = base.saturating_add(lamports);
        let ghost before = self@;
        assert(stored@ == credited(before, *depositor, present_or_empty(account), lamports));
        let mut update = BankUpdate::new();
        update.push_write(*depositor, stored.copy());
        proof {
            lemma_held_insert(self.er_account_overlay@, *depositor, stored);
        }
        self.er_account_overlay.insert(*depositor, stored);
        if self.session.is_some() {
            if !sink.exists {
                let made = Account {
                    lamports: minimum_balance(0),
                    data: Vec::new(),
                    owner: SYSTEM_PROGRAM_ID,
                    executable: false,
                    rent_epoch: 0,
                };
                assert(made@ =~= new_sink());
                update.push_write(sink.address, made.copy());
                proof {
                    lemma_held_insert(self.er_account_overlay@, sink.address, made);
                }
                self.er_account_overlay.insert(sink.address, made);
            }
            let _ = self.touched_accounts.insert(sink.address);
        }
        let _ = self.touched_accounts.insert(*depositor);
        self.working_slot = self.working_slot.saturating_add(1);
        update
    }
}

/// A depositor whose account the rollup has not written has, after a deposit,
/// exactly what was deposited, whatever layer one has for it.
pub proof fn first_deposits_ignore_layer_one(
    before: RuntimeModel,
    depositor: Pubkey,
    account: AccountModel,
    lamports: u64,
    sink: WithdrawalSink,
)
    requires
        !before.delegated.contains(depositor),
        !before.touched.contains(depositor),
        sink.address != depositor,
    ensures
        deposit_model(before, depositor, account, lamports, sink).overlay[depositor].lamports
            == lamports,
{
}

/// Two deposits in a row add up, if the bank has what the first one stored.
pub proof fn deposits_add_up(
    before: RuntimeModel,
    depositor: Pubkey,
    account: AccountModel,
    first: u64,
    second: u64,
    sink: WithdrawalSink,
)
    requires
        sink.address != depositor,
        own_balance(before, depositor, account) + first + second <= u64::MAX,
    ensures
        ({
            let between = deposit_model(before, depositor, account, first, sink);
            let after = deposit_model(
                between,
                depositor,
                between.overlay[depositor],
                second,
                sink,
            );
            after.overlay[depositor].lamports == own_balance(before, depositor, account) + first
                + second
        }),
{
}

/// A deposit touches the depositor's account and the sink, and no other.
pub proof fn deposits_leave_other_accounts(
    before: RuntimeModel,
    depositor: Pubkey,
    account: AccountModel,
    lamports: u64,
    sink: WithdrawalSink,
    other: Pubkey,
)
    requires
        other != depositor,
        other != sink.address,
    ensures
        ({
            let after = deposit_model(before, depositor, account, lamports, sink);
            &&& after.overlay.contains_key(other) == before.overlay.contains_key(other)
            &&& after.overlay[other] == before.overlay[other]
            &&& after.touched.contains(other) == before.touched.contains(other)
            &&& after.delegated == before.delegated
        }),
{
}

} // verus!
