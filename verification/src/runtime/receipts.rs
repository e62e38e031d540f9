//! What deposit receipts are settled to.

use vstd::prelude::*;

use crate::accounts::{Account, Pubkey};
use crate::addresses::{deposit_receipt_address, find_deposit_receipt_pda};
use crate::codec::same_array;
use crate::keyed::{ordered, KeyMap};
use crate::ledger::account_at;
use crate::portal_state::{DepositReceipt, PortalAccount};
use crate::rent::{minimum_balance, rent_exemption};
use crate::runtime::{EphemeralRuntime, RuntimeModel};
use crate::settlement::ReceiptBalanceSettlement;
use crate::well_known::SYSTEM_PROGRAM_ID;

verus! {

/// What layer one has in a sink: what it takes to make one, if there is none.
pub open spec fn l1_sink_lamports(runtime: RuntimeModel, sink: Pubkey) -> u64 {
    match runtime.anchor.account(sink) {
        Some(account) => account.lamports,
        None => rent_exemption(0) as u64,
    }
}

/// What a recipient has withdrawn on the rollup: what is in the sink beyond what
/// layer one has there. If the rollup has not written the sink, what the receipt
/// says.
pub open spec fn withdrawn(
    runtime: RuntimeModel,
    sinks: Map<Pubkey, Pubkey>,
    recipient: Pubkey,
    receipt: DepositReceipt,
) -> u64 {
    if sinks.contains_key(recipient) && runtime.overlay.contains_key(sinks[recipient]) {
        let sink = sinks[recipient];
        let there = runtime.overlay[sink].lamports;
        let before = l1_sink_lamports(runtime, sink);
        if there >= before {
            (there - before) as u64
        } else {
            0
        }
    } else {
        receipt.withdrawn
    }
}

/// The receipt of a recipient in a session.
pub open spec fn receipt_of(runtime: RuntimeModel, session: Pubkey, recipient: Pubkey) -> Option<
    DepositReceipt,
> {
    match deposit_receipt_address(runtime.portal_program_id, session, recipient) {
        None => None,
        Some(address) => match runtime.anchor.portal_account(address) {
            Some(PortalAccount::DepositReceipt(receipt)) => Some(receipt),
            _ => None,
        },
    }
}

/// What the receipt of a recipient is settled to: nothing unless the account is
/// a plain one that is not delegated, there is a receipt, and its balance or
/// what was withdrawn has changed.
pub open spec fn receipt_settlement(
    runtime: RuntimeModel,
    session: Pubkey,
    sinks: Map<Pubkey, Pubkey>,
    recipient: Pubkey,
) -> Option<ReceiptBalanceSettlement> {
    let account = runtime.overlay[recipient];
    if runtime.delegated.contains(recipient) || account.owner != SYSTEM_PROGRAM_ID
        || account.data.len() != 0 {
        None
    } else {
        match receipt_of(runtime, session, recipient) {
            None => None,
            Some(receipt) => {
                let withdrawn = withdrawn(runtime, sinks, recipient, receipt);
                if receipt.balance != account.lamports || receipt.withdrawn != withdrawn {
                    Some(
                        ReceiptBalanceSettlement {
                            recipient,
                            balance: account.lamports,
                            withdrawn,
                        },
                    )
                } else {
                    None
                }
            },
        }
    }
}

/// What the receipts of the first `n` recipients are settled to.
pub open spec fn receipt_settlements(
    runtime: RuntimeModel,
    session: Pubkey,
    sinks: Map<Pubkey, Pubkey>,
    recipients: Seq<Pubkey>,
    n: nat,
) -> Seq<ReceiptBalanceSettlement>
    decreases n,
{
    if n == 0 {
        Seq::empty()
    } else {
        let before = receipt_settlements(runtime, session, sinks, recipients, (n - 1) as nat);
        match receipt_settlement(runtime, session, sinks, recipients[n - 1]) {
            Some(settlement) => before.push(settlement),
            None => before,
        }
    }
}

/// What all receipts are settled to, in the order of their recipients.
pub open spec fn all_receipt_settlements(
    runtime: RuntimeModel,
    session: Pubkey,
    sinks: Map<Pubkey, Pubkey>,
) -> Seq<ReceiptBalanceSettlement> {
    let recipients = ordered(runtime.overlay.dom());
    receipt_settlements(runtime, session, sinks, recipients, recipients.len())
}

impl EphemeralRuntime {
    fn withdrawn_by(
        &self,
        sinks: &KeyMap<Pubkey, 32>,
        recipient: &Pubkey,
        receipt: &DepositReceipt,
    ) -> (lamports: u64)
        requires
            self.well_formed(),
            sinks.well_formed(),
        ensures
            lamports == withdrawn(self@, sinks@, *recipient, *receipt),
    {
        let sink = match sinks.get(recipient) {
            Some(sink) => *sink,
            None => {
                return receipt.withdrawn;
            },
        };
        match account_at(&self.er_account_overlay, &sink) {
            None => receipt.withdrawn,
            Some(account) => {
                let before: u64 = match self.anchor.account(&sink) {
                    Some(account) => account.lamports,
                    None => minimum_balance(0),
                };
                account.lamports.saturating_sub(before)
            },
        }
    }

    fn settlement_of_receipt(
        &self,
        session: &Pubkey,
        sinks: &KeyMap<Pubkey, 32>,
        recipient: &Pubkey,
        account: &Account,
    ) -> (r: Option<ReceiptBalanceSettlement>)
        requires
            self.well_formed(),
            sinks.well_formed(),
            self@.overlay.contains_key(*recipient),
            self@.overlay[*recipient] == account@,
        ensures
            r == receipt_settlement(self@, *session, sinks@, *recipient),
    {
        if self.delegated_accounts.contains(recipient) || !same_array(
            &account.owner,
            &SYSTEM_PROGRAM_ID,
        ) || account.data.len() != 0 {
            return None;
        }
        let address = match find_deposit_receipt_pda(&self.portal_program_id, session, recipient) {
            Some(address) => address,
            None => {
                return None;
            },
        };
        match self.anchor.portal_account(&address) {
            Some(PortalAccount::DepositReceipt(receipt)) => {
                let withdrawn: u64 = self.withdrawn_by(sinks, recipient, &receipt);
                if receipt.balance != account.lamports || receipt.withdrawn != withdrawn {
                    Some(
                        ReceiptBalanceSettlement {
                            recipient: *recipient,
                            balance: account.lamports,
                            withdrawn,
                        },
                    )
                } else {
                    None
                }
            },
            _ => None,
        }
    }

    /// What the deposit receipts of a session are settled to, in the order of
    /// their recipients. `sinks` holds the address of each recipient's withdrawal
    /// sink.
    pub fn settlement_receipt_balances(&self, session: &Pubkey, sinks: &KeyMap<Pubkey, 32>) -> (r:
        Vec<ReceiptBalanceSettlement>)
        requires
            self.well_formed(),
            sinks.well_formed(),
        ensures
            r@ == all_receipt_settlements(self@, *session, sinks@),
    {
        let ghost keys = self.er_account_overlay.listed();
        proof {
            self.er_account_overlay.lemma_listed();
            assert(self.er_account_overlay@.dom() =~= self@.overlay.dom());
        }
        let mut r: Vec<ReceiptBalanceSettlement> = Vec::new();
        let mut i: usize = 0;
        while i < self.er_account_overlay.len()
            invariant
                self.well_formed(),
                sinks.well_formed(),
                keys == self.er_account_overlay.listed(),
                i <= self.er_account_overlay.listed().len(),
                r@ == receipt_settlements(self@, *session, sinks@, keys, i as nat),
            decreases self.er_account_overlay.listed().len() - i,
        {
            let recipient = self.er_account_overlay.key_at(i);
            let account = self.er_account_overlay.value_at(i);
            if let Some(settlement) = self.settlement_of_receipt(
                session,
                sinks,
                &recipient,
                account,
            ) {
                r.push(settlement);
            }
            i += 1;
        }
        r
    }
}

proof fn lemma_settlements(
    runtime: RuntimeModel,
    session: Pubkey,
    sinks: Map<Pubkey, Pubkey>,
    recipients: Seq<Pubkey>,
    n: nat,
    i: int,
)
    requires
        n <= recipients.len(),
        0 <= i < receipt_settlements(runtime, session, sinks, recipients, n).len(),
    ensures
        receipt_settlement(
            runtime,
            session,
            sinks,
            receipt_settlements(runtime, session, sinks, recipients, n)[i].recipient,
        ) == Some(receipt_settlements(runtime, session, sinks, recipients, n)[i]),
    decreases n,
{
    let before = receipt_settlements(runtime, session, sinks, recipients, (n - 1) as nat);
    if i < before.len() {
        lemma_settlements(runtime, session, sinks, recipients, (n - 1) as nat, i);
    }
}

/// A receipt is settled to what its recipient has on the rollup, and only if
/// there is a receipt on layer one that says otherwise.
pub proof fn receipts_follow_the_rollup(
    runtime: RuntimeModel,
    session: Pubkey,
    sinks: Map<Pubkey, Pubkey>,
    i: int,
)
    requires
        0 <= i < all_receipt_settlements(runtime, session, sinks).len(),
    ensures
        ({
            let settled = all_receipt_settlements(runtime, session, sinks)[i];
            &&& settled.balance == runtime.overlay[settled.recipient].lamports
            &&& !runtime.delegated.contains(settled.recipient)
            &&& receipt_of(runtime, session, settled.recipient) matches Some(receipt) && (
            receipt.balance != settled.balance || receipt.withdrawn != settled.withdrawn)
        }),
{
    let recipients = ordered(runtime.overlay.dom());
    lemma_settlements(runtime, session, sinks, recipients, recipients.len(), i);
}

} // verus!
