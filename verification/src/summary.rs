//! The net-position view of a transaction stream: total debits versus
//! total credits, with no classification involved.

use vstd::prelude::*;

use crate::money::AMOUNT_CENTS_BOUND;
use crate::transactions::{all_valid_amounts, tx_models, valid_amount, Transaction, TxModel};

verus! {

/// Totals over one fetched stream: expenses are the summed magnitudes
/// of the negative amounts, incoming the sum of the non-negative ones.
pub struct ExpenseSummary {
    pub total_expenses_cents: i128,
    pub total_incoming_cents: i128,
}

pub open spec fn spec_total_expenses(txs: Seq<TxModel>) -> int
    decreases txs.len(),
{
    if txs.len() == 0 {
        0
    } else {
        spec_total_expenses(txs.drop_last()) + (if txs.last().amount_cents < 0 {
            -txs.last().amount_cents
        } else {
            0
        })
    }
}

pub open spec fn spec_total_incoming(txs: Seq<TxModel>) -> int
    decreases txs.len(),
{
    if txs.len() == 0 {
        0
    } else {
        spec_total_incoming(txs.drop_last()) + (if txs.last().amount_cents >= 0 {
            txs.last().amount_cents
        } else {
            0
        })
    }
}

/// Fold a stream into its expense and income totals.
#[verifier::loop_isolation(false)]
pub fn summarize(transactions: &Vec<Transaction>) -> (s: ExpenseSummary)
    requires
        all_valid_amounts(tx_models(transactions@)),
    ensures
        s.total_expenses_cents as int == spec_total_expenses(tx_models(transactions@)),
        s.total_incoming_cents as int == spec_total_incoming(tx_models(transactions@)),
        0 <= s.total_expenses_cents,
        0 <= s.total_incoming_cents,
{
    let ghost all = tx_models(transactions@);
    let n = transactions.len();
    let mut expenses: i128 = 0;
    let mut incoming: i128 = 0;
    let mut i: usize = 0;
    while i < n
        invariant
            i <= n,
            expenses as int == spec_total_expenses(all.subrange(0, i as int)),
            incoming as int == spec_total_incoming(all.subrange(0, i as int)),
            0 <= expenses as int <= i * (AMOUNT_CENTS_BOUND as int),
            0 <= incoming as int <= i * (AMOUNT_CENTS_BOUND as int),
        decreases n - i,
    {
        proof {
            assert(all.subrange(0, i + 1).drop_last() =~= all.subrange(0, i as int));
            assert(all.subrange(0, i + 1).last() == all[i as int]);
            assert(valid_amount(all[i as int].amount_cents));
            assert((i + 1) * (AMOUNT_CENTS_BOUND as int) == i * (AMOUNT_CENTS_BOUND as int)
                + AMOUNT_CENTS_BOUND as int) by (nonlinear_arith);
            assert(i * (AMOUNT_CENTS_BOUND as int) <= (usize::MAX as int) * (
            AMOUNT_CENTS_BOUND as int)) by (nonlinear_arith);
        }
        let a = transactions[i].amount_cents;
        if a < 0 {
            expenses = expenses + (-(a as i128));
        } else {
            incoming = incoming + (a as i128);
        }
        i = i + 1;
    }
    proof {
        assert(all.subrange(0, n as int) =~= all);
    }
    ExpenseSummary { total_expenses_cents: expenses, total_incoming_cents: incoming }
}

impl ExpenseSummary {
    /// The change in position over the stream: incoming minus expenses,
    /// negative when more went out than came in.
    pub fn net_position_cents(&self) -> (r: i128)
        requires
            0 <= self.total_expenses_cents,
            0 <= self.total_incoming_cents,
        ensures
            r as int == self.total_incoming_cents - self.total_expenses_cents,
    {
        self.total_incoming_cents - self.total_expenses_cents
    }
}

} // verus!
