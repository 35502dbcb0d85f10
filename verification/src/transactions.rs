//! Transaction records, and their extraction from the raw per-item
//! fields of an API page with the documented default-substitution
//! policy: a missing date or description becomes the empty string, and
//! a missing or malformed amount becomes zero cents.

use vstd::prelude::*;

use crate::money::{parse_cents, spec_cents_of, AMOUNT_CENTS_BOUND};

verus! {

/// A normalized transaction: negative cents are a debit, positive cents
/// a credit.
#[derive(Debug)]
pub struct Transaction {
    pub date: String,
    pub description: String,
    pub amount_cents: i64,
}

/// The mathematical shape of a transaction.
pub ghost struct TxModel {
    pub date: Seq<char>,
    pub description: Seq<char>,
    pub amount_cents: int,
}

impl View for Transaction {
    type V = TxModel;

    open spec fn view(&self) -> TxModel {
        TxModel {
            date: self.date@,
            description: self.description@,
            amount_cents: self.amount_cents as int,
        }
    }
}

/// Every amount that the parsing pipeline produces lies strictly inside
/// the cents bound, so sums over any vector of them fit comfortably in
/// an i128 accumulator.
pub open spec fn valid_amount(a: int) -> bool {
    -AMOUNT_CENTS_BOUND < a < AMOUNT_CENTS_BOUND
}

pub open spec fn all_valid_amounts(txs: Seq<TxModel>) -> bool {
    forall|k: int| 0 <= k < txs.len() ==> valid_amount((#[trigger] txs[k]).amount_cents)
}

pub open spec fn abs_cents(a: int) -> int {
    if a < 0 {
        -a
    } else {
        a
    }
}

impl Transaction {
    /// An equal copy of the record.
    pub fn duplicate(&self) -> (r: Transaction)
        ensures
            r == *self,
    {
        Transaction {
            date: self.date.clone(),
            description: self.description.clone(),
            amount_cents: self.amount_cents,
        }
    }
}

/// The fields of one element of a page's `data` array, each absent when
/// the payload lacks it or holds it with an unexpected type.
pub struct RawItem {
    pub created_at: Option<String>,
    pub description: Option<String>,
    pub amount_value: Option<String>,
    pub account_id: Option<String>,
}

pub ghost struct ItemModel {
    pub created_at: Option<Seq<char>>,
    pub description: Option<Seq<char>>,
    pub amount_value: Option<Seq<char>>,
    pub account_id: Option<Seq<char>>,
}

impl View for RawItem {
    type V = ItemModel;

    open spec fn view(&self) -> ItemModel {
        ItemModel {
            created_at: match self.created_at {
                Option::Some(s) => Option::Some(s@),
                Option::None => Option::None,
            },
            description: match self.description {
                Option::Some(s) => Option::Some(s@),
                Option::None => Option::None,
            },
            amount_value: match self.amount_value {
                Option::Some(s) => Option::Some(s@),
                Option::None => Option::None,
            },
            account_id: match self.account_id {
                Option::Some(s) => Option::Some(s@),
                Option::None => Option::None,
            },
        }
    }
}

fn clone_opt_string(o: &Option<String>) -> (r: Option<String>)
    ensures
        r == *o,
{
    match o {
        Option::Some(s) => Option::Some(s.clone()),
        Option::None => Option::None,
    }
}

impl RawItem {
    /// An equal copy of the record.
    pub fn duplicate(&self) -> (r: RawItem)
        ensures
            r == *self,
    {
        RawItem {
            created_at: clone_opt_string(&self.created_at),
            description: clone_opt_string(&self.description),
            amount_value: clone_opt_string(&self.amount_value),
            account_id: clone_opt_string(&self.account_id),
        }
    }
}

/// The transaction denoted by a raw item under the default policy.
pub open spec fn spec_tx_of_item(it: ItemModel) -> TxModel {
    TxModel {
        date: match it.created_at {
            Option::Some(d) => d,
            Option::None => Seq::empty(),
        },
        description: match it.description {
            Option::Some(d) => d,
            Option::None => Seq::empty(),
        },
        amount_cents: match it.amount_value {
            Option::Some(v) => spec_cents_of(v),
            Option::None => 0,
        },
    }
}

pub open spec fn item_models(s: Seq<RawItem>) -> Seq<ItemModel> {
    s.map_values(|x: RawItem| x@)
}

pub open spec fn tx_models(s: Seq<Transaction>) -> Seq<TxModel> {
    s.map_values(|x: Transaction| x@)
}

pub open spec fn spec_txs_of_items(s: Seq<ItemModel>) -> Seq<TxModel> {
    s.map_values(|x: ItemModel| spec_tx_of_item(x))
}

/// Normalize one raw item: absent strings default to empty, the amount
/// string is parsed to cents with zero as the malformed default.
pub fn tx_of_item(item: &RawItem) -> (t: Transaction)
    ensures
        t@ == spec_tx_of_item(item@),
        valid_amount(t@.amount_cents),
{
    let date = match &item.created_at {
        Option::Some(d) => d.clone(),
        Option::None => String::new(),
    };
    let description = match &item.description {
        Option::Some(d) => d.clone(),
        Option::None => String::new(),
    };
    let amount_cents = match &item.amount_value {
        Option::Some(v) => parse_cents(v.as_str()),
        Option::None => 0,
    };
    Transaction { date, description, amount_cents }
}

/// Normalize a whole page's items, in order.
#[verifier::loop_isolation(false)]
pub fn transactions_of_items(items: &Vec<RawItem>) -> (r: Vec<Transaction>)
    ensures
        tx_models(r@) == spec_txs_of_items(item_models(items@)),
        forall|i: int| 0 <= i < r@.len() ==> valid_amount(r@[i]@.amount_cents),
{
    let mut r: Vec<Transaction> = Vec::new();
    let mut i: usize = 0;
    while i < items.len()
        invariant
            i <= items@.len(),
            r@.len() == i,
            tx_models(r@) == spec_txs_of_items(item_models(items@.subrange(0, i as int))),
            forall|j: int| 0 <= j < r@.len() ==> valid_amount(r@[j]@.amount_cents),
        decreases items@.len() - i,
    {
        let ghost prev = r@;
        let t = tx_of_item(&items[i]);
        r.push(t);
        proof {
            let pre = items@.subrange(0, i as int);
            let cur = items@.subrange(0, i + 1);
            assert forall|j: int| 0 <= j < i + 1 implies tx_models(r@)[j] == spec_txs_of_items(
                item_models(cur),
            )[j] by {
                assert(cur[j] == items@[j]);
                assert(spec_txs_of_items(item_models(cur))[j] == spec_tx_of_item(cur[j]@));
                assert(tx_models(r@)[j] == r@[j]@);
                if j < i {
                    assert(r@[j] == prev[j]);
                    assert(tx_models(prev)[j] == spec_txs_of_items(item_models(pre))[j]);
                    assert(tx_models(prev)[j] == prev[j]@);
                    assert(spec_txs_of_items(item_models(pre))[j] == spec_tx_of_item(pre[j]@));
                    assert(pre[j] == items@[j]);
                } else {
                    assert(r@[j] == t);
                }
            }
            assert(tx_models(r@) =~= spec_txs_of_items(item_models(cur)));
        }
        i = i + 1;
    }
    proof {
        assert(items@.subrange(0, items@.len() as int) =~= items@);
    }
    r
}

/// The items credited to the given account; an absent account
/// relationship never matches.
pub open spec fn spec_filter_account(s: Seq<ItemModel>, account: Seq<char>) -> Seq<ItemModel>
    decreases s.len(),
{
    if s.len() == 0 {
        Seq::empty()
    } else {
        let front = spec_filter_account(s.drop_last(), account);
        if s.last().account_id == Option::Some(account) {
            front.push(s.last())
        } else {
            front
        }
    }
}

/// Keep only the items whose account relationship names the given
/// account, in order.
#[verifier::loop_isolation(false)]
pub fn filter_by_account(items: &Vec<RawItem>, account: &String) -> (r: Vec<RawItem>)
    ensures
        item_models(r@) == spec_filter_account(item_models(items@), account@),
{
    let mut r: Vec<RawItem> = Vec::new();
    let mut i: usize = 0;
    while i < items.len()
        invariant
            i <= items@.len(),
            item_models(r@) == spec_filter_account(
                item_models(items@.subrange(0, i as int)),
                account@,
            ),
        decreases items@.len() - i,
    {
        let keep = match &items[i].account_id {
            Option::Some(a) => a.eq(account),
            Option::None => false,
        };
        let ghost prev = r@;
        let ghost pre = items@.subrange(0, i as int);
        let ghost cur = items@.subrange(0, i + 1);
        proof {
            assert(item_models(cur).drop_last() =~= item_models(pre));
            assert(item_models(cur).last() == items@[i as int]@);
            assert(keep == (items@[i as int]@.account_id == Option::Some(account@)));
        }
        if keep {
            let copy = items[i].duplicate();
            r.push(copy);
            proof {
                assert(item_models(r@) =~= item_models(prev).push(items@[i as int]@));
                assert(spec_filter_account(item_models(cur), account@) == spec_filter_account(
                    item_models(pre),
                    account@,
                ).push(items@[i as int]@));
            }
        } else {
            proof {
                assert(spec_filter_account(item_models(cur), account@) == spec_filter_account(
                    item_models(pre),
                    account@,
                ));
            }
        }
        i = i + 1;
    }
    proof {
        assert(items@.subrange(0, items@.len() as int) =~= items@);
    }
    r
}

} // verus!
