//! Budget categories and the aggregation fold: each transaction is
//! classified by its description and folded, in arrival order, into the
//! category of that name. A transaction whose category name is missing
//! from the catalog falls into an "Other" category, created on first
//! need and reused afterwards.

use vstd::prelude::*;

use crate::categorize::{category_for, spec_category_for};
use crate::money::AMOUNT_CENTS_BOUND;
use crate::transactions::{
    abs_cents, all_valid_amounts, tx_models, valid_amount, Transaction, TxModel,
};

verus! {

/// Cap on the spent accumulator of categories handed to the aggregator,
/// far above any real balance, leaving i128 headroom for any number of
/// added transactions.
pub const SPENT_CENTS_START_CAP: i128 = 1_000_000_000_000_000_000_000_000_000_000;

/// A named budget bucket: an allocated limit, the cents spent so far,
/// and the transactions charged to it in arrival order.
pub struct BudgetCategory {
    pub name: String,
    pub allocated_cents: i64,
    pub spent_cents: i128,
    pub transactions: Vec<Transaction>,
}

/// The mathematical shape of a budget category.
pub ghost struct CatModel {
    pub name: Seq<char>,
    pub allocated_cents: int,
    pub spent_cents: int,
    pub transactions: Seq<TxModel>,
}

impl View for BudgetCategory {
    type V = CatModel;

    open spec fn view(&self) -> CatModel {
        CatModel {
            name: self.name@,
            allocated_cents: self.allocated_cents as int,
            spent_cents: self.spent_cents as int,
            transactions: tx_models(self.transactions@),
        }
    }
}

pub open spec fn cat_models(s: Seq<BudgetCategory>) -> Seq<CatModel> {
    s.map_values(|c: BudgetCategory| c@)
}

/// A category fit to start an aggregation run: a non-negative allocated
/// budget and a bounded, non-negative spent accumulator.
pub open spec fn wf_start_cat(c: CatModel) -> bool {
    0 <= c.allocated_cents && 0 <= c.spent_cents <= SPENT_CENTS_START_CAP as int
}

pub open spec fn all_wf_start(cats: Seq<CatModel>) -> bool {
    forall|k: int| 0 <= k < cats.len() ==> wf_start_cat(#[trigger] cats[k])
}

pub open spec fn all_spent_bounded(cats: Seq<CatModel>, b: int) -> bool {
    forall|k: int| 0 <= k < cats.len() ==> 0 <= (#[trigger] cats[k]).spent_cents <= b
}

/// The first index holding a category of the given name, or -1.
pub open spec fn spec_find_name(cats: Seq<CatModel>, name: Seq<char>) -> int
    decreases cats.len(),
{
    if cats.len() == 0 {
        -1
    } else if cats[0].name == name {
        0
    } else {
        let r = spec_find_name(cats.drop_first(), name);
        if r < 0 {
            -1
        } else {
            r + 1
        }
    }
}

pub proof fn lemma_find_name_at(cats: Seq<CatModel>, name: Seq<char>, k: int)
    requires
        0 <= k < cats.len(),
        cats[k].name == name,
        forall|j: int| 0 <= j < k ==> (#[trigger] cats[j]).name != name,
    ensures
        spec_find_name(cats, name) == k,
    decreases k,
{
    if k == 0 {
    } else {
        let t = cats.drop_first();
        assert(forall|j: int| 0 <= j < k - 1 ==> #[trigger] t[j] == cats[j + 1]);
        lemma_find_name_at(t, name, k - 1);
    }
}

pub proof fn lemma_find_name_none(cats: Seq<CatModel>, name: Seq<char>)
    requires
        forall|j: int| 0 <= j < cats.len() ==> (#[trigger] cats[j]).name != name,
    ensures
        spec_find_name(cats, name) == -1,
    decreases cats.len(),
{
    if cats.len() > 0 {
        let t = cats.drop_first();
        assert(forall|j: int| 0 <= j < t.len() ==> #[trigger] t[j] == cats[j + 1]);
        lemma_find_name_none(t, name);
    }
}

pub proof fn lemma_find_name_props(cats: Seq<CatModel>, name: Seq<char>)
    ensures
        spec_find_name(cats, name) == -1 || (0 <= spec_find_name(cats, name) < cats.len()
            && cats[spec_find_name(cats, name)].name == name),
    decreases cats.len(),
{
    if cats.len() > 0 && cats[0].name != name {
        lemma_find_name_props(cats.drop_first(), name);
    }
}

/// Charge one transaction to a category: its absolute amount is added
/// to the spent total and the record is appended.
pub open spec fn add_tx(c: CatModel, t: TxModel) -> CatModel {
    CatModel {
        spent_cents: c.spent_cents + abs_cents(t.amount_cents),
        transactions: c.transactions.push(t),
        ..c
    }
}

/// Place one transaction: into the category named by its description,
/// else into an existing "Other" category, else into a fresh "Other"
/// category appended at the end.
pub open spec fn spec_place_tx(cats: Seq<CatModel>, t: TxModel) -> Seq<CatModel> {
    let name = spec_category_for(t.description);
    let i = spec_find_name(cats, name);
    if i >= 0 {
        cats.update(i, add_tx(cats[i], t))
    } else {
        let j = spec_find_name(cats, "Other"@);
        if j >= 0 {
            cats.update(j, add_tx(cats[j], t))
        } else {
            cats.push(
                CatModel {
                    name: "Other"@,
                    allocated_cents: 0,
                    spent_cents: abs_cents(t.amount_cents),
                    transactions: seq![t],
                },
            )
        }
    }
}

/// The whole fold, in arrival order.
pub open spec fn spec_aggregate(cats: Seq<CatModel>, txs: Seq<TxModel>) -> Seq<CatModel>
    decreases txs.len(),
{
    if txs.len() == 0 {
        cats
    } else {
        spec_aggregate(spec_place_tx(cats, txs[0]), txs.drop_first())
    }
}

/// Sum of the spent accumulators of a catalog.
pub open spec fn spent_total(cats: Seq<CatModel>) -> int
    decreases cats.len(),
{
    if cats.len() == 0 {
        0
    } else {
        cats[0].spent_cents + spent_total(cats.drop_first())
    }
}

/// Sum of the absolute amounts of a transaction sequence.
pub open spec fn abs_total(txs: Seq<TxModel>) -> int
    decreases txs.len(),
{
    if txs.len() == 0 {
        0
    } else {
        abs_cents(txs[0].amount_cents) + abs_total(txs.drop_first())
    }
}

proof fn lemma_spent_total_update(s: Seq<CatModel>, i: int, c: CatModel)
    requires
        0 <= i < s.len(),
    ensures
        spent_total(s.update(i, c)) == spent_total(s) - s[i].spent_cents + c.spent_cents,
    decreases s.len(),
{
    if i == 0 {
        assert(s.update(0, c).drop_first() =~= s.drop_first());
    } else {
        assert(s.update(i, c).drop_first() =~= s.drop_first().update(i - 1, c));
        lemma_spent_total_update(s.drop_first(), i - 1, c);
    }
}

proof fn lemma_spent_total_push(s: Seq<CatModel>, c: CatModel)
    ensures
        spent_total(s.push(c)) == spent_total(s) + c.spent_cents,
    decreases s.len(),
{
    if s.len() == 0 {
        assert(s.push(c)[0] == c);
        assert(s.push(c).drop_first() =~= Seq::<CatModel>::empty());
        assert(spent_total(Seq::<CatModel>::empty()) == 0);
    } else {
        assert(s.push(c)[0] == s[0]);
        assert(s.push(c).drop_first() =~= s.drop_first().push(c));
        lemma_spent_total_push(s.drop_first(), c);
    }
}

proof fn lemma_place_spent(cats: Seq<CatModel>, t: TxModel)
    ensures
        spent_total(spec_place_tx(cats, t)) == spent_total(cats) + abs_cents(t.amount_cents),
{
    let name = spec_category_for(t.description);
    let i = spec_find_name(cats, name);
    lemma_find_name_props(cats, name);
    if i >= 0 {
        lemma_spent_total_update(cats, i, add_tx(cats[i], t));
    } else {
        let j = spec_find_name(cats, "Other"@);
        lemma_find_name_props(cats, "Other"@);
        if j >= 0 {
            lemma_spent_total_update(cats, j, add_tx(cats[j], t));
        } else {
            lemma_spent_total_push(
                cats,
                CatModel {
                    name: "Other"@,
                    allocated_cents: 0,
                    spent_cents: abs_cents(t.amount_cents),
                    transactions: seq![t],
                },
            );
        }
    }
}

/// Conservation: aggregation adds exactly the sum of the absolute
/// amounts of the input transactions to the total spent across the
/// catalog — every fetched cent lands in exactly one category.
pub proof fn lemma_spent_conservation(cats: Seq<CatModel>, txs: Seq<TxModel>)
    ensures
        spent_total(spec_aggregate(cats, txs)) == spent_total(cats) + abs_total(txs),
    decreases txs.len(),
{
    if txs.len() > 0 {
        lemma_place_spent(cats, txs[0]);
        lemma_spent_conservation(spec_place_tx(cats, txs[0]), txs.drop_first());
    }
}

/// Total number of transaction records held across a catalog.
pub open spec fn tx_count_total(cats: Seq<CatModel>) -> int
    decreases cats.len(),
{
    if cats.len() == 0 {
        0
    } else {
        cats[0].transactions.len() + tx_count_total(cats.drop_first())
    }
}

proof fn lemma_tx_count_total_update(s: Seq<CatModel>, i: int, c: CatModel)
    requires
        0 <= i < s.len(),
    ensures
        tx_count_total(s.update(i, c)) == tx_count_total(s) - s[i].transactions.len()
            + c.transactions.len(),
    decreases s.len(),
{
    if i == 0 {
        assert(s.update(0, c).drop_first() =~= s.drop_first());
    } else {
        assert(s.update(i, c).drop_first() =~= s.drop_first().update(i - 1, c));
        lemma_tx_count_total_update(s.drop_first(), i - 1, c);
    }
}

proof fn lemma_tx_count_total_push(s: Seq<CatModel>, c: CatModel)
    ensures
        tx_count_total(s.push(c)) == tx_count_total(s) + c.transactions.len(),
    decreases s.len(),
{
    if s.len() == 0 {
        assert(s.push(c)[0] == c);
        assert(s.push(c).drop_first() =~= Seq::<CatModel>::empty());
        assert(tx_count_total(Seq::<CatModel>::empty()) == 0);
    } else {
        assert(s.push(c)[0] == s[0]);
        assert(s.push(c).drop_first() =~= s.drop_first().push(c));
        lemma_tx_count_total_push(s.drop_first(), c);
    }
}

proof fn lemma_place_count(cats: Seq<CatModel>, t: TxModel)
    ensures
        tx_count_total(spec_place_tx(cats, t)) == tx_count_total(cats) + 1,
{
    let name = spec_category_for(t.description);
    let i = spec_find_name(cats, name);
    lemma_find_name_props(cats, name);
    if i >= 0 {
        lemma_tx_count_total_update(cats, i, add_tx(cats[i], t));
    } else {
        let j = spec_find_name(cats, "Other"@);
        lemma_find_name_props(cats, "Other"@);
        if j >= 0 {
            lemma_tx_count_total_update(cats, j, add_tx(cats[j], t));
        } else {
            lemma_tx_count_total_push(
                cats,
                CatModel {
                    name: "Other"@,
                    allocated_cents: 0,
                    spent_cents: abs_cents(t.amount_cents),
                    transactions: seq![t],
                },
            );
        }
    }
}

/// Every fetched transaction lands in exactly one category: aggregation
/// grows the number of records held across the catalog by exactly the
/// number of input transactions.
pub proof fn lemma_each_transaction_lands_once(cats: Seq<CatModel>, txs: Seq<TxModel>)
    ensures
        tx_count_total(spec_aggregate(cats, txs)) == tx_count_total(cats) + txs.len(),
    decreases txs.len(),
{
    if txs.len() > 0 {
        lemma_place_count(cats, txs[0]);
        lemma_each_transaction_lands_once(spec_place_tx(cats, txs[0]), txs.drop_first());
    }
}

proof fn lemma_place_bounds(cats: Seq<CatModel>, t: TxModel, b: int)
    requires
        0 <= b,
        all_spent_bounded(cats, b),
        valid_amount(t.amount_cents),
    ensures
        all_spent_bounded(spec_place_tx(cats, t), b + AMOUNT_CENTS_BOUND as int),
{
    let name = spec_category_for(t.description);
    lemma_find_name_props(cats, name);
    lemma_find_name_props(cats, "Other"@);
    let r = spec_place_tx(cats, t);
    assert forall|k: int| 0 <= k < r.len() implies 0 <= (#[trigger] r[k]).spent_cents <= b
        + AMOUNT_CENTS_BOUND as int by {
        if k < cats.len() {
            assert(0 <= cats[k].spent_cents <= b);
        }
    }
}

/// Whether some category in the catalog bears the name.
pub open spec fn has_name(cats: Seq<CatModel>, name: Seq<char>) -> bool {
    exists|k: int| 0 <= k < cats.len() && (#[trigger] cats[k]).name == name
}

pub proof fn lemma_find_name_absent(cats: Seq<CatModel>, name: Seq<char>)
    requires
        spec_find_name(cats, name) == -1,
    ensures
        !has_name(cats, name),
    decreases cats.len(),
{
    if cats.len() > 0 {
        let t = cats.drop_first();
        lemma_find_name_absent(t, name);
        if has_name(cats, name) {
            let k = choose|k: int| 0 <= k < cats.len() && (#[trigger] cats[k]).name == name;
            assert(k > 0);
            assert(t[k - 1] == cats[k]);
            assert(has_name(t, name));
        }
    }
}

/// The name a transaction is charged under in a given catalog: its own
/// category name when a category bears it, else "Other".
pub open spec fn spec_charged_name(cats: Seq<CatModel>, t: TxModel) -> Seq<char> {
    if has_name(cats, spec_category_for(t.description)) {
        spec_category_for(t.description)
    } else {
        "Other"@
    }
}

proof fn lemma_place_keeps_names(cats: Seq<CatModel>, t: TxModel, n: Seq<char>)
    ensures
        has_name(cats, n) ==> has_name(spec_place_tx(cats, t), n),
        !has_name(cats, n) && n != "Other"@ ==> !has_name(spec_place_tx(cats, t), n),
{
    let name = spec_category_for(t.description);
    lemma_find_name_props(cats, name);
    lemma_find_name_props(cats, "Other"@);
    let r = spec_place_tx(cats, t);
    let i = spec_find_name(cats, name);
    let j = spec_find_name(cats, "Other"@);
    if i >= 0 || j >= 0 {
        assert(r.len() == cats.len());
        assert(forall|k: int| 0 <= k < cats.len() ==> (#[trigger] r[k]).name == cats[k].name);
        if has_name(cats, n) {
            let k = choose|k: int| 0 <= k < cats.len() && (#[trigger] cats[k]).name == n;
            assert(r[k].name == n);
        }
        if has_name(r, n) {
            let k = choose|k: int| 0 <= k < r.len() && (#[trigger] r[k]).name == n;
            assert(cats[k].name == n);
        }
    } else {
        assert(forall|k: int| 0 <= k < cats.len() ==> #[trigger] r[k] == cats[k]);
        assert(r[cats.len() as int].name == "Other"@);
        if has_name(cats, n) {
            let k = choose|k: int| 0 <= k < cats.len() && (#[trigger] cats[k]).name == n;
            assert(r[k].name == n);
        }
        if has_name(r, n) && n != "Other"@ {
            let k = choose|k: int| 0 <= k < r.len() && (#[trigger] r[k]).name == n;
            assert(k < cats.len());
            assert(cats[k].name == n);
        }
    }
}

proof fn lemma_aggregate_keeps_names(cats: Seq<CatModel>, txs: Seq<TxModel>, n: Seq<char>)
    ensures
        has_name(cats, n) ==> has_name(spec_aggregate(cats, txs), n),
        !has_name(cats, n) && n != "Other"@ ==> !has_name(spec_aggregate(cats, txs), n),
    decreases txs.len(),
{
    if txs.len() > 0 {
        lemma_place_keeps_names(cats, txs[0], n);
        lemma_aggregate_keeps_names(spec_place_tx(cats, txs[0]), txs.drop_first(), n);
    }
}

/// Two transactions with the same description always land under the
/// same category name, however many transactions are placed between
/// them: classification is a function of the description alone, and a
/// run never removes a category name nor adds any name but "Other" —
/// the bucket both would otherwise fall into.
pub proof fn lemma_same_description_same_category(
    cats: Seq<CatModel>,
    between: Seq<TxModel>,
    t1: TxModel,
    t2: TxModel,
)
    requires
        t1.description == t2.description,
    ensures
        spec_charged_name(spec_aggregate(spec_place_tx(cats, t1), between), t2)
            == spec_charged_name(cats, t1),
{
    let n = spec_category_for(t1.description);
    let placed = spec_place_tx(cats, t1);
    lemma_place_keeps_names(cats, t1, n);
    lemma_aggregate_keeps_names(placed, between, n);
}

/// Placement appends the transaction to a category bearing exactly its
/// charged name.
pub proof fn lemma_place_files_under_charged_name(cats: Seq<CatModel>, t: TxModel)
    ensures
        exists|k: int|
            0 <= k < spec_place_tx(cats, t).len() && (#[trigger] spec_place_tx(cats, t)[k]).name
                == spec_charged_name(cats, t) && spec_place_tx(cats, t)[k].transactions.len() > 0
                && spec_place_tx(cats, t)[k].transactions.last() == t,
{
    let name = spec_category_for(t.description);
    let r = spec_place_tx(cats, t);
    let i = spec_find_name(cats, name);
    lemma_find_name_props(cats, name);
    if i >= 0 {
        assert(has_name(cats, name));
        assert(0 <= i < r.len() && r[i].name == spec_charged_name(cats, t)
            && r[i].transactions.len() > 0 && r[i].transactions.last() == t);
    } else {
        lemma_find_name_absent(cats, name);
        let j = spec_find_name(cats, "Other"@);
        lemma_find_name_props(cats, "Other"@);
        if j >= 0 {
            assert(0 <= j < r.len() && r[j].name == spec_charged_name(cats, t)
                && r[j].transactions.len() > 0 && r[j].transactions.last() == t);
        } else {
            let k = cats.len() as int;
            assert(0 <= k < r.len() && r[k].name == spec_charged_name(cats, t)
                && r[k].transactions.len() > 0 && r[k].transactions.last() == t);
        }
    }
}

/// How many categories in the catalog bear the name.
pub open spec fn name_count(cats: Seq<CatModel>, name: Seq<char>) -> int
    decreases cats.len(),
{
    if cats.len() == 0 {
        0
    } else {
        (if cats[0].name == name {
            1int
        } else {
            0int
        }) + name_count(cats.drop_first(), name)
    }
}

proof fn lemma_name_count_zero(cats: Seq<CatModel>, name: Seq<char>)
    ensures
        name_count(cats, name) >= 0,
        (name_count(cats, name) == 0) <==> !has_name(cats, name),
    decreases cats.len(),
{
    if cats.len() > 0 {
        let t = cats.drop_first();
        lemma_name_count_zero(t, name);
        if cats[0].name == name {
            assert(has_name(cats, name));
        } else {
            if has_name(cats, name) {
                let k = choose|k: int| 0 <= k < cats.len() && (#[trigger] cats[k]).name == name;
                assert(k > 0);
                assert(t[k - 1] == cats[k]);
                assert(has_name(t, name));
            }
            if has_name(t, name) {
                let k = choose|k: int| 0 <= k < t.len() && (#[trigger] t[k]).name == name;
                assert(cats[k + 1] == t[k]);
                assert(has_name(cats, name));
            }
        }
    }
}

proof fn lemma_name_count_same_names(s1: Seq<CatModel>, s2: Seq<CatModel>, name: Seq<char>)
    requires
        s1.len() == s2.len(),
        forall|k: int| 0 <= k < s1.len() ==> (#[trigger] s1[k]).name == s2[k].name,
    ensures
        name_count(s1, name) == name_count(s2, name),
    decreases s1.len(),
{
    if s1.len() > 0 {
        let t1 = s1.drop_first();
        let t2 = s2.drop_first();
        assert(forall|k: int| 0 <= k < t1.len() ==> (#[trigger] t1[k]).name == t2[k].name) by {
            assert(forall|k: int|
                0 <= k < t1.len() ==> #[trigger] t1[k] == s1[k + 1] && t2[k] == s2[k + 1]);
        }
        lemma_name_count_same_names(t1, t2, name);
    }
}

proof fn lemma_name_count_push(s: Seq<CatModel>, c: CatModel, name: Seq<char>)
    ensures
        name_count(s.push(c), name) == name_count(s, name) + (if c.name == name {
            1int
        } else {
            0int
        }),
    decreases s.len(),
{
    if s.len() == 0 {
        assert(s.push(c)[0] == c);
        assert(s.push(c).drop_first() =~= Seq::<CatModel>::empty());
        assert(name_count(Seq::<CatModel>::empty(), name) == 0);
    } else {
        assert(s.push(c)[0] == s[0]);
        assert(s.push(c).drop_first() =~= s.drop_first().push(c));
        lemma_name_count_push(s.drop_first(), c, name);
    }
}

proof fn lemma_place_keeps_overflow_unique(cats: Seq<CatModel>, t: TxModel)
    requires
        name_count(cats, "Other"@) <= 1,
    ensures
        name_count(spec_place_tx(cats, t), "Other"@) <= 1,
{
    let name = spec_category_for(t.description);
    lemma_find_name_props(cats, name);
    lemma_find_name_props(cats, "Other"@);
    let r = spec_place_tx(cats, t);
    let i = spec_find_name(cats, name);
    let j = spec_find_name(cats, "Other"@);
    if i >= 0 || j >= 0 {
        assert(forall|k: int| 0 <= k < r.len() ==> (#[trigger] r[k]).name == cats[k].name);
        lemma_name_count_same_names(r, cats, "Other"@);
    } else {
        lemma_find_name_absent(cats, "Other"@);
        lemma_name_count_zero(cats, "Other"@);
        lemma_name_count_push(
            cats,
            CatModel {
                name: "Other"@,
                allocated_cents: 0,
                spent_cents: abs_cents(t.amount_cents),
                transactions: seq![t],
            },
            "Other"@,
        );
    }
}

/// A run never creates a duplicate overflow category: a transaction is
/// placed into an existing "Other" whenever one is present, and a fresh
/// one is appended only when none is, so a catalog holding at most one
/// "Other" never comes to hold two.
pub proof fn lemma_no_duplicate_overflow(cats: Seq<CatModel>, txs: Seq<TxModel>)
    requires
        name_count(cats, "Other"@) <= 1,
    ensures
        name_count(spec_aggregate(cats, txs), "Other"@) <= 1,
    decreases txs.len(),
{
    if txs.len() > 0 {
        lemma_place_keeps_overflow_unique(cats, txs[0]);
        lemma_no_duplicate_overflow(spec_place_tx(cats, txs[0]), txs.drop_first());
    }
}

/// From a catalog without an "Other" category, two transactions that
/// match no keyword rule create the overflow category once and then
/// accumulate in it: exactly one "Other" stands in the result, appended
/// last, with no allocated budget, spent the sum of the two absolute
/// amounts, and holding both records in order.
pub proof fn lemma_overflow_pair(cats: Seq<CatModel>, t1: TxModel, t2: TxModel)
    requires
        spec_category_for(t1.description) == "Other"@,
        spec_category_for(t2.description) == "Other"@,
        spec_find_name(cats, "Other"@) == -1,
    ensures
        ({
            let r = spec_aggregate(cats, seq![t1, t2]);
            &&& r.len() == cats.len() + 1
            &&& r[cats.len() as int] == (CatModel {
                name: "Other"@,
                allocated_cents: 0,
                spent_cents: abs_cents(t1.amount_cents) + abs_cents(t2.amount_cents),
                transactions: seq![t1, t2],
            })
            &&& name_count(r, "Other"@) == 1
        }),
{
    let txs = seq![t1, t2];
    let o1 = CatModel {
        name: "Other"@,
        allocated_cents: 0,
        spent_cents: abs_cents(t1.amount_cents),
        transactions: seq![t1],
    };
    lemma_overflow_category_created(cats, t1);
    let p1 = cats.push(o1);
    assert(spec_place_tx(cats, t1) == p1);
    lemma_find_name_absent(cats, "Other"@);
    assert forall|j: int| 0 <= j < cats.len() implies (#[trigger] p1[j]).name != "Other"@ by {
        assert(p1[j] == cats[j]);
        if cats[j].name == "Other"@ {
            assert(has_name(cats, "Other"@));
        }
    }
    assert(p1[cats.len() as int] == o1);
    lemma_find_name_at(p1, "Other"@, cats.len() as int);
    lemma_overflow_category_reused(p1, t2, cats.len() as int);
    let p2 = p1.update(cats.len() as int, add_tx(o1, t2));
    assert(spec_place_tx(p1, t2) == p2);
    assert(txs[0] == t1);
    assert(txs.drop_first() =~= seq![t2]);
    assert(seq![t2][0] == t2);
    assert(seq![t2].drop_first() =~= Seq::<TxModel>::empty());
    assert(spec_aggregate(cats, txs) == spec_aggregate(p1, seq![t2]));
    assert(spec_aggregate(p1, seq![t2]) == spec_aggregate(p2, Seq::<TxModel>::empty()));
    assert(spec_aggregate(p2, Seq::<TxModel>::empty()) == p2);
    assert(spec_aggregate(cats, txs) == p2);
    assert(seq![t1].push(t2) =~= seq![t1, t2]);
    assert(p2[cats.len() as int] == add_tx(o1, t2));
    lemma_name_count_zero(cats, "Other"@);
    lemma_name_count_push(cats, o1, "Other"@);
    assert(forall|k: int| 0 <= k < p2.len() ==> (#[trigger] p2[k]).name == p1[k].name);
    lemma_name_count_same_names(p2, p1, "Other"@);
}

#[verifier::loop_isolation(false)]
fn find_category(cats: &Vec<BudgetCategory>, name: &String) -> (r: Option<usize>)
    ensures
        match r {
            Option::Some(k) => 0 <= k < cats@.len() && spec_find_name(cat_models(cats@), name@)
                == k,
            Option::None => spec_find_name(cat_models(cats@), name@) == -1,
        },
{
    let mut k: usize = 0;
    while k < cats.len()
        invariant
            k <= cats@.len(),
            forall|j: int| 0 <= j < k ==> (#[trigger] cat_models(cats@)[j]).name != name@,
        decreases cats@.len() - k,
    {
        if (&cats[k].name).eq(name) {
            proof {
                lemma_find_name_at(cat_models(cats@), name@, k as int);
            }
            return Option::Some(k);
        }
        k = k + 1;
    }
    proof {
        lemma_find_name_none(cat_models(cats@), name@);
    }
    Option::None
}

fn add_tx_to_category(cats: &mut Vec<BudgetCategory>, k: usize, tx: &Transaction)
    requires
        k < old(cats)@.len(),
        valid_amount(tx@.amount_cents),
        0 <= cat_models(old(cats)@)[k as int].spent_cents,
        cat_models(old(cats)@)[k as int].spent_cents + AMOUNT_CENTS_BOUND as int
            <= i128::MAX as int,
    ensures
        cat_models(final(cats)@) == cat_models(old(cats)@).update(
            k as int,
            add_tx(cat_models(old(cats)@)[k as int], tx@),
        ),
{
    let ghost before = cat_models(cats@);
    let mut c = cats.remove(k);
    let a: i128 = if tx.amount_cents < 0 {
        -(tx.amount_cents as i128)
    } else {
        tx.amount_cents as i128
    };
    let ghost prev_txs = c.transactions@;
    c.spent_cents = c.spent_cents + a;
    c.transactions.push(tx.duplicate());
    proof {
        assert(tx_models(c.transactions@) =~= tx_models(prev_txs).push(tx@));
    }
    cats.insert(k, c);
    proof {
        assert forall|j: int| 0 <= j < before.len() implies #[trigger] cat_models(cats@)[j] == (
        before.update(k as int, add_tx(before[k as int], tx@)))[j] by {
            if j < k {
                assert(cats@[j] == old(cats)@[j]);
            } else if j == k {
                assert(cats@[j] == c);
            } else {
                assert(cats@[j] == old(cats)@[j]);
            }
        }
        assert(cat_models(cats@) =~= before.update(k as int, add_tx(before[k as int], tx@)));
    }
}

/// A transaction that matches no keyword rule, when the catalog holds
/// no "Other" category yet, creates one at the end with no allocated
/// budget and a spent total of exactly the transaction's absolute
/// amount.
pub proof fn lemma_overflow_category_created(cats: Seq<CatModel>, t: TxModel)
    requires
        spec_category_for(t.description) == "Other"@,
        spec_find_name(cats, "Other"@) < 0,
    ensures
        spec_place_tx(cats, t) == cats.push(
            CatModel {
                name: "Other"@,
                allocated_cents: 0,
                spent_cents: abs_cents(t.amount_cents),
                transactions: seq![t],
            },
        ),
{
}

/// A later unmatched transaction accumulates into the existing "Other"
/// category instead of creating a duplicate: the catalog keeps its
/// length and only the "Other" entry changes.
pub proof fn lemma_overflow_category_reused(cats: Seq<CatModel>, t: TxModel, j: int)
    requires
        spec_category_for(t.description) == "Other"@,
        spec_find_name(cats, "Other"@) == j,
        0 <= j,
    ensures
        spec_place_tx(cats, t) == cats.update(j, add_tx(cats[j], t)),
        spec_place_tx(cats, t).len() == cats.len(),
{
    lemma_find_name_props(cats, "Other"@);
}

/// Fold every transaction, in arrival order, into the catalog.
#[verifier::loop_isolation(false)]
#[verifier::rlimit(80)]
pub fn categorize_transactions(transactions: Vec<Transaction>, budget_categories: Vec<
    BudgetCategory,
>) -> (r: Vec<BudgetCategory>)
    requires
        all_valid_amounts(tx_models(transactions@)),
        all_wf_start(cat_models(budget_categories@)),
    ensures
        cat_models(r@) == spec_aggregate(cat_models(budget_categories@), tx_models(
            transactions@,
        )),
{
    let ghost init_cats = cat_models(budget_categories@);
    let ghost all_txs = tx_models(transactions@);
    let n = transactions.len();
    let mut cats = budget_categories;
    proof {
        assert(all_txs.subrange(0, n as int) =~= all_txs);
    }
    let mut i: usize = 0;
    while i < n
        invariant
            i <= n,
            spec_aggregate(cat_models(cats@), all_txs.subrange(i as int, n as int))
                == spec_aggregate(init_cats, all_txs),
            all_spent_bounded(
                cat_models(cats@),
                SPENT_CENTS_START_CAP as int + i * (AMOUNT_CENTS_BOUND as int),
            ),
        decreases n - i,
    {
        let ghost cm = cat_models(cats@);
        let ghost tm = all_txs[i as int];
        let ghost bound = SPENT_CENTS_START_CAP as int + i * (AMOUNT_CENTS_BOUND as int);
        proof {
            assert(tm == transactions@[i as int]@);
            assert(valid_amount(tm.amount_cents));
            assert(i + 1 <= usize::MAX as int + 1);
            assert(bound + AMOUNT_CENTS_BOUND as int <= SPENT_CENTS_START_CAP as int + (
            usize::MAX as int + 1) * (AMOUNT_CENTS_BOUND as int));
        }
        let name = category_for(transactions[i].description.as_str());
        let found = find_category(&cats, &name);
        match found {
            Option::Some(k) => {
                add_tx_to_category(&mut cats, k, &transactions[i]);
                proof {
                    assert(cat_models(cats@) == spec_place_tx(cm, tm));
                }
            },
            Option::None => {
                let other_name = String::from_str("Other");
                let found_other = find_category(&cats, &other_name);
                match found_other {
                    Option::Some(k) => {
                        add_tx_to_category(&mut cats, k, &transactions[i]);
                        proof {
                            assert(cat_models(cats@) == spec_place_tx(cm, tm));
                        }
                    },
                    Option::None => {
                        let a: i128 = if transactions[i].amount_cents < 0 {
                            -(transactions[i].amount_cents as i128)
                        } else {
                            transactions[i].amount_cents as i128
                        };
                        let mut charged: Vec<Transaction> = Vec::new();
                        charged.push(transactions[i].duplicate());
                        let fresh = BudgetCategory {
                            name: other_name,
                            allocated_cents: 0,
                            spent_cents: a,
                            transactions: charged,
                        };
                        proof {
                            assert(tx_models(fresh.transactions@) =~= seq![tm]);
                            assert(fresh@ == (CatModel {
                                name: "Other"@,
                                allocated_cents: 0,
                                spent_cents: abs_cents(tm.amount_cents),
                                transactions: seq![tm],
                            }));
                        }
                        cats.push(fresh);
                        proof {
                            assert(cat_models(cats@) =~= spec_place_tx(cm, tm));
                        }
                    },
                }
            },
        }
        proof {
            lemma_place_bounds(cm, tm, bound);
            assert(all_txs.subrange(i as int, n as int).drop_first() =~= all_txs.subrange(
                i + 1,
                n as int,
            ));
            assert(all_txs.subrange(i as int, n as int)[0] == tm);
            assert(spec_aggregate(cm, all_txs.subrange(i as int, n as int)) == spec_aggregate(
                spec_place_tx(cm, tm),
                all_txs.subrange(i + 1, n as int),
            ));
            assert((i + 1) * (AMOUNT_CENTS_BOUND as int) == i * (AMOUNT_CENTS_BOUND as int)
                + AMOUNT_CENTS_BOUND as int) by (nonlinear_arith);
        }
        i = i + 1;
    }
    proof {
        assert(all_txs.subrange(n as int, n as int) =~= Seq::<TxModel>::empty());
        assert(spec_aggregate(cat_models(cats@), Seq::<TxModel>::empty()) == cat_models(cats@));
    }
    cats
}

/// The fixed starting catalog: five categories with their default
/// allocated budgets, nothing spent, no transactions.
pub open spec fn spec_default_categories() -> Seq<CatModel> {
    seq![
        CatModel {
            name: "Groceries"@,
            allocated_cents: 50000,
            spent_cents: 0,
            transactions: Seq::empty(),
        },
        CatModel {
            name: "Transportation"@,
            allocated_cents: 20000,
            spent_cents: 0,
            transactions: Seq::empty(),
        },
        CatModel {
            name: "Entertainment"@,
            allocated_cents: 15000,
            spent_cents: 0,
            transactions: Seq::empty(),
        },
        CatModel {
            name: "Utilities"@,
            allocated_cents: 30000,
            spent_cents: 0,
            transactions: Seq::empty(),
        },
        CatModel {
            name: "Dining Out"@,
            allocated_cents: 25000,
            spent_cents: 0,
            transactions: Seq::empty(),
        },
    ]
}

fn empty_category(name: &str, allocated_cents: i64) -> (r: BudgetCategory)
    requires
        0 <= allocated_cents,
    ensures
        r@ == (CatModel {
            name: name@,
            allocated_cents: allocated_cents as int,
            spent_cents: 0,
            transactions: Seq::empty(),
        }),
{
    let r = BudgetCategory {
        name: name.to_owned(),
        allocated_cents,
        spent_cents: 0,
        transactions: Vec::new(),
    };
    proof {
        assert(tx_models(r.transactions@) =~= Seq::<TxModel>::empty());
    }
    r
}

/// The fixed starting catalog, built fresh for each run.
pub fn get_budget_categories() -> (r: Vec<BudgetCategory>)
    ensures
        cat_models(r@) == spec_default_categories(),
        all_wf_start(cat_models(r@)),
{
    let mut r: Vec<BudgetCategory> = Vec::new();
    r.push(empty_category("Groceries", 50000));
    r.push(empty_category("Transportation", 20000));
    r.push(empty_category("Entertainment", 15000));
    r.push(empty_category("Utilities", 30000));
    r.push(empty_category("Dining Out", 25000));
    proof {
        assert(cat_models(r@) =~= spec_default_categories());
    }
    r
}

impl BudgetCategory {
    /// The cents left of the allocated budget; negative when the
    /// category is over budget.
    pub fn remaining_cents(&self) -> (r: i128)
        requires
            0 <= self@.spent_cents,
            self@.spent_cents - self@.allocated_cents <= i128::MAX as int,
        ensures
            r as int == self@.allocated_cents - self@.spent_cents,
    {
        (self.allocated_cents as i128) - self.spent_cents
    }
}

} // verus!
