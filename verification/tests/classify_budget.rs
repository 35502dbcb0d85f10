use bank_budget::budget::{categorize_transactions, get_budget_categories, BudgetCategory};
use bank_budget::categorize::category_for;
use bank_budget::summary::summarize;
use bank_budget::transactions::Transaction;

fn tx(description: &str, amount_cents: i64) -> Transaction {
    Transaction {
        date: "2024-05-02T10:00:00Z".to_string(),
        description: description.to_string(),
        amount_cents,
    }
}

#[test]
fn classifies_each_rule_table_row() {
    assert_eq!(category_for("Woolworths Metro").as_str(), "Groceries");
    assert_eq!(category_for("Uber trip").as_str(), "Transportation");
    assert_eq!(category_for("Netflix subscription").as_str(), "Entertainment");
    assert_eq!(category_for("water bill").as_str(), "Utilities");
    assert_eq!(category_for("KFC dinner").as_str(), "Dining Out");
    assert_eq!(category_for("Zara").as_str(), "Other");
    assert_eq!(category_for("").as_str(), "Other");
}

#[test]
fn classification_is_case_insensitive() {
    assert_eq!(category_for("WOOLWORTHS"), category_for("woolworths"));
    assert_eq!(category_for("WOOLWORTHS").as_str(), "Groceries");
    assert_eq!(category_for("NeTfLiX").as_str(), "Entertainment");
}

#[test]
fn classifying_twice_gives_the_same_category() {
    let first = category_for("corner cafe");
    let second = category_for("corner cafe");
    assert_eq!(first, second);
}

#[test]
fn rule_order_decides_collisions() {
    // "bus" (rule two) and "bar"/"cafe" (rule five) both occur: the
    // earlier rule wins.
    assert_eq!(category_for("bus bar cafe").as_str(), "Transportation");
}

fn category_named<'a>(cats: &'a [BudgetCategory], name: &str) -> &'a BudgetCategory {
    cats.iter().find(|c| c.name == name).expect("category missing")
}

#[test]
fn aggregates_into_matching_categories() {
    let txs = vec![
        tx("Woolworths", -5000),
        tx("Uber trip", -2000),
        tx("mystery shop", -1000),
        tx("refund somewhere", 500),
    ];
    let cats = categorize_transactions(txs, get_budget_categories());
    assert_eq!(cats.len(), 6);
    assert_eq!(category_named(&cats, "Groceries").spent_cents, 5000);
    assert_eq!(category_named(&cats, "Transportation").spent_cents, 2000);
    assert_eq!(category_named(&cats, "Entertainment").spent_cents, 0);
    let other = category_named(&cats, "Other");
    assert_eq!(other.allocated_cents, 0);
    assert_eq!(other.spent_cents, 1500);
    assert_eq!(other.transactions.len(), 2);
}

#[test]
fn catalog_keeps_its_order_with_overflow_last() {
    let txs = vec![tx("mystery", -100), tx("coles run", -200)];
    let cats = categorize_transactions(txs, get_budget_categories());
    let names: Vec<&str> = cats.iter().map(|c| c.name.as_str()).collect();
    assert_eq!(
        names,
        vec!["Groceries", "Transportation", "Entertainment", "Utilities", "Dining Out", "Other"]
    );
}

#[test]
fn overflow_category_is_created_once_and_reused() {
    let txs = vec![tx("first mystery", -1000), tx("second mystery", -500)];
    let cats = categorize_transactions(txs, get_budget_categories());
    let others: Vec<&BudgetCategory> = cats.iter().filter(|c| c.name == "Other").collect();
    assert_eq!(others.len(), 1);
    assert_eq!(others[0].allocated_cents, 0);
    assert_eq!(others[0].spent_cents, 1500);
}

#[test]
fn spent_totals_conserve_absolute_amounts() {
    let txs = vec![
        tx("Woolworths", -5000),
        tx("bus ticket", -350),
        tx("salary", 100000),
        tx("mystery", -75),
    ];
    let abs_sum: i128 = txs.iter().map(|t| (t.amount_cents as i128).abs()).sum();
    let cats = categorize_transactions(txs, get_budget_categories());
    let spent_sum: i128 = cats.iter().map(|c| c.spent_cents).sum();
    assert_eq!(spent_sum, abs_sum);
}

#[test]
fn remaining_cents_may_go_negative() {
    let txs = vec![tx("aldi", -60000)];
    let cats = categorize_transactions(txs, get_budget_categories());
    let groceries = category_named(&cats, "Groceries");
    assert_eq!(groceries.remaining_cents(), -10000);
    let utilities = category_named(&cats, "Utilities");
    assert_eq!(utilities.remaining_cents(), 30000);
}

#[test]
fn default_catalog_allocations() {
    let cats = get_budget_categories();
    let pairs: Vec<(&str, i64)> =
        cats.iter().map(|c| (c.name.as_str(), c.allocated_cents)).collect();
    assert_eq!(
        pairs,
        vec![
            ("Groceries", 50000),
            ("Transportation", 20000),
            ("Entertainment", 15000),
            ("Utilities", 30000),
            ("Dining Out", 25000),
        ]
    );
    assert!(cats.iter().all(|c| c.spent_cents == 0 && c.transactions.is_empty()));
}

#[test]
fn summarizer_splits_debits_and_credits() {
    let txs = vec![tx("a", -5000), tx("b", 3000), tx("c", -2000)];
    let s = summarize(&txs);
    assert_eq!(s.total_expenses_cents, 7000);
    assert_eq!(s.total_incoming_cents, 3000);
    assert_eq!(s.net_position_cents(), -4000);
}

#[test]
fn summarizer_of_nothing_is_zero() {
    let s = summarize(&Vec::new());
    assert_eq!(s.total_expenses_cents, 0);
    assert_eq!(s.total_incoming_cents, 0);
    assert_eq!(s.net_position_cents(), 0);
}
