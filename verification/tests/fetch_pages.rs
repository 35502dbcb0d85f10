use bank_budget::accounts::accounts_of_raw;
use bank_budget::dates::current_month_window;
use bank_budget::fetch::{build_transactions_url, drive_events, FetchStep, PageEvent, PageReply};
use bank_budget::payload::{classify_reply, parse_accounts, run_fetch};
use bank_budget::transactions::{filter_by_account, transactions_of_items, RawItem};

fn item_json(created: &str, desc: &str, amount: &str, account: &str) -> String {
    format!(
        r#"{{"id":"t1","attributes":{{"createdAt":"{}","description":"{}","amount":{{"currencyCode":"AUD","value":"{}"}}}},"relationships":{{"account":{{"data":{{"id":"{}"}}}}}}}}"#,
        created, desc, amount, account
    )
}

fn page_body(items: &[String], next: Option<&str>) -> String {
    let data = items.join(",");
    match next {
        Some(u) => format!(r#"{{"data":[{}],"links":{{"next":"{}"}}}}"#, data, u),
        None => format!(r#"{{"data":[{}],"links":{{"next":null}}}}"#, data),
    }
}

fn ok_reply(body: String) -> PageReply {
    PageReply { success: true, body }
}

fn fail_reply(body: &str) -> PageReply {
    PageReply { success: false, body: body.to_string() }
}

#[test]
fn pages_concatenate_in_arrival_order() {
    let p1 = page_body(
        &[
            item_json("2024-05-01T09:00:00Z", "Woolworths", "-50.00", "a1"),
            item_json("2024-05-02T09:00:00Z", "Uber trip", "-20.00", "a1"),
        ],
        Some("https://example.test/page2"),
    );
    let p2 = page_body(&[item_json("2024-05-03T09:00:00Z", "salary", "30.00", "a1")], None);
    let txs = run_fetch(vec![ok_reply(p1), ok_reply(p2)], &None).expect("fetch should succeed");
    assert_eq!(txs.len(), 3);
    assert_eq!(txs[0].description, "Woolworths");
    assert_eq!(txs[0].date, "2024-05-01T09:00:00Z");
    assert_eq!(txs[0].amount_cents, -5000);
    assert_eq!(txs[1].description, "Uber trip");
    assert_eq!(txs[1].amount_cents, -2000);
    assert_eq!(txs[2].description, "salary");
    assert_eq!(txs[2].amount_cents, 3000);
}

#[test]
fn fetch_stops_at_the_page_without_cursor() {
    let p1 = page_body(&[item_json("d", "one", "-1.00", "a1")], None);
    // A reply after the final page is never issued; even a failure
    // there cannot affect the result.
    let txs =
        run_fetch(vec![ok_reply(p1), fail_reply("unreachable")], &None).expect("fetch ends at p1");
    assert_eq!(txs.len(), 1);
    assert_eq!(txs[0].description, "one");
}

#[test]
fn non_success_status_aborts_with_body() {
    let p1 = page_body(
        &[item_json("d", "one", "-1.00", "a1")],
        Some("https://example.test/page2"),
    );
    let err = run_fetch(vec![ok_reply(p1), fail_reply("boom")], &None)
        .expect_err("fetch should abort");
    assert_eq!(err.body, "boom");
    assert_eq!(err.message(), "Failed to fetch transactions: boom");
}

#[test]
fn first_reply_failure_aborts_immediately() {
    let err = run_fetch(vec![fail_reply("denied")], &None).expect_err("fetch should abort");
    assert_eq!(err.body, "denied");
}

#[test]
fn missing_data_array_ends_the_stream() {
    let p1 = page_body(
        &[item_json("d", "one", "-1.00", "a1")],
        Some("https://example.test/page2"),
    );
    let txs = run_fetch(vec![ok_reply(p1), ok_reply("{}".to_string())], &None)
        .expect("no data array is a clean end");
    assert_eq!(txs.len(), 1);
}

#[test]
fn unreadable_body_aborts() {
    let err = run_fetch(vec![ok_reply("not json".to_string())], &None)
        .expect_err("garbled body aborts");
    assert_eq!(err.body, "not json");
}

#[test]
fn malformed_fields_degrade_to_defaults() {
    let body = r#"{"data":[{"id":"t1"}],"links":{"next":null}}"#.to_string();
    let txs = run_fetch(vec![ok_reply(body)], &None).expect("defaults, not errors");
    assert_eq!(txs.len(), 1);
    assert_eq!(txs[0].date, "");
    assert_eq!(txs[0].description, "");
    assert_eq!(txs[0].amount_cents, 0);
}

#[test]
fn account_filter_keeps_only_matching_items() {
    let p1 = page_body(
        &[
            item_json("d1", "mine", "-1.00", "a1"),
            item_json("d2", "other account", "-2.00", "a2"),
            item_json("d3", "mine too", "-3.00", "a1"),
        ],
        None,
    );
    let txs = run_fetch(vec![ok_reply(p1)], &Some("a1".to_string())).expect("fetch succeeds");
    assert_eq!(txs.len(), 2);
    assert_eq!(txs[0].description, "mine");
    assert_eq!(txs[1].description, "mine too");
}

#[test]
fn absent_account_relationship_never_matches() {
    let items = vec![RawItem {
        created_at: Some("d".to_string()),
        description: Some("no account".to_string()),
        amount_value: Some("-1.00".to_string()),
        account_id: None,
    }];
    let kept = filter_by_account(&items, &"a1".to_string());
    assert!(kept.is_empty());
    let txs = transactions_of_items(&items);
    assert_eq!(txs.len(), 1);
    assert_eq!(txs[0].amount_cents, -100);
}

#[test]
fn driving_constructed_events() {
    let events = vec![
        PageEvent::Delivered {
            items: vec![RawItem {
                created_at: None,
                description: Some("kept".to_string()),
                amount_value: Some("2.50".to_string()),
                account_id: None,
            }],
            next_url: Some("u2".to_string()),
        },
        PageEvent::Exhausted,
    ];
    let txs = drive_events(events, &None).expect("exhausted page ends the stream");
    assert_eq!(txs.len(), 1);
    assert_eq!(txs[0].description, "kept");
    assert_eq!(txs[0].amount_cents, 250);
}

#[test]
fn classify_reply_keeps_failure_bodies() {
    let e = classify_reply(fail_reply("oops"));
    match e {
        PageEvent::Failed { body } => assert_eq!(body, "oops"),
        _ => panic!("a non-success reply must classify as failed"),
    }
    let step = bank_budget::fetch::fetch_step(Vec::new(), &None, classify_reply(fail_reply("x")));
    match step {
        FetchStep::Aborted { error } => assert_eq!(error.body, "x"),
        _ => panic!("failure must abort"),
    }
}

#[test]
fn builds_the_first_page_url() {
    let w = current_month_window(2024, 5);
    assert_eq!(
        build_transactions_url(&w, false),
        "https://api.up.com.au/api/v1/transactions?filter[since]=2024-05-01T00:00:00Z&filter[until]=2024-06-01T00:00:00Z&page[size]=100"
    );
    assert_eq!(
        build_transactions_url(&w, true),
        "https://api.up.com.au/api/v1/transactions?filter[since]=2024-05-01T00:00:00Z&filter[until]=2024-06-01T00:00:00Z&filter[status]=SETTLED&page[size]=100"
    );
}

#[test]
fn parses_account_listings_with_defaults() {
    let body = r#"{"data":[{"id":"acc-1","attributes":{"displayName":"Spending","balance":{"currencyCode":"AUD","value":"123.45"}}},{}]}"#;
    let raw = parse_accounts(body).expect("listing parses");
    let infos = accounts_of_raw(&raw);
    assert_eq!(infos.len(), 2);
    assert_eq!(infos[0].id, "acc-1");
    assert_eq!(infos[0].display_name, "Spending");
    assert_eq!(infos[0].balance_value, "123.45");
    assert_eq!(infos[0].currency_code, "AUD");
    assert_eq!(infos[1].id, "Unknown");
    assert_eq!(infos[1].display_name, "Unknown");
    assert_eq!(infos[1].balance_value, "");
    assert_eq!(infos[1].currency_code, "");
}

#[test]
fn account_listing_without_data_is_refused() {
    assert!(parse_accounts("{}").is_none());
    assert!(parse_accounts("not json").is_none());
}
