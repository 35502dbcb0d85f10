//! Reading API payloads. JSON parsing and traversal go through
//! serde_json behind trusted declarations, specified over a
//! mathematical model of the JSON tree: `json_of` names the tree a text
//! denotes, `json_model` names the tree a parsed value holds, and each
//! trusted accessor states what it returns over that model. Everything
//! downstream — the paging decisions, field extraction and the default
//! policy — is verified against exact contracts.

use vstd::prelude::*;

use crate::accounts::{raw_account_models, RawAccount, RawAccountModel};
use crate::fetch::{
    drive_events, event_models, opt_string_model, spec_drive, EventModel, FetchError, PageEvent,
    PageReply,
};
use crate::transactions::{all_valid_amounts, item_models, tx_models, ItemModel, RawItem,
    Transaction, TxModel};

verus! {

/// A JSON tree: what a payload text denotes and a parsed value holds.
pub ghost enum JsonModel {
    Null,
    Bool(bool),
    Number,
    Text(Seq<char>),
    Array(Seq<JsonModel>),
    Object(Map<Seq<char>, JsonModel>),
}

/// The tree a parsed serde_json value holds. Every method the library
/// calls on such a value is specified over this model.
pub uninterp spec fn json_model(v: serde_json::Value) -> JsonModel;

/// The tree a text denotes: None exactly on text that is not
/// well-formed JSON, as serde_json reads it. Parsing is a function of
/// the text alone.
pub uninterp spec fn json_of(s: Seq<char>) -> Option<JsonModel>;

#[verifier::external_type_specification]
#[verifier::external_body]
pub struct ExValue(serde_json::Value);

/// Relies on serde_json::from_str::<Value>: it succeeds exactly on
/// well-formed JSON, and the parsed value holds the tree the text
/// denotes.
#[verifier::external_body]
fn json_parse(s: &str) -> (r: Option<serde_json::Value>)
    ensures
        r is Some <==> json_of(s@) is Some,
        r matches Some(v) ==> json_of(s@) == Some(json_model(v)),
{
    serde_json::from_str(s).ok()
}

/// Relies on serde_json::Value::get with a string key: on an object,
/// the value under the key; None when the key is absent or the value is
/// not an object. Cloning a value keeps the tree it holds.
#[verifier::external_body]
fn json_get(v: &serde_json::Value, key: &str) -> (r: Option<serde_json::Value>)
    ensures
        (match json_model(*v) {
            JsonModel::Object(fields) => {
                &&& (r is Some <==> fields.contains_key(key@))
                &&& (r matches Some(x) ==> fields.contains_key(key@) && json_model(x)
                    == fields[key@])
            },
            _ => r is None,
        }),
{
    v.get(key).cloned()
}

/// Relies on serde_json::Value::as_str: the contained text when the
/// value holds a JSON string, None otherwise.
#[verifier::external_body]
fn json_as_string(v: &serde_json::Value) -> (r: Option<String>)
    ensures
        (match json_model(*v) {
            JsonModel::Text(t) => r matches Some(s) && s@ == t,
            _ => r is None,
        }),
{
    v.as_str().map(|s| s.to_string())
}

/// Relies on serde_json::Value::as_array: the contained elements, in
/// order, when the value holds a JSON array, None otherwise.
#[verifier::external_body]
fn json_as_array(v: &serde_json::Value) -> (r: Option<Vec<serde_json::Value>>)
    ensures
        (match json_model(*v) {
            JsonModel::Array(elems) => r matches Some(vs) && vs@.len() == elems.len() && (forall|
                i: int,
            |
                0 <= i < elems.len() ==> json_model(#[trigger] vs@[i]) == elems[i]),
            _ => r is None,
        }),
{
    v.as_array().cloned()
}

/// The subtree under an object key, None when the key is absent or the
/// tree is not an object.
pub open spec fn json_field(m: JsonModel, key: Seq<char>) -> Option<JsonModel> {
    match m {
        JsonModel::Object(fields) => if fields.contains_key(key) {
            Option::Some(fields[key])
        } else {
            Option::None
        },
        _ => Option::None,
    }
}

pub open spec fn opt_json_field(m: Option<JsonModel>, key: Seq<char>) -> Option<JsonModel> {
    match m {
        Option::Some(x) => json_field(x, key),
        Option::None => Option::None,
    }
}

/// The text of a subtree, None when it is absent or not a string.
pub open spec fn json_text(m: Option<JsonModel>) -> Option<Seq<char>> {
    match m {
        Option::Some(JsonModel::Text(t)) => Option::Some(t),
        _ => Option::None,
    }
}

/// The string under two nested object keys, when the whole path is
/// present and ends at a string.
fn json_string_at2(v: &serde_json::Value, k1: &str, k2: &str) -> (r: Option<String>)
    ensures
        opt_string_model(r) == json_text(opt_json_field(json_field(json_model(*v), k1@), k2@)),
{
    match json_get(v, k1) {
        Option::Some(inner) => match json_get(&inner, k2) {
            Option::Some(leaf) => json_as_string(&leaf),
            Option::None => Option::None,
        },
        Option::None => Option::None,
    }
}

/// The raw transaction fields one element of a page's `data` array
/// denotes; a field whose path is absent or not a string stays empty
/// for the default policy to fill later.
pub open spec fn spec_item_of_json(m: JsonModel) -> ItemModel {
    let attrs = json_field(m, "attributes"@);
    ItemModel {
        created_at: json_text(opt_json_field(attrs, "createdAt"@)),
        description: json_text(opt_json_field(attrs, "description"@)),
        amount_value: json_text(opt_json_field(opt_json_field(attrs, "amount"@), "value"@)),
        account_id: json_text(
            opt_json_field(
                opt_json_field(opt_json_field(json_field(m, "relationships"@), "account"@), "data"@),
                "id"@,
            ),
        ),
    }
}

fn raw_item_of_value(v: &serde_json::Value) -> (r: RawItem)
    ensures
        r@ == spec_item_of_json(json_model(*v)),
{
    let (created_at, description, amount_value) = match json_get(v, "attributes") {
        Option::Some(attrs) => {
            let created_at = match json_get(&attrs, "createdAt") {
                Option::Some(x) => json_as_string(&x),
                Option::None => Option::None,
            };
            let description = match json_get(&attrs, "description") {
                Option::Some(x) => json_as_string(&x),
                Option::None => Option::None,
            };
            let amount_value = match json_get(&attrs, "amount") {
                Option::Some(amount) => match json_get(&amount, "value") {
                    Option::Some(x) => json_as_string(&x),
                    Option::None => Option::None,
                },
                Option::None => Option::None,
            };
            (created_at, description, amount_value)
        },
        Option::None => (Option::None, Option::None, Option::None),
    };
    let account_id = match json_get(v, "relationships") {
        Option::Some(rels) => match json_get(&rels, "account") {
            Option::Some(account) => json_string_at2(&account, "data", "id"),
            Option::None => Option::None,
        },
        Option::None => Option::None,
    };
    RawItem { created_at, description, amount_value, account_id }
}

/// The page event a success body denotes: Garbled when it is not JSON,
/// Exhausted when it lacks a `data` array, otherwise the items it
/// delivers together with the `links.next` cursor.
pub open spec fn spec_classify_body(body: Seq<char>) -> EventModel {
    match json_of(body) {
        Option::None => EventModel::Garbled { body },
        Option::Some(doc) => match json_field(doc, "data"@) {
            Option::None => EventModel::Exhausted,
            Option::Some(d) => match d {
                JsonModel::Array(elems) => EventModel::Delivered {
                    items: elems.map_values(|e: JsonModel| spec_item_of_json(e)),
                    next_url: json_text(opt_json_field(json_field(doc, "links"@), "next"@)),
                },
                _ => EventModel::Exhausted,
            },
        },
    }
}

/// Read one success body into exactly the page event it denotes.
#[verifier::loop_isolation(false)]
pub fn classify_body(body: String) -> (r: PageEvent)
    ensures
        r@ == spec_classify_body(body@),
{
    let parsed = match json_parse(body.as_str()) {
        Option::Some(v) => v,
        Option::None => {
            return PageEvent::Garbled { body };
        },
    };
    let ghost doc = json_model(parsed);
    let data = match json_get(&parsed, "data") {
        Option::Some(d) => d,
        Option::None => {
            return PageEvent::Exhausted;
        },
    };
    let array = match json_as_array(&data) {
        Option::Some(a) => a,
        Option::None => {
            return PageEvent::Exhausted;
        },
    };
    let ghost elems = json_model(data)->Array_0;
    let mut items: Vec<RawItem> = Vec::new();
    let mut i: usize = 0;
    while i < array.len()
        invariant
            i <= array@.len(),
            items@.len() == i,
            forall|j: int|
                0 <= j < i ==> (#[trigger] item_models(items@)[j]) == spec_item_of_json(elems[j]),
        decreases array@.len() - i,
    {
        let ghost prev = items@;
        let item = raw_item_of_value(&array[i]);
        items.push(item);
        proof {
            assert forall|j: int| 0 <= j < i + 1 implies (#[trigger] item_models(items@)[j])
                == spec_item_of_json(elems[j]) by {
                assert(item_models(items@)[j] == items@[j]@);
                if j < i {
                    assert(items@[j] == prev[j]);
                    assert(item_models(prev)[j] == spec_item_of_json(elems[j]));
                    assert(item_models(prev)[j] == prev[j]@);
                } else {
                    assert(items@[j] == item);
                    assert(json_model(array@[j]) == elems[j]);
                }
            }
        }
        i = i + 1;
    }
    let next_url = match json_get(&parsed, "links") {
        Option::Some(links) => match json_get(&links, "next") {
            Option::Some(nv) => json_as_string(&nv),
            Option::None => Option::None,
        },
        Option::None => Option::None,
    };
    let r = PageEvent::Delivered { items, next_url };
    proof {
        assert(item_models(items@) =~= elems.map_values(|e: JsonModel| spec_item_of_json(e)));
        assert(r@ == spec_classify_body(body@));
    }
    r
}

/// The page event one HTTP reply denotes: a non-success status always
/// aborts the fetch with the reply's body, a success body is read by
/// its JSON shape.
pub open spec fn spec_classify_reply(success: bool, body: Seq<char>) -> EventModel {
    if success {
        spec_classify_body(body)
    } else {
        EventModel::Failed { body }
    }
}

/// Read one HTTP reply into exactly the page event it denotes.
pub fn classify_reply(reply: PageReply) -> (r: PageEvent)
    ensures
        r@ == spec_classify_reply(reply.success, reply.body@),
{
    if reply.success {
        classify_body(reply.body)
    } else {
        PageEvent::Failed { body: reply.body }
    }
}

/// The page events a sequence of replies denotes, in order.
pub open spec fn spec_classified_events(replies: Seq<PageReply>) -> Seq<EventModel> {
    replies.map_values(|p: PageReply| spec_classify_reply(p.success, p.body@))
}

/// Fetch from an in-hand sequence of page replies: classify each reply
/// and run the pagination decisions over the events, exactly as the
/// live loop does with replies arriving one by one from the network.
#[verifier::loop_isolation(false)]
pub fn run_fetch(replies: Vec<PageReply>, account_filter: &Option<String>) -> (r: Result<
    Vec<Transaction>,
    FetchError,
>)
    ensures
        ({
            let d = spec_drive(
                Seq::empty(),
                opt_string_model(*account_filter),
                spec_classified_events(replies@),
            );
            match r {
                Result::Ok(txs) => d == Result::<Seq<TxModel>, Seq<char>>::Ok(tx_models(txs@))
                    && all_valid_amounts(tx_models(txs@)),
                Result::Err(e) => d == Result::<Seq<TxModel>, Seq<char>>::Err(e.body@),
            }
        }),
{
    let ghost orig = replies@;
    let mut rest = replies;
    let mut events: Vec<PageEvent> = Vec::new();
    while rest.len() > 0
        invariant
            events@.len() + rest@.len() == orig.len(),
            rest@ =~= orig.subrange(events@.len() as int, orig.len() as int),
            forall|j: int|
                0 <= j < events@.len() ==> (#[trigger] event_models(events@)[j])
                    == spec_classified_events(orig)[j],
        decreases rest@.len(),
    {
        let ghost k = events@.len() as int;
        let ghost prev = events@;
        let reply = rest.remove(0);
        proof {
            assert(reply == orig[k]);
            assert(rest@ =~= orig.subrange(k + 1, orig.len() as int));
        }
        let e = classify_reply(reply);
        events.push(e);
        proof {
            assert forall|j: int| 0 <= j < k + 1 implies (#[trigger] event_models(events@)[j])
                == spec_classified_events(orig)[j] by {
                assert(event_models(events@)[j] == events@[j]@);
                if j < k {
                    assert(events@[j] == prev[j]);
                    assert(event_models(prev)[j] == spec_classified_events(orig)[j]);
                    assert(event_models(prev)[j] == prev[j]@);
                } else {
                    assert(events@[j] == e);
                    assert(spec_classified_events(orig)[j] == spec_classify_reply(
                        orig[j].success,
                        orig[j].body@,
                    ));
                }
            }
        }
    }
    proof {
        assert(event_models(events@) =~= spec_classified_events(orig));
    }
    drive_events(events, account_filter)
}

/// The raw account fields one element of an accounts listing denotes;
/// absent paths stay empty for the default policy.
pub open spec fn spec_account_of_json(m: JsonModel) -> RawAccountModel {
    let attrs = json_field(m, "attributes"@);
    RawAccountModel {
        id: json_text(json_field(m, "id"@)),
        display_name: json_text(opt_json_field(attrs, "displayName"@)),
        balance_value: json_text(opt_json_field(opt_json_field(attrs, "balance"@), "value"@)),
        currency_code: json_text(
            opt_json_field(opt_json_field(attrs, "balance"@), "currencyCode"@),
        ),
    }
}

fn raw_account_of_value(v: &serde_json::Value) -> (r: RawAccount)
    ensures
        r@ == spec_account_of_json(json_model(*v)),
{
    let id = match json_get(v, "id") {
        Option::Some(x) => json_as_string(&x),
        Option::None => Option::None,
    };
    let (display_name, balance_value, currency_code) = match json_get(v, "attributes") {
        Option::Some(attrs) => {
            let display_name = match json_get(&attrs, "displayName") {
                Option::Some(x) => json_as_string(&x),
                Option::None => Option::None,
            };
            let balance_value = json_string_at2(&attrs, "balance", "value");
            let currency_code = json_string_at2(&attrs, "balance", "currencyCode");
            (display_name, balance_value, currency_code)
        },
        Option::None => (Option::None, Option::None, Option::None),
    };
    RawAccount { id, display_name, balance_value, currency_code }
}

/// The account records an accounts-listing body denotes: None when the
/// body is not JSON or its `data` is no array.
pub open spec fn spec_parse_accounts(body: Seq<char>) -> Option<Seq<RawAccountModel>> {
    match json_of(body) {
        Option::None => Option::None,
        Option::Some(doc) => match json_field(doc, "data"@) {
            Option::Some(JsonModel::Array(elems)) => Option::Some(
                elems.map_values(|e: JsonModel| spec_account_of_json(e)),
            ),
            _ => Option::None,
        },
    }
}

/// Read an accounts-listing body into exactly the records it denotes.
#[verifier::loop_isolation(false)]
pub fn parse_accounts(body: &str) -> (r: Option<Vec<RawAccount>>)
    ensures
        match r {
            Option::Some(v) => spec_parse_accounts(body@) == Option::Some(raw_account_models(v@)),
            Option::None => spec_parse_accounts(body@) is None,
        },
{
    let parsed = match json_parse(body) {
        Option::Some(v) => v,
        Option::None => {
            return Option::None;
        },
    };
    let ghost doc = json_model(parsed);
    let data = match json_get(&parsed, "data") {
        Option::Some(d) => d,
        Option::None => {
            return Option::None;
        },
    };
    let array = match json_as_array(&data) {
        Option::Some(a) => a,
        Option::None => {
            return Option::None;
        },
    };
    let ghost elems = json_model(data)->Array_0;
    let mut accounts: Vec<RawAccount> = Vec::new();
    let mut i: usize = 0;
    while i < array.len()
        invariant
            i <= array@.len(),
            accounts@.len() == i,
            forall|j: int|
                0 <= j < i ==> (#[trigger] raw_account_models(accounts@)[j])
                    == spec_account_of_json(elems[j]),
        decreases array@.len() - i,
    {
        let ghost prev = accounts@;
        let account = raw_account_of_value(&array[i]);
        accounts.push(account);
        proof {
            assert forall|j: int| 0 <= j < i + 1 implies (#[trigger] raw_account_models(
                accounts@,
            )[j]) == spec_account_of_json(elems[j]) by {
                assert(raw_account_models(accounts@)[j] == accounts@[j]@);
                if j < i {
                    assert(accounts@[j] == prev[j]);
                    assert(raw_account_models(prev)[j] == spec_account_of_json(elems[j]));
                    assert(raw_account_models(prev)[j] == prev[j]@);
                } else {
                    assert(accounts@[j] == account);
                    assert(json_model(array@[j]) == elems[j]);
                }
            }
        }
        i = i + 1;
    }
    proof {
        assert(raw_account_models(accounts@) =~= elems.map_values(
            |e: JsonModel| spec_account_of_json(e),
        ));
    }
    Option::Some(accounts)
}

} // verus!
