//! The pagination loop as a state machine over page events. Each HTTP
//! round trip is summarized as one event; the step function decides
//! whether to follow the next cursor, finish, or abort, and the driver
//! folds a whole sequence of events. Network transport itself stays
//! outside: callers perform the round trips and hand the replies in.

use vstd::prelude::*;

use crate::dates::DateWindow;
use crate::transactions::{
    all_valid_amounts, filter_by_account, item_models, spec_filter_account, spec_txs_of_items,
    transactions_of_items, tx_models, ItemModel, RawItem, Transaction, TxModel,
};

verus! {

/// What one HTTP round trip to the transactions endpoint came back
/// with: whether the status was a success, and the body text.
pub struct PageReply {
    pub success: bool,
    pub body: String,
}

/// The shape of one page reply, as the decision logic reads it.
pub enum PageEvent {
    /// A non-success HTTP status; the whole fetch aborts with this body.
    Failed { body: String },
    /// A success whose body is not JSON; the fetch aborts as well.
    Garbled { body: String },
    /// A JSON body without a `data` array: treated as end of stream.
    Exhausted,
    /// A page of raw items, and the cursor to the next page if any.
    Delivered { items: Vec<RawItem>, next_url: Option<String> },
}

pub ghost enum EventModel {
    Failed { body: Seq<char> },
    Garbled { body: Seq<char> },
    Exhausted,
    Delivered { items: Seq<ItemModel>, next_url: Option<Seq<char>> },
}

impl View for PageEvent {
    type V = EventModel;

    open spec fn view(&self) -> EventModel {
        match self {
            PageEvent::Failed { body } => EventModel::Failed { body: body@ },
            PageEvent::Garbled { body } => EventModel::Garbled { body: body@ },
            PageEvent::Exhausted => EventModel::Exhausted,
            PageEvent::Delivered { items, next_url } => EventModel::Delivered {
                items: item_models(items@),
                next_url: match next_url {
                    Option::Some(u) => Option::Some(u@),
                    Option::None => Option::None,
                },
            },
        }
    }
}

pub open spec fn event_models(s: Seq<PageEvent>) -> Seq<EventModel> {
    s.map_values(|e: PageEvent| e@)
}

/// The error surfaced when a page request fails: it carries the
/// response body text, and the in-progress fetch is abandoned with no
/// partial result.
#[derive(Debug)]
pub struct FetchError {
    pub body: String,
}

impl FetchError {
    /// A display line for the failure, wrapping the response body.
    pub fn message(&self) -> (r: String)
        ensures
            r@ == "Failed to fetch transactions: "@ + self.body@,
    {
        let mut s = String::from_str("Failed to fetch transactions: ");
        s.append(self.body.as_str());
        s
    }
}

/// The decision after one page: follow the cursor, finish with the
/// collected transactions, or abort.
pub enum FetchStep {
    Continue { transactions: Vec<Transaction>, next_url: String },
    Finished { transactions: Vec<Transaction> },
    Aborted { error: FetchError },
}

pub ghost enum StepModel {
    Continue { transactions: Seq<TxModel>, next_url: Seq<char> },
    Finished { transactions: Seq<TxModel> },
    Aborted { body: Seq<char> },
}

impl View for FetchStep {
    type V = StepModel;

    open spec fn view(&self) -> StepModel {
        match self {
            FetchStep::Continue { transactions, next_url } => StepModel::Continue {
                transactions: tx_models(transactions@),
                next_url: next_url@,
            },
            FetchStep::Finished { transactions } => StepModel::Finished {
                transactions: tx_models(transactions@),
            },
            FetchStep::Aborted { error } => StepModel::Aborted { body: error.body@ },
        }
    }
}

pub open spec fn opt_string_model(o: Option<String>) -> Option<Seq<char>> {
    match o {
        Option::Some(s) => Option::Some(s@),
        Option::None => Option::None,
    }
}

/// One step of the pagination loop: a failed or unreadable page aborts
/// the whole fetch with its body; a body without data ends the stream;
/// a delivered page has its items (optionally filtered by account)
/// normalized and appended, and the loop follows the cursor if one is
/// present.
pub open spec fn spec_step(acc: Seq<TxModel>, filter: Option<Seq<char>>, e: EventModel) -> StepModel {
    match e {
        EventModel::Failed { body } => StepModel::Aborted { body },
        EventModel::Garbled { body } => StepModel::Aborted { body },
        EventModel::Exhausted => StepModel::Finished { transactions: acc },
        EventModel::Delivered { items, next_url } => {
            let kept = match filter {
                Option::Some(a) => spec_filter_account(items, a),
                Option::None => items,
            };
            let acc2 = acc + spec_txs_of_items(kept);
            match next_url {
                Option::Some(u) => StepModel::Continue { transactions: acc2, next_url: u },
                Option::None => StepModel::Finished { transactions: acc2 },
            }
        },
    }
}

pub open spec fn step_txs_valid(m: StepModel) -> bool {
    match m {
        StepModel::Continue { transactions, .. } => all_valid_amounts(transactions),
        StepModel::Finished { transactions } => all_valid_amounts(transactions),
        StepModel::Aborted { .. } => true,
    }
}

/// Apply one page event to the transactions collected so far.
pub fn fetch_step(acc: Vec<Transaction>, account_filter: &Option<String>, event: PageEvent) -> (r:
    FetchStep)
    ensures
        r@ == spec_step(tx_models(acc@), opt_string_model(*account_filter), event@),
        all_valid_amounts(tx_models(acc@)) ==> step_txs_valid(r@),
{
    match event {
        PageEvent::Failed { body } => FetchStep::Aborted { error: FetchError { body } },
        PageEvent::Garbled { body } => FetchStep::Aborted { error: FetchError { body } },
        PageEvent::Exhausted => FetchStep::Finished { transactions: acc },
        PageEvent::Delivered { items, next_url } => {
            let ghost acc_m = tx_models(acc@);
            let mut fresh = match account_filter {
                Option::Some(a) => {
                    let kept = filter_by_account(&items, a);
                    transactions_of_items(&kept)
                },
                Option::None => transactions_of_items(&items),
            };
            let ghost fresh_m = tx_models(fresh@);
            let mut acc2 = acc;
            acc2.append(&mut fresh);
            proof {
                assert(tx_models(acc2@) =~= acc_m + fresh_m);
                assert(all_valid_amounts(acc_m) ==> all_valid_amounts(tx_models(acc2@))) by {
                    if all_valid_amounts(acc_m) {
                        assert forall|k: int|
                            0 <= k < tx_models(acc2@).len() implies crate::transactions::valid_amount(
                            (#[trigger] tx_models(acc2@)[k]).amount_cents,
                        ) by {
                            if k < acc_m.len() {
                                assert(tx_models(acc2@)[k] == acc_m[k]);
                            } else {
                                assert(tx_models(acc2@)[k] == fresh_m[k - acc_m.len()]);
                            }
                        }
                    }
                }
            }
            match next_url {
                Option::Some(u) => FetchStep::Continue { transactions: acc2, next_url: u },
                Option::None => FetchStep::Finished { transactions: acc2 },
            }
        },
    }
}

/// The whole pagination run over a given sequence of page events,
/// starting from the transactions collected so far. A run past the end
/// of the sequence ends as if the stream were exhausted.
pub open spec fn spec_drive(
    acc: Seq<TxModel>,
    filter: Option<Seq<char>>,
    events: Seq<EventModel>,
) -> Result<Seq<TxModel>, Seq<char>>
    decreases events.len(),
{
    if events.len() == 0 {
        Result::Ok(acc)
    } else {
        match spec_step(acc, filter, events[0]) {
            StepModel::Continue { transactions, .. } => spec_drive(
                transactions,
                filter,
                events.drop_first(),
            ),
            StepModel::Finished { transactions } => Result::Ok(transactions),
            StepModel::Aborted { body } => Result::Err(body),
        }
    }
}

/// Run the pagination decisions over an in-hand sequence of page
/// events, collecting transactions from an empty start.
#[verifier::loop_isolation(false)]
pub fn drive_events(events: Vec<PageEvent>, account_filter: &Option<String>) -> (r: Result<
    Vec<Transaction>,
    FetchError,
>)
    ensures
        ({
            let d = spec_drive(
                Seq::empty(),
                opt_string_model(*account_filter),
                event_models(events@),
            );
            match r {
                Result::Ok(txs) => d == Result::<Seq<TxModel>, Seq<char>>::Ok(tx_models(txs@))
                    && all_valid_amounts(tx_models(txs@)),
                Result::Err(e) => d == Result::<Seq<TxModel>, Seq<char>>::Err(e.body@),
            }
        }),
{
    let ghost filter_m = opt_string_model(*account_filter);
    let ghost all = event_models(events@);
    let mut remaining = events;
    let mut acc: Vec<Transaction> = Vec::new();
    proof {
        assert(tx_models(acc@) =~= Seq::<TxModel>::empty());
    }
    while remaining.len() > 0
        invariant
            spec_drive(tx_models(acc@), filter_m, event_models(remaining@)) == spec_drive(
                Seq::empty(),
                filter_m,
                all,
            ),
            all_valid_amounts(tx_models(acc@)),
        decreases remaining@.len(),
    {
        let ghost pre_events = event_models(remaining@);
        let e = remaining.remove(0);
        proof {
            assert(event_models(remaining@) =~= pre_events.drop_first());
            assert(pre_events[0] == e@);
        }
        let step = fetch_step(acc, account_filter, e);
        match step {
            FetchStep::Continue { transactions, next_url: _ } => {
                acc = transactions;
            },
            FetchStep::Finished { transactions } => {
                return Result::Ok(transactions);
            },
            FetchStep::Aborted { error } => {
                return Result::Err(error);
            },
        }
    }
    Result::Ok(acc)
}

/// The transactions one page event contributes under the filter:
/// nothing unless it delivers data.
pub open spec fn delivered_txs(filter: Option<Seq<char>>, e: EventModel) -> Seq<TxModel> {
    match e {
        EventModel::Delivered { items, .. } => {
            let kept = match filter {
                Option::Some(a) => spec_filter_account(items, a),
                Option::None => items,
            };
            spec_txs_of_items(kept)
        },
        _ => Seq::empty(),
    }
}

/// The concatenation, in page order, of what each event contributes.
pub open spec fn pages_concat(filter: Option<Seq<char>>, events: Seq<EventModel>) -> Seq<TxModel>
    decreases events.len(),
{
    if events.len() == 0 {
        Seq::empty()
    } else {
        delivered_txs(filter, events[0]) + pages_concat(filter, events.drop_first())
    }
}

/// Pagination termination: when pages zero through n deliver data, each
/// page before n carries a next cursor, and page n's cursor is absent,
/// the fetch stops after page n and returns exactly the concatenation
/// of those pages' transactions in order — later events are never
/// touched.
pub proof fn lemma_pagination_stops_at_final_page(
    acc: Seq<TxModel>,
    filter: Option<Seq<char>>,
    events: Seq<EventModel>,
    n: int,
)
    requires
        0 <= n < events.len(),
        forall|i: int|
            0 <= i < n ==> (#[trigger] events[i]) matches EventModel::Delivered {
                next_url: Option::Some(_),
                ..
            },
        events[n] matches EventModel::Delivered { next_url: Option::None, .. },
    ensures
        spec_drive(acc, filter, events) == Result::<Seq<TxModel>, Seq<char>>::Ok(
            acc + pages_concat(filter, events.subrange(0, n + 1)),
        ),
    decreases n,
{
    let e0 = events[0];
    let first = events.subrange(0, n + 1);
    if n == 0 {
        assert(first[0] == e0);
        assert(first.drop_first() =~= Seq::<EventModel>::empty());
        assert(pages_concat(filter, Seq::<EventModel>::empty()) == Seq::<TxModel>::empty());
        assert(pages_concat(filter, first) == delivered_txs(filter, e0)
            + Seq::<TxModel>::empty());
        assert(pages_concat(filter, first) =~= delivered_txs(filter, e0));
    } else {
        let d0 = delivered_txs(filter, e0);
        let rest = events.drop_first();
        assert(forall|i: int| 0 <= i < rest.len() ==> #[trigger] rest[i] == events[i + 1]);
        lemma_pagination_stops_at_final_page(acc + d0, filter, rest, n - 1);
        assert(first[0] == e0);
        assert(first.drop_first() =~= rest.subrange(0, n));
        assert(pages_concat(filter, first) == d0 + pages_concat(filter, rest.subrange(0, n)));
        assert(acc + pages_concat(filter, first) =~= (acc + d0) + pages_concat(
            filter,
            rest.subrange(0, n),
        ));
    }
}

/// The body carried by a page event that aborts the fetch.
pub open spec fn abort_body(e: EventModel) -> Seq<char> {
    match e {
        EventModel::Failed { body } => body,
        EventModel::Garbled { body } => body,
        _ => Seq::empty(),
    }
}

/// Fetch abort: when the pages before n deliver data with next cursors
/// and page n comes back with a non-success status, the whole fetch
/// aborts with exactly that page's body and yields no transactions at
/// all — nothing from the already-delivered pages and nothing from any
/// later, unissued page.
pub proof fn lemma_failure_aborts_fetch(
    acc: Seq<TxModel>,
    filter: Option<Seq<char>>,
    events: Seq<EventModel>,
    n: int,
)
    requires
        0 <= n < events.len(),
        forall|i: int|
            0 <= i < n ==> (#[trigger] events[i]) matches EventModel::Delivered {
                next_url: Option::Some(_),
                ..
            },
        events[n] matches EventModel::Failed { .. },
    ensures
        spec_drive(acc, filter, events) == Result::<Seq<TxModel>, Seq<char>>::Err(
            abort_body(events[n]),
        ),
    decreases n,
{
    if n == 0 {
    } else {
        let e0 = events[0];
        let d0 = delivered_txs(filter, e0);
        let rest = events.drop_first();
        assert(forall|i: int| 0 <= i < rest.len() ==> #[trigger] rest[i] == events[i + 1]);
        lemma_failure_aborts_fetch(acc + d0, filter, rest, n - 1);
    }
}

/// The first page URL of a transactions fetch: the window bounds as
/// since/until filters, an optional settled-only filter, and a page
/// size of one hundred.
pub open spec fn spec_transactions_url(
    start: Seq<char>,
    end: Seq<char>,
    settled_only: bool,
) -> Seq<char> {
    "https://api.up.com.au/api/v1/transactions?filter[since]="@ + start + "&filter[until]="@ + end
        + (if settled_only {
        "&filter[status]=SETTLED"@
    } else {
        Seq::empty()
    }) + "&page[size]=100"@
}

/// Build the first page URL for a window.
pub fn build_transactions_url(window: &DateWindow, settled_only: bool) -> (r: String)
    ensures
        r@ == spec_transactions_url(window.start@, window.end@, settled_only),
{
    let mut s = String::from_str("https://api.up.com.au/api/v1/transactions?filter[since]=");
    s.append(window.start.as_str());
    s.append("&filter[until]=");
    s.append(window.end.as_str());
    if settled_only {
        s.append("&filter[status]=SETTLED");
    }
    s.append("&page[size]=100");
    proof {
        assert(s@ =~= spec_transactions_url(window.start@, window.end@, settled_only));
    }
    s
}

} // verus!
