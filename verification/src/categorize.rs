//! Keyword classification of transaction descriptions into budget
//! category names. Matching is case-insensitive substring matching
//! against an ordered rule table; the first matching rule wins, and
//! anything unmatched falls back to "Other".

use vstd::prelude::*;

use crate::text::{contains_str, lower_of, lowercase, spec_contains};

verus! {

pub open spec fn matches_groceries(s: Seq<char>) -> bool {
    spec_contains(s, "woolworths"@) || spec_contains(s, "coles"@) || spec_contains(s, "aldi"@)
}

pub open spec fn matches_transportation(s: Seq<char>) -> bool {
    spec_contains(s, "uber"@) || spec_contains(s, "lyft"@) || spec_contains(s, "bus"@)
        || spec_contains(s, "train"@)
}

pub open spec fn matches_entertainment(s: Seq<char>) -> bool {
    spec_contains(s, "netflix"@) || spec_contains(s, "spotify"@) || spec_contains(s, "cinema"@)
}

pub open spec fn matches_utilities(s: Seq<char>) -> bool {
    spec_contains(s, "electricity"@) || spec_contains(s, "water"@) || spec_contains(s, "internet"@)
        || spec_contains(s, "phone"@)
}

pub open spec fn matches_dining_out(s: Seq<char>) -> bool {
    spec_contains(s, "restaurant"@) || spec_contains(s, "cafe"@) || spec_contains(s, "bar"@)
        || spec_contains(s, "mcdonalds"@) || spec_contains(s, "kfc"@)
}

/// The category name for an already-lowercased description: the first
/// rule in the fixed order whose keyword set matches.
pub open spec fn spec_category_for_lowered(s: Seq<char>) -> Seq<char> {
    if matches_groceries(s) {
        "Groceries"@
    } else if matches_transportation(s) {
        "Transportation"@
    } else if matches_entertainment(s) {
        "Entertainment"@
    } else if matches_utilities(s) {
        "Utilities"@
    } else if matches_dining_out(s) {
        "Dining Out"@
    } else {
        "Other"@
    }
}

/// The category name for a raw description: rules are matched against
/// its lowercase form.
pub open spec fn spec_category_for(description: Seq<char>) -> Seq<char> {
    spec_category_for_lowered(lower_of(description))
}

fn category_for_lowered(s: &str) -> (r: String)
    ensures
        r@ == spec_category_for_lowered(s@),
{
    if contains_str(s, "woolworths") || contains_str(s, "coles") || contains_str(s, "aldi") {
        String::from_str("Groceries")
    } else if contains_str(s, "uber") || contains_str(s, "lyft") || contains_str(s, "bus")
        || contains_str(s, "train") {
        String::from_str("Transportation")
    } else if contains_str(s, "netflix") || contains_str(s, "spotify") || contains_str(
        s,
        "cinema",
    ) {
        String::from_str("Entertainment")
    } else if contains_str(s, "electricity") || contains_str(s, "water") || contains_str(
        s,
        "internet",
    ) || contains_str(s, "phone") {
        String::from_str("Utilities")
    } else if contains_str(s, "restaurant") || contains_str(s, "cafe") || contains_str(s, "bar")
        || contains_str(s, "mcdonalds") || contains_str(s, "kfc") {
        String::from_str("Dining Out")
    } else {
        String::from_str("Other")
    }
}

/// The budget category name for a transaction description. Total: every
/// description gets exactly one name, with "Other" as the fallback.
pub fn category_for(description: &str) -> (r: String)
    ensures
        r@ == spec_category_for(description@),
{
    let lowered = lowercase(description);
    category_for_lowered(lowered.as_str())
}

/// Classification is deterministic: two transactions with the same
/// description always land in the same category.
pub proof fn lemma_classification_deterministic(d1: Seq<char>, d2: Seq<char>)
    requires
        d1 == d2,
    ensures
        spec_category_for(d1) == spec_category_for(d2),
{
}

/// Rule order decides collisions: a lowercased description that matches
/// both the transportation keyword "bus" and the dining keyword "bar"
/// classifies as Transportation, because that rule comes first — unless
/// a grocery keyword also occurs, since that rule comes first of all.
pub proof fn lemma_rule_order_transport_over_dining(s: Seq<char>)
    requires
        spec_contains(s, "bus"@),
        spec_contains(s, "bar"@),
        !matches_groceries(s),
    ensures
        spec_category_for_lowered(s) == "Transportation"@,
{
}

} // verus!
