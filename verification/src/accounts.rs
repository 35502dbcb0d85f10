//! Account listings: the raw fields read from the accounts endpoint
//! and their normalization. A missing id or display name shows as
//! "Unknown"; a missing balance value or currency code stays empty.

use vstd::prelude::*;

verus! {

/// The fields of one element of an accounts listing, each absent when
/// the payload lacks it or holds it with an unexpected type.
pub struct RawAccount {
    pub id: Option<String>,
    pub display_name: Option<String>,
    pub balance_value: Option<String>,
    pub currency_code: Option<String>,
}

pub ghost struct RawAccountModel {
    pub id: Option<Seq<char>>,
    pub display_name: Option<Seq<char>>,
    pub balance_value: Option<Seq<char>>,
    pub currency_code: Option<Seq<char>>,
}

impl View for RawAccount {
    type V = RawAccountModel;

    open spec fn view(&self) -> RawAccountModel {
        RawAccountModel {
            id: match self.id {
                Option::Some(s) => Option::Some(s@),
                Option::None => Option::None,
            },
            display_name: match self.display_name {
                Option::Some(s) => Option::Some(s@),
                Option::None => Option::None,
            },
            balance_value: match self.balance_value {
                Option::Some(s) => Option::Some(s@),
                Option::None => Option::None,
            },
            currency_code: match self.currency_code {
                Option::Some(s) => Option::Some(s@),
                Option::None => Option::None,
            },
        }
    }
}

/// A normalized account line for display.
pub struct AccountInfo {
    pub id: String,
    pub display_name: String,
    pub balance_value: String,
    pub currency_code: String,
}

pub ghost struct AccountInfoModel {
    pub id: Seq<char>,
    pub display_name: Seq<char>,
    pub balance_value: Seq<char>,
    pub currency_code: Seq<char>,
}

impl View for AccountInfo {
    type V = AccountInfoModel;

    open spec fn view(&self) -> AccountInfoModel {
        AccountInfoModel {
            id: self.id@,
            display_name: self.display_name@,
            balance_value: self.balance_value@,
            currency_code: self.currency_code@,
        }
    }
}

/// The account line denoted by a raw record under the default policy.
pub open spec fn spec_account_of_raw(r: RawAccountModel) -> AccountInfoModel {
    AccountInfoModel {
        id: match r.id {
            Option::Some(s) => s,
            Option::None => "Unknown"@,
        },
        display_name: match r.display_name {
            Option::Some(s) => s,
            Option::None => "Unknown"@,
        },
        balance_value: match r.balance_value {
            Option::Some(s) => s,
            Option::None => Seq::empty(),
        },
        currency_code: match r.currency_code {
            Option::Some(s) => s,
            Option::None => Seq::empty(),
        },
    }
}

pub open spec fn raw_account_models(s: Seq<RawAccount>) -> Seq<RawAccountModel> {
    s.map_values(|x: RawAccount| x@)
}

pub open spec fn account_info_models(s: Seq<AccountInfo>) -> Seq<AccountInfoModel> {
    s.map_values(|x: AccountInfo| x@)
}

/// Normalize one raw account record.
pub fn account_of_raw(raw: &RawAccount) -> (a: AccountInfo)
    ensures
        a@ == spec_account_of_raw(raw@),
{
    let id = match &raw.id {
        Option::Some(s) => s.clone(),
        Option::None => String::from_str("Unknown"),
    };
    let display_name = match &raw.display_name {
        Option::Some(s) => s.clone(),
        Option::None => String::from_str("Unknown"),
    };
    let balance_value = match &raw.balance_value {
        Option::Some(s) => s.clone(),
        Option::None => String::new(),
    };
    let currency_code = match &raw.currency_code {
        Option::Some(s) => s.clone(),
        Option::None => String::new(),
    };
    AccountInfo { id, display_name, balance_value, currency_code }
}

/// Normalize a whole listing, in order.
#[verifier::loop_isolation(false)]
pub fn accounts_of_raw(raws: &Vec<RawAccount>) -> (r: Vec<AccountInfo>)
    ensures
        account_info_models(r@) == raw_account_models(raws@).map_values(
            |x: RawAccountModel| spec_account_of_raw(x),
        ),
{
    let mut r: Vec<AccountInfo> = Vec::new();
    let mut i: usize = 0;
    while i < raws.len()
        invariant
            i <= raws@.len(),
            r@.len() == i,
            forall|j: int|
                0 <= j < i ==> (#[trigger] account_info_models(r@)[j]) == spec_account_of_raw(
                    raws@[j]@,
                ),
        decreases raws@.len() - i,
    {
        let ghost prev = r@;
        let a = account_of_raw(&raws[i]);
        r.push(a);
        proof {
            assert forall|j: int| 0 <= j < i + 1 implies (#[trigger] account_info_models(r@)[j])
                == spec_account_of_raw(raws@[j]@) by {
                assert(account_info_models(r@)[j] == r@[j]@);
                if j < i {
                    assert(r@[j] == prev[j]);
                    assert(account_info_models(prev)[j] == spec_account_of_raw(raws@[j]@));
                    assert(account_info_models(prev)[j] == prev[j]@);
                } else {
                    assert(r@[j] == a);
                }
            }
        }
        i = i + 1;
    }
    proof {
        assert(account_info_models(r@) =~= raw_account_models(raws@).map_values(
            |x: RawAccountModel| spec_account_of_raw(x),
        ));
    }
    r
}

} // verus!
