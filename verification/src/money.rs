//! Exact money arithmetic on integer cents: parsing the decimal strings
//! the banking API delivers, and rendering cents for display.
//!
//! The accepted grammar is an optional leading '-', one to thirteen
//! integer digits, and optionally a '.' followed by one or two fraction
//! digits. Any other string stands for zero cents: a malformed amount
//! degrades to the default rather than failing.

use vstd::prelude::*;
use vstd::string::StrSliceExecFns;

use crate::digits::{spec_dec_str, spec_two_digits, two_digit_string, u64_to_string};

verus! {

/// Every parsed amount is strictly below this many cents in magnitude.
pub const AMOUNT_CENTS_BOUND: i64 = 1_000_000_000_000_000;

/// Whether a character is a decimal digit.
pub open spec fn is_digit(c: char) -> bool {
    c == '0' || c == '1' || c == '2' || c == '3' || c == '4' || c == '5' || c == '6' || c == '7'
        || c == '8' || c == '9'
}

/// The numeric value of a decimal digit character.
pub open spec fn digit_val(c: char) -> int {
    if c == '0' {
        0
    } else if c == '1' {
        1
    } else if c == '2' {
        2
    } else if c == '3' {
        3
    } else if c == '4' {
        4
    } else if c == '5' {
        5
    } else if c == '6' {
        6
    } else if c == '7' {
        7
    } else if c == '8' {
        8
    } else {
        9
    }
}

pub open spec fn all_digits(s: Seq<char>) -> bool {
    forall|i: int| 0 <= i < s.len() ==> is_digit(s[i])
}

/// The value of a digit string read in base ten.
pub open spec fn digits_val(s: Seq<char>) -> int
    decreases s.len(),
{
    if s.len() == 0 {
        0
    } else {
        digits_val(s.drop_last()) * 10 + digit_val(s.last())
    }
}

pub open spec fn spec_pow10(n: nat) -> int
    decreases n,
{
    if n == 0 {
        1
    } else {
        10 * spec_pow10((n - 1) as nat)
    }
}

pub proof fn lemma_pow10_increases(a: nat, b: nat)
    requires
        a <= b,
    ensures
        spec_pow10(a) <= spec_pow10(b),
        1 <= spec_pow10(a),
    decreases b,
{
    if b > 0 {
        if a == b {
            lemma_pow10_increases((a - 1) as nat, (b - 1) as nat);
        } else {
            lemma_pow10_increases(a, (b - 1) as nat);
        }
    }
}

pub proof fn lemma_digits_val_bounds(s: Seq<char>)
    requires
        all_digits(s),
    ensures
        0 <= digits_val(s) < spec_pow10(s.len()),
    decreases s.len(),
{
    if s.len() == 0 {
    } else {
        assert(all_digits(s.drop_last())) by {
            assert(forall|i: int|
                0 <= i < s.len() - 1 ==> s.drop_last()[i] == s[i] && is_digit(s[i]));
        }
        lemma_digits_val_bounds(s.drop_last());
        assert(is_digit(s.last()));
        assert(0 <= digit_val(s.last()) <= 9);
    }
}

/// The index of the first '.' in the sequence, or -1 when there is none.
pub open spec fn first_dot(s: Seq<char>) -> int
    decreases s.len(),
{
    if s.len() == 0 {
        -1
    } else if s[0] == '.' {
        0
    } else {
        let r = first_dot(s.drop_first());
        if r < 0 {
            -1
        } else {
            r + 1
        }
    }
}

pub proof fn lemma_first_dot_at(s: Seq<char>, k: int)
    requires
        0 <= k < s.len(),
        s[k] == '.',
        forall|j: int| 0 <= j < k ==> s[j] != '.',
    ensures
        first_dot(s) == k,
    decreases k,
{
    if k == 0 {
    } else {
        assert(s[0] != '.');
        let t = s.drop_first();
        assert(t[k - 1] == '.');
        assert(forall|j: int| 0 <= j < k - 1 ==> t[j] == s[j + 1] && s[j + 1] != '.');
        lemma_first_dot_at(t, k - 1);
    }
}

pub proof fn lemma_first_dot_none(s: Seq<char>)
    requires
        forall|j: int| 0 <= j < s.len() ==> s[j] != '.',
    ensures
        first_dot(s) == -1,
    decreases s.len(),
{
    if s.len() > 0 {
        let t = s.drop_first();
        assert(forall|j: int| 0 <= j < t.len() ==> t[j] == s[j + 1] && s[j + 1] != '.');
        lemma_first_dot_none(t);
    }
}

/// Cents denoted by one or two fraction digits: "5" means fifty cents.
pub open spec fn frac_cents(frac: Seq<char>) -> int {
    if frac.len() == 1 {
        digit_val(frac[0]) * 10
    } else {
        digits_val(frac)
    }
}

/// Whether an unsigned amount string fits the accepted grammar.
pub open spec fn valid_unsigned_amount(s: Seq<char>) -> bool {
    let p = first_dot(s);
    if p < 0 {
        1 <= s.len() <= 13 && all_digits(s)
    } else {
        let ip = s.subrange(0, p);
        let fp = s.subrange(p + 1, s.len() as int);
        1 <= ip.len() <= 13 && all_digits(ip) && 1 <= fp.len() <= 2 && all_digits(fp)
    }
}

/// The cents denoted by an unsigned amount string fitting the grammar.
pub open spec fn unsigned_cents(s: Seq<char>) -> int {
    let p = first_dot(s);
    if p < 0 {
        digits_val(s) * 100
    } else {
        digits_val(s.subrange(0, p)) * 100 + frac_cents(s.subrange(p + 1, s.len() as int))
    }
}

/// The cents denoted by an amount string: sign applied to the unsigned
/// value, and zero for anything outside the grammar.
pub open spec fn spec_cents_of(s: Seq<char>) -> int {
    let negative = s.len() > 0 && s[0] == '-';
    let body = if negative {
        s.drop_first()
    } else {
        s
    };
    if valid_unsigned_amount(body) {
        if negative {
            -unsigned_cents(body)
        } else {
            unsigned_cents(body)
        }
    } else {
        0
    }
}

/// Whatever the input, the denoted cents stay strictly inside the bound.
pub proof fn lemma_cents_of_bounded(s: Seq<char>)
    ensures
        -AMOUNT_CENTS_BOUND < spec_cents_of(s) < AMOUNT_CENTS_BOUND,
{
    let negative = s.len() > 0 && s[0] == '-';
    let body = if negative {
        s.drop_first()
    } else {
        s
    };
    if valid_unsigned_amount(body) {
        lemma_unsigned_cents_bounded(body);
    }
}

/// The numeric value of a digit character, or ten for anything else.
fn digit_of(c: char) -> (d: u64)
    ensures
        is_digit(c) ==> d == digit_val(c),
        !is_digit(c) ==> d == 10,
{
    match c {
        '0' => 0,
        '1' => 1,
        '2' => 2,
        '3' => 3,
        '4' => 4,
        '5' => 5,
        '6' => 6,
        '7' => 7,
        '8' => 8,
        '9' => 9,
        _ => 10,
    }
}

/// Parse an amount string to cents, zero for anything outside the
/// accepted grammar.
#[verifier::loop_isolation(false)]
#[verifier::rlimit(80)]
pub fn parse_cents(s: &str) -> (r: i64)
    ensures
        r as int == spec_cents_of(s@),
        -AMOUNT_CENTS_BOUND < r < AMOUNT_CENTS_BOUND,
{
    proof {
        lemma_cents_of_bounded(s@);
    }
    let len = s.unicode_len();
    let negative = len > 0 && s.get_char(0) == '-';
    let start: usize = if negative {
        1
    } else {
        0
    };
    let ghost body: Seq<char> = if negative {
        s@.drop_first()
    } else {
        s@
    };
    proof {
        assert(body =~= s@.subrange(start as int, len as int));
    }
    // Scan for the first '.' at or after `start`.
    let mut dot: usize = len;
    let mut i: usize = start;
    while i < len && dot == len
        invariant
            start <= i <= len,
            dot == len || (start <= dot < len && i == dot && s@[dot as int] == '.'),
            forall|j: int| start <= j < i ==> s@[j] != '.',
        decreases len - i, (if dot == len {
            1int
        } else {
            0int
        }),
    {
        if s.get_char(i) == '.' {
            dot = i;
        } else {
            i = i + 1;
        }
    }
    proof {
        if dot < len {
            assert(forall|j: int| 0 <= j < dot - start ==> body[j] == s@[j + start]);
            lemma_first_dot_at(body, dot - start);
        } else {
            assert(forall|j: int| 0 <= j < body.len() ==> body[j] == s@[j + start]);
            lemma_first_dot_none(body);
        }
    }
    let int_end = if dot < len {
        dot
    } else {
        len
    };
    if int_end == start || int_end - start > 13 {
        assert(!valid_unsigned_amount(body));
        return 0;
    }
    // Integer part.
    let ghost ip: Seq<char> = if dot < len {
        body.subrange(0, first_dot(body))
    } else {
        body
    };
    proof {
        assert(ip =~= body.subrange(0, int_end - start as int));
    }
    let mut val: u64 = 0;
    let mut k: usize = start;
    while k < int_end
        invariant
            start <= k <= int_end,
            all_digits(body.subrange(0, k - start as int)),
            val == digits_val(body.subrange(0, k - start as int)),
            0 <= val < spec_pow10((k - start) as nat),
        decreases int_end - k,
    {
        let c = s.get_char(k);
        let d = digit_of(c);
        if d == 10 {
            assert(body[k - start as int] == c && !is_digit(c));
            assert(!all_digits(ip)) by {
                assert(ip[k - start as int] == c);
            }
            assert(!valid_unsigned_amount(body));
            return 0;
        }
        proof {
            let pre = body.subrange(0, k - start as int);
            let ext = body.subrange(0, k + 1 - start as int);
            assert(ext.drop_last() =~= pre);
            assert(ext.last() == c);
            assert(forall|j: int| 0 <= j < ext.len() ==> ext[j] == body[j]);
            lemma_pow10_increases((k - start) as nat, 12);
            reveal_with_fuel(spec_pow10, 15);
        }
        val = val * 10 + d;
        k = k + 1;
    }
    proof {
        assert(body.subrange(0, int_end - start as int) == ip);
        lemma_pow10_increases(ip.len(), 13);
        reveal_with_fuel(spec_pow10, 15);
    }
    let mut cents: u64 = val * 100;
    if dot < len {
        // Fraction part: one or two digits.
        let flen = len - dot - 1;
        let ghost fp: Seq<char> = body.subrange(first_dot(body) + 1, body.len() as int);
        proof {
            assert(fp.len() == flen);
            assert(forall|j: int| 0 <= j < fp.len() ==> fp[j] == s@[j + dot + 1]);
        }
        if flen == 0 || flen > 2 {
            assert(!valid_unsigned_amount(body));
            return 0;
        }
        let d0 = digit_of(s.get_char(dot + 1));
        if d0 == 10 {
            assert(!is_digit(fp[0]));
            assert(!valid_unsigned_amount(body));
            return 0;
        }
        if flen == 1 {
            proof {
                assert(all_digits(fp)) by {
                    assert(forall|j: int| 0 <= j < fp.len() ==> is_digit(#[trigger] fp[j])) by {
                        assert(is_digit(fp[0]));
                    }
                }
                assert(frac_cents(fp) == digit_val(fp[0]) * 10);
            }
            cents = cents + d0 * 10;
        } else {
            let d1 = digit_of(s.get_char(dot + 2));
            if d1 == 10 {
                assert(!is_digit(fp[1]));
                assert(!valid_unsigned_amount(body));
                return 0;
            }
            proof {
                assert(all_digits(fp)) by {
                    assert(forall|j: int| 0 <= j < fp.len() ==> is_digit(#[trigger] fp[j])) by {
                        assert(is_digit(fp[0]));
                        assert(is_digit(fp[1]));
                    }
                }
                reveal_with_fuel(digits_val, 3);
                assert(fp.drop_last() =~= seq![fp[0]]);
                assert(seq![fp[0]].drop_last() =~= Seq::<char>::empty());
                assert(digits_val(seq![fp[0]]) == digit_val(fp[0]));
                assert(digits_val(fp) == digit_val(fp[0]) * 10 + digit_val(fp[1]));
            }
            cents = cents + d0 * 10 + d1;
        }
        assert(valid_unsigned_amount(body));
        assert(cents as int == unsigned_cents(body));
    } else {
        assert(valid_unsigned_amount(body));
        assert(cents as int == unsigned_cents(body));
    }
    if negative {
        -(cents as i64)
    } else {
        cents as i64
    }
}

/// Render cents for display: a sign, the dollars, and two fraction
/// digits, as in "-1234.05".
pub open spec fn spec_money_str(c: int) -> Seq<char> {
    let mag = if c < 0 {
        -c
    } else {
        c
    };
    let sign: Seq<char> = if c < 0 {
        seq!['-']
    } else {
        Seq::empty()
    };
    sign + spec_dec_str(mag / 100) + seq!['.'] + spec_two_digits(mag % 100)
}

pub fn format_cents(cents: i64) -> (r: String)
    requires
        cents > i64::MIN,
    ensures
        r@ == spec_money_str(cents as int),
{
    proof {
        reveal_strlit("-");
        reveal_strlit(".");
    }
    let mag: u64 = if cents < 0 {
        (-cents) as u64
    } else {
        cents as u64
    };
    let mut s = if cents < 0 {
        String::from_str("-")
    } else {
        String::new()
    };
    let d = u64_to_string(mag / 100);
    s.append(d.as_str());
    s.append(".");
    let f = two_digit_string(mag % 100);
    s.append(f.as_str());
    proof {
        assert(s@ =~= spec_money_str(cents as int));
    }
    s
}

proof fn lemma_unsigned_cents_bounded(s: Seq<char>)
    requires
        valid_unsigned_amount(s),
    ensures
        0 <= unsigned_cents(s) < AMOUNT_CENTS_BOUND,
{
    let p = first_dot(s);
    reveal_with_fuel(spec_pow10, 15);
    if p < 0 {
        lemma_digits_val_bounds(s);
        lemma_pow10_increases(s.len(), 13);
        assert(digits_val(s) * 100 <= (spec_pow10(13) - 1) * 100) by {
            assert(digits_val(s) <= spec_pow10(13) - 1);
        }
    } else {
        let ip = s.subrange(0, p);
        let fp = s.subrange(p + 1, s.len() as int);
        lemma_digits_val_bounds(ip);
        lemma_pow10_increases(ip.len(), 13);
        assert(digits_val(ip) * 100 <= (spec_pow10(13) - 1) * 100) by {
            assert(digits_val(ip) <= spec_pow10(13) - 1);
        }
        if fp.len() == 1 {
            assert(0 <= frac_cents(fp) <= 99);
        } else {
            lemma_digits_val_bounds(fp);
            assert(0 <= frac_cents(fp) <= 99);
        }
    }
}

} // verus!
