//! Prices as the catalog stores them ("$120", "49.99", "$1,250.00"), read as
//! whole cents so that the collection can be sorted by price.

use vstd::prelude::*;

use crate::text::{chars_of, find_chars, first_index, lemma_first_index, sub_chars, trim_chars, trimmed, contains_seq};

verus! {

pub open spec fn is_digit(c: char) -> bool {
    48 <= (c as u32) && (c as u32) <= 57
}

pub open spec fn digit_value(c: char) -> int {
    (c as u32) - 48
}

/// The largest number of whole units that a price is read as; larger amounts
/// count as this much.
pub open spec fn price_cap() -> int {
    1_000_000_000_000_000
}

/// The whole units written with digits and thousands commas (commas skipped),
/// capped at `price_cap()`.
pub open spec fn whole_value(s: Seq<char>) -> int
    decreases s.len(),
{
    if s.len() == 0 {
        0
    } else if s.last() == ',' {
        whole_value(s.drop_last())
    } else {
        let v = 10 * whole_value(s.drop_last()) + digit_value(s.last());
        if v > price_cap() {
            price_cap()
        } else {
            v
        }
    }
}

/// Whole units: a digit, then digits and commas.
pub open spec fn whole_ok(s: Seq<char>) -> bool {
    &&& s.len() > 0
    &&& is_digit(s[0])
    &&& forall|k: int| 0 <= k < s.len() ==> is_digit(#[trigger] s[k]) || s[k] == ','
}

/// A fraction: digits only (possibly none).
pub open spec fn fraction_ok(s: Seq<char>) -> bool {
    forall|k: int| 0 <= k < s.len() ==> is_digit(#[trigger] s[k])
}

/// The cents that a fraction's first two digits give.
pub open spec fn fraction_cents(s: Seq<char>) -> int {
    (if s.len() > 0 {
        10 * digit_value(s[0])
    } else {
        0
    }) + (if s.len() > 1 {
        digit_value(s[1])
    } else {
        0
    })
}

/// The price text without surrounding white space and without a leading dollar sign.
pub open spec fn price_body(s: Seq<char>) -> Seq<char> {
    let t = trimmed(s);
    if t.len() > 0 && t[0] == '$' {
        t.drop_first()
    } else {
        t
    }
}

/// The price in cents: whole units, then optionally a point and a fraction of
/// which the first two digits count; -1 when the text is not such a price.
pub open spec fn price_cents(s: Seq<char>) -> int {
    let b = price_body(s);
    if contains_seq(b, seq!['.']) {
        let i = first_index(b, seq!['.']);
        if whole_ok(b.take(i)) && fraction_ok(b.skip(i + 1)) {
            whole_value(b.take(i)) * 100 + fraction_cents(b.skip(i + 1))
        } else {
            -1
        }
    } else if whole_ok(b) {
        whole_value(b) * 100
    } else {
        -1
    }
}

proof fn lemma_whole_value_bounds(s: Seq<char>)
    requires
        forall|k: int| 0 <= k < s.len() ==> is_digit(#[trigger] s[k]) || s[k] == ',',
    ensures
        0 <= whole_value(s) <= price_cap(),
    decreases s.len(),
{
    if s.len() > 0 {
        assert(is_digit(s[s.len() - 1]) || s[s.len() - 1] == ',');
        lemma_whole_value_bounds(s.drop_last());
    }
}

fn is_digit_char(c: char) -> (r: bool)
    ensures
        r == is_digit(c),
{
    48 <= (c as u32) && (c as u32) <= 57
}

fn whole_ok_chars(s: &Vec<char>) -> (r: bool)
    ensures
        r == whole_ok(s@),
{
    if s.len() == 0 || !is_digit_char(s[0]) {
        return false;
    }
    let mut k: usize = 0;
    while k < s.len()
        invariant
            k <= s@.len(),
            forall|t: int| 0 <= t < k ==> is_digit(#[trigger] s@[t]) || s@[t] == ',',
        decreases s.len() - k,
    {
        if !is_digit_char(s[k]) && s[k] != ',' {
            return false;
        }
        k = k + 1;
    }
    true
}

fn fraction_ok_chars(s: &Vec<char>) -> (r: bool)
    ensures
        r == fraction_ok(s@),
{
    let mut k: usize = 0;
    while k < s.len()
        invariant
            k <= s@.len(),
            forall|t: int| 0 <= t < k ==> is_digit(#[trigger] s@[t]),
        decreases s.len() - k,
    {
        if !is_digit_char(s[k]) {
            return false;
        }
        k = k + 1;
    }
    true
}

fn whole_value_chars(s: &Vec<char>) -> (r: i128)
    requires
        whole_ok(s@),
    ensures
        r == whole_value(s@),
{
    let mut acc: i128 = 0;
    let mut k: usize = 0;
    assert(s@.take(0) =~= Seq::<char>::empty());
    while k < s.len()
        invariant
            k <= s@.len(),
            whole_ok(s@),
            acc == whole_value(s@.take(k as int)),
            0 <= acc <= price_cap(),
        decreases s.len() - k,
    {
        assert(s@.take(k + 1).drop_last() == s@.take(k as int));
        assert(s@.take(k + 1).last() == s@[k as int]);
        assert(is_digit(s@[k as int]) || s@[k as int] == ',');
        if s[k] != ',' {
            let v = 10 * acc + ((s[k] as u32 - 48) as i128);
            acc = if v > 1_000_000_000_000_000 {
                1_000_000_000_000_000
            } else {
                v
            };
        }
        k = k + 1;
    }
    assert(s@.take(s@.len() as int) == s@);
    acc
}

fn fraction_cents_chars(s: &Vec<char>) -> (r: i128)
    requires
        fraction_ok(s@),
    ensures
        r == fraction_cents(s@),
{
    let tens: i128 = if s.len() > 0 {
        assert(is_digit(s@[0]));
        10 * ((s[0] as u32 - 48) as i128)
    } else {
        0
    };
    let ones: i128 = if s.len() > 1 {
        assert(is_digit(s@[1]));
        (s[1] as u32 - 48) as i128
    } else {
        0
    };
    tens + ones
}

/// A stored price read as cents (-1 when it is not a price).
pub fn price_cents_of(price: &str) -> (r: i128)
    ensures
        r == price_cents(price@),
{
    let t = trim_chars(&chars_of(price));
    let b = if t.len() > 0 && t[0] == '$' {
        let d = sub_chars(&t, 1, t.len());
        assert(d@ == t@.drop_first());
        d
    } else {
        t
    };
    assert(b@ == price_body(price@));
    let mut dot: Vec<char> = Vec::new();
    dot.push('.');
    assert(dot@ == seq!['.']);
    match find_chars(&b, &dot) {
        Some(i) => {
            proof {
                lemma_first_index(b@, dot@, i as int);
            }
            let whole = sub_chars(&b, 0, i);
            let fraction = sub_chars(&b, i + 1, b.len());
            assert(whole@ == b@.take(i as int));
            assert(fraction@ == b@.skip(i + 1));
            if whole_ok_chars(&whole) && fraction_ok_chars(&fraction) {
                proof {
                    lemma_whole_value_bounds(whole@);
                }
                whole_value_chars(&whole) * 100 + fraction_cents_chars(&fraction)
            } else {
                -1
            }
        },
        None => {
            if whole_ok_chars(&b) {
                proof {
                    lemma_whole_value_bounds(b@);
                }
                whole_value_chars(&b) * 100
            } else {
                -1
            }
        },
    }
}

} // verus!
