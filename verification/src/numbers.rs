//! Whole numbers as text: reading and writing signed 64-bit integers in
//! decimal, as the configuration store keeps them.
use vstd::prelude::*;

use crate::text::char_string;

verus! {

/// An ASCII digit.
pub open spec fn is_digit(c: char) -> bool {
    '0' <= c <= '9'
}

/// The value of an ASCII digit.
pub open spec fn digit_value(c: char) -> int {
    (c as int) - ('0' as int)
}

/// The value of a string of digits.
pub open spec fn digits_value(ds: Seq<char>) -> int
    decreases ds.len(),
{
    if ds.len() == 0 {
        0
    } else {
        digits_value(ds.drop_last()) * 10 + digit_value(ds.last())
    }
}

/// Every character is an ASCII digit.
pub open spec fn all_digits(ds: Seq<char>) -> bool {
    forall|i: int| 0 <= i < ds.len() ==> is_digit(#[trigger] ds[i])
}

/// What `str::parse::<i64>` gives: an optional `+` or `-`, then at least
/// one digit and nothing else, with a value that fits.
pub open spec fn parse_i64_spec(s: Seq<char>) -> Option<i64> {
    let neg = s.len() > 0 && s[0] == '-';
    let signed = s.len() > 0 && (s[0] == '-' || s[0] == '+');
    let ds = if signed {
        s.drop_first()
    } else {
        s
    };
    if ds.len() == 0 || !all_digits(ds) {
        None
    } else {
        let v = if neg {
            -digits_value(ds)
        } else {
            digits_value(ds)
        };
        if i64::MIN <= v <= i64::MAX {
            Some(v as i64)
        } else {
            None
        }
    }
}

proof fn lemma_digits_value_grows(ds: Seq<char>, i: int)
    requires
        0 <= i <= ds.len(),
        all_digits(ds),
    ensures
        0 <= digits_value(ds.take(i)) <= digits_value(ds),
    decreases ds.len(),
{
    if i == ds.len() {
        assert(ds.take(i) =~= ds);
        lemma_digits_value_nonneg(ds);
    } else {
        let t = ds.drop_last();
        assert forall|k: int| 0 <= k < t.len() implies is_digit(#[trigger] t[k]) by {
            assert(t[k] == ds[k]);
        }
        lemma_digits_value_grows(t, i);
        assert(t.take(i) =~= ds.take(i));
        assert(ds.last() == ds[ds.len() - 1]);
        lemma_digits_value_nonneg(t);
    }
}

proof fn lemma_digits_value_nonneg(ds: Seq<char>)
    requires
        all_digits(ds),
    ensures
        0 <= digits_value(ds),
    decreases ds.len(),
{
    if ds.len() > 0 {
        let t = ds.drop_last();
        assert forall|k: int| 0 <= k < t.len() implies is_digit(#[trigger] t[k]) by {
            assert(t[k] == ds[k]);
        }
        lemma_digits_value_nonneg(t);
        assert(ds.last() == ds[ds.len() - 1]);
    }
}

/// Read a signed 64-bit integer written in decimal.
pub fn parse_i64(s: &str) -> (r: Option<i64>)
    ensures
        r == parse_i64_spec(s@),
{
    let n = s.unicode_len();
    if n == 0 {
        return None;
    }
    let first = s.get_char(0);
    let neg = first == '-';
    let start: usize = if first == '-' || first == '+' {
        1
    } else {
        0
    };
    let ghost ds = if start == 1 {
        s@.drop_first()
    } else {
        s@
    };
    proof {
        assert(ds =~= s@.subrange(start as int, n as int));
    }
    if start == n {
        return None;
    }
    let mut value: i128 = 0;
    let mut i: usize = start;
    while i < n
        invariant
            n == s@.len(),
            start <= i <= n,
            start < n,
            ds == s@.subrange(start as int, n as int),
            ds == (if s@.len() > 0 && (s@[0] == '-' || s@[0] == '+') {
                s@.drop_first()
            } else {
                s@
            }),
            neg == (s@.len() > 0 && s@[0] == '-'),
            forall|k: int| 0 <= k < i - start ==> is_digit(#[trigger] ds[k]),
            value == digits_value(ds.take(i - start)),
            0 <= value <= 9_223_372_036_854_775_808,
        decreases n - i,
    {
        let c = s.get_char(i);
        proof {
            assert(ds[i - start] == s@[i as int]);
        }
        if !('0' <= c && c <= '9') {
            proof {
                assert(!is_digit(ds[i - start]));
                assert(!all_digits(ds));
            }
            return None;
        }
        let d: i128 = (c as u32 - '0' as u32) as i128;
        proof {
            assert(ds.take(i - start + 1).drop_last() =~= ds.take(i - start));
            assert(ds.take(i - start + 1).last() == ds[i - start]);
            assert(d == digit_value(ds[i - start]));
            assert(digits_value(ds.take(i - start + 1)) == value * 10 + d);
        }
        let next = value * 10 + d;
        if next > 9_223_372_036_854_775_808 {
            proof {
                if all_digits(ds) {
                    lemma_digits_value_grows(ds, i - start + 1);
                }
            }
            return None;
        }
        value = next;
        i = i + 1;
    }
    proof {
        assert(ds.take(ds.len() as int) =~= ds);
    }
    if neg {
        if value == 9_223_372_036_854_775_808 {
            Some(i64::MIN)
        } else {
            Some(-(value as i64))
        }
    } else {
        if value > 9_223_372_036_854_775_807 {
            None
        } else {
            Some(value as i64)
        }
    }
}

/// The decimal digit `d`.
pub open spec fn digit_char(d: nat) -> char {
    ((d + 48) as u32) as char
}

/// `n` written in decimal.
pub open spec fn decimal(n: nat) -> Seq<char>
    decreases n,
{
    if n < 10 {
        seq![digit_char(n)]
    } else {
        decimal(n / 10).push(digit_char(n % 10))
    }
}

/// `n` written in decimal, with `-` before it when negative.
pub open spec fn signed_decimal(n: int) -> Seq<char> {
    if n < 0 {
        seq!['-'] + decimal((-n) as nat)
    } else {
        decimal(n as nat)
    }
}

fn digit(d: u64) -> (r: char)
    requires
        d < 10,
    ensures
        r == digit_char(d as nat),
{
    let b: u8 = (d + 48) as u8;
    b as char
}

/// `n` written in decimal.
pub fn decimal_u64(n: u64) -> (r: String)
    ensures
        r@ == decimal(n as nat),
    decreases n,
{
    if n < 10 {
        char_string(digit(n))
    } else {
        let mut s = decimal_u64(n / 10);
        let d = char_string(digit(n % 10));
        s.append(d.as_str());
        s
    }
}

/// `n` written in decimal, as `i64::to_string` writes it.
pub fn format_i64(n: i64) -> (r: String)
    ensures
        r@ == signed_decimal(n as int),
{
    if n < 0 {
        let magnitude: u64 = ((-(n as i128)) as u64);
        let digits = decimal_u64(magnitude);
        let mut s = char_string('-');
        s.append(digits.as_str());
        s
    } else {
        decimal_u64(n as u64)
    }
}

} // verus!
