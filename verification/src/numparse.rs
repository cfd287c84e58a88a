//! Decimal parsing of the count in a keep-by-length segment.
//!
//! The notation writes `=[#N]` for "keep the last `N` characters"; `N` is a
//! non-negative decimal integer, optionally preceded by a `+` sign, and must
//! fit in `usize`. Anything else is not a count and the segment falls back
//! to a literal keep.

use vstd::prelude::*;
use vstd::string::*;

verus! {

/// Whether `c` is one of the decimal digits `'0'` through `'9'`.
pub open spec fn is_decimal_digit(c: char) -> bool {
    48 <= c as u32 && c as u32 <= 57
}

/// The numeric value of a decimal digit (and 0 for any other character,
/// which keeps the function total; it is only of interest on digits).
pub open spec fn digit_value(c: char) -> nat {
    if is_decimal_digit(c) {
        (c as u32 - 48) as nat
    } else {
        0
    }
}

/// The value of a digit string read most-significant first.
pub open spec fn digits_value(s: Seq<char>) -> nat
    decreases s.len(),
{
    if s.len() == 0 {
        0
    } else {
        digits_value(s.drop_last()) * 10 + digit_value(s.last())
    }
}

/// Whether every character of `s` is a decimal digit.
pub open spec fn all_decimal_digits(s: Seq<char>) -> bool {
    forall|k: int| 0 <= k < s.len() ==> is_decimal_digit(#[trigger] s[k])
}

/// The digits of a decimal numeral, after an optional leading `+` sign.
pub open spec fn unsigned_body(s: Seq<char>) -> Seq<char> {
    if s.len() > 0 && s[0] == '+' {
        s.drop_first()
    } else {
        s
    }
}

/// Whether `s` is a well-formed decimal numeral whose value fits in `usize`:
/// an optional `+` sign followed by at least one digit, the value at most
/// `usize::MAX`.
pub open spec fn parses_as_usize(s: Seq<char>) -> bool {
    let d = unsigned_body(s);
    d.len() > 0 && all_decimal_digits(d) && digits_value(d) <= usize::MAX
}

/// The value of a well-formed decimal numeral.
pub open spec fn numeral_value(s: Seq<char>) -> nat {
    digits_value(unsigned_body(s))
}

/// Appending characters to a digit string never lowers its value.
proof fn lemma_digits_value_extend(s: Seq<char>, t: Seq<char>)
    ensures
        digits_value(s + t) >= digits_value(s),
    decreases t.len(),
{
    if t.len() == 0 {
        assert(s + t =~= s);
    } else {
        lemma_digits_value_extend(s, t.drop_last());
        assert((s + t).drop_last() =~= s + t.drop_last());
        assert(digits_value(s + t) == digits_value(s + t.drop_last()) * 10 + digit_value(
            (s + t).last(),
        ));
    }
}

/// Reads `s` as a decimal numeral, exactly when `s` is an optional `+` sign
/// followed by one or more decimal digits whose value fits in `usize`.
pub fn parse_usize(s: &str) -> (r: Option<usize>)
    ensures
        r is Some <==> parses_as_usize(s@),
        r matches Some(v) ==> v == numeral_value(s@),
{
    let n = s.unicode_len();
    let mut i: usize = 0;
    if n > 0 && s.get_char(0) == '+' {
        i = 1;
    }
    let ghost start = i as int;
    let ghost d = unsigned_body(s@);
    proof {
        assert(d =~= s@.skip(start));
    }
    if i >= n {
        return None;
    }
    let mut acc: usize = 0;
    while i < n
        invariant
            n == s@.len(),
            d == unsigned_body(s@),
            d =~= s@.skip(start),
            0 <= start <= i <= n,
            d.len() == n - start,
            forall|k: int| 0 <= k < i - start ==> is_decimal_digit(#[trigger] d[k]),
            acc == digits_value(d.take(i - start)),
        decreases n - i,
    {
        let c = s.get_char(i);
        let cv = c as u32;
        if cv < 48 || cv > 57 {
            proof {
                assert(d[i - start] == s@[i as int]);
                assert(!is_decimal_digit(d[i - start]));
            }
            return None;
        }
        let dv = (cv - 48) as usize;
        let ghost prefix = d.take(i - start);
        proof {
            assert(d[i - start] == s@[i as int]);
            assert(d.take(i - start + 1).drop_last() =~= prefix);
            assert(d.take(i - start + 1).last() == d[i - start]);
            assert(digits_value(d.take(i - start + 1)) == acc * 10 + dv);
        }
        if acc > usize::MAX / 10 || (usize::MAX - dv) < acc * 10 {
            proof {
                assert(acc * 10 + dv > usize::MAX);
                assert(d =~= d.take(i - start + 1) + d.skip(i - start + 1));
                lemma_digits_value_extend(d.take(i - start + 1), d.skip(i - start + 1));
                assert(digits_value(d) > usize::MAX);
            }
            return None;
        }
        acc = acc * 10 + dv;
        i = i + 1;
    }
    proof {
        assert(d.take(n - start) =~= d);
    }
    Some(acc)
}

} // verus!
