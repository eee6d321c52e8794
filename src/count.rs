use vstd::prelude::*;

verus! {

/// The value of a non-empty run of ASCII digits.
pub open spec fn digits_value(s: Seq<char>) -> int
    decreases s.len(),
{
    if s.len() == 0 {
        0
    } else {
        digits_value(s.drop_last()) * 10 + (s.last() as int - '0' as int)
    }
}

pub open spec fn is_digit(c: char) -> bool {
    '0' <= c && c <= '9'
}

pub open spec fn all_digits(s: Seq<char>) -> bool {
    s.len() > 0 && forall|i: int| 0 <= i < s.len() ==> is_digit(#[trigger] s[i])
}

/// The integer that a decimal numeral denotes, if it is one: an optional sign
/// (`+` or `-`) followed by one or more ASCII digits.
pub open spec fn numeral_value(s: Seq<char>) -> Option<int> {
    if s.len() > 0 && (s[0] == '+' || s[0] == '-') && all_digits(s.drop_first()) {
        if s[0] == '-' {
            Some(-digits_value(s.drop_first()))
        } else {
            Some(digits_value(s.drop_first()))
        }
    } else if all_digits(s) {
        Some(digits_value(s))
    } else {
        None
    }
}

/// The `i32` that `s` denotes, or `None` where `s` is no numeral or its value
/// does not fit.
pub open spec fn count_value(s: Seq<char>) -> Option<i32> {
    match numeral_value(s) {
        Some(v) => if i32::MIN <= v <= i32::MAX {
            Some(v as i32)
        } else {
            None
        },
        None => None,
    }
}

proof fn lemma_digits_value_nonneg(s: Seq<char>)
    requires
        forall|i: int| 0 <= i < s.len() ==> is_digit(#[trigger] s[i]),
    ensures
        digits_value(s) >= 0,
    decreases s.len(),
{
    if s.len() > 0 {
        lemma_digits_value_nonneg(s.drop_last());
    }
}

proof fn lemma_digits_value_grows(s: Seq<char>)
    requires
        s.len() > 0,
        forall|i: int| 0 <= i < s.len() ==> is_digit(#[trigger] s[i]),
    ensures
        digits_value(s) >= digits_value(s.drop_last()),
{
    lemma_digits_value_nonneg(s.drop_last());
}

/// Parses a count written in decimal, as the statistics of a channel give it.
/// Fails exactly where `s` is no numeral or its value does not fit in an `i32`.
pub fn parse_count(s: &str) -> (r: Option<i32>)
    ensures
        r == count_value(s@),
{
    let n = s.unicode_len();
    let mut start: usize = 0;
    let mut negative = false;
    if n > 0 {
        let c = s.get_char(0);
        if c == '+' || c == '-' {
            start = 1;
            negative = c == '-';
        }
    }
    if start >= n {
        proof {
            assert(!all_digits(s@));
            if s@.len() > 0 {
                assert(s@.drop_first().len() == 0);
            }
        }
        return None;
    }
    let ghost digits = s@.subrange(start as int, n as int);
    proof {
        lemma_numeral_parts(s@, start as int, negative);
    }
    // the magnitude, kept within 2^31 so that both signs can be told apart
    let limit: i64 = 2147483648;
    let mut acc: i64 = 0;
    let mut i: usize = start;
    while i < n
        invariant
            start <= i <= n,
            n == s@.len(),
            digits == s@.subrange(start as int, n as int),
            numeral_value(s@) == if all_digits(digits) {
                Some(if negative { -digits_value(digits) } else { digits_value(digits) })
            } else {
                None::<int>
            },
            0 <= acc <= limit,
            limit == 2147483648,
            forall|k: int| start <= k < i ==> is_digit(#[trigger] s@[k]),
            acc == digits_value(s@.subrange(start as int, i as int)),
        decreases n - i,
    {
        let c = s.get_char(i);
        if !('0' <= c && c <= '9') {
            proof {
                assert(digits[i - start] == c);
                assert(!all_digits(digits));
            }
            return None;
        }
        let d = (c as u32 - '0' as u32) as i64;
        let ghost prev = s@.subrange(start as int, i as int);
        let ghost next = s@.subrange(start as int, i + 1);
        assert(next.drop_last() == prev);
        let big = acc * 10 + d;
        if big > limit {
            proof {
                assert forall|k: int| 0 <= k < next.len() implies is_digit(#[trigger] next[k]) by {
                    assert(next[k] == s@[start + k]);
                }
                if all_digits(digits) {
                    assert(digits.take(i + 1 - start) == next);
                    lemma_prefix_value_le(digits, i + 1 - start);
                }
            }
            return None;
        }
        acc = big;
        i = i + 1;
    }
    proof {
        assert(s@.subrange(start as int, n as int) == digits);
        assert forall|k: int| 0 <= k < digits.len() implies is_digit(#[trigger] digits[k]) by {
            assert(digits[k] == s@[start + k]);
        }
    }
    if negative {
        Some((-acc) as i32)
    } else if acc > 2147483647 {
        None
    } else {
        Some(acc as i32)
    }
}

/// Splits a numeral into its sign and its digits.
proof fn lemma_numeral_parts(s: Seq<char>, start: int, negative: bool)
    requires
        start <= s.len(),
        (start == 1 && (s[0] == '+' || s[0] == '-') && negative == (s[0] == '-')) || (start
            == 0 && !negative && (s.len() == 0 || (s[0] != '+' && s[0] != '-'))),
    ensures
        numeral_value(s) == if all_digits(s.subrange(start, s.len() as int)) {
            let v = digits_value(s.subrange(start, s.len() as int));
            Some(if negative { -v } else { v })
        } else {
            None::<int>
        },
{
    if start == 1 {
        assert(s.subrange(1, s.len() as int) == s.drop_first());
        assert(!is_digit(s[0]));
    } else {
        assert(s.subrange(0, s.len() as int) == s);
    }
}

/// A numeral's leading digits never denote more than the whole numeral.
proof fn lemma_prefix_value_le(s: Seq<char>, m: int)
    requires
        0 <= m <= s.len(),
        forall|i: int| 0 <= i < s.len() ==> is_digit(#[trigger] s[i]),
    ensures
        digits_value(s.take(m)) <= digits_value(s),
    decreases s.len(),
{
    if m < s.len() {
        let t = s.drop_last();
        assert forall|i: int| 0 <= i < t.len() implies is_digit(#[trigger] t[i]) by {
            assert(t[i] == s[i]);
        }
        lemma_prefix_value_le(t, m);
        assert(t.take(m) == s.take(m));
        lemma_digits_value_grows(s);
    } else {
        assert(s.take(m) == s);
    }
}

} // verus!
