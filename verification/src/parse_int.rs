//! Reading a decimal unsigned 64-bit integer out of a sequence of
//! characters, with the error taxonomy of a strict decimal parser: an
//! optional leading `+`, then at least one ASCII digit, and a value that
//! fits in 64 bits.

use vstd::prelude::*;
use vstd::string::StrSliceExecFns;

verus! {

/// Why a segment failed to read as an unsigned 64-bit integer.
#[derive(Debug, Clone, Copy, PartialEq, Eq, Structural)]
pub enum IntParseError {
    /// No characters stood where a number was expected.
    Empty,
    /// A character that is not an ASCII decimal digit was met before the
    /// digits already read could overflow.
    InvalidDigit,
    /// The digits read name a value above `u64::MAX`.
    PosOverflow,
}

/// An ASCII decimal digit.
pub open spec fn is_digit(c: char) -> bool {
    48 <= c as u32 <= 57
}

/// The numeric value of an ASCII decimal digit.
pub open spec fn digit_value(c: char) -> int {
    c as u32 - 48
}

/// The value named by a sequence of decimal digits, most significant first.
pub open spec fn digits_value(s: Seq<char>) -> int
    decreases s.len(),
{
    if s.len() == 0 {
        0
    } else {
        digits_value(s.drop_last()) * 10 + digit_value(s.last())
    }
}

/// Every character of `s` is an ASCII decimal digit.
pub open spec fn all_digits(s: Seq<char>) -> bool {
    forall|i: int| 0 <= i < s.len() ==> is_digit(s[i])
}

/// The length of the longest digit prefix of `s`: the index of the first
/// non-digit character, or `s.len()` if every character is a digit.
pub open spec fn digit_prefix_len(s: Seq<char>) -> int
    decreases s.len(),
{
    if s.len() == 0 {
        0
    } else if !is_digit(s[0]) {
        0
    } else {
        1 + digit_prefix_len(s.skip(1))
    }
}

/// `s` with one leading `+` sign removed, if it has one.
pub open spec fn unsigned_body(s: Seq<char>) -> Seq<char> {
    if s.len() > 0 && s[0] == '+' {
        s.skip(1)
    } else {
        s
    }
}

/// What a strict decimal parser returns for `s`: the parse succeeds exactly
/// when, after an optional leading `+`, the string is one or more ASCII
/// decimal digits naming a value that fits in a `u64`. On failure the error
/// reports the first fault the parser meets reading left to right: an empty
/// input, an invalid character (a lone `+` included), or digits that have
/// already exceeded `u64::MAX` by the time the scan stops.
pub open spec fn spec_parse_u64(s: Seq<char>) -> Result<u64, IntParseError> {
    if s.len() == 0 {
        Err(IntParseError::Empty)
    } else {
        let d = unsigned_body(s);
        if d.len() == 0 {
            Err(IntParseError::InvalidDigit)
        } else {
            let k = digit_prefix_len(d);
            if digits_value(d.take(k)) > u64::MAX {
                Err(IntParseError::PosOverflow)
            } else if k < d.len() {
                Err(IntParseError::InvalidDigit)
            } else {
                Ok(digits_value(d) as u64)
            }
        }
    }
}

/// The digit prefix is exactly as long as the run of digits a left-to-right
/// scan finds before the first non-digit.
proof fn lemma_digit_prefix_len_is(s: Seq<char>, m: int)
    requires
        0 <= m <= s.len(),
        forall|i: int| 0 <= i < m ==> is_digit(s[i]),
        m < s.len() ==> !is_digit(s[m]),
    ensures
        digit_prefix_len(s) == m,
    decreases m,
{
    if m == 0 {
    } else {
        assert(is_digit(s[0]));
        assert forall|i: int| 0 <= i < m - 1 implies is_digit(s.skip(1)[i]) by {
            assert(s.skip(1)[i] == s[i + 1]);
        }
        if m - 1 < s.skip(1).len() {
            assert(s.skip(1)[m - 1] == s[m]);
        }
        lemma_digit_prefix_len_is(s.skip(1), m - 1);
    }
}

/// A digit string names a non-negative value.
proof fn lemma_digits_value_nonneg(s: Seq<char>)
    requires
        all_digits(s),
    ensures
        digits_value(s) >= 0,
    decreases s.len(),
{
    if s.len() > 0 {
        assert(all_digits(s.drop_last()));
        lemma_digits_value_nonneg(s.drop_last());
    }
}

/// Reading further digits never shrinks the value.
proof fn lemma_digits_value_prefix_monotone(s: Seq<char>, j: int, k: int)
    requires
        0 <= j <= k <= s.len(),
        forall|i: int| 0 <= i < k ==> is_digit(s[i]),
    ensures
        digits_value(s.take(j)) <= digits_value(s.take(k)),
    decreases k - j,
{
    if j < k {
        lemma_digits_value_prefix_monotone(s, j, k - 1);
        assert(s.take(k).drop_last() =~= s.take(k - 1));
        assert(all_digits(s.take(k - 1)));
        lemma_digits_value_nonneg(s.take(k - 1));
        assert(s.take(k).last() == s[k - 1]);
    }
}

/// Read the characters of `s` between the character indices `from`
/// (inclusive) and `to` (exclusive) as a decimal unsigned 64-bit integer.
pub(crate) fn parse_u64_in(s: &str, from: usize, to: usize) -> (r: Result<u64, IntParseError>)
    requires
        from <= to <= s@.len(),
    ensures
        r == spec_parse_u64(s@.subrange(from as int, to as int)),
{
    let ghost seg = s@.subrange(from as int, to as int);
    if from == to {
        assert(seg.len() == 0);
        return Err(IntParseError::Empty);
    }
    let first = s.get_char(from);
    let start: usize = if first == '+' {
        from + 1
    } else {
        from
    };
    let ghost d = unsigned_body(seg);
    proof {
        assert(seg[0] == s@[from as int]);
        assert(d =~= s@.subrange(start as int, to as int));
    }
    if start == to {
        return Err(IntParseError::InvalidDigit);
    }
    let mut i: usize = start;
    let mut acc: u64 = 0;
    while i < to
        invariant
            start <= i <= to <= s@.len(),
            d == s@.subrange(start as int, to as int),
            d == unsigned_body(seg),
            seg == s@.subrange(from as int, to as int),
            seg.len() > 0,
            d.len() == to - start,
            forall|k: int| 0 <= k < i - start ==> is_digit(d[k]),
            acc == digits_value(d.take(i - start)),
        decreases to - i,
    {
        let c = s.get_char(i);
        proof {
            assert(d[i - start] == s@[i as int]);
        }
        let u = c as u32;
        if !(48 <= u && u <= 57) {
            proof {
                lemma_digit_prefix_len_is(d, i - start);
            }
            return Err(IntParseError::InvalidDigit);
        }
        let dig = (u - 48) as u64;
        let wide = acc as u128 * 10 + dig as u128;
        proof {
            assert(d.take(i + 1 - start).drop_last() =~= d.take(i - start));
            assert(d.take(i + 1 - start).last() == d[i - start]);
            assert(digits_value(d.take(i + 1 - start)) == acc * 10 + dig);
        }
        if wide > u64::MAX as u128 {
            proof {
                lemma_digit_prefix_properties(d);
                let k = digit_prefix_len(d);
                assert(is_digit(d[i - start]));
                if k < i + 1 - start {
                    assert(is_digit(d[k]));
                    assert(!is_digit(d[k]));
                }
                lemma_digits_value_prefix_monotone(d, i + 1 - start, k);
            }
            return Err(IntParseError::PosOverflow);
        }
        acc = (wide) as u64;
        i = i + 1;
    }
    proof {
        assert(d.take(to - start) =~= d);
        lemma_digit_prefix_len_is(d, d.len() as int);
    }
    Ok(acc)
}

/// The characters before the digit prefix's end are all digits, and the
/// prefix ends at a non-digit or at the end of the string.
proof fn lemma_digit_prefix_properties(s: Seq<char>)
    ensures
        0 <= digit_prefix_len(s) <= s.len(),
        forall|i: int| 0 <= i < digit_prefix_len(s) ==> is_digit(s[i]),
        digit_prefix_len(s) < s.len() ==> !is_digit(s[digit_prefix_len(s)]),
    decreases s.len(),
{
    if s.len() > 0 && is_digit(s[0]) {
        lemma_digit_prefix_properties(s.skip(1));
        assert forall|i: int| 0 <= i < digit_prefix_len(s) implies is_digit(s[i]) by {
            if i > 0 {
                assert(s.skip(1)[i - 1] == s[i]);
            }
        }
        if digit_prefix_len(s) < s.len() {
            assert(s.skip(1)[digit_prefix_len(s) - 1] == s[digit_prefix_len(s)]);
        }
    }
}

} // verus!
