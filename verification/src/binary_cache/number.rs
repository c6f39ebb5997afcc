//! Decimal numbers as they stand in cache metadata.

use vstd::prelude::*;

verus! {

/// Whether `c` is a decimal digit.
pub open spec fn is_digit(c: char) -> bool {
    '0' <= c && c <= '9'
}

/// Whether `s` is made of decimal digits only.
pub open spec fn all_digits(s: Seq<char>) -> bool {
    forall|i: int| 0 <= i < s.len() ==> is_digit(#[trigger] s[i])
}

/// The number that the digits `s` stand for.
pub open spec fn decimal(s: Seq<char>) -> nat
    decreases s.len(),
{
    if s.len() == 0 {
        0
    } else {
        (decimal(s.drop_last()) * 10 + (s.last() as nat - '0' as nat)) as nat
    }
}

/// The digits of a number text: the text without a leading `+`.
pub open spec fn unsigned_part(s: Seq<char>) -> Seq<char> {
    if s.len() > 0 && s[0] == '+' {
        s.drop_first()
    } else {
        s
    }
}

/// The value of `s` as an unsigned 64-bit number: an optional `+`, then one
/// or more decimal digits, standing for a number that fits.
pub open spec fn spec_parse_u64(s: Seq<char>) -> Option<u64> {
    let digits = unsigned_part(s);
    if digits.len() == 0 || !all_digits(digits) || decimal(digits) > u64::MAX {
        None
    } else {
        Some(decimal(digits) as u64)
    }
}

/// More digits never make a smaller number.
pub proof fn lemma_decimal_grows(s: Seq<char>, n: int)
    requires
        0 <= n <= s.len(),
        all_digits(s),
    ensures
        decimal(s.subrange(0, n)) <= decimal(s),
    decreases s.len() - n,
{
    if n == s.len() {
        assert(s.subrange(0, n) =~= s);
    } else {
        let longer = s.subrange(0, n + 1);
        assert(longer.drop_last() =~= s.subrange(0, n));
        assert(is_digit(s[n]));
        assert(longer.last() == s[n]);
        lemma_decimal_grows(s, n + 1);
    }
}

/// Reads `text[from..to]` as an unsigned 64-bit number.
pub fn parse_u64(text: &Vec<char>, from: usize, to: usize) -> (r: Option<u64>)
    requires
        from <= to <= text@.len(),
    ensures
        r == spec_parse_u64(text@.subrange(from as int, to as int)),
{
    let ghost s = text@.subrange(from as int, to as int);
    let start: usize = if from < to && text[from] == '+' {
        from + 1
    } else {
        from
    };
    let ghost digits = unsigned_part(s);
    assert(digits =~= text@.subrange(start as int, to as int));
    if start == to {
        return None;
    }
    let mut value: u64 = 0;
    let mut i: usize = start;
    assert(digits.subrange(0, 0) =~= Seq::<char>::empty());
    while i < to
        invariant
            from <= start <= i <= to <= text@.len(),
            start < to,
            digits == text@.subrange(start as int, to as int),
            digits == unsigned_part(text@.subrange(from as int, to as int)),
            all_digits(digits.subrange(0, i - start)),
            value == decimal(digits.subrange(0, i - start)),
        decreases to - i,
    {
        let c = text[i];
        let ghost shorter = digits.subrange(0, i - start);
        let ghost longer = digits.subrange(0, i - start + 1);
        assert(longer.drop_last() =~= shorter);
        assert(longer.last() == c);
        if !('0' <= c && c <= '9') {
            assert(!is_digit(digits[i - start]));
            return None;
        }
        let d: u64 = (c as u32 - '0' as u32) as u64;
        if value > (u64::MAX - d) / 10 {
            proof {
                assert(decimal(longer) > u64::MAX);
                if all_digits(digits) {
                    lemma_decimal_grows(digits, i - start + 1);
                }
            }
            return None;
        }
        value = value * 10 + d;
        i = i + 1;
        assert forall|j: int| 0 <= j < longer.len() implies is_digit(#[trigger] longer[j]) by {
            if j < shorter.len() {
                assert(is_digit(shorter[j]));
            }
        }
    }
    assert(digits.subrange(0, to - start) =~= digits);
    Some(value)
}

} // verus!
