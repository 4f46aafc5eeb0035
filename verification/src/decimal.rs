//! Whole numbers written in base ten, as a user types them: an optional
//! sign, then one digit or more, and nothing else.

use vstd::prelude::*;

verus! {

/// Whether `b` is one of the characters `0` to `9`.
pub open spec fn is_digit(b: u8) -> bool {
    48 <= b <= 57
}

/// The number that a string of digits stands for.
pub open spec fn digits_value(s: Seq<u8>) -> int
    decreases s.len(),
{
    if s.len() == 0 {
        0
    } else {
        10 * digits_value(s.drop_last()) + (s.last() - 48)
    }
}

/// Whether the text begins with a sign.
pub open spec fn has_sign(s: Seq<u8>) -> bool {
    s.len() > 0 && (s[0] == 43 || s[0] == 45)
}

/// The text without its sign.
pub open spec fn body(s: Seq<u8>) -> Seq<u8> {
    if has_sign(s) {
        s.subrange(1, s.len() as int)
    } else {
        s
    }
}

/// Whether the text is a number: at least one digit behind the optional
/// sign, and digits only.
pub open spec fn well_formed(s: Seq<u8>) -> bool {
    &&& body(s).len() > 0
    &&& forall|i: int| 0 <= i < body(s).len() ==> is_digit(#[trigger] body(s)[i])
}

/// The number that the text stands for, whatever its size.
pub open spec fn number(s: Seq<u8>) -> int {
    if has_sign(s) && s[0] == 45 {
        -digits_value(body(s))
    } else {
        digits_value(body(s))
    }
}

/// The number that the text stands for, if the text is a number and the
/// number is one that an `i64` can hold.
pub open spec fn decimal_i64(s: Seq<u8>) -> Option<i64> {
    if well_formed(s) && i64::MIN <= number(s) <= i64::MAX {
        Some(number(s) as i64)
    } else {
        None
    }
}

/// A string of digits never stands for less than one of its beginnings
/// does.
pub proof fn lemma_digits_grow(s: Seq<u8>, i: int)
    requires
        0 <= i <= s.len(),
        forall|j: int| 0 <= j < s.len() ==> is_digit(#[trigger] s[j]),
    ensures
        0 <= digits_value(s.subrange(0, i)) <= digits_value(s),
    decreases s.len() - i,
{
    let head = s.subrange(0, i);
    if i == 0 {
        lemma_digits_nonneg(s);
    } else {
        lemma_digits_nonneg(head);
    }
    if i < s.len() {
        let next = s.subrange(0, i + 1);
        assert(next.drop_last() =~= head);
        assert(next.last() == s[i]);
        lemma_digits_grow(s, i + 1);
    } else {
        assert(head =~= s);
    }
}

/// A string of digits stands for no negative number.
pub proof fn lemma_digits_nonneg(s: Seq<u8>)
    requires
        forall|j: int| 0 <= j < s.len() ==> is_digit(#[trigger] s[j]),
    ensures
        0 <= digits_value(s),
    decreases s.len(),
{
    if s.len() > 0 {
        assert forall|j: int| 0 <= j < s.drop_last().len() implies is_digit(
            #[trigger] s.drop_last()[j],
        ) by {
            assert(s.drop_last()[j] == s[j]);
        }
        lemma_digits_nonneg(s.drop_last());
    }
}

/// Reads a whole number in base ten.
pub fn parse_i64(text: &[u8]) -> (r: Option<i64>)
    ensures
        r == decimal_i64(text@),
{
    let n = text.len();
    let neg: bool = n > 0 && text[0] == 45;
    let start: usize = if n > 0 && (text[0] == 43 || text[0] == 45) {
        1
    } else {
        0
    };
    if start == n {
        assert(body(text@).len() == 0);
        return None;
    }
    let ghost digits = body(text@);
    assert(digits =~= text@.subrange(start as int, n as int));
    // The magnitude read so far; 2^63 is the largest that can still be the
    // magnitude of an `i64`.
    let limit: u64 = 9223372036854775808;
    let mut mag: u64 = 0;
    let mut i: usize = start;
    assert(digits.subrange(0, 0) =~= Seq::<u8>::empty());
    while i < n
        invariant
            start <= i <= n,
            n == text@.len(),
            limit == 9223372036854775808,
            digits == text@.subrange(start as int, n as int),
            digits == body(text@),
            neg == (has_sign(text@) && text@[0] == 45),
            forall|j: int| 0 <= j < i - start ==> is_digit(#[trigger] digits[j]),
            mag == digits_value(digits.subrange(0, i - start)),
            mag <= limit,
        decreases n - i,
    {
        let b = text[i];
        assert(digits[i - start] == b);
        if b < 48 || b > 57 {
            assert(!is_digit(body(text@)[i - start]));
            return None;
        }
        let d: u64 = (b - 48) as u64;
        proof {
            let next = digits.subrange(0, i + 1 - start);
            assert(next.drop_last() =~= digits.subrange(0, i - start));
            assert(next.last() == b);
        }
        if mag > (limit - d) / 10 {
            // 10 * mag + d is more than 2^63, and what follows only adds.
            proof {
                let next = digits.subrange(0, i + 1 - start);
                assert(digits_value(next) > limit);
                if forall|j: int| 0 <= j < digits.len() ==> is_digit(#[trigger] digits[j]) {
                    lemma_digits_grow(digits, i + 1 - start);
                }
            }
            return None;
        }
        mag = 10 * mag + d;
        i = i + 1;
    }
    assert(digits.subrange(0, n - start) =~= digits);
    assert(well_formed(text@));
    if neg {
        if mag == limit {
            Some(i64::MIN)
        } else {
            Some(0 - (mag as i64))
        }
    } else if mag == limit {
        None
    } else {
        Some(mag as i64)
    }
}

} // verus!
