//! Decimal reading of address literals.
//!
//! An address instruction may carry a non-negative decimal literal.  A
//! literal is an optional leading `+` followed by one or more decimal
//! digits, and must fit in 16 bits; anything else is taken for a symbol
//! name instead.

use vstd::prelude::*;

verus! {

pub open spec fn is_dec_digit(c: char) -> bool {
    48 <= c as int && c as int <= 57
}

/// The numeric value of a decimal digit character.
pub open spec fn dec_digit_val(c: char) -> nat {
    (c as int - 48) as nat
}

pub open spec fn all_dec_digits(s: Seq<char>) -> bool {
    forall|i: int| 0 <= i < s.len() ==> is_dec_digit(s[i])
}

/// The value of a string of decimal digits, most significant first.
pub open spec fn dec_value(s: Seq<char>) -> nat
    decreases s.len(),
{
    if s.len() == 0 {
        0
    } else {
        dec_value(s.drop_last()) * 10 + dec_digit_val(s.last())
    }
}

/// The digits of a literal: everything after one optional leading `+`.
pub open spec fn numeric_body(s: Seq<char>) -> Seq<char> {
    if s.len() > 0 && s[0] == '+' {
        s.drop_first()
    } else {
        s
    }
}

/// Whether `s` reads as a 16-bit decimal literal: an optional `+`, then at
/// least one digit, with a value of at most 65535.
pub open spec fn parses_as_u16(s: Seq<char>) -> bool {
    &&& numeric_body(s).len() > 0
    &&& all_dec_digits(numeric_body(s))
    &&& dec_value(numeric_body(s)) <= 0xFFFF
}

/// Reads `s` as a 16-bit decimal literal, exactly as `parses_as_u16` and
/// `dec_value` describe it.
pub fn parse_u16(s: &str) -> (r: Option<u16>)
    ensures
        match r {
            Some(v) => parses_as_u16(s@) && v as nat == dec_value(numeric_body(s@)),
            None => !parses_as_u16(s@),
        },
{
    let len = s.unicode_len();
    let start: usize = if len > 0 && s.get_char(0) == '+' {
        1
    } else {
        0
    };
    proof {
        assert(numeric_body(s@) =~= s@.subrange(start as int, len as int));
    }
    if start == len {
        return None;
    }
    let mut acc: u32 = 0;
    let mut too_big = false;
    let mut i = start;
    while i < len
        invariant
            start <= i <= len,
            len == s@.len(),
            numeric_body(s@) =~= s@.subrange(start as int, len as int),
            forall|j: int| start <= j < i ==> is_dec_digit(s@[j]),
            !too_big ==> acc <= 0xFFFF && acc as nat == dec_value(
                s@.subrange(start as int, i as int),
            ),
            too_big ==> dec_value(s@.subrange(start as int, i as int)) > 0xFFFF,
        decreases len - i,
    {
        let c = s.get_char(i);
        let code = c as u32;
        if code < 48 || code > 57 {
            proof {
                assert(numeric_body(s@)[i - start] == s@[i as int]);
            }
            return None;
        }
        let d = code - 48;
        proof {
            let prefix = s@.subrange(start as int, i as int);
            let longer = s@.subrange(start as int, i + 1);
            assert(longer.drop_last() =~= prefix);
            assert(longer.last() == s@[i as int]);
        }
        if !too_big {
            let next = acc * 10 + d;
            if next > 0xFFFF {
                too_big = true;
            } else {
                acc = next;
            }
        }
        i = i + 1;
    }
    if too_big {
        return None;
    }
    Some(acc as u16)
}

} // verus!
