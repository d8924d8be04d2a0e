//! Binary rendering of instruction words and addresses.
//!
//! An address or constant is written as a string of `0`/`1` characters,
//! zero-padded on the left to 16 characters; a value too wide for 16 bits
//! keeps all of its significant digits instead of being truncated.

use vstd::prelude::*;

verus! {

/// The low `width` binary digits of `n`, most significant first.
pub open spec fn bits(n: nat, width: nat) -> Seq<char>
    decreases width,
{
    if width == 0 {
        Seq::empty()
    } else {
        bits(n / 2, (width - 1) as nat).push(if n % 2 == 1 {
            '1'
        } else {
            '0'
        })
    }
}

/// How many binary digits `n` occupies; `0` still takes one digit.
pub open spec fn bin_width(n: nat) -> nat
    decreases n,
{
    if n < 2 {
        1
    } else {
        1 + bin_width(n / 2)
    }
}

/// The rendering of address `n`: its binary digits, left-padded with `0`
/// to at least 16 characters.
pub open spec fn encode16(n: nat) -> Seq<char> {
    if bin_width(n) < 16 {
        bits(n, 16)
    } else {
        bits(n, bin_width(n))
    }
}

pub proof fn lemma_bits_len(n: nat, width: nat)
    ensures
        bits(n, width).len() == width,
    decreases width,
{
    if width > 0 {
        lemma_bits_len(n / 2, (width - 1) as nat);
    }
}

/// The rendering of an address is never shorter than 16 characters, and is
/// exactly 16 characters whenever the value fits in 16 bits.
pub proof fn lemma_encode16_len(n: nat)
    ensures
        encode16(n).len() >= 16,
        n < 0x10000 ==> encode16(n).len() == 16,
{
    lemma_bits_len(n, 16);
    lemma_bits_len(n, bin_width(n));
    if n < 0x10000 {
        assert(pow2(16) == 0x10000) by {
            reveal_with_fuel(pow2, 17);
        }
        lemma_bin_width_at_most(n, 16);
    }
}

/// `2^k`, used only to state bounds on digit counts.
pub open spec fn pow2(k: nat) -> nat
    decreases k,
{
    if k == 0 {
        1
    } else {
        2 * pow2((k - 1) as nat)
    }
}

proof fn lemma_bin_width_at_most(n: nat, w: nat)
    requires
        n < pow2(w),
        w >= 1,
    ensures
        bin_width(n) <= w,
    decreases w,
{
    if n >= 2 {
        lemma_bin_width_at_most(n / 2, (w - 1) as nat);
    }
}

/// A value of `w` or more digits is at least `2^(w-1)`; stated through the
/// recursion itself so that digit counts of machine integers stay small.
proof fn lemma_bin_width_linear(n: nat)
    ensures
        bin_width(n) <= n + 1,
    decreases n,
{
    if n >= 2 {
        lemma_bin_width_linear(n / 2);
    }
}

/// Number of binary digits of `n`, computed exactly as `bin_width` states it.
fn bin_width_exec(n: usize) -> (w: usize)
    ensures
        w == bin_width(n as nat),
    decreases n,
{
    if n < 2 {
        1
    } else {
        proof {
            lemma_bin_width_linear((n / 2) as nat);
        }
        1 + bin_width_exec(n / 2)
    }
}

/// The low `width` binary digits of `n` as a string, most significant first.
fn encode_bits(n: usize, width: usize) -> (s: String)
    ensures
        s@ == bits(n as nat, width as nat),
    decreases width,
{
    if width == 0 {
        let s = String::new();
        s
    } else {
        let mut s = encode_bits(n / 2, width - 1);
        if n % 2 == 1 {
            s.append("1");
            proof {
                reveal_strlit("1");
                assert(s@ =~= bits(n as nat, width as nat));
            }
        } else {
            s.append("0");
            proof {
                reveal_strlit("0");
                assert(s@ =~= bits(n as nat, width as nat));
            }
        }
        s
    }
}

/// Renders `value` as a binary string, left-padded with `0` to 16 characters;
/// a value of 17 or more significant digits keeps them all.
pub fn encode_address(value: usize) -> (s: String)
    ensures
        s@ == encode16(value as nat),
{
    let w = bin_width_exec(value);
    if w < 16 {
        encode_bits(value, 16)
    } else {
        encode_bits(value, w)
    }
}

} // verus!
