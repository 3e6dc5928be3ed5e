//! Decimal and hexadecimal numerals as ASCII byte strings.
//!
//! Index literals in the component text are decimal; the printer's
//! binary-offset comments are lowercase hexadecimal. Both directions are
//! pinned to the spec-level digit sequences defined here.

use vstd::prelude::*;

verus! {

/// The decimal digits of `n`, most significant first, as ASCII bytes.
pub open spec fn dec_digits(n: nat) -> Seq<u8>
    decreases n,
{
    if n < 10 {
        seq![(48 + n) as u8]
    } else {
        dec_digits(n / 10).push((48 + n % 10) as u8)
    }
}

/// A numeral has at least one digit.
pub proof fn lemma_dec_digits_positive(n: nat)
    ensures
        dec_digits(n).len() >= 1,
{
}

/// A larger number never has a shorter numeral.
pub proof fn lemma_dec_digits_len_monotone(a: nat, b: nat)
    requires
        a <= b,
    ensures
        dec_digits(a).len() <= dec_digits(b).len(),
    decreases b,
{
    if b < 10 {
    } else if a < 10 {
        lemma_dec_digits_positive(b / 10);
    } else {
        lemma_dec_digits_len_monotone(a / 10, b / 10);
    }
}

/// Counting one higher adds at most one digit.
pub proof fn lemma_dec_digits_len_succ(n: nat)
    ensures
        dec_digits(n + 1).len() <= dec_digits(n).len() + 1,
    decreases n,
{
    if n + 1 < 10 {
    } else if n < 10 {
        assert(dec_digits(n + 1).len() == dec_digits((n + 1) / 10).len() + 1);
        assert((n + 1) / 10 == 1);
    } else {
        if n % 10 == 9 {
            assert((n + 1) / 10 == n / 10 + 1) by (nonlinear_arith)
                requires
                    n % 10 == 9,
            ;
            lemma_dec_digits_len_succ(n / 10);
        } else {
            assert((n + 1) / 10 == n / 10) by (nonlinear_arith)
                requires
                    n % 10 < 9,
                    n >= 10,
            ;
        }
    }
}

/// Renders `n` in decimal.
pub fn u64_to_dec(n: u64) -> (r: Vec<u8>)
    ensures
        r@ == dec_digits(n as nat),
    decreases n,
{
    if n < 10 {
        let mut v: Vec<u8> = Vec::new();
        v.push(48 + n as u8);
        v
    } else {
        let mut v: Vec<u8> = u64_to_dec(n / 10);
        v.push(48 + (n % 10) as u8);
        v
    }
}

/// Whether `b` is a lowercase hexadecimal digit.
pub open spec fn is_hex_digit(b: u8) -> bool {
    (48 <= b <= 57) || (97 <= b <= 102)
}

/// The value of one hexadecimal digit.
pub open spec fn hex_val(b: u8) -> nat {
    if 48 <= b <= 57 {
        (b - 48) as nat
    } else {
        (b - 87) as nat
    }
}

/// The value of a hexadecimal digit string, most significant first.
pub open spec fn hex_value(s: Seq<u8>) -> nat
    decreases s.len(),
{
    if s.len() == 0 {
        0
    } else {
        hex_value(s.drop_last()) * 16 + hex_val(s.last())
    }
}

/// Classifies one byte as a hexadecimal digit.
pub fn hex_digit(b: u8) -> (r: bool)
    ensures
        r == is_hex_digit(b),
{
    (48 <= b && b <= 57) || (97 <= b && b <= 102)
}

} // verus!
