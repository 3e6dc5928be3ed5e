//! Scanners over the printed component text.
//!
//! The printer puts a binary-offset comment of the form `(;@hex ;)` on every
//! instruction; [`scan_hex_comments`] recovers, for a slice of the text, each
//! comment's value and the text offset just past it. For the instantiation
//! pass, [`find_instantiate_head`] finds the head of the first
//! `core instance (;N;) (instantiate M` form at or after a given offset.

use vstd::prelude::*;

use crate::numeral::{hex_digit, hex_val, hex_value, is_hex_digit};

verus! {

/// Whitespace as the printer may emit it between the hex value and the
/// closing `;)`.
pub open spec fn is_ws(b: u8) -> bool {
    b == 9 || b == 10 || b == 11 || b == 12 || b == 13 || b == 32
}

/// Whether `b` is an ASCII decimal digit.
pub open spec fn is_digit(b: u8) -> bool {
    48 <= b <= 57
}

/// The end of the run of hexadecimal digits starting at `j`, capped at `hi`.
pub open spec fn hex_run_end(t: Seq<u8>, j: int, hi: int) -> int
    decreases hi - j,
{
    if j < hi && j >= 0 && j < t.len() && is_hex_digit(t[j]) {
        hex_run_end(t, j + 1, hi)
    } else {
        j
    }
}

/// The end of the run of whitespace starting at `j`, capped at `hi`.
pub open spec fn ws_run_end(t: Seq<u8>, j: int, hi: int) -> int
    decreases hi - j,
{
    if j < hi && j >= 0 && j < t.len() && is_ws(t[j]) {
        ws_run_end(t, j + 1, hi)
    } else {
        j
    }
}

/// The end of the run of decimal digits starting at `j`, capped at `hi`.
pub open spec fn digit_run_end(t: Seq<u8>, j: int, hi: int) -> int
    decreases hi - j,
{
    if j < hi && j >= 0 && j < t.len() && is_digit(t[j]) {
        digit_run_end(t, j + 1, hi)
    } else {
        j
    }
}

/// Whether a binary-offset comment `(;@hex ;)` starts at `i`, wholly within
/// `t[..hi]`.
pub open spec fn comment_at(t: Seq<u8>, i: int, hi: int) -> bool {
    let h = hex_run_end(t, i + 3, hi);
    let w = ws_run_end(t, h, hi);
    &&& 0 <= i
    &&& i + 3 <= hi <= t.len()
    &&& t[i] == 40  // (
    &&& t[i + 1] == 59  // ;
    &&& t[i + 2] == 64  // @
    &&& h > i + 3
    &&& w + 2 <= hi
    &&& t[w] == 59  // ;
    &&& t[w + 1] == 41  // )
}

/// The offset just past the comment that starts at `i`.
pub open spec fn comment_end(t: Seq<u8>, i: int, hi: int) -> int {
    ws_run_end(t, hex_run_end(t, i + 3, hi), hi) + 2
}

/// The value of the comment that starts at `i`.
pub open spec fn comment_value(t: Seq<u8>, i: int, hi: int) -> nat {
    hex_value(t.subrange(i + 3, hex_run_end(t, i + 3, hi)))
}

/// One binary-offset comment: the binary offset it names and the text
/// offset just past its closing parenthesis.
#[derive(Clone, Copy, PartialEq, Eq, Structural)]
pub struct HexComment {
    /// The binary offset, parsed from the hexadecimal digits.
    pub val: u64,
    /// The text offset just past the comment.
    pub end: usize,
}

/// All binary-offset comments of `t[i..hi]` whose value fits in 64 bits, in
/// text order, scanning past each comment found.
pub open spec fn hex_comments_from(t: Seq<u8>, i: int, hi: int) -> Seq<HexComment>
    decreases hi - i when i <= hi via hex_comments_from_dec
{
    if i >= hi {
        Seq::empty()
    } else if comment_at(t, i, hi) {
        let e = comment_end(t, i, hi);
        if comment_value(t, i, hi) <= u64::MAX {
            seq![
                HexComment { val: comment_value(t, i, hi) as u64, end: e as usize },
            ] + hex_comments_from(t, e, hi)
        } else {
            hex_comments_from(t, e, hi)
        }
    } else {
        hex_comments_from(t, i + 1, hi)
    }
}

#[via_fn]
proof fn hex_comments_from_dec(t: Seq<u8>, i: int, hi: int) {
    if i < hi && comment_at(t, i, hi) {
        lemma_run_end_bounds(t, i + 3, hi);
        lemma_run_end_bounds(t, hex_run_end(t, i + 3, hi), hi);
    }
}

/// A comment ends past where it starts, within the scanned range.
pub proof fn lemma_run_end_bounds(t: Seq<u8>, j: int, hi: int)
    requires
        0 <= j <= hi <= t.len(),
    ensures
        j <= hex_run_end(t, j, hi) <= hi,
        j <= ws_run_end(t, j, hi) <= hi,
        j <= digit_run_end(t, j, hi) <= hi,
    decreases hi - j,
{
    if j < hi {
        lemma_run_end_bounds(t, j + 1, hi);
    }
}

/// Scans `text[lo..hi]` for binary-offset comments.
pub fn scan_hex_comments(text: &Vec<u8>, lo: usize, hi: usize) -> (r: Vec<HexComment>)
    requires
        lo <= hi <= text@.len(),
    ensures
        r@ == hex_comments_from(text@, lo as int, hi as int),
{
    let ghost t = text@;
    let mut out: Vec<HexComment> = Vec::new();
    let mut i: usize = lo;
    while i < hi
        invariant
            lo <= i <= hi <= text@.len(),
            t == text@,
            out@ + hex_comments_from(t, i as int, hi as int) == hex_comments_from(
                t,
                lo as int,
                hi as int,
            ),
        decreases hi - i,
    {
        let ghost i0 = i as int;
        if hi - i >= 3 && text[i] == 40 && text[i + 1] == 59 && text[i + 2] == 64 {
            // a candidate comment head; walk the hex run
            let mut h: usize = i + 3;
            let mut val: u64 = 0;
            let mut fits: bool = true;
            while h < hi && hex_digit(text[h])
                invariant
                    0 <= i0,
                    i0 + 3 <= h <= hi <= text@.len(),
                    t == text@,
                    hex_run_end(t, h as int, hi as int) == hex_run_end(t, i0 + 3, hi as int),
                    fits ==> val == hex_value(t.subrange(i0 + 3, h as int)),
                    !fits ==> hex_value(t.subrange(i0 + 3, h as int)) > u64::MAX,
                decreases hi - h,
            {
                let d = text[h];
                proof {
                    assert(t.subrange(i0 + 3, h + 1).drop_last() =~= t.subrange(i0 + 3, h as int));
                    assert(t.subrange(i0 + 3, h + 1).last() == t[h as int]);
                }
                if fits {
                    let v = hex_val_exec(d);
                    if val > (u64::MAX - v as u64) / 16 {
                        fits = false;
                        proof {
                            lemma_hex_step_overflow(val, hex_val(d));
                        }
                    } else {
                        proof {
                            lemma_hex_step_fits(val, hex_val(d));
                        }
                        val = val * 16 + v as u64;
                    }
                } else {
                    proof {
                        lemma_hex_value_grows(t.subrange(i0 + 3, h as int), t[h as int]);
                    }
                }
                h += 1;
            }
            proof {
                assert(hex_run_end(t, h as int, hi as int) == h as int);
            }
            if h > i + 3 {
                // hex digits found; walk the whitespace run
                let mut w: usize = h;
                while w < hi && ws_byte(text[w])
                    invariant
                        0 <= i0,
                        h <= w <= hi <= text@.len(),
                        t == text@,
                        ws_run_end(t, w as int, hi as int) == ws_run_end(t, h as int, hi as int),
                    decreases hi - w,
                {
                    w += 1;
                }
                proof {
                    assert(ws_run_end(t, w as int, hi as int) == w as int);
                }
                if hi - w >= 2 && text[w] == 59 && text[w + 1] == 41 {
                    // a full comment
                    assert(comment_at(t, i0, hi as int));
                    assert(comment_end(t, i0, hi as int) == w + 2);
                    if fits {
                        assert(comment_value(t, i0, hi as int) == val);
                        out.push(HexComment { val, end: w + 2 });
                    }
                    i = w + 2;
                    proof {
                        assert(out@ + hex_comments_from(t, i as int, hi as int)
                            =~= hex_comments_from(t, lo as int, hi as int));
                    }
                    continue ;
                }
            }
        }
        assert(!comment_at(t, i0, hi as int));
        i += 1;
    }
    proof {
        assert(out@ =~= hex_comments_from(t, lo as int, hi as int));
    }
    out
}

/// Classifies one byte as printer whitespace.
fn ws_byte(b: u8) -> (r: bool)
    ensures
        r == is_ws(b),
{
    b == 9 || b == 10 || b == 11 || b == 12 || b == 13 || b == 32
}

/// The value of one hexadecimal digit.
fn hex_val_exec(b: u8) -> (r: u8)
    requires
        is_hex_digit(b),
    ensures
        r as nat == hex_val(b),
        r < 16,
{
    if b <= 57 {
        b - 48
    } else {
        b - 87
    }
}

/// Appending a digit multiplies the value by sixteen and adds the digit.
proof fn lemma_hex_step_fits(val: u64, d: nat)
    requires
        d < 16,
        val <= (u64::MAX - d) / 16,
    ensures
        val * 16 + d <= u64::MAX,
{
    assert(val * 16 + d <= u64::MAX) by (nonlinear_arith)
        requires
            d < 16,
            val <= (u64::MAX - d) / 16,
    ;
}

/// Once the next step would overflow, the value no longer fits.
proof fn lemma_hex_step_overflow(val: u64, d: nat)
    requires
        d < 16,
        val > (u64::MAX - d) / 16,
    ensures
        val * 16 + d > u64::MAX,
{
    assert(val * 16 + d > u64::MAX) by (nonlinear_arith)
        requires
            d < 16,
            val > (u64::MAX - d) / 16,
    ;
}

/// A longer digit string never has a smaller value.
proof fn lemma_hex_value_grows(s: Seq<u8>, d: u8)
    ensures
        hex_value(s.push(d)) >= hex_value(s),
{
    assert(s.push(d).drop_last() =~= s);
    assert(hex_value(s.push(d)) == hex_value(s) * 16 + hex_val(s.push(d).last()));
    assert(hex_value(s) * 16 >= hex_value(s)) by (nonlinear_arith);
}

} // verus!

verus! {

/// Whether the literal `core instance (;` starts at `i`.
pub open spec fn lit_core_instance_at(t: Seq<u8>, i: int) -> bool {
    &&& t[i] == 99 && t[i + 1] == 111 && t[i + 2] == 114 && t[i + 3] == 101  // core
    &&& t[i + 4] == 32
    &&& t[i + 5] == 105 && t[i + 6] == 110 && t[i + 7] == 115 && t[i + 8] == 116  // inst
    &&& t[i + 9] == 97 && t[i + 10] == 110 && t[i + 11] == 99 && t[i + 12] == 101  // ance
    &&& t[i + 13] == 32 && t[i + 14] == 40 && t[i + 15] == 59  // _(;
}

/// Whether the literal `;) (instantiate ` starts at `i`.
pub open spec fn lit_instantiate_at(t: Seq<u8>, i: int) -> bool {
    &&& t[i] == 59 && t[i + 1] == 41 && t[i + 2] == 32 && t[i + 3] == 40  // ;)_(
    &&& t[i + 4] == 105 && t[i + 5] == 110 && t[i + 6] == 115 && t[i + 7] == 116  // inst
    &&& t[i + 8] == 97 && t[i + 9] == 110 && t[i + 10] == 116 && t[i + 11] == 105  // anti
    &&& t[i + 12] == 97 && t[i + 13] == 116 && t[i + 14] == 101 && t[i + 15] == 32  // ate_
}

/// Whether a `core instance (;N;) (instantiate M` head starts at `i`.
pub open spec fn inst_match_at(t: Seq<u8>, i: int) -> bool {
    let d1 = digit_run_end(t, i + 16, t.len() as int);
    let d2 = digit_run_end(t, d1 + 16, t.len() as int);
    &&& 0 <= i
    &&& i + 16 <= t.len()
    &&& lit_core_instance_at(t, i)
    &&& d1 > i + 16
    &&& d1 + 16 <= t.len()
    &&& lit_instantiate_at(t, d1)
    &&& d2 > d1 + 16
}

/// The offset just past the head that starts at `i`: the end of the module
/// index's digit run.
pub open spec fn inst_match_end(t: Seq<u8>, i: int) -> int {
    let d1 = digit_run_end(t, i + 16, t.len() as int);
    digit_run_end(t, d1 + 16, t.len() as int)
}

/// The end of the first instantiation head at or after `i`, if any.
pub open spec fn find_inst_head_from(t: Seq<u8>, i: int) -> Option<int>
    decreases t.len() - i when 0 <= i <= t.len()
{
    if i >= t.len() {
        None
    } else if inst_match_at(t, i) {
        Some(inst_match_end(t, i))
    } else {
        find_inst_head_from(t, i + 1)
    }
}

/// Walks a decimal digit run to its end.
fn digit_run_scan(text: &Vec<u8>, j: usize) -> (r: usize)
    requires
        j <= text@.len(),
    ensures
        r as int == digit_run_end(text@, j as int, text@.len() as int),
        j <= r <= text@.len(),
{
    let n = text.len();
    let mut k: usize = j;
    while k < n && 48 <= text[k] && text[k] <= 57
        invariant
            j <= k <= n == text@.len(),
            digit_run_end(text@, k as int, n as int) == digit_run_end(text@, j as int, n as int),
        decreases n - k,
    {
        k += 1;
    }
    k
}

/// Compares the bytes at `i` with `core instance (;`.
fn lit_core_instance_check(text: &Vec<u8>, i: usize) -> (r: bool)
    requires
        i + 16 <= text@.len(),
    ensures
        r == lit_core_instance_at(text@, i as int),
{
    let n = text.len();
    text[i] == 99 && text[i + 1] == 111 && text[i + 2] == 114 && text[i + 3] == 101 && text[i + 4]
        == 32 && text[i + 5] == 105 && text[i + 6] == 110 && text[i + 7] == 115 && text[i + 8]
        == 116 && text[i + 9] == 97 && text[i + 10] == 110 && text[i + 11] == 99 && text[i + 12]
        == 101 && text[i + 13] == 32 && text[i + 14] == 40 && text[i + 15] == 59
}

/// Compares the bytes at `i` with `;) (instantiate `.
fn lit_instantiate_check(text: &Vec<u8>, i: usize) -> (r: bool)
    requires
        i + 16 <= text@.len(),
    ensures
        r == lit_instantiate_at(text@, i as int),
{
    let n = text.len();
    text[i] == 59 && text[i + 1] == 41 && text[i + 2] == 32 && text[i + 3] == 40 && text[i + 4]
        == 105 && text[i + 5] == 110 && text[i + 6] == 115 && text[i + 7] == 116 && text[i + 8]
        == 97 && text[i + 9] == 110 && text[i + 10] == 116 && text[i + 11] == 105 && text[i + 12]
        == 97 && text[i + 13] == 116 && text[i + 14] == 101 && text[i + 15] == 32
}

/// Finds the first `core instance (;N;) (instantiate M` head at or after
/// `lo` and returns the offset just past `M`'s digits.
pub fn find_instantiate_head(text: &Vec<u8>, lo: usize) -> (r: Option<usize>)
    requires
        lo <= text@.len(),
    ensures
        r is Some <==> find_inst_head_from(text@, lo as int) is Some,
        r is Some ==> r->Some_0 as int == find_inst_head_from(text@, lo as int)->Some_0,
{
    let ghost t = text@;
    let n = text.len();
    let mut i: usize = lo;
    while i < n
        invariant
            lo <= i <= n == text@.len(),
            t == text@,
            find_inst_head_from(t, lo as int) == find_inst_head_from(t, i as int),
        decreases n - i,
    {
        if n - i >= 16 && lit_core_instance_check(text, i) {
            let d1 = digit_run_scan(text, i + 16);
            if d1 > i + 16 && n - d1 >= 16 && lit_instantiate_check(text, d1) {
                let d2 = digit_run_scan(text, d1 + 16);
                if d2 > d1 + 16 {
                    assert(inst_match_at(t, i as int));
                    assert(inst_match_end(t, i as int) == d2 as int);
                    return Some(d2);
                }
            }
        }
        assert(!inst_match_at(t, i as int));
        i += 1;
    }
    None
}

} // verus!
