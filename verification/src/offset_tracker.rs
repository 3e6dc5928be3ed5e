//! Tracks the edits made to a text buffer, so that every caller can keep
//! addressing byte offsets of the *original* text.
//!
//! The tracker records one `(location, delta)` pair per edit; the current
//! position of the character originally at `p` is `p` plus the sum of the
//! deltas recorded at locations up to `p`. The ghost edit sequence ties the
//! tracker to the [`crate::edits`] model, against which all its operations
//! are specified.

use vstd::prelude::*;

use crate::edits::{
    apply_edits, edits_nonshrink, edits_separated, edits_wf, lemma_apply_edits_any_order,
    lemma_apply_edits_len, lemma_apply_edits_push, lemma_shift_at_nonneg, lemma_shift_at_take_le,
    lemma_translate_in_bounds, loc_sorted, sort_by_loc, splice, translate, Edit,
};
use crate::model::IdxRef;
use crate::numeral::{
    dec_digits, lemma_dec_digits_len_monotone, lemma_dec_digits_len_succ, u64_to_dec,
};

verus! {

/// Maps offsets of an original text to their location in an edited copy.
pub struct OffsetTracker {
    offsets: Vec<(usize, usize)>,
    edits: Ghost<Seq<Edit>>,
}

impl View for OffsetTracker {
    type V = Seq<Edit>;

    closed spec fn view(&self) -> Seq<Edit> {
        self.edits@
    }
}

/// The effective lower bound of an optional one.
pub open spec fn lb_val(lb: Option<u32>) -> u32 {
    match lb {
        Some(v) => v,
        None => 0,
    }
}

/// The edit that replaces the decimal literal of `num` at original offset
/// `off` with the literal of `num + 1`.
pub open spec fn bump_edit(num: u32, off: nat) -> Edit {
    Edit { loc: off, removed: dec_digits(num as nat).len(), inserted: dec_digits(num as nat + 1) }
}

/// Whether bumping the token `(num, off)` takes effect: the token is numeric
/// and at least the lower bound, its value can grow, and the current buffer
/// really holds its decimal literal at the token's translated position.
pub open spec fn bump_applies(buf: Seq<u8>, es: Seq<Edit>, num: u32, off: nat, lb: u32) -> bool {
    let t = translate(es, off);
    let d = dec_digits(num as nat);
    &&& num >= lb
    &&& num < u32::MAX
    &&& t + d.len() <= buf.len()
    &&& buf.subrange(t, t + d.len() as int) == d
}

/// The numeric token `(num, off)` names its own decimal literal in the
/// original text, and its value can still grow.
pub open spec fn token_valid(t: Seq<u8>, num: u32, off: nat) -> bool {
    let d = dec_digits(num as nat);
    &&& num < u32::MAX
    &&& off + d.len() <= t.len()
    &&& t.subrange(off as int, off + d.len() as int) == d
}

/// Whether bumping the token takes effect against the original text `t`
/// after the edits `es`: the token reaches the lower bound, names its
/// literal in `t`, the edited buffer still holds that literal at the
/// token's translated position, and the buffer can grow.
pub open spec fn bump_ok(t: Seq<u8>, es: Seq<Edit>, num: u32, off: nat, lb: u32) -> bool {
    &&& num >= lb
    &&& token_valid(t, num, off)
    &&& apply_edits(t, es).len() < usize::MAX
    &&& bump_applies(apply_edits(t, es), es, num, off, lb)
}

/// The edits after the index bumper has seen one token.
pub open spec fn bump_step(t: Seq<u8>, es: Seq<Edit>, tok: IdxRef, lb: u32) -> Seq<Edit> {
    match tok {
        IdxRef::Num { num, off } => {
            if bump_ok(t, es, num, off as nat, lb) {
                es.push(bump_edit(num, off as nat))
            } else {
                es
            }
        },
        IdxRef::Sym => es,
    }
}

/// Whether an insertion at `loc` takes effect: the location lies in the
/// original text and the buffer can grow.
pub open spec fn insert_ok(t: Seq<u8>, es: Seq<Edit>, loc: nat, msg: Seq<u8>) -> bool {
    &&& loc <= t.len()
    &&& apply_edits(t, es).len() + msg.len() <= usize::MAX
}

/// The edits after one insertion attempt.
pub open spec fn insert_step(t: Seq<u8>, es: Seq<Edit>, loc: nat, msg: Seq<u8>) -> Seq<Edit> {
    if insert_ok(t, es, loc, msg) {
        es.push(Edit { loc: loc, removed: 0, inserted: msg })
    } else {
        es
    }
}

/// A skipped bump leaves the edits alone; an applied one appends.
proof fn lemma_bump_step_grows(t: Seq<u8>, es: Seq<Edit>, tok: IdxRef, lb: u32)
    ensures
        bump_step(t, es, tok, lb) == es || bump_step(t, es, tok, lb) == es.push(
            match tok {
                IdxRef::Num { num, off } => bump_edit(num, off as nat),
                IdxRef::Sym => Edit { loc: 0, removed: 0, inserted: Seq::empty() },
            },
        ),
{
}

/// Compares the bytes of `s` at `at` with `pat`.
fn bytes_match_at(s: &Vec<u8>, at: usize, pat: &Vec<u8>) -> (r: bool)
    requires
        at + pat@.len() <= s@.len(),
    ensures
        r == (s@.subrange(at as int, at + pat@.len()) == pat@),
{
    let n = s.len();
    let mut i: usize = 0;
    while i < pat.len()
        invariant
            0 <= i <= pat@.len(),
            at + pat@.len() <= s@.len(),
            n == s@.len(),
            forall|k: int| 0 <= k < i ==> s@[at + k] == pat@[k],
        decreases pat@.len() - i,
    {
        if s[at + i] != pat[i] {
            assert(s@.subrange(at as int, at + pat@.len())[i as int] != pat@[i as int]);
            return false;
        }
        i += 1;
    }
    proof {
        assert(s@.subrange(at as int, at + pat@.len()) =~= pat@);
    }
    true
}

/// Replaces the `remove` bytes of `s` at `at` with the bytes of `insert`.
pub fn splice_bytes(s: &mut Vec<u8>, at: usize, remove: usize, insert: &Vec<u8>)
    requires
        at + remove <= old(s)@.len(),
        old(s)@.len() - remove + insert@.len() <= usize::MAX,
    ensures
        final(s)@ == splice(old(s)@, at as int, remove as nat, insert@),
{
    let n = s.len();
    let mut out: Vec<u8> = Vec::new();
    let mut i: usize = 0;
    while i < at
        invariant
            0 <= i <= at,
            at + remove <= s@.len(),
            n == s@.len(),
            out@ =~= s@.subrange(0, i as int),
        decreases at - i,
    {
        out.push(s[i]);
        i += 1;
    }
    let mut j: usize = 0;
    while j < insert.len()
        invariant
            0 <= j <= insert@.len(),
            at + remove <= s@.len(),
            n == s@.len(),
            out@ =~= s@.subrange(0, at as int) + insert@.subrange(0, j as int),
        decreases insert@.len() - j,
    {
        out.push(insert[j]);
        j += 1;
    }
    let mut k: usize = at + remove;
    while k < s.len()
        invariant
            at + remove <= k <= s@.len(),
            out@ =~= s@.subrange(0, at as int) + insert@ + s@.subrange(at + remove, k as int),
        decreases s@.len() - k,
    {
        out.push(s[k]);
        k += 1;
    }
    proof {
        assert(insert@.subrange(0, insert@.len() as int) =~= insert@);
        assert(out@ =~= splice(s@, at as int, remove as nat, insert@));
    }
    *s = out;
}

impl OffsetTracker {
    /// The recorded pairs agree with the ghost edit sequence.
    pub closed spec fn wf(&self) -> bool {
        &&& self.offsets@.len() == self.edits@.len()
        &&& forall|i: int|
            0 <= i < self.edits@.len() ==> {
                &&& (#[trigger] self.edits@[i]).loc == self.offsets@[i].0 as nat
                &&& self.edits@[i].inserted.len() - self.edits@[i].removed == self.offsets@[i].1
                    as int
            }
    }

    /// A well-formed tracker never records a shortening edit.
    pub proof fn lemma_wf_nonshrink(&self)
        requires
            self.wf(),
        ensures
            edits_nonshrink(self@),
    {
    }

    /// Creates a tracker with no recorded edits.
    pub fn new() -> (t: OffsetTracker)
        ensures
            t.wf(),
            t@ == Seq::<Edit>::empty(),
    {
        OffsetTracker { offsets: Vec::new(), edits: Ghost(Seq::empty()) }
    }

    /// Where the character originally at `start` sits now.
    pub fn get_real_loc(&self, start: usize) -> (r: usize)
        requires
            self.wf(),
            translate(self@, start as nat) <= usize::MAX,
        ensures
            r as int == translate(self@, start as nat),
    {
        proof {
            self.lemma_wf_nonshrink();
        }
        let ghost es = self@;
        let mut sum: usize = 0;
        let mut i: usize = 0;
        while i < self.offsets.len()
            invariant
                self.wf(),
                es == self@,
                edits_nonshrink(es),
                0 <= i <= self.offsets@.len(),
                self.offsets@.len() == es.len(),
                sum as int == crate::edits::shift_at(es.take(i as int), start as nat),
                start + crate::edits::shift_at(es, start as nat) <= usize::MAX,
            decreases self.offsets@.len() - i,
        {
            proof {
                lemma_shift_at_take_le(es, i + 1, start as nat);
                lemma_shift_at_nonneg(es, start as nat);
                assert(es.take(i + 1).drop_last() =~= es.take(i as int));
                assert(es.take(i + 1).last() == es[i as int]);
            }
            let pair = self.offsets[i];
            if pair.0 <= start {
                sum = sum + pair.1;
            }
            i += 1;
        }
        proof {
            assert(es.take(es.len() as int) =~= es);
            lemma_shift_at_nonneg(es, start as nat);
        }
        start + sum
    }

    /// Inserts `msg` so that the character originally at `original_loc` is
    /// shifted right by the length of `msg`, and records that edit.
    pub fn add_to_string(&mut self, s: &mut Vec<u8>, original_loc: usize, msg: &Vec<u8>)
        requires
            old(self).wf(),
            translate(old(self)@, original_loc as nat) <= old(s)@.len(),
            old(s)@.len() + msg@.len() <= usize::MAX,
        ensures
            final(self).wf(),
            final(self)@ == old(self)@.push(
                Edit { loc: original_loc as nat, removed: 0, inserted: msg@ },
            ),
            final(s)@ == splice(old(s)@, translate(old(self)@, original_loc as nat), 0, msg@),
    {
        proof {
            self.lemma_wf_nonshrink();
            lemma_shift_at_nonneg(self@, original_loc as nat);
        }
        let loc = self.get_real_loc(original_loc);
        splice_bytes(s, loc, 0, msg);
        self.offsets.push((original_loc, msg.len()));
        let ghost e = Edit { loc: original_loc as nat, removed: 0, inserted: msg@ };
        proof {
            self.edits@ = self.edits@.push(e);
        }
    }

    /// Replaces the decimal literal of the index token with the literal of
    /// its value plus one, provided the value reaches the lower bound and
    /// both the original text and the edited buffer really hold that literal
    /// at the token's position. Symbolic tokens are left alone. Returns
    /// whether an edit was made.
    pub fn increment_idx(
        &mut self,
        output: &mut Vec<u8>,
        text: &Vec<u8>,
        idx: IdxRef,
        lower_bound: Option<u32>,
    ) -> (r: bool)
        requires
            tracker_consistent(old(self), text@, old(output)@),
        ensures
            tracker_consistent(final(self), text@, final(output)@),
            final(self)@ == bump_step(text@, old(self)@, idx, lb_val(lower_bound)),
            r == (final(self)@ != old(self)@),
    {
        let ghost t = text@;
        let ghost es = self@;
        proof {
            lemma_apply_edits_len(t, es);
        }
        match idx {
            IdxRef::Sym => false,
            IdxRef::Num { num, off } => {
                let lb = match lower_bound {
                    Some(v) => v,
                    None => 0,
                };
                if num < lb || num == u32::MAX {
                    proof {
                        lemma_bump_step_grows(t, es, idx, lb_val(lower_bound));
                    }
                    return false;
                }
                let old_dec = u64_to_dec(num as u64);
                // the token must name its own literal in the original text
                if off > text.len() || old_dec.len() > text.len() - off {
                    proof {
                        lemma_bump_step_grows(t, es, idx, lb_val(lower_bound));
                    }
                    return false;
                }
                if !bytes_match_at(text, off, &old_dec) {
                    proof {
                        lemma_bump_step_grows(t, es, idx, lb_val(lower_bound));
                    }
                    return false;
                }
                if output.len() == usize::MAX {
                    proof {
                        lemma_bump_step_grows(t, es, idx, lb_val(lower_bound));
                    }
                    return false;
                }
                proof {
                    self.lemma_wf_nonshrink();
                    lemma_shift_at_nonneg(self@, off as nat);
                    lemma_translate_in_bounds(t, es, off as nat);
                }
                let loc = self.get_real_loc(off);
                // the edited buffer must still hold the literal there
                if old_dec.len() > output.len() - loc {
                    proof {
                        lemma_bump_step_grows(t, es, idx, lb_val(lower_bound));
                    }
                    return false;
                }
                if !bytes_match_at(output, loc, &old_dec) {
                    proof {
                        lemma_bump_step_grows(t, es, idx, lb_val(lower_bound));
                    }
                    return false;
                }
                let new_dec = u64_to_dec(num as u64 + 1);
                proof {
                    lemma_dec_digits_len_monotone(num as nat, num as nat + 1);
                    lemma_dec_digits_len_succ(num as nat);
                }
                splice_bytes(output, loc, old_dec.len(), &new_dec);
                self.offsets.push((off, new_dec.len() - old_dec.len()));
                let ghost e = bump_edit(num, off as nat);
                proof {
                    self.edits@ = self.edits@.push(e);
                    assert(bump_ok(t, es, num, off as nat, lb_val(lower_bound)));
                    lemma_apply_edits_push(t, es, e);
                    assert(self@ != es) by {
                        assert(self@.len() == es.len() + 1);
                    }
                }
                true
            },
        }
    }

    /// Inserts `msg` at the translated position of `original_loc`, keeping
    /// the tracker consistent with the buffer. The insertion is skipped when
    /// the location lies outside the original text or the buffer cannot
    /// grow. Returns whether an edit was made.
    pub fn insert_text(
        &mut self,
        output: &mut Vec<u8>,
        text: &Vec<u8>,
        original_loc: usize,
        msg: &Vec<u8>,
    ) -> (r: bool)
        requires
            tracker_consistent(old(self), text@, old(output)@),
        ensures
            tracker_consistent(final(self), text@, final(output)@),
            final(self)@ == insert_step(text@, old(self)@, original_loc as nat, msg@),
            r == insert_ok(text@, old(self)@, original_loc as nat, msg@),
    {
        let ghost t = text@;
        let ghost es = self@;
        proof {
            lemma_apply_edits_len(t, es);
        }
        if original_loc > text.len() {
            return false;
        }
        if msg.len() > usize::MAX - output.len() {
            return false;
        }
        proof {
            lemma_translate_in_bounds(t, es, original_loc as nat);
        }
        self.add_to_string(output, original_loc, msg);
        let ghost e = Edit { loc: original_loc as nat, removed: 0, inserted: msg@ };
        proof {
            lemma_apply_edits_push(t, es, e);
        }
        true
    }

    /// The tail of the edited buffer from the current position of the
    /// character originally at `start`.
    pub fn get_slice_from<'a>(&self, output: &'a Vec<u8>, start: usize) -> (r: &'a [u8])
        requires
            self.wf(),
            translate(self@, start as nat) <= output@.len(),
        ensures
            r@ == output@.subrange(translate(self@, start as nat), output@.len() as int),
    {
        let n = output.len();
        proof {
            self.lemma_wf_nonshrink();
            lemma_shift_at_nonneg(self@, start as nat);
        }
        let loc = self.get_real_loc(start);
        vstd::slice::slice_subrange(output.as_slice(), loc, n)
    }
}

/// The offset-tracker law: a buffer kept consistent with the tracker equals
/// the original text with the recorded edits replayed in strictly increasing
/// order of original location, provided the edits touch pairwise disjoint
/// parts of the original text. The replayed sequence holds exactly the
/// recorded edits.
pub proof fn lemma_tracker_order_irrelevant(t: &OffsetTracker, orig: Seq<u8>, buf: Seq<u8>)
    requires
        tracker_consistent(t, orig, buf),
        edits_separated(t@),
    ensures
        loc_sorted(sort_by_loc(t@)),
        sort_by_loc(t@).to_multiset() == t@.to_multiset(),
        buf == apply_edits(orig, sort_by_loc(t@)),
{
    lemma_apply_edits_any_order(orig, t@);
}

/// The tracker stays consistent with a buffer that started as `orig`: the
/// buffer is exactly the recorded edits applied to `orig`.
pub open spec fn tracker_consistent(
    t: &OffsetTracker,
    orig: Seq<u8>,
    buf: Seq<u8>,
) -> bool {
    &&& t.wf()
    &&& crate::edits::edits_wf(t@, orig.len())
    &&& buf == apply_edits(orig, t@)
}

} // verus!
