//! The mathematical model behind the offset tracker.
//!
//! Every change the instrumenter makes to the component text is an [`Edit`]:
//! at an offset of the *original* text, a run of bytes (possibly empty) is
//! replaced by new bytes that are at least as long. [`apply_edits`] gives the
//! meaning of a sequence of such edits, each applied at the position that the
//! edits before it dictate, and [`lemma_apply_edits_any_order`] is the law
//! that makes the whole scheme work: the order in which separated edits are
//! recorded does not matter.

use vstd::multiset::Multiset;
use vstd::prelude::*;

verus! {

broadcast use vstd::seq_lib::group_seq_properties;

/// One edit against the original text: at original byte offset `loc`,
/// `removed` bytes are replaced by the bytes of `inserted`.
///
/// A plain insertion has `removed == 0`. The instrumenter never shortens the
/// text, so `inserted` is never shorter than what it replaces.
pub struct Edit {
    /// Offset in the original text.
    pub loc: nat,
    /// How many original bytes the edit replaces.
    pub removed: nat,
    /// The bytes that take their place.
    pub inserted: Seq<u8>,
}

/// How far this edit shifts every character at or behind its location.
pub open spec fn edit_delta(e: Edit) -> int {
    e.inserted.len() - e.removed
}

/// The edit lies within the original text and does not shorten it.
pub open spec fn edit_wf(e: Edit, orig_len: nat) -> bool {
    &&& e.loc + e.removed <= orig_len
    &&& e.removed <= e.inserted.len()
}

/// All edits of the sequence are well-formed against the original text.
pub open spec fn edits_wf(es: Seq<Edit>, orig_len: nat) -> bool {
    forall|i: int| 0 <= i < es.len() ==> edit_wf(#[trigger] es[i], orig_len)
}

/// The total shift the edits apply to the character originally at `p`.
pub open spec fn shift_at(es: Seq<Edit>, p: nat) -> int
    decreases es.len(),
{
    if es.len() == 0 {
        0
    } else {
        shift_at(es.drop_last(), p) + if es.last().loc <= p {
            edit_delta(es.last())
        } else {
            0
        }
    }
}

/// Where the character originally at `p` sits after the edits.
pub open spec fn translate(es: Seq<Edit>, p: nat) -> int {
    p + shift_at(es, p)
}

/// The sum of all length changes.
pub open spec fn total_delta(es: Seq<Edit>) -> int
    decreases es.len(),
{
    if es.len() == 0 {
        0
    } else {
        total_delta(es.drop_last()) + edit_delta(es.last())
    }
}

/// Replaces the `removed` bytes at position `at` of `buf` with `inserted`.
pub open spec fn splice(buf: Seq<u8>, at: int, removed: nat, inserted: Seq<u8>) -> Seq<u8> {
    buf.subrange(0, at) + inserted + buf.subrange(at + removed, buf.len() as int)
}

/// The buffer after the edits are applied in the given order, each one at
/// the position that the edits recorded before it dictate.
pub open spec fn apply_edits(orig: Seq<u8>, es: Seq<Edit>) -> Seq<u8>
    decreases es.len(),
{
    if es.len() == 0 {
        orig
    } else {
        splice(
            apply_edits(orig, es.drop_last()),
            translate(es.drop_last(), es.last().loc),
            es.last().removed,
            es.last().inserted,
        )
    }
}

/// No edit of the sequence shortens the text.
pub open spec fn edits_nonshrink(es: Seq<Edit>) -> bool {
    forall|i: int| 0 <= i < es.len() ==> (#[trigger] es[i]).removed <= es[i].inserted.len()
}

/// Without shortening edits, nothing ever moves left.
pub proof fn lemma_shift_at_nonneg(es: Seq<Edit>, p: nat)
    requires
        edits_nonshrink(es),
    ensures
        shift_at(es, p) >= 0,
    decreases es.len(),
{
    if es.len() > 0 {
        assert(es[es.len() - 1].removed <= es[es.len() - 1].inserted.len());
        lemma_shift_at_nonneg(es.drop_last(), p);
    }
}

/// Without shortening edits, a prefix shifts no further than the whole.
pub proof fn lemma_shift_at_take_le(es: Seq<Edit>, i: int, p: nat)
    requires
        edits_nonshrink(es),
        0 <= i <= es.len(),
    ensures
        shift_at(es.take(i), p) <= shift_at(es, p),
    decreases es.len(),
{
    if i == es.len() {
        assert(es.take(i) =~= es);
    } else if es.len() > 0 {
        assert(es[es.len() - 1].removed <= es[es.len() - 1].inserted.len());
        assert(es.take(i) =~= es.drop_last().take(i));
        lemma_shift_at_take_le(es.drop_last(), i, p);
    }
}

/// Unfolds one application step.
pub proof fn lemma_apply_edits_push(orig: Seq<u8>, es: Seq<Edit>, e: Edit)
    ensures
        apply_edits(orig, es.push(e)) == splice(
            apply_edits(orig, es),
            translate(es, e.loc),
            e.removed,
            e.inserted,
        ),
{
    assert(es.push(e).drop_last() =~= es);
}

/// The shift at any point lies between zero and the total length change.
pub proof fn lemma_shift_at_bounds(es: Seq<Edit>, p: nat, orig_len: nat)
    requires
        edits_wf(es, orig_len),
    ensures
        0 <= shift_at(es, p) <= total_delta(es),
    decreases es.len(),
{
    if es.len() > 0 {
        assert(edit_wf(es[es.len() - 1], orig_len));
        lemma_shift_at_bounds(es.drop_last(), p, orig_len);
    }
}

/// Later characters are never shifted less than earlier ones.
pub proof fn lemma_shift_at_monotone(es: Seq<Edit>, p: nat, q: nat, orig_len: nat)
    requires
        edits_wf(es, orig_len),
        p <= q,
    ensures
        shift_at(es, p) <= shift_at(es, q),
    decreases es.len(),
{
    if es.len() > 0 {
        assert(edit_wf(es[es.len() - 1], orig_len));
        lemma_shift_at_monotone(es.drop_last(), p, q, orig_len);
    }
}

/// The edited buffer is exactly the original plus the total length change.
pub proof fn lemma_apply_edits_len(orig: Seq<u8>, es: Seq<Edit>)
    requires
        edits_wf(es, orig.len()),
    ensures
        apply_edits(orig, es).len() == orig.len() + total_delta(es),
    decreases es.len(),
{
    if es.len() > 0 {
        let e = es.last();
        assert(edit_wf(es[es.len() - 1], orig.len()));
        lemma_apply_edits_len(orig, es.drop_last());
        lemma_shift_at_bounds(es.drop_last(), e.loc, orig.len());
        lemma_shift_at_monotone(es.drop_last(), e.loc, orig.len(), orig.len());
    }
}

/// A position inside the original text translates to a position inside the
/// edited buffer.
pub proof fn lemma_translate_in_bounds(orig: Seq<u8>, es: Seq<Edit>, p: nat)
    requires
        edits_wf(es, orig.len()),
        p <= orig.len(),
    ensures
        p <= translate(es, p) <= apply_edits(orig, es).len(),
    decreases es.len(),
{
    lemma_shift_at_bounds(es, p, orig.len());
    lemma_apply_edits_len(orig, es);
    lemma_shift_at_monotone(es, p, orig.len(), orig.len());
    lemma_shift_at_total(es, orig.len());
}

/// Beyond every edit location, the shift equals the total length change.
pub proof fn lemma_shift_at_total(es: Seq<Edit>, p: nat)
    requires
        forall|i: int| 0 <= i < es.len() ==> (#[trigger] es[i]).loc <= p,
    ensures
        shift_at(es, p) == total_delta(es),
    decreases es.len(),
{
    if es.len() > 0 {
        assert(es[es.len() - 1].loc <= p);
        lemma_shift_at_total(es.drop_last(), p);
    }
}

// ------------------------------------------------------------------
// Ordering of edits
// ------------------------------------------------------------------

/// The two edits touch disjoint parts of the original text, one strictly
/// before the other.
pub open spec fn edits_separated_pair(a: Edit, b: Edit) -> bool {
    ||| (a.loc < b.loc && a.loc + a.removed <= b.loc)
    ||| (b.loc < a.loc && b.loc + b.removed <= a.loc)
}

/// All edits of the sequence are pairwise separated.
pub open spec fn edits_separated(s: Seq<Edit>) -> bool {
    forall|i: int, j: int|
        0 <= i < j < s.len() ==> edits_separated_pair(#[trigger] s[i], #[trigger] s[j])
}

/// The sequence is ordered by original location.
pub open spec fn loc_sorted(s: Seq<Edit>) -> bool {
    forall|i: int, j: int| 0 <= i < j < s.len() ==> (#[trigger] s[i]).loc <= (#[trigger] s[j]).loc
}

/// Inserts `e` into `s` just after the last edit whose location does not
/// exceed `e`'s.
pub open spec fn insert_by_loc(e: Edit, s: Seq<Edit>) -> Seq<Edit>
    decreases s.len(),
{
    if s.len() == 0 {
        seq![e]
    } else if s.last().loc <= e.loc {
        s.push(e)
    } else {
        insert_by_loc(e, s.drop_last()).push(s.last())
    }
}

/// The edits reordered by increasing original location.
pub open spec fn sort_by_loc(s: Seq<Edit>) -> Seq<Edit>
    decreases s.len(),
{
    if s.len() == 0 {
        s
    } else {
        insert_by_loc(s.last(), sort_by_loc(s.drop_last()))
    }
}

/// Every element of the insertion result is `e` or an element of `s`.
proof fn lemma_insert_by_loc_elems(e: Edit, s: Seq<Edit>)
    ensures
        insert_by_loc(e, s).len() == s.len() + 1,
        forall|k: int|
            0 <= k < insert_by_loc(e, s).len() ==> (#[trigger] insert_by_loc(e, s)[k] == e
                || exists|i: int| 0 <= i < s.len() && s[i] == insert_by_loc(e, s)[k]),
    decreases s.len(),
{
    if s.len() == 0 {
    } else if s.last().loc <= e.loc {
        assert forall|k: int| 0 <= k < s.push(e).len() implies (#[trigger] s.push(e)[k] == e
            || exists|i: int| 0 <= i < s.len() && s[i] == s.push(e)[k]) by {
            if k < s.len() {
                assert(s[k] == s.push(e)[k]);
            }
        }
    } else {
        lemma_insert_by_loc_elems(e, s.drop_last());
        let r0 = insert_by_loc(e, s.drop_last());
        let r = r0.push(s.last());
        assert forall|k: int| 0 <= k < r.len() implies (#[trigger] r[k] == e
            || exists|i: int| 0 <= i < s.len() && s[i] == r[k]) by {
            if k < r0.len() {
                assert(r[k] == r0[k]);
                if r0[k] != e {
                    let i = choose|i: int| 0 <= i < s.drop_last().len() && s.drop_last()[i] == r0[k];
                    assert(s[i] == r[k]);
                }
            } else {
                assert(r[k] == s[s.len() - 1]);
            }
        }
    }
}

/// Every element of the sorted sequence is an element of the original.
proof fn lemma_sort_by_loc_elems(s: Seq<Edit>)
    ensures
        sort_by_loc(s).len() == s.len(),
        forall|k: int|
            0 <= k < sort_by_loc(s).len() ==> exists|i: int|
                0 <= i < s.len() && s[i] == #[trigger] sort_by_loc(s)[k],
    decreases s.len(),
{
    if s.len() > 0 {
        lemma_sort_by_loc_elems(s.drop_last());
        lemma_insert_by_loc_elems(s.last(), sort_by_loc(s.drop_last()));
        let r = sort_by_loc(s);
        assert forall|k: int| 0 <= k < r.len() implies exists|i: int|
            0 <= i < s.len() && s[i] == #[trigger] r[k] by {
            if r[k] == s.last() {
                assert(s[s.len() - 1] == r[k]);
            } else {
                let j = choose|j: int|
                    0 <= j < sort_by_loc(s.drop_last()).len() && sort_by_loc(s.drop_last())[j]
                        == r[k];
                let i = choose|i: int| 0 <= i < s.drop_last().len() && s.drop_last()[i] == r[k];
                assert(s[i] == r[k]);
            }
        }
    }
}

/// Insertion keeps the sequence sorted.
proof fn lemma_insert_by_loc_sorted(e: Edit, s: Seq<Edit>)
    requires
        loc_sorted(s),
    ensures
        loc_sorted(insert_by_loc(e, s)),
    decreases s.len(),
{
    if s.len() == 0 {
    } else if s.last().loc <= e.loc {
        assert forall|i: int, j: int| 0 <= i < j < s.push(e).len() implies (#[trigger] s.push(
            e,
        )[i]).loc <= (#[trigger] s.push(e)[j]).loc by {
            if j < s.len() {
            } else {
                if i < s.len() {
                    assert(s[i].loc <= s[s.len() - 1].loc);
                }
            }
        }
    } else {
        lemma_insert_by_loc_sorted(e, s.drop_last());
        lemma_insert_by_loc_elems(e, s.drop_last());
        let r0 = insert_by_loc(e, s.drop_last());
        let r = r0.push(s.last());
        assert forall|i: int, j: int| 0 <= i < j < r.len() implies (#[trigger] r[i]).loc
            <= (#[trigger] r[j]).loc by {
            if j < r0.len() {
                assert(r[i] == r0[i] && r[j] == r0[j]);
            } else {
                assert(r[j] == s[s.len() - 1]);
                if i < r0.len() {
                    assert(r[i] == r0[i]);
                    if r0[i] == e {
                    } else {
                        let k = choose|k: int|
                            0 <= k < s.drop_last().len() && s.drop_last()[k] == r0[i];
                        assert(s[k].loc <= s[s.len() - 1].loc);
                    }
                }
            }
        }
    }
}

/// Sorting sorts.
proof fn lemma_sort_by_loc_sorted(s: Seq<Edit>)
    ensures
        loc_sorted(sort_by_loc(s)),
    decreases s.len(),
{
    if s.len() > 0 {
        lemma_sort_by_loc_sorted(s.drop_last());
        lemma_insert_by_loc_sorted(s.last(), sort_by_loc(s.drop_last()));
    }
}

/// Sorting keeps exactly the original edits, with their multiplicities.
proof fn lemma_insert_by_loc_multiset(e: Edit, s: Seq<Edit>)
    ensures
        insert_by_loc(e, s).to_multiset() == s.to_multiset().insert(e),
    decreases s.len(),
{
    broadcast use vstd::seq_lib::group_to_multiset_ensures;

    if s.len() == 0 {
        assert(seq![e] =~= Seq::<Edit>::empty().push(e));
        assert(Seq::<Edit>::empty().push(e).to_multiset() =~= Multiset::<
            Edit,
        >::empty().insert(e));
    } else if s.last().loc <= e.loc {
    } else {
        lemma_insert_by_loc_multiset(e, s.drop_last());
        assert(s.drop_last().push(s.last()) =~= s);
        assert(insert_by_loc(e, s.drop_last()).push(s.last()).to_multiset() =~= insert_by_loc(
            e,
            s.drop_last(),
        ).to_multiset().insert(s.last()));
        assert(s.drop_last().to_multiset().insert(e).insert(s.last())
            =~= s.drop_last().to_multiset().insert(s.last()).insert(e));
        assert(s.drop_last().push(s.last()).to_multiset() =~= s.drop_last().to_multiset().insert(
            s.last(),
        ));
    }
}

/// The sorted sequence holds the same edits as the original.
pub proof fn lemma_sort_by_loc_multiset(s: Seq<Edit>)
    ensures
        sort_by_loc(s).to_multiset() == s.to_multiset(),
    decreases s.len(),
{
    broadcast use vstd::seq_lib::group_to_multiset_ensures;

    if s.len() > 0 {
        lemma_sort_by_loc_multiset(s.drop_last());
        lemma_insert_by_loc_multiset(s.last(), sort_by_loc(s.drop_last()));
        assert(s.drop_last().push(s.last()) =~= s);
        assert(s.drop_last().push(s.last()).to_multiset() =~= s.drop_last().to_multiset().insert(
            s.last(),
        ));
    }
}

// ------------------------------------------------------------------
// Commuting separated edits
// ------------------------------------------------------------------

/// Two splices into disjoint regions commute: editing the left region first
/// and then the right (at its shifted position) equals editing the right
/// region first and then the left.
proof fn lemma_splice_commute(buf: Seq<u8>, ta: int, ra: nat, ia: Seq<u8>, tb: int, rb: nat, ib: Seq<u8>)
    requires
        0 <= ta,
        ta + ra <= tb,
        tb + rb <= buf.len(),
    ensures
        splice(splice(buf, ta, ra, ia), tb + ia.len() - ra, rb, ib) == splice(
            splice(buf, tb, rb, ib),
            ta,
            ra,
            ia,
        ),
{
    let lhs = splice(splice(buf, ta, ra, ia), tb + ia.len() - ra, rb, ib);
    let rhs = splice(splice(buf, tb, rb, ib), ta, ra, ia);
    assert(lhs =~= rhs);
}

/// Swapping the last two edits does not change the outcome, provided they
/// touch disjoint parts of the original text.
proof fn lemma_apply_swap_last(orig: Seq<u8>, s: Seq<Edit>, a: Edit, b: Edit)
    requires
        edits_wf(s, orig.len()),
        edit_wf(a, orig.len()),
        edit_wf(b, orig.len()),
        edits_separated_pair(a, b),
    ensures
        apply_edits(orig, s.push(a).push(b)) == apply_edits(orig, s.push(b).push(a)),
{
    if a.loc < b.loc {
        lemma_apply_swap_last_ordered(orig, s, a, b);
    } else {
        lemma_apply_swap_last_ordered(orig, s, b, a);
    }
}

/// The ordered case of the swap: `a` lies strictly before `b`.
proof fn lemma_apply_swap_last_ordered(orig: Seq<u8>, s: Seq<Edit>, a: Edit, b: Edit)
    requires
        edits_wf(s, orig.len()),
        edit_wf(a, orig.len()),
        edit_wf(b, orig.len()),
        a.loc < b.loc,
        a.loc + a.removed <= b.loc,
    ensures
        apply_edits(orig, s.push(a).push(b)) == apply_edits(orig, s.push(b).push(a)),
{
    let buf = apply_edits(orig, s);
    let ta = translate(s, a.loc);
    let tb = translate(s, b.loc);
    lemma_apply_edits_len(orig, s);
    lemma_shift_at_bounds(s, a.loc, orig.len());
    lemma_shift_at_bounds(s, b.loc, orig.len());
    lemma_shift_at_monotone(s, a.loc, b.loc, orig.len());
    lemma_shift_at_monotone(s, b.loc, orig.len(), orig.len());
    lemma_shift_at_total(s, orig.len());

    // Positions of the two edits after one another.
    assert(s.push(a).drop_last() =~= s);
    assert(s.push(b).drop_last() =~= s);
    assert(s.push(a).push(b).drop_last() =~= s.push(a));
    assert(s.push(b).push(a).drop_last() =~= s.push(b));

    assert(shift_at(s.push(a), b.loc) == shift_at(s, b.loc) + edit_delta(a));
    assert(shift_at(s.push(b), a.loc) == shift_at(s, a.loc));

    assert(apply_edits(orig, s.push(a)) == splice(buf, ta, a.removed, a.inserted));
    assert(apply_edits(orig, s.push(b)) == splice(buf, tb, b.removed, b.inserted));
    assert(apply_edits(orig, s.push(a).push(b)) == splice(
        splice(buf, ta, a.removed, a.inserted),
        tb + a.inserted.len() - a.removed,
        b.removed,
        b.inserted,
    ));
    assert(apply_edits(orig, s.push(b).push(a)) == splice(
        splice(buf, tb, b.removed, b.inserted),
        ta,
        a.removed,
        a.inserted,
    ));

    // Disjointness carried into the edited buffer.
    assert(ta + a.removed <= tb);
    assert(tb + b.removed <= buf.len());
    lemma_splice_commute(buf, ta, a.removed, a.inserted, tb, b.removed, b.inserted);
}

/// Shifts do not depend on where an edit stands in the sequence.
proof fn lemma_shift_insert_by_loc(e: Edit, s: Seq<Edit>, p: nat)
    ensures
        shift_at(insert_by_loc(e, s), p) == shift_at(s.push(e), p),
    decreases s.len(),
{
    if s.len() == 0 {
        assert(seq![e].drop_last() =~= Seq::<Edit>::empty());
        assert(Seq::<Edit>::empty().push(e).drop_last() =~= Seq::<Edit>::empty());
        assert(Seq::<Edit>::empty().push(e).last() == e);
    } else if s.last().loc <= e.loc {
    } else {
        lemma_shift_insert_by_loc(e, s.drop_last(), p);
        let l = s.last();
        let ce: int = if e.loc <= p {
            edit_delta(e)
        } else {
            0
        };
        let cl: int = if l.loc <= p {
            edit_delta(l)
        } else {
            0
        };
        let r0 = insert_by_loc(e, s.drop_last());
        assert(r0.push(l).drop_last() =~= r0);
        assert(shift_at(insert_by_loc(e, s), p) == shift_at(r0, p) + cl);
        assert(s.drop_last().push(e).drop_last() =~= s.drop_last());
        assert(shift_at(s.drop_last().push(e), p) == shift_at(s.drop_last(), p) + ce);
        assert(shift_at(r0, p) == shift_at(s.drop_last(), p) + ce);
        assert(s.push(e).drop_last() =~= s);
        assert(shift_at(s.push(e), p) == shift_at(s, p) + ce);
        assert(shift_at(s, p) == shift_at(s.drop_last(), p) + cl);
    }
}

/// Shifts do not depend on the order of the edit sequence at all.
proof fn lemma_shift_sort_by_loc(s: Seq<Edit>, p: nat)
    ensures
        shift_at(sort_by_loc(s), p) == shift_at(s, p),
    decreases s.len(),
{
    if s.len() > 0 {
        lemma_shift_sort_by_loc(s.drop_last(), p);
        lemma_shift_insert_by_loc(s.last(), sort_by_loc(s.drop_last()), p);
        assert(sort_by_loc(s.drop_last()).push(s.last()).drop_last() =~= sort_by_loc(
            s.drop_last(),
        ));
    }
}

/// Appending an edit and then bubbling it into sorted position gives the
/// same buffer as appending it at the end.
proof fn lemma_apply_insert_by_loc(orig: Seq<u8>, s: Seq<Edit>, e: Edit)
    requires
        edits_wf(s, orig.len()),
        edit_wf(e, orig.len()),
        loc_sorted(s),
        forall|i: int| 0 <= i < s.len() ==> edits_separated_pair(#[trigger] s[i], e),
    ensures
        apply_edits(orig, insert_by_loc(e, s)) == apply_edits(orig, s.push(e)),
    decreases s.len(),
{
    if s.len() == 0 {
        assert(seq![e] =~= Seq::<Edit>::empty().push(e));
    } else if s.last().loc <= e.loc {
    } else {
        let s1 = s.drop_last();
        let l = s.last();
        assert(edit_wf(s[s.len() - 1], orig.len()));
        assert(forall|i: int| 0 <= i < s1.len() ==> s1[i] == s[i]);
        lemma_apply_insert_by_loc(orig, s1, e);
        // apply(orig, insert(e, s)) unfolds over insert(e, s1).push(l)
        let r0 = insert_by_loc(e, s1);
        assert(r0.push(l).drop_last() =~= r0);
        lemma_shift_insert_by_loc(e, s1, l.loc);
        assert(s1.push(e).drop_last() =~= s1);
        assert(apply_edits(orig, r0.push(l)) == splice(
            apply_edits(orig, r0),
            translate(r0, l.loc),
            l.removed,
            l.inserted,
        ));
        assert(translate(r0, l.loc) == translate(s1.push(e), l.loc));
        assert(apply_edits(orig, r0) == apply_edits(orig, s1.push(e)));
        assert(apply_edits(orig, s1.push(e).push(l)) == splice(
            apply_edits(orig, s1.push(e)),
            translate(s1.push(e), l.loc),
            l.removed,
            l.inserted,
        )) by {
            assert(s1.push(e).push(l).drop_last() =~= s1.push(e));
        }
        assert(apply_edits(orig, r0.push(l)) == apply_edits(orig, s1.push(e).push(l)));
        // swap the last two: e is separated from l and lies strictly before it
        assert(edits_separated_pair(s[s.len() - 1], e));
        lemma_apply_swap_last(orig, s1, e, l);
        assert(s1.push(l) =~= s);
    }
}

/// Offset-tracker law: edits that touch pairwise disjoint parts of the
/// original text produce the same final buffer in whatever order they are
/// recorded as they do when replayed in increasing order of original
/// location. `sort_by_loc(es)` holds exactly the same edits, in that order.
pub proof fn lemma_apply_edits_any_order(orig: Seq<u8>, es: Seq<Edit>)
    requires
        edits_wf(es, orig.len()),
        edits_separated(es),
    ensures
        loc_sorted(sort_by_loc(es)),
        sort_by_loc(es).to_multiset() == es.to_multiset(),
        apply_edits(orig, es) == apply_edits(orig, sort_by_loc(es)),
    decreases es.len(),
{
    lemma_sort_by_loc_sorted(es);
    lemma_sort_by_loc_multiset(es);
    if es.len() > 0 {
        let s1 = es.drop_last();
        let e = es.last();
        assert(edit_wf(es[es.len() - 1], orig.len()));
        assert(forall|i: int| 0 <= i < s1.len() ==> s1[i] == es[i]);
        assert(edits_separated(s1));
        lemma_apply_edits_any_order(orig, s1);
        let t1 = sort_by_loc(s1);
        lemma_sort_by_loc_elems(s1);
        lemma_sort_by_loc_sorted(s1);
        // the sorted prefix is well-formed and separated from e
        assert forall|i: int| 0 <= i < t1.len() implies edit_wf(#[trigger] t1[i], orig.len())
            && edits_separated_pair(t1[i], e) by {
            let j = choose|j: int| 0 <= j < s1.len() && s1[j] == t1[i];
            assert(edit_wf(es[j], orig.len()));
            assert(edits_separated_pair(es[j], es[es.len() - 1]));
        }
        // apply(orig, es) = splice(apply(orig, s1), translate(s1, e.loc), ...)
        //                 = splice(apply(orig, t1), translate(t1, e.loc), ...)
        //                 = apply(orig, t1.push(e))
        //                 = apply(orig, insert_by_loc(e, t1)) == apply(orig, sort_by_loc(es))
        lemma_shift_sort_by_loc(s1, e.loc);
        assert(t1.push(e).drop_last() =~= t1);
        assert(apply_edits(orig, t1.push(e)) == splice(
            apply_edits(orig, t1),
            translate(t1, e.loc),
            e.removed,
            e.inserted,
        ));
        assert(apply_edits(orig, es) == apply_edits(orig, t1.push(e)));
        lemma_apply_insert_by_loc(orig, t1, e);
    }
}

} // verus!
