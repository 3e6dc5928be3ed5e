//! Instrumentation insertion: one counter prelude per debug line record.
//!
//! For every inline core module, for every non-blacklisted function, for
//! every debug line record of that module, the instrumenter looks for the
//! printer comment whose binary offset equals the record's absolute address
//! and inserts a six-instruction prelude at the matching text position. A
//! record whose address is also a function's start address is anchored at
//! the function's first instruction instead, because DWARF prologue
//! addresses are often elided by the printer. Records at an address already
//! instrumented are skipped, as are records with no matching comment.

use vstd::prelude::*;
use vstd::string::StringSliceAdditionalSpecFns;

use crate::debug_info::{DebugLineInfo, SourceDebugInfo, WatLineMapper};
use crate::edits::Edit;
use crate::model::{Field, ModField, ModFunc};
use crate::numeral::{dec_digits, u64_to_dec};
use crate::offset_tracker::{insert_step, tracker_consistent, OffsetTracker};
use crate::scan::{hex_comments_from, scan_hex_comments, HexComment};

verus! {

/// The state the insertion pass threads along: the edits recorded so far,
/// the next counter index, and the addresses already instrumented.
pub struct InsState {
    /// The edits recorded so far.
    pub es: Seq<Edit>,
    /// The next fresh counter index.
    pub counter: nat,
    /// The record addresses already instrumented, across all modules.
    pub inserted: Seq<u64>,
}

/// The counter prelude: six instructions pushing the counter index, the
/// block kind (always zero here), the file index, the line, and the column,
/// then calling the imported counter function.
pub open spec fn prelude_bytes(c: nat, f: nat, l: nat, col: nat) -> Seq<u8> {
    "i32.const ".spec_bytes() + dec_digits(c) + " i32.const 0 i32.const ".spec_bytes()
        + dec_digits(f) + " i32.const ".spec_bytes() + dec_digits(l) + " i32.const ".spec_bytes()
        + dec_digits(col) + " call $inc-counter\n".spec_bytes()
}

/// Appends a slice to a byte vector.
fn append_bytes(dst: &mut Vec<u8>, src: &[u8])
    ensures
        final(dst)@ == old(dst)@ + src@,
{
    let n = src.len();
    let mut i: usize = 0;
    while i < n
        invariant
            0 <= i <= n == src@.len(),
            dst@ == old(dst)@ + src@.take(i as int),
        decreases n - i,
    {
        dst.push(*vstd::slice::slice_index_get(src, i));
        proof {
            assert(dst@ =~= old(dst)@ + src@.take(i + 1));
        }
        i += 1;
    }
    proof {
        assert(src@.take(n as int) =~= src@);
    }
}

/// Builds the counter prelude.
pub fn prelude_exec(c: u64, f: u64, l: u64, col: u64) -> (r: Vec<u8>)
    ensures
        r@ == prelude_bytes(c as nat, f as nat, l as nat, col as nat),
{
    let mut out: Vec<u8> = Vec::new();
    append_bytes(&mut out, "i32.const ".as_bytes());
    let mut d = u64_to_dec(c);
    append_bytes(&mut out, d.as_slice());
    append_bytes(&mut out, " i32.const 0 i32.const ".as_bytes());
    d = u64_to_dec(f);
    append_bytes(&mut out, d.as_slice());
    append_bytes(&mut out, " i32.const ".as_bytes());
    d = u64_to_dec(l);
    append_bytes(&mut out, d.as_slice());
    append_bytes(&mut out, " i32.const ".as_bytes());
    d = u64_to_dec(col);
    append_bytes(&mut out, d.as_slice());
    append_bytes(&mut out, " call $inc-counter\n".as_bytes());
    proof {
        assert(out@ =~= prelude_bytes(c as nat, f as nat, l as nat, col as nat));
    }
    out
}

/// Whether the per-file debug information records a function starting at
/// this address in this file.
pub open spec fn sdi_has_func_at(sdi: Seq<SourceDebugInfo>, p: usize, addr: u64) -> bool {
    exists|i: int, j: int|
        0 <= i < sdi.len() && (#[trigger] sdi[i]).path_idx == p && 0 <= j
            < sdi[i].functions@.len() && (#[trigger] sdi[i].functions@[j]).start_addr == addr
}

/// Checks whether a function starts at this address in this file.
fn sdi_has_func_at_exec(sdi: &Vec<SourceDebugInfo>, p: usize, addr: u64) -> (r: bool)
    ensures
        r == sdi_has_func_at(sdi@, p, addr),
{
    let mut i: usize = 0;
    while i < sdi.len()
        invariant
            0 <= i <= sdi@.len(),
            forall|a: int, b: int|
                0 <= a < i && (#[trigger] sdi@[a]).path_idx == p && 0 <= b
                    < sdi@[a].functions@.len() ==> (#[trigger] sdi@[a].functions@[b]).start_addr
                    != addr,
        decreases sdi@.len() - i,
    {
        if sdi[i].path_idx == p {
            let fns = &sdi[i].functions;
            let mut j: usize = 0;
            while j < fns.len()
                invariant
                    0 <= j <= fns@.len(),
                    0 <= i < sdi@.len(),
                    fns@ == sdi@[i as int].functions@,
                    sdi@[i as int].path_idx == p,
                    forall|b: int|
                        0 <= b < j ==> (#[trigger] sdi@[i as int].functions@[b]).start_addr
                            != addr,
                decreases fns@.len() - j,
            {
                if fns[j].start_addr == addr {
                    return true;
                }
                j += 1;
            }
        }
        i += 1;
    }
    false
}

/// Whether any comment names a binary offset at or past the bound.
pub open spec fn any_hex_geq(hexes: Seq<HexComment>, bound: int) -> bool {
    exists|i: int| 0 <= i < hexes.len() && (#[trigger] hexes[i]).val as int >= bound
}

/// The text offset just past the last comment whose value is the target.
pub open spec fn last_hex_end(hexes: Seq<HexComment>, target: u64) -> Option<usize>
    decreases hexes.len(),
{
    if hexes.len() == 0 {
        None
    } else if hexes.last().val == target {
        Some(hexes.last().end)
    } else {
        last_hex_end(hexes.drop_last(), target)
    }
}

/// The comments in a function's body: the text from the function's span to
/// just past its last instruction. A body that lies outside the text yields
/// none.
pub open spec fn func_hexes(t: Seq<u8>, f: ModFunc) -> Seq<HexComment> {
    let body = f.body->Some_0@;
    let hi = body.last().off + 1;
    if f.span <= hi && hi <= t.len() {
        hex_comments_from(t, f.span as int, hi as int)
    } else {
        Seq::empty()
    }
}

/// Where one record's prelude goes: at the function's first instruction
/// when the record starts a known function and the body has a comment at or
/// past it, at the text position just past the last comment matching the
/// record's absolute address otherwise, and nowhere when no comment
/// matches or the absolute address overflows.
pub open spec fn dlr_target(
    dli: DebugLineInfo,
    hexes: Seq<HexComment>,
    first_instr: nat,
    mo: nat,
    sdi: Seq<SourceDebugInfo>,
) -> Option<nat> {
    let true_addr = mo + dli.address;
    if true_addr > u64::MAX {
        None
    } else if sdi_has_func_at(sdi, dli.path_idx, dli.address) && any_hex_geq(hexes, true_addr) {
        Some(first_instr)
    } else {
        match last_hex_end(hexes, true_addr as u64) {
            Some(e) => Some(e as nat),
            None => None,
        }
    }
}

/// The state after the pass has seen one record of the current function.
pub open spec fn dlr_step(
    t: Seq<u8>,
    st: InsState,
    dli: DebugLineInfo,
    hexes: Seq<HexComment>,
    first_instr: nat,
    mo: nat,
    sdi: Seq<SourceDebugInfo>,
) -> InsState {
    if st.inserted.contains(dli.address) {
        st
    } else {
        match dlr_target(dli, hexes, first_instr, mo, sdi) {
            None => st,
            Some(pos) => if st.counter < u64::MAX {
                InsState {
                    es: insert_step(
                        t,
                        st.es,
                        pos,
                        prelude_bytes(st.counter, dli.path_idx as nat, dli.line as nat, dli.column as nat),
                    ),
                    counter: st.counter + 1,
                    inserted: st.inserted.push(dli.address),
                }
            } else {
                st
            },
        }
    }
}

/// The state after the pass has seen every record of the module, in record
/// order, for one function.
pub open spec fn func_fold(
    t: Seq<u8>,
    st: InsState,
    lines: Seq<DebugLineInfo>,
    midx: nat,
    hexes: Seq<HexComment>,
    first_instr: nat,
    mo: nat,
    sdi: Seq<SourceDebugInfo>,
) -> InsState
    decreases lines.len(),
{
    if lines.len() == 0 {
        st
    } else {
        let st1 = func_fold(t, st, lines.drop_last(), midx, hexes, first_instr, mo, sdi);
        if lines.last().code_module_idx == midx {
            dlr_step(t, st1, lines.last(), hexes, first_instr, mo, sdi)
        } else {
            st1
        }
    }
}

/// The state after the pass has seen the fields of one module: every
/// non-blacklisted inline function with a nonempty body gets its records.
pub open spec fn mod_fold(
    t: Seq<u8>,
    st: InsState,
    mfs: Seq<ModField>,
    lines: Seq<DebugLineInfo>,
    midx: nat,
    mo: Option<usize>,
    sdi: Seq<SourceDebugInfo>,
    bl: Seq<usize>,
) -> InsState
    decreases mfs.len(),
{
    if mfs.len() == 0 {
        st
    } else {
        let st1 = mod_fold(t, st, mfs.drop_last(), lines, midx, mo, sdi, bl);
        match mfs.last() {
            ModField::Func(f) => {
                if !bl.contains(f.span) && f.body is Some && f.body->Some_0@.len() > 0 && mo
                    is Some {
                    func_fold(
                        t,
                        st1,
                        lines,
                        midx,
                        func_hexes(t, f),
                        f.body->Some_0@[0].off as nat,
                        mo->Some_0 as nat,
                        sdi,
                    )
                } else {
                    st1
                }
            },
            _ => st1,
        }
    }
}

/// There are no more inline modules than fields.
pub proof fn lemma_count_inline_le(fields: Seq<Field>)
    ensures
        count_inline_modules(fields) <= fields.len(),
    decreases fields.len(),
{
    if fields.len() > 0 {
        lemma_count_inline_le(fields.drop_last());
    }
}

/// How many inline core modules the fields hold.
pub open spec fn count_inline_modules(fields: Seq<Field>) -> nat
    decreases fields.len(),
{
    if fields.len() == 0 {
        0
    } else {
        count_inline_modules(fields.drop_last()) + (match fields.last() {
            Field::CoreModule { fields: mfso, .. } => if mfso is Some {
                1nat
            } else {
                0nat
            },
            _ => 0nat,
        })
    }
}

/// The code-section offset of the module at `midx`, if the binary had one.
pub open spec fn mo_of(co: Seq<usize>, midx: nat) -> Option<usize> {
    if midx < co.len() {
        Some(co[midx as int])
    } else {
        None
    }
}

/// The state after the whole insertion pass: inline modules in source
/// order, counters assigned in that order.
pub open spec fn calls_fold(
    t: Seq<u8>,
    st: InsState,
    fields: Seq<Field>,
    lines: Seq<DebugLineInfo>,
    co: Seq<usize>,
    sdi: Seq<SourceDebugInfo>,
    bl: Seq<usize>,
) -> InsState
    decreases fields.len(),
{
    if fields.len() == 0 {
        st
    } else {
        let st1 = calls_fold(t, st, fields.drop_last(), lines, co, sdi, bl);
        match fields.last() {
            Field::CoreModule { fields: mfso, .. } => match mfso {
                Some(mfs) => {
                    let midx = count_inline_modules(fields.drop_last());
                    mod_fold(t, st1, mfs@, lines, midx, mo_of(co, midx), sdi, bl)
                },
                None => st1,
            },
            _ => st1,
        }
    }
}

} // verus!

verus! {

/// Scans one record against one function, inserting its prelude when a
/// position is found.
fn instrument_one_dlr(
    tracker: &mut OffsetTracker,
    output: &mut Vec<u8>,
    text: &Vec<u8>,
    counter: &mut u64,
    inserted: &mut Vec<u64>,
    dli: DebugLineInfo,
    hexes: &Vec<HexComment>,
    first_instr: usize,
    mo: usize,
    sdi: &Vec<SourceDebugInfo>,
)
    requires
        tracker_consistent(old(tracker), text@, old(output)@),
    ensures
        tracker_consistent(final(tracker), text@, final(output)@),
        ({
            let st1 = dlr_step(
                text@,
                InsState {
                    es: old(tracker)@,
                    counter: *old(counter) as nat,
                    inserted: old(inserted)@,
                },
                dli,
                hexes@,
                first_instr as nat,
                mo as nat,
                sdi@,
            );
            final(tracker)@ == st1.es && *final(counter) as nat == st1.counter
                && final(inserted)@ == st1.inserted
        }),
{
    let ghost st0 = InsState {
        es: old(tracker)@,
        counter: *old(counter) as nat,
        inserted: old(inserted)@,
    };
    // skip a record at an address already instrumented
    let mut seen: bool = false;
    let mut i: usize = 0;
    while i < inserted.len()
        invariant
            0 <= i <= inserted@.len(),
            inserted@ == st0.inserted,
            seen == exists|k: int| 0 <= k < i && st0.inserted[k] == dli.address,
        decreases inserted@.len() - i,
    {
        if inserted[i] == dli.address {
            seen = true;
        }
        i += 1;
    }
    if seen {
        return ;
    }
    // the absolute binary address of the record
    if dli.address > u64::MAX - mo as u64 {
        return ;
    }
    let true_addr: u64 = mo as u64 + dli.address;
    // choose the text position
    let anchored = sdi_has_func_at_exec(sdi, dli.path_idx, dli.address);
    let mut pos: Option<usize> = None;
    if anchored {
        let mut g: usize = 0;
        let mut geq: bool = false;
        while g < hexes.len()
            invariant
                0 <= g <= hexes@.len(),
                true_addr as int == mo + dli.address,
                geq == exists|k: int|
                    0 <= k < g && (#[trigger] hexes@[k]).val as int >= mo + dli.address,
            decreases hexes@.len() - g,
        {
            if hexes[g].val >= true_addr {
                geq = true;
            }
            g += 1;
        }
        if geq {
            pos = Some(first_instr);
        }
    }
    if pos.is_none() {
        // the last comment naming exactly the absolute address
        let ghost hs = hexes@;
        let mut best: Option<usize> = None;
        let mut h: usize = 0;
        while h < hexes.len()
            invariant
                0 <= h <= hs.len(),
                hs == hexes@,
                best == last_hex_end(hs.take(h as int), true_addr),
            decreases hs.len() - h,
        {
            proof {
                assert(hs.take(h + 1).drop_last() =~= hs.take(h as int));
                assert(hs.take(h + 1).last() == hs[h as int]);
            }
            if hexes[h].val == true_addr {
                best = Some(hexes[h].end);
            }
            h += 1;
        }
        proof {
            assert(hs.take(hs.len() as int) =~= hs);
        }
        pos = best;
    }
    let at = match pos {
        Some(a) => a,
        None => {
            return ;
        },
    };
    if *counter == u64::MAX {
        return ;
    }
    let msg = prelude_exec(*counter, dli.path_idx as u64, dli.line, dli.column);
    tracker.insert_text(output, text, at, &msg);
    *counter = *counter + 1;
    inserted.push(dli.address);
}

/// Instruments one function: every record of its module, in record order.
fn instrument_func(
    tracker: &mut OffsetTracker,
    output: &mut Vec<u8>,
    text: &Vec<u8>,
    counter: &mut u64,
    inserted: &mut Vec<u64>,
    lines: &Vec<DebugLineInfo>,
    midx: usize,
    hexes: &Vec<HexComment>,
    first_instr: usize,
    mo: usize,
    sdi: &Vec<SourceDebugInfo>,
)
    requires
        tracker_consistent(old(tracker), text@, old(output)@),
    ensures
        tracker_consistent(final(tracker), text@, final(output)@),
        ({
            let st1 = func_fold(
                text@,
                InsState {
                    es: old(tracker)@,
                    counter: *old(counter) as nat,
                    inserted: old(inserted)@,
                },
                lines@,
                midx as nat,
                hexes@,
                first_instr as nat,
                mo as nat,
                sdi@,
            );
            final(tracker)@ == st1.es && *final(counter) as nat == st1.counter
                && final(inserted)@ == st1.inserted
        }),
{
    let ghost st0 = InsState {
        es: old(tracker)@,
        counter: *old(counter) as nat,
        inserted: old(inserted)@,
    };
    let ghost ls = lines@;
    let mut k: usize = 0;
    while k < lines.len()
        invariant
            0 <= k <= ls.len(),
            ls == lines@,
            tracker_consistent(tracker, text@, output@),
            ({
                let st1 = func_fold(
                    text@,
                    st0,
                    ls.take(k as int),
                    midx as nat,
                    hexes@,
                    first_instr as nat,
                    mo as nat,
                    sdi@,
                );
                tracker@ == st1.es && *counter as nat == st1.counter && inserted@ == st1.inserted
            }),
        decreases ls.len() - k,
    {
        proof {
            assert(ls.take(k + 1).drop_last() =~= ls.take(k as int));
            assert(ls.take(k + 1).last() == ls[k as int]);
        }
        let dli = lines[k];
        if dli.code_module_idx == midx {
            instrument_one_dlr(
                tracker,
                output,
                text,
                counter,
                inserted,
                dli,
                hexes,
                first_instr,
                mo,
                sdi,
            );
        }
        k += 1;
    }
    proof {
        assert(ls.take(ls.len() as int) =~= ls);
    }
}

/// Checks whether the blacklist holds this span.
fn bl_contains(bl: &Vec<usize>, span: usize) -> (r: bool)
    ensures
        r == bl@.contains(span),
{
    let mut i: usize = 0;
    while i < bl.len()
        invariant
            0 <= i <= bl@.len(),
            forall|k: int| 0 <= k < i ==> bl@[k] != span,
        decreases bl@.len() - i,
    {
        if bl[i] == span {
            return true;
        }
        i += 1;
    }
    false
}

/// Instruments one inline module: its non-blacklisted inline functions with
/// nonempty bodies, in field order.
fn instrument_module(
    tracker: &mut OffsetTracker,
    output: &mut Vec<u8>,
    text: &Vec<u8>,
    counter: &mut u64,
    inserted: &mut Vec<u64>,
    mfs: &Vec<ModField>,
    lines: &Vec<DebugLineInfo>,
    midx: usize,
    mo: Option<usize>,
    sdi: &Vec<SourceDebugInfo>,
    bl: &Vec<usize>,
)
    requires
        tracker_consistent(old(tracker), text@, old(output)@),
    ensures
        tracker_consistent(final(tracker), text@, final(output)@),
        ({
            let st1 = mod_fold(
                text@,
                InsState {
                    es: old(tracker)@,
                    counter: *old(counter) as nat,
                    inserted: old(inserted)@,
                },
                mfs@,
                lines@,
                midx as nat,
                mo,
                sdi@,
                bl@,
            );
            final(tracker)@ == st1.es && *final(counter) as nat == st1.counter
                && final(inserted)@ == st1.inserted
        }),
{
    let ghost st0 = InsState {
        es: old(tracker)@,
        counter: *old(counter) as nat,
        inserted: old(inserted)@,
    };
    let ghost ms = mfs@;
    let mut j: usize = 0;
    while j < mfs.len()
        invariant
            0 <= j <= ms.len(),
            ms == mfs@,
            tracker_consistent(tracker, text@, output@),
            ({
                let st1 = mod_fold(
                    text@,
                    st0,
                    ms.take(j as int),
                    lines@,
                    midx as nat,
                    mo,
                    sdi@,
                    bl@,
                );
                tracker@ == st1.es && *counter as nat == st1.counter && inserted@ == st1.inserted
            }),
        decreases ms.len() - j,
    {
        proof {
            assert(ms.take(j + 1).drop_last() =~= ms.take(j as int));
            assert(ms.take(j + 1).last() == ms[j as int]);
        }
        match &mfs[j] {
            ModField::Func(f) => {
                if !bl_contains(bl, f.span) {
                    match (&f.body, mo) {
                        (Some(body), Some(moff)) => {
                            if body.len() > 0 {
                                // the comments within the function's body
                                let last_off = body[body.len() - 1].off;
                                let hexes: Vec<HexComment> = if last_off < text.len() && f.span
                                    <= last_off + 1 {
                                    scan_hex_comments(text, f.span, last_off + 1)
                                } else {
                                    Vec::new()
                                };
                                proof {
                                    assert(hexes@ == func_hexes(text@, *f));
                                }
                                let first_instr = body[0].off;
                                instrument_func(
                                    tracker,
                                    output,
                                    text,
                                    counter,
                                    inserted,
                                    lines,
                                    midx,
                                    &hexes,
                                    first_instr,
                                    moff,
                                    sdi,
                                );
                            }
                        },
                        _ => {},
                    }
                }
            },
            _ => {},
        }
        j += 1;
    }
    proof {
        assert(ms.take(ms.len() as int) =~= ms);
    }
}

/// The insertion pass: for every inline core module in source order, for
/// every non-blacklisted function, one prelude per matching debug line
/// record, with fresh counters in insertion order. Returns the number of
/// counters assigned.
pub fn add_func_calls(
    tracker: &mut OffsetTracker,
    output: &mut Vec<u8>,
    text: &Vec<u8>,
    fields: &Vec<Field>,
    map: &WatLineMapper,
    bl: &Vec<usize>,
) -> (counters: u64)
    requires
        tracker_consistent(old(tracker), text@, old(output)@),
    ensures
        tracker_consistent(final(tracker), text@, final(output)@),
        ({
            let st1 = calls_fold(
                text@,
                InsState { es: old(tracker)@, counter: 0, inserted: Seq::empty() },
                fields@,
                map.spec_lines(),
                map.spec_code_offsets(),
                map.spec_sdi(),
                bl@,
            );
            final(tracker)@ == st1.es && counters as nat == st1.counter
        }),
{
    let ghost st0 = InsState { es: old(tracker)@, counter: 0, inserted: Seq::empty() };
    let ghost fs = fields@;
    let mut counter: u64 = 0;
    let mut inserted: Vec<u64> = Vec::new();
    let mut midx: usize = 0;
    let lines = map.lines();
    let sdi = map.sdi();
    let mut i: usize = 0;
    while i < fields.len()
        invariant
            0 <= i <= fs.len(),
            fs == fields@,
            tracker_consistent(tracker, text@, output@),
            midx as nat == count_inline_modules(fs.take(i as int)),
            midx <= i,
            lines@ == map.spec_lines(),
            sdi@ == map.spec_sdi(),
            ({
                let st1 = calls_fold(
                    text@,
                    st0,
                    fs.take(i as int),
                    map.spec_lines(),
                    map.spec_code_offsets(),
                    map.spec_sdi(),
                    bl@,
                );
                tracker@ == st1.es && counter as nat == st1.counter && inserted@ == st1.inserted
            }),
        decreases fs.len() - i,
    {
        proof {
            assert(fs.take(i + 1).drop_last() =~= fs.take(i as int));
            assert(fs.take(i + 1).last() == fs[i as int]);
        }
        proof {
            lemma_count_inline_le(fs.take(i + 1));
        }
        match &fields[i] {
            Field::CoreModule { fields: Some(mfs), .. } => {
                let mo = map.get_code_addr(midx);
                instrument_module(
                    tracker,
                    output,
                    text,
                    &mut counter,
                    &mut inserted,
                    mfs,
                    lines,
                    midx,
                    mo,
                    sdi,
                    bl,
                );
                midx += 1;
            },
            _ => {},
        }
        i += 1;
    }
    proof {
        assert(fs.take(fs.len() as int) =~= fs);
    }
    counter
}

} // verus!

verus! {

/// Instrumentation coverage, one record: a record at a fresh address whose
/// target resolves is instrumented with one fresh counter; a record at an
/// instrumented address, or with no matching comment, changes nothing.
pub proof fn lemma_dlr_step_coverage(
    t: Seq<u8>,
    st: InsState,
    dli: DebugLineInfo,
    hexes: Seq<HexComment>,
    fi: nat,
    mo: nat,
    sdi: Seq<SourceDebugInfo>,
)
    ensures
        ({
            let st1 = dlr_step(t, st, dli, hexes, fi, mo, sdi);
            &&& st1.inserted.len() >= st.inserted.len()
            &&& (forall|i: int|
                0 <= i < st.inserted.len() ==> #[trigger] st1.inserted[i] == st.inserted[i])
            &&& st1.counter - st.counter == st1.inserted.len() - st.inserted.len()
            &&& (st.inserted.contains(dli.address) || dlr_target(dli, hexes, fi, mo, sdi)
                is None) ==> st1 == st
            &&& (!st.inserted.contains(dli.address) && dlr_target(dli, hexes, fi, mo, sdi)
                is Some && st.counter < u64::MAX) ==> st1.inserted == st.inserted.push(
                dli.address,
            ) && st1.counter == st.counter + 1
            &&& st.inserted.no_duplicates() ==> st1.inserted.no_duplicates()
        }),
{
    let st1 = dlr_step(t, st, dli, hexes, fi, mo, sdi);
    if !st.inserted.contains(dli.address) && dlr_target(dli, hexes, fi, mo, sdi) is Some
        && st.counter < u64::MAX {
        assert(st1.inserted == st.inserted.push(dli.address));
        if st.inserted.no_duplicates() {
            assert forall|a: int, b: int|
                0 <= a < b < st1.inserted.len() implies st1.inserted[a] != st1.inserted[b] by {
                if b < st.inserted.len() {
                    assert(st1.inserted[a] == st.inserted[a] && st1.inserted[b]
                        == st.inserted[b]);
                } else {
                    assert(st1.inserted[b] == dli.address && st1.inserted[a] == st.inserted[a]);
                    if st.inserted[a] == dli.address {
                        assert(st.inserted.contains(dli.address));
                    }
                }
            }
        }
    }
}

/// Instrumentation coverage, one function: every record of the module whose
/// address has a matching comment gets exactly one fresh counter, unless its
/// address was already instrumented; counters and instrumented addresses
/// grow in lockstep and addresses never repeat.
pub proof fn lemma_func_fold_coverage(
    t: Seq<u8>,
    st: InsState,
    lines: Seq<DebugLineInfo>,
    midx: nat,
    hexes: Seq<HexComment>,
    fi: nat,
    mo: nat,
    sdi: Seq<SourceDebugInfo>,
)
    ensures
        ({
            let st1 = func_fold(t, st, lines, midx, hexes, fi, mo, sdi);
            &&& st1.inserted.len() >= st.inserted.len()
            &&& (forall|i: int|
                0 <= i < st.inserted.len() ==> #[trigger] st1.inserted[i] == st.inserted[i])
            &&& st1.counter - st.counter == st1.inserted.len() - st.inserted.len()
            &&& st.inserted.no_duplicates() ==> st1.inserted.no_duplicates()
            &&& st1.counter < u64::MAX ==> forall|k: int|
                (0 <= k < lines.len() && (#[trigger] lines[k]).code_module_idx == midx
                    && dlr_target(lines[k], hexes, fi, mo, sdi) is Some)
                    ==> st1.inserted.contains(lines[k].address)
        }),
    decreases lines.len(),
{
    if lines.len() > 0 {
        lemma_func_fold_coverage(t, st, lines.drop_last(), midx, hexes, fi, mo, sdi);
        let prev = func_fold(t, st, lines.drop_last(), midx, hexes, fi, mo, sdi);
        let st1 = func_fold(t, st, lines, midx, hexes, fi, mo, sdi);
        let l = lines.last();
        if l.code_module_idx == midx {
            lemma_dlr_step_coverage(t, prev, l, hexes, fi, mo, sdi);
        }
        if st1.counter < u64::MAX {
            assert forall|k: int|
                (0 <= k < lines.len() && (#[trigger] lines[k]).code_module_idx == midx
                    && dlr_target(lines[k], hexes, fi, mo, sdi)
                    is Some) implies st1.inserted.contains(lines[k].address) by {
                if k < lines.len() - 1 {
                    assert(lines.drop_last()[k] == lines[k]);
                    assert(prev.counter <= st1.counter);
                    assert(prev.inserted.contains(lines[k].address));
                    let w = choose|w: int|
                        0 <= w < prev.inserted.len() && prev.inserted[w] == lines[k].address;
                    assert(st1.inserted[w] == lines[k].address);
                } else {
                    // the last record itself
                    if prev.inserted.contains(l.address) {
                        let w = choose|w: int|
                            0 <= w < prev.inserted.len() && prev.inserted[w] == l.address;
                        assert(st1.inserted[w] == l.address);
                    } else {
                        assert(prev.counter < u64::MAX);
                        assert(st1.inserted == prev.inserted.push(l.address));
                        assert(st1.inserted[st1.inserted.len() - 1] == l.address);
                    }
                }
            }
        }
    }
}

/// Instrumentation coverage, whole pass: counters and instrumented
/// addresses grow in lockstep across all modules, and no address is
/// instrumented twice.
pub proof fn lemma_mod_fold_coverage(
    t: Seq<u8>,
    st: InsState,
    mfs: Seq<ModField>,
    lines: Seq<DebugLineInfo>,
    midx: nat,
    mo: Option<usize>,
    sdi: Seq<SourceDebugInfo>,
    bl: Seq<usize>,
)
    ensures
        ({
            let st1 = mod_fold(t, st, mfs, lines, midx, mo, sdi, bl);
            &&& st1.inserted.len() >= st.inserted.len()
            &&& (forall|i: int|
                0 <= i < st.inserted.len() ==> #[trigger] st1.inserted[i] == st.inserted[i])
            &&& st1.counter - st.counter == st1.inserted.len() - st.inserted.len()
            &&& st.inserted.no_duplicates() ==> st1.inserted.no_duplicates()
        }),
    decreases mfs.len(),
{
    if mfs.len() > 0 {
        lemma_mod_fold_coverage(t, st, mfs.drop_last(), lines, midx, mo, sdi, bl);
        let prev = mod_fold(t, st, mfs.drop_last(), lines, midx, mo, sdi, bl);
        match mfs.last() {
            ModField::Func(f) => {
                if !bl.contains(f.span) && f.body is Some && f.body->Some_0@.len() > 0 && mo
                    is Some {
                    lemma_func_fold_coverage(
                        t,
                        prev,
                        lines,
                        midx,
                        func_hexes(t, f),
                        f.body->Some_0@[0].off as nat,
                        mo->Some_0 as nat,
                        sdi,
                    );
                }
            },
            _ => {},
        }
    }
}

/// Instrumentation coverage over the whole component: across all inline
/// modules, one fresh counter per instrumented address and no address
/// instrumented twice.
pub proof fn lemma_calls_fold_coverage(
    t: Seq<u8>,
    st: InsState,
    fields: Seq<Field>,
    lines: Seq<DebugLineInfo>,
    co: Seq<usize>,
    sdi: Seq<SourceDebugInfo>,
    bl: Seq<usize>,
)
    ensures
        ({
            let st1 = calls_fold(t, st, fields, lines, co, sdi, bl);
            &&& st1.inserted.len() >= st.inserted.len()
            &&& st1.counter - st.counter == st1.inserted.len() - st.inserted.len()
            &&& st.inserted.no_duplicates() ==> st1.inserted.no_duplicates()
        }),
    decreases fields.len(),
{
    if fields.len() > 0 {
        lemma_calls_fold_coverage(t, st, fields.drop_last(), lines, co, sdi, bl);
        let prev = calls_fold(t, st, fields.drop_last(), lines, co, sdi, bl);
        match fields.last() {
            Field::CoreModule { fields: mfso, .. } => match mfso {
                Some(mfs) => {
                    let midx = count_inline_modules(fields.drop_last());
                    lemma_mod_fold_coverage(t, prev, mfs@, lines, midx, mo_of(co, midx), sdi, bl);
                },
                None => {},
            },
            _ => {},
        }
    }
}

} // verus!
