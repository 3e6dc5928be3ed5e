//! The LCov tracefile: per source file, its functions, their execution
//! counts, and one `DA` record per line with compiled code.

use vstd::prelude::*;
use vstd::string::StringSliceAdditionalSpecFns;

use crate::debug_info::{FuncRec, SourceDebugInfo};
use crate::gcov::{gc_lookup, GCovFile, Line};
use crate::numeral::dec_digits;

verus! {

/// The saturated total of one line's counters.
pub open spec fn line_sat_total(l: Line) -> u64 {
    if l.spec_total() <= u64::MAX {
        l.spec_total() as u64
    } else {
        u64::MAX
    }
}

/// What the counter table answers for one source line.
pub open spec fn gc_count(cs: Seq<(u64, (Line, u64))>, ln: u64) -> Option<u64> {
    match gc_lookup(cs, ln) {
        Some(k) => Some(line_sat_total(cs[k].1.0)),
        None => None,
    }
}

/// The function-execution records: one per function whose start line the
/// counter table knows, carrying the function's index.
pub open spec fn sf_execs(cs: Seq<(u64, (Line, u64))>, fns: Seq<FuncRec>) -> Seq<(u64, usize)>
    decreases fns.len(),
{
    if fns.len() == 0 {
        Seq::empty()
    } else {
        sf_execs(cs, fns.drop_last()) + (match gc_count(cs, fns.last().start_line) {
            Some(c) => seq![(c, (fns.len() - 1) as usize)],
            None => Seq::empty(),
        })
    }
}

/// The highest known end line over all functions.
pub open spec fn sf_last_line(fns: Seq<FuncRec>) -> Option<u64>
    decreases fns.len(),
{
    if fns.len() == 0 {
        None
    } else {
        let prev = sf_last_line(fns.drop_last());
        match fns.last().end_line {
            Some(e) => match prev {
                Some(b) => if e > b {
                    Some(e)
                } else {
                    prev
                },
                None => Some(e),
            },
            None => prev,
        }
    }
}

/// One `DA` record per line below `n` that the counter table knows.
pub open spec fn sf_code_lines(cs: Seq<(u64, (Line, u64))>, n: int) -> Seq<(u64, u64)>
    decreases n,
{
    if n <= 0 {
        Seq::empty()
    } else {
        sf_code_lines(cs, n - 1) + (match gc_count(cs, (n - 1) as u64) {
            Some(c) => seq![((n - 1) as u64, c)],
            None => Seq::empty(),
        })
    }
}

/// One source file of the tracefile.
pub struct SourceFile {
    path: Vec<u8>,
    exists_on_disk: bool,
    functions: Vec<(u64, Option<u64>, Vec<u8>)>,
    func_execs: Vec<(u64, usize)>,
    code_lines: Vec<(u64, u64)>,
}

impl SourceFile {
    /// The source file's path.
    pub closed spec fn spec_path(&self) -> Seq<u8> {
        self.path@
    }

    /// Whether the collaborator found the path on disk.
    pub closed spec fn spec_exists(&self) -> bool {
        self.exists_on_disk
    }

    /// The function records.
    pub closed spec fn spec_functions(&self) -> Seq<(u64, Option<u64>, Vec<u8>)> {
        self.functions@
    }

    /// The function-execution records.
    pub closed spec fn spec_execs(&self) -> Seq<(u64, usize)> {
        self.func_execs@
    }

    /// The per-line records.
    pub closed spec fn spec_code_lines(&self) -> Seq<(u64, u64)> {
        self.code_lines@
    }

    /// Builds one source file's records from its counter table and its
    /// debug information. `exists_on_disk` is the collaborator's answer for
    /// the path; the tracefile omits files that are not on disk.
    pub fn new(counter_log: &GCovFile, sdi: &SourceDebugInfo, exists_on_disk: bool) -> (r:
        SourceFile)
        ensures
            r.spec_path() == counter_log.spec_src(),
            r.spec_exists() == exists_on_disk,
            r.spec_functions().len() == sdi.functions@.len(),
            forall|i: int|
                0 <= i < sdi.functions@.len() ==> {
                    &&& (#[trigger] r.spec_functions()[i]).0 == sdi.functions@[i].start_line
                    &&& r.spec_functions()[i].1 == sdi.functions@[i].end_line
                    &&& r.spec_functions()[i].2@ == sdi.functions@[i].name@
                },
            r.spec_execs() == sf_execs(counter_log.spec_counters(), sdi.functions@),
            r.spec_code_lines() == (match sf_last_line(sdi.functions@) {
                Some(last) => sf_code_lines(counter_log.spec_counters(), last + 1),
                None => Seq::<(u64, u64)>::empty(),
            }),
    {
        let path = counter_log.clone_src_file();
        let ghost fseq = sdi.functions@;
        let ghost cs = counter_log.spec_counters();
        let mut functions: Vec<(u64, Option<u64>, Vec<u8>)> = Vec::new();
        let mut func_execs: Vec<(u64, usize)> = Vec::new();
        let mut last: Option<u64> = None;
        let mut i: usize = 0;
        while i < sdi.functions.len()
            invariant
                0 <= i <= fseq.len(),
                fseq == sdi.functions@,
                cs == counter_log.spec_counters(),
                functions@.len() == i,
                forall|k: int|
                    0 <= k < i ==> {
                        &&& (#[trigger] functions@[k]).0 == fseq[k].start_line
                        &&& functions@[k].1 == fseq[k].end_line
                        &&& functions@[k].2@ == fseq[k].name@
                    },
                func_execs@ == sf_execs(cs, fseq.take(i as int)),
                last == sf_last_line(fseq.take(i as int)),
            decreases fseq.len() - i,
        {
            proof {
                assert(fseq.take(i + 1).drop_last() =~= fseq.take(i as int));
                assert(fseq.take(i + 1).last() == fseq[i as int]);
            }
            let f = &sdi.functions[i];
            functions.push((f.start_line, f.end_line, crate::debug_info::copy_bytes(&f.name)));
            match counter_log.get_counters_for_line(f.start_line) {
                Some(c) => {
                    func_execs.push((c, i));
                    proof {
                        assert(func_execs@ =~= sf_execs(cs, fseq.take(i + 1)));
                    }
                },
                None => {
                    // a function line with no counters: the record is dropped
                },
            }
            match f.end_line {
                Some(e) => {
                    match last {
                        Some(b) => {
                            if e > b {
                                last = Some(e);
                            }
                        },
                        None => {
                            last = Some(e);
                        },
                    }
                },
                None => {},
            }
            i += 1;
        }
        proof {
            assert(fseq.take(fseq.len() as int) =~= fseq);
        }
        let mut code_lines: Vec<(u64, u64)> = Vec::new();
        match last {
            Some(lastv) => {
                let mut ln: u64 = 0;
                while ln < lastv
                    invariant
                        0 <= ln <= lastv,
                        cs == counter_log.spec_counters(),
                        code_lines@ == sf_code_lines(cs, ln as int),
                    decreases lastv - ln,
                {
                    match counter_log.get_counters_for_line(ln) {
                        Some(c) => {
                            code_lines.push((ln, c));
                        },
                        None => {},
                    }
                    proof {
                        assert(code_lines@ =~= sf_code_lines(cs, ln + 1));
                    }
                    ln = ln + 1;
                }
                match counter_log.get_counters_for_line(lastv) {
                    Some(c) => {
                        code_lines.push((lastv, c));
                    },
                    None => {},
                }
                proof {
                    assert(code_lines@ =~= sf_code_lines(cs, lastv + 1));
                }
            },
            None => {},
        }
        SourceFile { path, exists_on_disk, functions, func_execs, code_lines }
    }
}

// ------------------------------------------------------------------
// Rendering
// ------------------------------------------------------------------

/// The `FN` records, one per function.
pub open spec fn render_fns(fns: Seq<(u64, Option<u64>, Vec<u8>)>) -> Seq<u8>
    decreases fns.len(),
{
    if fns.len() == 0 {
        Seq::empty()
    } else {
        render_fns(fns.drop_last()) + "FN:".spec_bytes() + dec_digits(fns.last().0 as nat)
            + ",".spec_bytes() + fns.last().2@ + "\n".spec_bytes()
    }
}

/// The `FNDA` records, one per executed function.
pub open spec fn render_fndas(
    execs: Seq<(u64, usize)>,
    fns: Seq<(u64, Option<u64>, Vec<u8>)>,
) -> Seq<u8>
    decreases execs.len(),
{
    if execs.len() == 0 {
        Seq::empty()
    } else {
        render_fndas(execs.drop_last(), fns) + (if (execs.last().1 as int) < fns.len() {
            let name = fns[execs.last().1 as int].2;
            "FNDA:".spec_bytes() + dec_digits(execs.last().0 as nat) + ",".spec_bytes() + name@
                + "\n".spec_bytes()
        } else {
            Seq::empty()
        })
    }
}

/// The `DA` records, one per line with compiled code.
pub open spec fn render_das(lines: Seq<(u64, u64)>) -> Seq<u8>
    decreases lines.len(),
{
    if lines.len() == 0 {
        Seq::empty()
    } else {
        render_das(lines.drop_last()) + "DA:".spec_bytes() + dec_digits(lines.last().0 as nat)
            + ",".spec_bytes() + dec_digits(lines.last().1 as nat) + "\n".spec_bytes()
    }
}

/// How many lines were entered at least once.
pub open spec fn count_hit(lines: Seq<(u64, u64)>) -> nat
    decreases lines.len(),
{
    if lines.len() == 0 {
        0
    } else {
        count_hit(lines.drop_last()) + (if lines.last().1 > 0 {
            1nat
        } else {
            0nat
        })
    }
}

/// The whole `SF` block of one source file.
pub open spec fn render_source_file(sf: SourceFile) -> Seq<u8> {
    "SF:".spec_bytes() + sf.spec_path() + "\n".spec_bytes() + render_fns(sf.spec_functions())
        + render_fndas(sf.spec_execs(), sf.spec_functions()) + "FNF:".spec_bytes() + dec_digits(
        sf.spec_functions().len(),
    ) + "\n".spec_bytes() + "FNH:".spec_bytes() + dec_digits(sf.spec_execs().len())
        + "\n".spec_bytes() + "BRF:0\nBRH:0\n".spec_bytes() + render_das(sf.spec_code_lines())
        + "LH:".spec_bytes() + dec_digits(count_hit(sf.spec_code_lines())) + "\n".spec_bytes()
        + "LF:".spec_bytes() + dec_digits(sf.spec_code_lines().len()) + "\n".spec_bytes()
        + "end_of_record".spec_bytes()
}

/// Appends a slice.
fn push_all(dst: &mut Vec<u8>, src: &[u8])
    ensures
        final(dst)@ == old(dst)@ + src@,
{
    let n = src.len();
    let mut i: usize = 0;
    while i < n
        invariant
            0 <= i <= n == src@.len(),
            dst@ == old(dst)@ + src@.take(i as int),
        decreases n - i,
    {
        dst.push(*vstd::slice::slice_index_get(src, i));
        proof {
            assert(dst@ =~= old(dst)@ + src@.take(i + 1));
        }
        i += 1;
    }
    proof {
        assert(src@.take(n as int) =~= src@);
    }
}

/// Appends a number in decimal.
fn push_dec(dst: &mut Vec<u8>, n: u64)
    ensures
        final(dst)@ == old(dst)@ + dec_digits(n as nat),
{
    let d = crate::numeral::u64_to_dec(n);
    push_all(dst, d.as_slice());
}

impl SourceFile {
    /// Renders the file's `SF` block.
    pub fn render(&self) -> (r: Vec<u8>)
        ensures
            r@ == render_source_file(*self),
    {
        let mut out: Vec<u8> = Vec::new();
        push_all(&mut out, "SF:".as_bytes());
        push_all(&mut out, self.path.as_slice());
        push_all(&mut out, "\n".as_bytes());
        // FN records
        let ghost fns = self.functions@;
        let mut i: usize = 0;
        let ghost base = out@;
        while i < self.functions.len()
            invariant
                0 <= i <= fns.len(),
                fns == self.functions@,
                out@ == base + render_fns(fns.take(i as int)),
            decreases fns.len() - i,
        {
            proof {
                assert(fns.take(i + 1).drop_last() =~= fns.take(i as int));
                assert(fns.take(i + 1).last() == fns[i as int]);
            }
            push_all(&mut out, "FN:".as_bytes());
            push_dec(&mut out, self.functions[i].0);
            push_all(&mut out, ",".as_bytes());
            push_all(&mut out, self.functions[i].2.as_slice());
            push_all(&mut out, "\n".as_bytes());
            proof {
                assert(out@ =~= base + render_fns(fns.take(i + 1)));
            }
            i += 1;
        }
        proof {
            assert(fns.take(fns.len() as int) =~= fns);
        }
        // FNDA records
        let ghost execs = self.func_execs@;
        let ghost base2 = out@;
        let mut j: usize = 0;
        while j < self.func_execs.len()
            invariant
                0 <= j <= execs.len(),
                execs == self.func_execs@,
                fns == self.functions@,
                out@ == base2 + render_fndas(execs.take(j as int), fns),
            decreases execs.len() - j,
        {
            proof {
                assert(execs.take(j + 1).drop_last() =~= execs.take(j as int));
                assert(execs.take(j + 1).last() == execs[j as int]);
            }
            let (c, idx) = self.func_execs[j];
            if idx < self.functions.len() {
                push_all(&mut out, "FNDA:".as_bytes());
                push_dec(&mut out, c);
                push_all(&mut out, ",".as_bytes());
                push_all(&mut out, self.functions[idx].2.as_slice());
                push_all(&mut out, "\n".as_bytes());
            }
            proof {
                assert(out@ =~= base2 + render_fndas(execs.take(j + 1), fns));
            }
            j += 1;
        }
        proof {
            assert(execs.take(execs.len() as int) =~= execs);
        }
        push_all(&mut out, "FNF:".as_bytes());
        push_dec(&mut out, self.functions.len() as u64);
        push_all(&mut out, "\n".as_bytes());
        push_all(&mut out, "FNH:".as_bytes());
        push_dec(&mut out, self.func_execs.len() as u64);
        push_all(&mut out, "\n".as_bytes());
        push_all(&mut out, "BRF:0\nBRH:0\n".as_bytes());
        // DA records
        let ghost das = self.code_lines@;
        let ghost base3 = out@;
        let mut k: usize = 0;
        let mut hit: u64 = 0;
        while k < self.code_lines.len()
            invariant
                0 <= k <= das.len(),
                das == self.code_lines@,
                out@ == base3 + render_das(das.take(k as int)),
                hit as nat == count_hit(das.take(k as int)),
                hit as int <= k,
            decreases das.len() - k,
        {
            proof {
                assert(das.take(k + 1).drop_last() =~= das.take(k as int));
                assert(das.take(k + 1).last() == das[k as int]);
            }
            let (ln, c) = self.code_lines[k];
            push_all(&mut out, "DA:".as_bytes());
            push_dec(&mut out, ln);
            push_all(&mut out, ",".as_bytes());
            push_dec(&mut out, c);
            push_all(&mut out, "\n".as_bytes());
            if c > 0 {
                hit = hit + 1;
            }
            proof {
                assert(out@ =~= base3 + render_das(das.take(k + 1)));
            }
            k += 1;
        }
        proof {
            assert(das.take(das.len() as int) =~= das);
            crate::numeral::lemma_dec_digits_positive(0);
        }
        push_all(&mut out, "LH:".as_bytes());
        push_dec(&mut out, hit);
        push_all(&mut out, "\n".as_bytes());
        push_all(&mut out, "LF:".as_bytes());
        push_dec(&mut out, self.code_lines.len() as u64);
        push_all(&mut out, "\n".as_bytes());
        push_all(&mut out, "end_of_record".as_bytes());
        proof {
            assert(out@ =~= render_source_file(*self));
        }
        out
    }
}

/// An LCov tracefile: an optional test name and the source files.
pub struct TraceFile {
    test_name: Option<Vec<u8>>,
    files: Vec<SourceFile>,
}

/// The `SF` blocks of the files that are on disk, in order, each followed
/// by a newline.
pub open spec fn render_files(files: Seq<SourceFile>) -> Seq<u8>
    decreases files.len(),
{
    if files.len() == 0 {
        Seq::empty()
    } else {
        render_files(files.drop_last()) + (if files.last().spec_exists() {
            render_source_file(files.last()) + "\n".spec_bytes()
        } else {
            Seq::empty()
        })
    }
}

/// The whole tracefile.
pub open spec fn render_trace_file(tf: TraceFile) -> Seq<u8> {
    (match tf.spec_name() {
        Some(n) => "TN:".spec_bytes() + n@ + "\n".spec_bytes(),
        None => Seq::empty(),
    }) + render_files(tf.spec_files())
}

impl TraceFile {
    /// The test name, if any.
    pub closed spec fn spec_name(&self) -> Option<Vec<u8>> {
        self.test_name
    }

    /// The source files.
    pub closed spec fn spec_files(&self) -> Seq<SourceFile> {
        self.files@
    }

    /// Creates a tracefile from an optional test name and the files.
    pub fn new(name: Option<Vec<u8>>, files: Vec<SourceFile>) -> (r: TraceFile)
        ensures
            r.spec_name() == name,
            r.spec_files() == files@,
    {
        TraceFile { test_name: name, files }
    }

    /// Renders the tracefile: one `SF` block per source file whose path is
    /// on disk; the others are omitted.
    pub fn render(&self) -> (r: Vec<u8>)
        ensures
            r@ == render_trace_file(*self),
    {
        let mut out: Vec<u8> = Vec::new();
        match &self.test_name {
            Some(n) => {
                push_all(&mut out, "TN:".as_bytes());
                push_all(&mut out, n.as_slice());
                push_all(&mut out, "\n".as_bytes());
            },
            None => {},
        }
        let ghost fs = self.files@;
        let ghost base = out@;
        let mut i: usize = 0;
        while i < self.files.len()
            invariant
                0 <= i <= fs.len(),
                fs == self.files@,
                out@ == base + render_files(fs.take(i as int)),
            decreases fs.len() - i,
        {
            proof {
                assert(fs.take(i + 1).drop_last() =~= fs.take(i as int));
                assert(fs.take(i + 1).last() == fs[i as int]);
            }
            if self.files[i].exists_on_disk {
                let piece = self.files[i].render();
                push_all(&mut out, piece.as_slice());
                push_all(&mut out, "\n".as_bytes());
            }
            proof {
                assert(out@ =~= base + render_files(fs.take(i + 1)));
            }
            i += 1;
        }
        proof {
            assert(fs.take(fs.len() as int) =~= fs);
            assert(out@ =~= render_trace_file(*self));
        }
        out
    }
}

} // verus!
