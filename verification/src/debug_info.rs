//! Debug line records, the file map, and per-file function records.
//!
//! The DWARF reader of the surrounding program walks the custom sections of
//! each inline core module and hands this module plain line rows and
//! subprogram records. From those, [`read_dbg_info`] builds the debug line
//! records (one per row, duplicates are a hard error), the deduplicated file
//! map, and the per-source-file function records that the coverage reports
//! are built from.

use vstd::prelude::*;

verus! {

/// Why debug information could not be read.
#[derive(Clone, Copy, Debug, PartialEq, Eq, Structural)]
pub enum DebugError {
    /// Two identical debug line records: a broken producer.
    DuplicateLine,
    /// A record referenced a file outside the file map.
    BadFileIndex,
}

/// Debugging information about one source position of the compiled code.
#[derive(Clone, Copy, PartialEq, Eq, Structural)]
pub struct DebugLineInfo {
    /// The address within the `code` section of the owning module.
    pub address: u64,
    /// The index of the source file in the file map.
    pub path_idx: usize,
    /// The source line.
    pub line: u64,
    /// The source column.
    pub column: u64,
    /// Which inline core module the compiled code lives in.
    pub code_module_idx: usize,
}

/// One function of a source file, as the debug information describes it.
pub struct FuncRec {
    /// The source line where the function starts.
    pub start_line: u64,
    /// The last source line of the function, where known.
    pub end_line: Option<u64>,
    /// The function's name.
    pub name: Vec<u8>,
    /// The code-section address of the function's first line record.
    pub start_addr: u64,
}

/// One branch record; reserved for branch coverage.
#[derive(Clone, Copy, PartialEq, Eq, Structural)]
pub struct BranchRec {
    /// The source line of the branch.
    pub line: u64,
    /// Whether the branch is an exception edge.
    pub is_exception: bool,
    /// The block the branch belongs to.
    pub block_idx: u64,
    /// The branch's index within its block.
    pub branch_idx: u64,
}

/// Debug information about one source file.
pub struct SourceDebugInfo {
    /// The index of the source file in the file map.
    pub path_idx: usize,
    /// The functions defined in the file.
    pub functions: Vec<FuncRec>,
    /// The branches of the file; reserved for branch coverage.
    pub branches: Vec<BranchRec>,
}

/// Whether the file map already holds this path.
pub open spec fn file_known(fm: Seq<Vec<u8>>, file: Seq<u8>) -> bool {
    exists|j: int| 0 <= j < fm.len() && (#[trigger] fm[j])@ == file
}

/// No two paths of the file map are equal.
pub open spec fn paths_unique(fm: Seq<Vec<u8>>) -> bool {
    forall|i: int, j: int| 0 <= i < j < fm.len() ==> (#[trigger] fm[i])@ != (#[trigger] fm[j])@
}

/// How many line records name the given file and line.
pub open spec fn dli_count(lines: Seq<DebugLineInfo>, p: usize, ln: u64) -> nat
    decreases lines.len(),
{
    if lines.len() == 0 {
        0
    } else {
        dli_count(lines.drop_last(), p, ln) + if lines.last().path_idx == p && lines.last().line
            == ln {
            1nat
        } else {
            0nat
        }
    }
}

/// The count recorded for file `p`, line `ln`: the first entry keyed `p`,
/// then its first pair keyed `ln`.
pub open spec fn bpl_lookup(bpl: Seq<(usize, Vec<(u64, u64)>)>, p: usize, ln: u64) -> Option<
    u64,
>
    decreases bpl.len(),
{
    if bpl.len() == 0 {
        None
    } else if bpl.first().0 == p {
        line_lookup(bpl.first().1@, ln)
    } else {
        bpl_lookup(bpl.drop_first(), p, ln)
    }
}

/// The count stored for `ln` in one file's line table.
pub open spec fn line_lookup(entries: Seq<(u64, u64)>, ln: u64) -> Option<u64>
    decreases entries.len(),
{
    if entries.len() == 0 {
        None
    } else if entries.first().0 == ln {
        Some(entries.first().1)
    } else {
        line_lookup(entries.drop_first(), ln)
    }
}

/// The debug-data bundle handed to the report writers: the file map, the
/// number of instrumented blocks on each source line, and the per-file
/// function records.
pub struct DebugDataOwned {
    /// Maps indices to file paths.
    pub file_map: Vec<Vec<u8>>,
    /// For each file index, the source lines with compiled code and how many
    /// blocks each holds.
    pub blocks_per_line: Vec<(usize, Vec<(u64, u64)>)>,
    /// Debug information per source file.
    pub sdi_vec: Vec<SourceDebugInfo>,
}

impl DebugDataOwned {
    /// The path at `idx` in the file map, if the index is in range.
    pub fn file_map_idx(&self, idx: usize) -> (r: Option<&Vec<u8>>)
        ensures
            idx < self.file_map@.len() ==> r == Some(&self.file_map@[idx as int]),
            idx >= self.file_map@.len() ==> r is None,
    {
        if idx < self.file_map.len() {
            Some(&self.file_map[idx])
        } else {
            None
        }
    }

    /// The debug information of the file at the given path, if any.
    pub fn get_sdi_from_file(&self, file: &Vec<u8>) -> (r: Option<&SourceDebugInfo>)
        ensures
            match r {
                Some(sdi) => exists|i: int|
                    0 <= i < self.sdi_vec@.len() && self.sdi_vec@[i].path_idx
                        < self.file_map@.len() && (#[trigger] self.sdi_vec@[i]).path_idx
                        == sdi.path_idx && self.file_map@[sdi.path_idx as int]@ == file@,
                None => forall|i: int|
                    0 <= i < self.sdi_vec@.len() ==> ((#[trigger] self.sdi_vec@[i]).path_idx
                        >= self.file_map@.len() || self.file_map@[self.sdi_vec@[i].path_idx as int]@
                        != file@),
            },
    {
        let mut i: usize = 0;
        while i < self.sdi_vec.len()
            invariant
                0 <= i <= self.sdi_vec@.len(),
                forall|k: int|
                    0 <= k < i ==> ((#[trigger] self.sdi_vec@[k]).path_idx >= self.file_map@.len()
                        || self.file_map@[self.sdi_vec@[k].path_idx as int]@ != file@),
            decreases self.sdi_vec@.len() - i,
        {
            let p = self.sdi_vec[i].path_idx;
            if p < self.file_map.len() {
                if crate::model::bytes_eq(&self.file_map[p], file) {
                    return Some(&self.sdi_vec[i]);
                }
            }
            i += 1;
        }
        None
    }
}

/// Collects line records, the file map, and per-file function records while
/// the debug information of a component is read.
pub struct WatLineMapper {
    code_offsets: Vec<usize>,
    lines: Vec<DebugLineInfo>,
    file_map: Vec<Vec<u8>>,
    /// Debug information per source file.
    pub sdi_vec: Vec<SourceDebugInfo>,
}

impl WatLineMapper {
    /// The recorded line records.
    pub closed spec fn spec_lines(&self) -> Seq<DebugLineInfo> {
        self.lines@
    }

    /// The recorded file map.
    pub closed spec fn spec_file_map(&self) -> Seq<Vec<u8>> {
        self.file_map@
    }

    /// The code-section offsets the mapper was created with.
    pub closed spec fn spec_code_offsets(&self) -> Seq<usize> {
        self.code_offsets@
    }

    /// The recorded per-file debug information.
    pub closed spec fn spec_sdi(&self) -> Seq<SourceDebugInfo> {
        self.sdi_vec@
    }

    /// The file map has no duplicates and every record's file index is in
    /// range.
    pub open spec fn wf(&self) -> bool {
        &&& paths_unique(self.spec_file_map())
        &&& forall|i: int|
            0 <= i < self.spec_lines().len() ==> (#[trigger] self.spec_lines()[i]).path_idx
                < self.spec_file_map().len()
        &&& forall|i: int|
            0 <= i < self.spec_sdi().len() ==> (#[trigger] self.spec_sdi()[i]).path_idx
                < self.spec_file_map().len()
    }

    /// Creates a mapper from the code-section offsets of the binary, one per
    /// inline core module, in source order.
    pub fn new(offsets: Vec<usize>) -> (r: WatLineMapper)
        ensures
            r.wf(),
            r.spec_code_offsets() == offsets@,
            r.spec_lines() == Seq::<DebugLineInfo>::empty(),
            r.spec_file_map() == Seq::<Vec<u8>>::empty(),
            r.spec_sdi() == Seq::<SourceDebugInfo>::empty(),
    {
        WatLineMapper {
            code_offsets: offsets,
            lines: Vec::new(),
            file_map: Vec::new(),
            sdi_vec: Vec::new(),
        }
    }

    /// Records one debug line; two identical records are a hard error.
    pub fn add_line(&mut self, line: DebugLineInfo) -> (r: Result<(), DebugError>)
        requires
            old(self).wf(),
        ensures
            final(self).wf(),
            final(self).spec_file_map() == old(self).spec_file_map(),
            final(self).spec_code_offsets() == old(self).spec_code_offsets(),
            final(self).spec_sdi() == old(self).spec_sdi(),
            line.path_idx >= old(self).spec_file_map().len() ==> r == Result::<
                (),
                DebugError,
            >::Err(DebugError::BadFileIndex) && final(self).spec_lines() == old(self).spec_lines(),
            (line.path_idx < old(self).spec_file_map().len() && old(self).spec_lines().contains(
                line,
            )) ==> (r == Result::<(), DebugError>::Err(DebugError::DuplicateLine) && final(self).spec_lines()
                == old(self).spec_lines()),
            (line.path_idx < old(self).spec_file_map().len() && !old(self).spec_lines().contains(
                line,
            )) ==> (r is Ok && final(self).spec_lines() == old(self).spec_lines().push(line)),
    {
        if line.path_idx >= self.file_map.len() {
            return Err(DebugError::BadFileIndex);
        }
        let mut i: usize = 0;
        while i < self.lines.len()
            invariant
                0 <= i <= self.lines@.len(),
                old(self).wf(),
                self.spec_lines() == old(self).spec_lines(),
                self.spec_file_map() == old(self).spec_file_map(),
                self.spec_code_offsets() == old(self).spec_code_offsets(),
                self.spec_sdi() == old(self).spec_sdi(),
                line.path_idx < self.spec_file_map().len(),
                forall|k: int| 0 <= k < i ==> self.lines@[k] != line,
            decreases self.lines@.len() - i,
        {
            if self.lines[i] == line {
                assert(self.lines@.contains(line));
                return Err(DebugError::DuplicateLine);
            }
            i += 1;
        }
        assert(!self.lines@.contains(line)) by {
            if self.lines@.contains(line) {
                let k = choose|k: int| 0 <= k < self.lines@.len() && self.lines@[k] == line;
            }
        }
        let ghost prev = self.lines@;
        self.lines.push(line);
        proof {
            assert forall|k: int| 0 <= k < self.lines@.len() implies (
            #[trigger] self.lines@[k]).path_idx < self.spec_file_map().len() by {
                if k < prev.len() {
                    assert(self.lines@[k] == prev[k]);
                }
            }
        }
        Ok(())
    }

    /// Adds a file to the file map and returns its index; an already-present
    /// path (compared by exact equality) keeps its old index.
    pub fn add_file(&mut self, file: Vec<u8>) -> (r: usize)
        requires
            old(self).wf(),
        ensures
            final(self).wf(),
            final(self).spec_lines() == old(self).spec_lines(),
            final(self).spec_code_offsets() == old(self).spec_code_offsets(),
            final(self).spec_sdi() == old(self).spec_sdi(),
            (r as int) < final(self).spec_file_map().len(),
            final(self).spec_file_map()[r as int]@ == file@,
            file_known(old(self).spec_file_map(), file@) ==> final(self).spec_file_map() == old(
                self,
            ).spec_file_map(),
            !file_known(old(self).spec_file_map(), file@) ==> (final(self).spec_file_map() == old(
                self,
            ).spec_file_map().push(file) && r as int == old(self).spec_file_map().len()),
    {
        let mut i: usize = 0;
        while i < self.file_map.len()
            invariant
                0 <= i <= self.file_map@.len(),
                old(self).wf(),
                self.spec_lines() == old(self).spec_lines(),
                self.spec_file_map() == old(self).spec_file_map(),
                self.spec_code_offsets() == old(self).spec_code_offsets(),
                self.spec_sdi() == old(self).spec_sdi(),
                forall|k: int| 0 <= k < i ==> (#[trigger] self.file_map@[k])@ != file@,
            decreases self.file_map@.len() - i,
        {
            if crate::model::bytes_eq(&self.file_map[i], &file) {
                assert(file_known(self.spec_file_map(), file@));
                return i;
            }
            i += 1;
        }
        assert(!file_known(self.spec_file_map(), file@)) by {
            if file_known(self.spec_file_map(), file@) {
                let k = choose|k: int|
                    0 <= k < self.file_map@.len() && (#[trigger] self.file_map@[k])@ == file@;
            }
        }
        let r = self.file_map.len();
        let ghost prevfm = self.file_map@;
        self.file_map.push(file);
        proof {
            assert forall|a: int, b: int|
                0 <= a < b < self.file_map@.len() implies (#[trigger] self.file_map@[a])@ != (
            #[trigger] self.file_map@[b])@ by {
                if b < prevfm.len() {
                    assert(self.file_map@[a] == prevfm[a] && self.file_map@[b] == prevfm[b]);
                } else {
                    assert(self.file_map@[a] == prevfm[a]);
                }
            }
            assert forall|k: int| 0 <= k < self.spec_lines().len() implies (
            #[trigger] self.spec_lines()[k]).path_idx < self.spec_file_map().len() by {}
            assert forall|k: int| 0 <= k < self.spec_sdi().len() implies (
            #[trigger] self.spec_sdi()[k]).path_idx < self.spec_file_map().len() by {}
        }
        r
    }

    /// The recorded per-file debug information.
    pub fn sdi(&self) -> (r: &Vec<SourceDebugInfo>)
        ensures
            r@ == self.spec_sdi(),
    {
        &self.sdi_vec
    }

    /// The recorded line records.
    pub fn lines(&self) -> (r: &Vec<DebugLineInfo>)
        ensures
            r@ == self.spec_lines(),
    {
        &self.lines
    }

    /// The code-section offset of the module at `mod_idx`, if it exists.
    pub fn get_code_addr(&self, mod_idx: usize) -> (r: Option<usize>)
        ensures
            mod_idx < self.spec_code_offsets().len() ==> r == Some(
                self.spec_code_offsets()[mod_idx as int],
            ),
            mod_idx >= self.spec_code_offsets().len() ==> r is None,
    {
        if mod_idx < self.code_offsets.len() {
            Some(self.code_offsets[mod_idx])
        } else {
            None
        }
    }
}

/// The record chosen for a source triplet lookup: among the records of the
/// module whose address does not pass the probed one, the one with the
/// highest address, later records winning ties.
pub open spec fn best_triplet(lines: Seq<DebugLineInfo>, m: usize, pc: u64) -> Option<
    DebugLineInfo,
>
    decreases lines.len(),
{
    if lines.len() == 0 {
        None
    } else {
        let prev = best_triplet(lines.drop_last(), m, pc);
        let l = lines.last();
        if l.code_module_idx == m && l.address <= pc {
            match prev {
                None => Some(l),
                Some(b) => if l.address >= b.address {
                    Some(l)
                } else {
                    prev
                },
            }
        } else {
            prev
        }
    }
}

impl WatLineMapper {
    /// The source triplet of the instruction at `binary_offset` within the
    /// module at `inline_module_idx`: the line record at or just before that
    /// address.
    pub fn get_source_triplet(&self, inline_module_idx: usize, binary_offset: u64) -> (r: Option<
        DebugLineInfo,
    >)
        ensures
            r == (if inline_module_idx < self.spec_code_offsets().len() && binary_offset
                >= self.spec_code_offsets()[inline_module_idx as int] as u64 {
                best_triplet(
                    self.spec_lines(),
                    inline_module_idx,
                    (binary_offset - self.spec_code_offsets()[inline_module_idx as int] as u64)
                        as u64,
                )
            } else {
                None::<DebugLineInfo>
            }),
    {
        if inline_module_idx >= self.code_offsets.len() {
            return None;
        }
        let co = self.code_offsets[inline_module_idx] as u64;
        if binary_offset < co {
            return None;
        }
        let pc = binary_offset - co;
        let ghost ls = self.lines@;
        let mut best: Option<DebugLineInfo> = None;
        let mut i: usize = 0;
        while i < self.lines.len()
            invariant
                0 <= i <= ls.len(),
                ls == self.spec_lines(),
                best == best_triplet(ls.take(i as int), inline_module_idx, pc),
            decreases ls.len() - i,
        {
            proof {
                assert(ls.take(i + 1).drop_last() =~= ls.take(i as int));
                assert(ls.take(i + 1).last() == ls[i as int]);
            }
            let l = self.lines[i];
            if l.code_module_idx == inline_module_idx && l.address <= pc {
                match best {
                    None => {
                        best = Some(l);
                    },
                    Some(b) => {
                        if l.address >= b.address {
                            best = Some(l);
                        }
                    },
                }
            }
            i += 1;
        }
        proof {
            assert(ls.take(ls.len() as int) =~= ls);
        }
        best
    }
}

} // verus!

verus! {

/// Whether some record names this file.
pub open spec fn path_occurs(ls: Seq<DebugLineInfo>, p: usize) -> bool {
    exists|x: int| 0 <= x < ls.len() && (#[trigger] ls[x]).path_idx == p
}

/// Whether some record names this file and line.
pub open spec fn line_from_records(ls: Seq<DebugLineInfo>, p: usize, ln: u64) -> bool {
    exists|x: int|
        0 <= x < ls.len() && (#[trigger] ls[x]).path_idx == p && ls[x].line == ln
}

/// Whether the table has an entry for file `p`.
pub open spec fn has_key(bpl: Seq<(usize, Vec<(u64, u64)>)>, p: usize) -> bool {
    exists|i: int| 0 <= i < bpl.len() && (#[trigger] bpl[i]).0 == p
}

/// A matching record makes the count positive, and a positive count means a
/// matching record exists.
pub proof fn lemma_dli_count_pos(lines: Seq<DebugLineInfo>, p: usize, ln: u64)
    ensures
        dli_count(lines, p, ln) > 0 <==> line_from_records(lines, p, ln),
    decreases lines.len(),
{
    if lines.len() > 0 {
        lemma_dli_count_pos(lines.drop_last(), p, ln);
        if lines.last().path_idx == p && lines.last().line == ln {
            assert(lines[lines.len() - 1].path_idx == p && lines[lines.len() - 1].line == ln);
        } else {
            if dli_count(lines.drop_last(), p, ln) > 0 {
                let w = choose|w: int|
                    0 <= w < lines.drop_last().len() && (#[trigger] lines.drop_last()[w]).path_idx
                        == p && lines.drop_last()[w].line == ln;
                assert(lines[w].path_idx == p && lines[w].line == ln);
            }
            if line_from_records(lines, p, ln) {
                let w = choose|w: int|
                    0 <= w < lines.len() && (#[trigger] lines[w]).path_idx == p && lines[w].line
                        == ln;
                assert(w < lines.len() - 1);
                assert(lines.drop_last()[w].path_idx == p && lines.drop_last()[w].line == ln);
            }
        }
    }
}

/// Appending a table entry changes only lookups of its key, and only when
/// the key was absent.
proof fn lemma_bpl_lookup_push(
    acc: Seq<(usize, Vec<(u64, u64)>)>,
    e: (usize, Vec<(u64, u64)>),
    q: usize,
    ln: u64,
)
    ensures
        bpl_lookup(acc.push(e), q, ln) == (if has_key(acc, q) {
            bpl_lookup(acc, q, ln)
        } else if e.0 == q {
            line_lookup(e.1@, ln)
        } else {
            None::<u64>
        }),
    decreases acc.len(),
{
    if acc.len() == 0 {
        assert(acc.push(e).first() == e);
        assert(acc.push(e).drop_first() =~= Seq::<(usize, Vec<(u64, u64)>)>::empty());
        assert(!has_key(acc, q));
        if e.0 == q {
            assert(bpl_lookup(acc.push(e), q, ln) == line_lookup(e.1@, ln));
        } else {
            assert(bpl_lookup(acc.push(e), q, ln) == bpl_lookup(
                acc.push(e).drop_first(),
                q,
                ln,
            ));
        }
    } else {
        assert(acc.push(e).first() == acc.first());
        assert(acc.push(e).drop_first() =~= acc.drop_first().push(e));
        lemma_bpl_lookup_push(acc.drop_first(), e, q, ln);
        if acc.first().0 == q {
            assert(acc[0].0 == q);
            assert(has_key(acc, q));
        } else {
            assert(has_key(acc, q) <==> has_key(acc.drop_first(), q)) by {
                if has_key(acc, q) {
                    let w = choose|w: int| 0 <= w < acc.len() && (#[trigger] acc[w]).0 == q;
                    assert(acc.drop_first()[w - 1].0 == q);
                }
                if has_key(acc.drop_first(), q) {
                    let w = choose|w: int|
                        0 <= w < acc.drop_first().len() && (#[trigger] acc.drop_first()[w]).0 == q;
                    assert(acc[w + 1].0 == q);
                }
            }
        }
    }
}

/// Appending a line entry changes only lookups of its line.
proof fn lemma_line_lookup_push(entries: Seq<(u64, u64)>, e: (u64, u64), ln: u64)
    ensures
        line_lookup(entries.push(e), ln) == (if exists|i: int|
            0 <= i < entries.len() && (#[trigger] entries[i]).0 == ln {
            line_lookup(entries, ln)
        } else if e.0 == ln {
            Some(e.1)
        } else {
            None::<u64>
        }),
    decreases entries.len(),
{
    if entries.len() == 0 {
        assert(entries.push(e).first() == e);
        assert(entries.push(e).drop_first() =~= Seq::<(u64, u64)>::empty());
        if e.0 == ln {
            assert(line_lookup(entries.push(e), ln) == Some(e.1));
        } else {
            assert(line_lookup(entries.push(e), ln) == line_lookup(
                entries.push(e).drop_first(),
                ln,
            ));
        }
    } else {
        assert(entries.push(e).first() == entries.first());
        assert(entries.push(e).drop_first() =~= entries.drop_first().push(e));
        lemma_line_lookup_push(entries.drop_first(), e, ln);
        if entries.first().0 == ln {
            assert(entries[0].0 == ln);
        } else {
            assert((exists|i: int| 0 <= i < entries.len() && (#[trigger] entries[i]).0 == ln)
                <==> (exists|i: int|
                0 <= i < entries.drop_first().len() && (#[trigger] entries.drop_first()[i]).0
                    == ln)) by {
                if exists|i: int| 0 <= i < entries.len() && (#[trigger] entries[i]).0 == ln {
                    let w = choose|w: int|
                        0 <= w < entries.len() && (#[trigger] entries[w]).0 == ln;
                    assert(entries.drop_first()[w - 1].0 == ln);
                }
                if exists|i: int|
                    0 <= i < entries.drop_first().len() && (#[trigger] entries.drop_first()[i]).0
                        == ln {
                    let w = choose|w: int|
                        0 <= w < entries.drop_first().len()
                            && (#[trigger] entries.drop_first()[w]).0 == ln;
                    assert(entries[w + 1].0 == ln);
                }
            }
        }
    }
}

/// Whether the vector holds this number.
fn contains_usize(v: &Vec<usize>, x: usize) -> (r: bool)
    ensures
        r == v@.contains(x),
{
    let mut i: usize = 0;
    while i < v.len()
        invariant
            0 <= i <= v@.len(),
            forall|k: int| 0 <= k < i ==> v@[k] != x,
        decreases v@.len() - i,
    {
        if v[i] == x {
            return true;
        }
        i += 1;
    }
    false
}

/// Whether the vector holds this number.
fn contains_u64(v: &Vec<u64>, x: u64) -> (r: bool)
    ensures
        r == v@.contains(x),
{
    let mut i: usize = 0;
    while i < v.len()
        invariant
            0 <= i <= v@.len(),
            forall|k: int| 0 <= k < i ==> v@[k] != x,
        decreases v@.len() - i,
    {
        if v[i] == x {
            return true;
        }
        i += 1;
    }
    false
}

/// Counts the records naming this file and line.
fn count_line_records(lines: &Vec<DebugLineInfo>, p: usize, ln: u64) -> (c: u64)
    ensures
        c as nat == dli_count(lines@, p, ln),
{
    let ghost ls = lines@;
    let mut c: u64 = 0;
    let mut i: usize = 0;
    while i < lines.len()
        invariant
            0 <= i <= ls.len(),
            ls == lines@,
            c as nat == dli_count(ls.take(i as int), p, ln),
            c <= i,
        decreases ls.len() - i,
    {
        proof {
            assert(ls.take(i + 1).drop_last() =~= ls.take(i as int));
            assert(ls.take(i + 1).last() == ls[i as int]);
        }
        if lines[i].path_idx == p && lines[i].line == ln {
            c = c + 1;
        }
        i += 1;
    }
    proof {
        assert(ls.take(ls.len() as int) =~= ls);
    }
    c
}

impl WatLineMapper {
    /// Consumes the mapper and bundles what the report writers need: the
    /// file map, the per-line block counts, and the per-file function
    /// records. For every file and line, the recorded count is exactly the
    /// number of line records naming them.
    pub fn into_debug_data(self) -> (r: DebugDataOwned)
        requires
            self.wf(),
        ensures
            r.file_map@ == self.spec_file_map(),
            r.sdi_vec@ == self.spec_sdi(),
            paths_unique(r.file_map@),
            forall|i: int|
                0 <= i < r.sdi_vec@.len() ==> (#[trigger] r.sdi_vec@[i]).path_idx
                    < r.file_map@.len(),
            forall|a: int, b: int|
                0 <= a < b < r.blocks_per_line@.len() ==> (#[trigger] r.blocks_per_line@[a]).0 != (
                #[trigger] r.blocks_per_line@[b]).0,
            forall|e: int|
                0 <= e < r.blocks_per_line@.len() ==> path_occurs(
                    self.spec_lines(),
                    (#[trigger] r.blocks_per_line@[e]).0,
                ),
            forall|p: usize, ln: u64|
                #[trigger] bpl_lookup(r.blocks_per_line@, p, ln) == (if dli_count(
                    self.spec_lines(),
                    p,
                    ln,
                ) > 0 {
                    Some(dli_count(self.spec_lines(), p, ln) as u64)
                } else {
                    None::<u64>
                }),
    {
        let WatLineMapper { code_offsets, lines, file_map, sdi_vec } = self;
        let ghost ls = lines@;
        proof {
            vstd::std_specs::vec::axiom_spec_len(&lines);
        }
        // the distinct file indices, in first-occurrence order
        let mut keys: Vec<usize> = Vec::new();
        let mut i: usize = 0;
        while i < lines.len()
            invariant
                0 <= i <= ls.len(),
                ls == lines@,
                keys@.no_duplicates(),
                forall|w: int| 0 <= w < i ==> keys@.contains((#[trigger] ls[w]).path_idx),
                forall|y: int| 0 <= y < keys@.len() ==> path_occurs(ls, #[trigger] keys@[y]),
            decreases ls.len() - i,
        {
            let p = lines[i].path_idx;
            if !contains_usize(&keys, p) {
                let ghost kpre = keys@;
                keys.push(p);
                proof {
                    assert forall|a: int, b: int|
                        0 <= a < b < keys@.len() implies keys@[a] != keys@[b] by {
                        if b < kpre.len() {
                            assert(keys@[a] == kpre[a] && keys@[b] == kpre[b]);
                        } else {
                            assert(keys@[b] == p && keys@[a] == kpre[a]);
                            if kpre[a] == p {
                                assert(kpre.contains(p));
                            }
                        }
                    }
                    assert forall|w: int| 0 <= w < i + 1 implies keys@.contains(
                        (#[trigger] ls[w]).path_idx,
                    ) by {
                        if w < i {
                            assert(kpre.contains(ls[w].path_idx));
                            let x = choose|x: int|
                                0 <= x < kpre.len() && kpre[x] == ls[w].path_idx;
                            assert(keys@[x] == ls[w].path_idx);
                        } else {
                            assert(keys@[keys@.len() - 1] == p);
                        }
                    }
                    assert forall|y: int| 0 <= y < keys@.len() implies path_occurs(
                        ls,
                        #[trigger] keys@[y],
                    ) by {
                        if y < kpre.len() {
                            assert(keys@[y] == kpre[y]);
                        } else {
                            assert(keys@[y] == ls[i as int].path_idx);
                        }
                    }
                }
            } else {
                proof {
                    assert forall|w: int| 0 <= w < i + 1 implies keys@.contains(
                        (#[trigger] ls[w]).path_idx,
                    ) by {}
                }
            }
            i += 1;
        }
        // one table entry per key
        let mut bpl: Vec<(usize, Vec<(u64, u64)>)> = Vec::new();
        let mut kk: usize = 0;
        while kk < keys.len()
            invariant
                0 <= kk <= keys@.len(),
                ls == lines@,
                keys@.no_duplicates(),
                forall|w: int| 0 <= w < ls.len() ==> keys@.contains((#[trigger] ls[w]).path_idx),
                forall|y: int| 0 <= y < keys@.len() ==> path_occurs(ls, #[trigger] keys@[y]),
                bpl@.len() == kk,
                forall|e2: int| 0 <= e2 < bpl@.len() ==> (#[trigger] bpl@[e2]).0 == keys@[e2],
                forall|a: int, b: int|
                    0 <= a < b < bpl@.len() ==> (#[trigger] bpl@[a]).0 != (#[trigger] bpl@[b]).0,
                forall|q: usize| has_key(bpl@, q) <==> keys@.take(kk as int).contains(q),
                forall|q: usize, ln: u64|
                    #[trigger] bpl_lookup(bpl@, q, ln) == (if keys@.take(kk as int).contains(q)
                        && dli_count(ls, q, ln) > 0 {
                        Some(dli_count(ls, q, ln) as u64)
                    } else {
                        None::<u64>
                    }),
            decreases keys@.len() - kk,
        {
            let p = keys[kk];
            // the distinct lines of this file's records
            let mut lns: Vec<u64> = Vec::new();
            let mut w: usize = 0;
            while w < lines.len()
                invariant
                    0 <= w <= ls.len(),
                    ls == lines@,
                    lns@.no_duplicates(),
                    forall|x: int|
                        0 <= x < w && (#[trigger] ls[x]).path_idx == p ==> lns@.contains(
                            ls[x].line,
                        ),
                    forall|y: int|
                        0 <= y < lns@.len() ==> line_from_records(ls, p, #[trigger] lns@[y]),
                decreases ls.len() - w,
            {
                let is_p = lines[w].path_idx == p;
                if is_p {
                    let lnv = lines[w].line;
                    if !contains_u64(&lns, lnv) {
                        let ghost lpre = lns@;
                        lns.push(lnv);
                        proof {
                            assert forall|a: int, b: int|
                                0 <= a < b < lns@.len() implies lns@[a] != lns@[b] by {
                                if b < lpre.len() {
                                    assert(lns@[a] == lpre[a] && lns@[b] == lpre[b]);
                                } else {
                                    assert(lns@[b] == lnv && lns@[a] == lpre[a]);
                                    if lpre[a] == lnv {
                                        assert(lpre.contains(lnv));
                                    }
                                }
                            }
                            assert(lns@[lns@.len() - 1] == lnv);
                            assert forall|x: int|
                                0 <= x < w + 1 && (#[trigger] ls[x]).path_idx
                                    == p implies lns@.contains(ls[x].line) by {
                                if x < w && ls[x].path_idx == p {
                                    assert(lpre.contains(ls[x].line));
                                    let y = choose|y: int|
                                        0 <= y < lpre.len() && lpre[y] == ls[x].line;
                                    assert(lns@[y] == ls[x].line);
                                }
                            }
                            assert forall|y: int|
                                0 <= y < lns@.len() implies line_from_records(
                                ls,
                                p,
                                #[trigger] lns@[y],
                            ) by {
                                if y < lpre.len() {
                                    assert(lns@[y] == lpre[y]);
                                } else {
                                    assert(ls[w as int].path_idx == p && ls[w as int].line
                                        == lns@[y]);
                                }
                            }
                        }
                    } else {
                        proof {
                            assert forall|x: int|
                                0 <= x < w + 1 && (#[trigger] ls[x]).path_idx
                                    == p implies lns@.contains(ls[x].line) by {}
                        }
                    }
                } else {
                    proof {
                        assert forall|x: int|
                            0 <= x < w + 1 && (#[trigger] ls[x]).path_idx
                                == p implies lns@.contains(ls[x].line) by {
                            if x == w {
                                assert(!is_p);
                            }
                        }
                    }
                }
                w += 1;
            }
            // the counts for those lines
            let mut inner: Vec<(u64, u64)> = Vec::new();
            let mut ii: usize = 0;
            while ii < lns.len()
                invariant
                    0 <= ii <= lns@.len(),
                    ls == lines@,
                    lns@.no_duplicates(),
                    forall|y: int|
                        0 <= y < lns@.len() ==> line_from_records(ls, p, #[trigger] lns@[y]),
                    forall|ln: u64|
                        #[trigger] line_lookup(inner@, ln) == (if lns@.take(ii as int).contains(ln) {
                            Some(dli_count(ls, p, ln) as u64)
                        } else {
                            None::<u64>
                        }),
                decreases lns@.len() - ii,
            {
                let lnv = lns[ii];
                let c = count_line_records(&lines, p, lnv);
                let ghost ipre = inner@;
                inner.push((lnv, c));
                proof {
                    assert forall|ln: u64|
                        #[trigger] line_lookup(inner@, ln) == (if lns@.take(
                            ii + 1,
                        ).contains(ln) {
                            Some(dli_count(ls, p, ln) as u64)
                        } else {
                            None::<u64>
                        }) by {
                        lemma_line_lookup_push(ipre, (lnv, c), ln);
                        assert((exists|x: int|
                            0 <= x < ipre.len() && (#[trigger] ipre[x]).0 == ln) <==> lns@.take(
                            ii as int,
                        ).contains(ln)) by {
                            if exists|x: int|
                                0 <= x < ipre.len() && (#[trigger] ipre[x]).0 == ln {
                                assert(line_lookup(ipre, ln) is Some) by {
                                    lemma_line_lookup_some(ipre, ln);
                                }
                            }
                            if lns@.take(ii as int).contains(ln) {
                                assert(line_lookup(ipre, ln) is Some);
                                lemma_line_lookup_some_rev(ipre, ln);
                            }
                        }
                        if lns@.take(ii + 1).contains(ln) {
                            let y = choose|y: int|
                                0 <= y < ii + 1 && #[trigger] lns@.take(ii + 1)[y] == ln;
                            if y < ii {
                                assert(lns@.take(ii as int)[y] == ln);
                                assert(lns@.take(ii as int).contains(ln));
                            }
                        }
                        if lns@.take(ii as int).contains(ln) {
                            let y = choose|y: int|
                                0 <= y < ii && #[trigger] lns@.take(ii as int)[y] == ln;
                            assert(lns@.take(ii + 1)[y] == ln);
                            assert(lns@.take(ii + 1).contains(ln));
                        }
                        if ln == lnv {
                            assert(lns@.take(ii + 1)[ii as int] == lnv);
                            assert(lns@.take(ii + 1).contains(lnv));
                        }
                    }
                }
                ii += 1;
            }
            // install the entry
            let ghost bpre = bpl@;
            let ghost innerv = inner@;
            bpl.push((p, inner));
            proof {
                assert(lns@.take(lns@.len() as int) =~= lns@);
                assert(keys@.take(kk as int).push(keys@[kk as int]) =~= keys@.take(kk + 1));
                assert(!keys@.take(kk as int).contains(p)) by {
                    if keys@.take(kk as int).contains(p) {
                        let y = choose|y: int| 0 <= y < kk && #[trigger] keys@.take(kk as int)[y] == p;
                        assert(keys@[y] == keys@[kk as int]);
                    }
                }
                assert(!has_key(bpre, p));
                assert forall|a: int, b: int|
                    0 <= a < b < bpl@.len() implies (#[trigger] bpl@[a]).0 != (
                #[trigger] bpl@[b]).0 by {
                    if b < bpre.len() {
                        assert(bpl@[a] == bpre[a] && bpl@[b] == bpre[b]);
                    } else {
                        assert(bpl@[b].0 == p && bpl@[a] == bpre[a]);
                        if bpre[a].0 == p {
                            assert(has_key(bpre, p));
                        }
                    }
                }
                assert forall|q: usize| has_key(bpl@, q) <==> keys@.take(kk + 1).contains(
                    q,
                ) by {
                    if has_key(bpl@, q) {
                        let x = choose|x: int| 0 <= x < bpl@.len() && (#[trigger] bpl@[x]).0 == q;
                        if x < bpre.len() {
                            assert(bpre[x].0 == q);
                            assert(has_key(bpre, q));
                            assert(keys@.take(kk as int).contains(q));
                            let y = choose|y: int|
                                0 <= y < kk && #[trigger] keys@.take(kk as int)[y] == q;
                            assert(keys@.take(kk + 1)[y] == q);
                        } else {
                            assert(keys@.take(kk + 1)[kk as int] == p);
                        }
                    }
                    if keys@.take(kk + 1).contains(q) {
                        let y = choose|y: int| 0 <= y < kk + 1 && #[trigger] keys@.take(kk + 1)[y] == q;
                        if y < kk {
                            assert(keys@.take(kk as int)[y] == q);
                            assert(keys@.take(kk as int).contains(q));
                            assert(has_key(bpre, q));
                            let x = choose|x: int|
                                0 <= x < bpre.len() && (#[trigger] bpre[x]).0 == q;
                            assert(bpl@[x].0 == q);
                        } else {
                            assert(bpl@[bpl@.len() - 1].0 == p);
                        }
                    }
                }
                assert forall|q: usize, ln: u64|
                    #[trigger] bpl_lookup(bpl@, q, ln) == (if keys@.take(kk + 1).contains(q)
                        && dli_count(ls, q, ln) > 0 {
                        Some(dli_count(ls, q, ln) as u64)
                    } else {
                        None::<u64>
                    }) by {
                    lemma_bpl_lookup_push(bpre, (p, inner), q, ln);
                    if q == p {
                        // the fresh key: the inner table answers
                        assert(line_lookup(innerv, ln) == (if lns@.contains(ln) {
                            Some(dli_count(ls, p, ln) as u64)
                        } else {
                            None::<u64>
                        }));
                        lemma_dli_count_pos(ls, p, ln);
                        assert(lns@.contains(ln) <==> dli_count(ls, p, ln) > 0) by {
                            if lns@.contains(ln) {
                                let y = choose|y: int| 0 <= y < lns@.len() && lns@[y] == ln;
                                assert(line_from_records(ls, p, lns@[y]));
                            }
                            if dli_count(ls, p, ln) > 0 {
                                assert(line_from_records(ls, p, ln));
                                let x = choose|x: int|
                                    0 <= x < ls.len() && (#[trigger] ls[x]).path_idx == p
                                        && ls[x].line == ln;
                                assert(ls[x].path_idx == p);
                            }
                        }
                        assert(keys@.take(kk + 1)[kk as int] == p);
                        assert(keys@.take(kk + 1).contains(p));
                    } else {
                        assert((keys@.take(kk + 1).contains(q)) <==> (keys@.take(
                            kk as int,
                        ).contains(q))) by {
                            if keys@.take(kk + 1).contains(q) {
                                let y = choose|y: int|
                                    0 <= y < kk + 1 && #[trigger] keys@.take(kk + 1)[y] == q;
                                assert(y != kk);
                                assert(keys@.take(kk as int)[y] == q);
                            }
                            if keys@.take(kk as int).contains(q) {
                                let y = choose|y: int|
                                    0 <= y < kk && #[trigger] keys@.take(kk as int)[y] == q;
                                assert(keys@.take(kk + 1)[y] == q);
                            }
                        }
                    }
                }
            }
            kk += 1;
        }
        proof {
            assert(keys@.take(keys@.len() as int) =~= keys@);
            // a file outside the keys has no records at all
            assert forall|p: usize, ln: u64|
                #[trigger] bpl_lookup(bpl@, p, ln) == (if dli_count(ls, p, ln) > 0 {
                    Some(dli_count(ls, p, ln) as u64)
                } else {
                    None::<u64>
                }) by {
                if !keys@.contains(p) {
                    lemma_dli_count_pos(ls, p, ln);
                    if dli_count(ls, p, ln) > 0 {
                        assert(line_from_records(ls, p, ln));
                        let x = choose|x: int|
                            0 <= x < ls.len() && (#[trigger] ls[x]).path_idx == p && ls[x].line
                                == ln;
                        assert(keys@.contains(ls[x].path_idx));
                    }
                }
            }
        }
        DebugDataOwned { file_map, blocks_per_line: bpl, sdi_vec }
    }
}

/// A line with an entry has a defined lookup.
proof fn lemma_line_lookup_some(entries: Seq<(u64, u64)>, ln: u64)
    requires
        exists|x: int| 0 <= x < entries.len() && (#[trigger] entries[x]).0 == ln,
    ensures
        line_lookup(entries, ln) is Some,
    decreases entries.len(),
{
    if entries.len() > 0 && entries.first().0 != ln {
        let x = choose|x: int| 0 <= x < entries.len() && (#[trigger] entries[x]).0 == ln;
        assert(entries.drop_first()[x - 1].0 == ln);
        lemma_line_lookup_some(entries.drop_first(), ln);
    }
}

/// A defined lookup means an entry exists.
proof fn lemma_line_lookup_some_rev(entries: Seq<(u64, u64)>, ln: u64)
    requires
        line_lookup(entries, ln) is Some,
    ensures
        exists|x: int| 0 <= x < entries.len() && (#[trigger] entries[x]).0 == ln,
    decreases entries.len(),
{
    if entries.len() > 0 {
        if entries.first().0 == ln {
            assert(entries[0].0 == ln);
        } else {
            lemma_line_lookup_some_rev(entries.drop_first(), ln);
            let x = choose|x: int|
                0 <= x < entries.drop_first().len() && (#[trigger] entries.drop_first()[x]).0 == ln;
            assert(entries[x + 1].0 == ln);
        }
    }
}

} // verus!

verus! {

/// One resolved row of a DWARF line program, as the surrounding reader
/// hands it over: the raw address, the file reference resolved to its
/// directory index, directory bytes and file name, and the line and column
/// (zero where the row carries none).
pub struct RawLineRow {
    /// The row's address within the owning code section.
    pub address: u64,
    /// Whether the row names a file at all.
    pub has_file: bool,
    /// The directory index of the file reference.
    pub dir_idx: u64,
    /// The directory entry's bytes, when the table has one.
    pub dir: Option<Vec<u8>>,
    /// The file name's bytes.
    pub file_name: Vec<u8>,
    /// The source line; zero when the row carries none.
    pub line: u64,
    /// The source column; zero at the left edge.
    pub column: u64,
}

/// One `DW_TAG_subprogram` record with the attributes the reader uses.
pub struct RawFuncRec {
    /// The function's low pc.
    pub low_pc: u64,
    /// The high-pc offset, when present (an offset from the low pc).
    pub high_off: Option<u64>,
    /// The directory index of the declaring file.
    pub dir_idx: u64,
    /// The declaring file's name bytes.
    pub file_name: Vec<u8>,
    /// The function's name.
    pub name: Vec<u8>,
}

/// The rows and subprogram records of one compilation unit.
pub struct UnitDebugInput {
    /// The unit's compilation directory.
    pub comp_dir: Vec<u8>,
    /// The rows of the unit's line programs, in order, end-of-sequence rows
    /// left out.
    pub rows: Vec<RawLineRow>,
    /// The unit's subprogram records.
    pub funcs: Vec<RawFuncRec>,
}

/// The units of one inline core module's custom sections.
pub struct ModuleDebugInput {
    /// The module's compilation units, in order.
    pub units: Vec<UnitDebugInput>,
}

/// Copies a byte string.
pub fn copy_bytes(v: &Vec<u8>) -> (r: Vec<u8>)
    ensures
        r@ == v@,
{
    vstd::slice::slice_to_vec(v.as_slice())
}

/// Joins one path component onto a base path: an absolute component
/// replaces the base, anything else is appended behind a separator.
pub open spec fn spec_path_join(a: Seq<u8>, b: Seq<u8>) -> Seq<u8> {
    if b.len() > 0 && b[0] == 47 {
        b
    } else if a.len() == 0 {
        b
    } else if a[a.len() - 1] == 47 {
        a + b
    } else {
        a + seq![47u8] + b
    }
}

/// Joins one path component onto a base path.
pub fn path_join(a: &Vec<u8>, b: &Vec<u8>) -> (r: Vec<u8>)
    ensures
        r@ == spec_path_join(a@, b@),
{
    if b.len() > 0 && b[0] == 47 {
        return copy_bytes(b);
    }
    if a.len() == 0 {
        return copy_bytes(b);
    }
    let mut out = copy_bytes(a);
    if a[a.len() - 1] != 47 {
        out.push(47);
    }
    let mut i: usize = 0;
    while i < b.len()
        invariant
            0 <= i <= b@.len(),
            a@.len() > 0,
            out@ == (if a@[a@.len() - 1] == 47 {
                a@
            } else {
                a@ + seq![47u8]
            }) + b@.take(i as int),
        decreases b@.len() - i,
    {
        out.push(b[i]);
        proof {
            assert(b@.take(i + 1) =~= b@.take(i as int).push(b@[i as int]));
        }
        i += 1;
    }
    proof {
        assert(b@.take(b@.len() as int) =~= b@);
        assert(out@ =~= spec_path_join(a@, b@));
    }
    out
}

/// The first record of the module and file at or past the address, lowest
/// address first, earlier records winning ties.
pub open spec fn start_dli(lines: Seq<DebugLineInfo>, m: usize, p: usize, low: u64) -> Option<
    DebugLineInfo,
>
    decreases lines.len(),
{
    if lines.len() == 0 {
        None
    } else {
        let prev = start_dli(lines.drop_last(), m, p, low);
        let l = lines.last();
        if l.code_module_idx == m && l.path_idx == p && l.address >= low {
            match prev {
                None => Some(l),
                Some(b) => if l.address < b.address {
                    Some(l)
                } else {
                    prev
                },
            }
        } else {
            prev
        }
    }
}

/// The record of the module and file at or before the end address with the
/// highest line, later records winning ties.
pub open spec fn end_line_dli(lines: Seq<DebugLineInfo>, m: usize, p: usize, ea: u64) -> Option<
    DebugLineInfo,
>
    decreases lines.len(),
{
    if lines.len() == 0 {
        None
    } else {
        let prev = end_line_dli(lines.drop_last(), m, p, ea);
        let l = lines.last();
        if l.code_module_idx == m && l.path_idx == p && l.address <= ea {
            match prev {
                None => Some(l),
                Some(b) => if l.line >= b.line {
                    Some(l)
                } else {
                    prev
                },
            }
        } else {
            prev
        }
    }
}

/// Finds the first record of the module and file at or past the address.
fn start_dli_exec(lines: &Vec<DebugLineInfo>, m: usize, p: usize, low: u64) -> (r: Option<
    DebugLineInfo,
>)
    ensures
        r == start_dli(lines@, m, p, low),
{
    let ghost ls = lines@;
    let mut best: Option<DebugLineInfo> = None;
    let mut i: usize = 0;
    while i < lines.len()
        invariant
            0 <= i <= ls.len(),
            ls == lines@,
            best == start_dli(ls.take(i as int), m, p, low),
        decreases ls.len() - i,
    {
        proof {
            assert(ls.take(i + 1).drop_last() =~= ls.take(i as int));
            assert(ls.take(i + 1).last() == ls[i as int]);
        }
        let l = lines[i];
        if l.code_module_idx == m && l.path_idx == p && l.address >= low {
            match best {
                None => {
                    best = Some(l);
                },
                Some(b) => {
                    if l.address < b.address {
                        best = Some(l);
                    }
                },
            }
        }
        i += 1;
    }
    proof {
        assert(ls.take(ls.len() as int) =~= ls);
    }
    best
}

/// Finds the highest-line record of the module and file at or before the
/// end address.
fn end_line_dli_exec(lines: &Vec<DebugLineInfo>, m: usize, p: usize, ea: u64) -> (r: Option<
    DebugLineInfo,
>)
    ensures
        r == end_line_dli(lines@, m, p, ea),
{
    let ghost ls = lines@;
    let mut best: Option<DebugLineInfo> = None;
    let mut i: usize = 0;
    while i < lines.len()
        invariant
            0 <= i <= ls.len(),
            ls == lines@,
            best == end_line_dli(ls.take(i as int), m, p, ea),
        decreases ls.len() - i,
    {
        proof {
            assert(ls.take(i + 1).drop_last() =~= ls.take(i as int));
            assert(ls.take(i + 1).last() == ls[i as int]);
        }
        let l = lines[i];
        if l.code_module_idx == m && l.path_idx == p && l.address <= ea {
            match best {
                None => {
                    best = Some(l);
                },
                Some(b) => {
                    if l.line >= b.line {
                        best = Some(l);
                    }
                },
            }
        }
        i += 1;
    }
    proof {
        assert(ls.take(ls.len() as int) =~= ls);
    }
    best
}

impl WatLineMapper {
    /// Appends one function record to the file's debug information: the
    /// record joins the first entry keyed by the file, which is created on
    /// first use; everything else stays as it was.
    pub fn push_func_rec(&mut self, p: usize, fr: FuncRec)
        requires
            old(self).wf(),
            p < old(self).spec_file_map().len(),
        ensures
            final(self).wf(),
            final(self).spec_lines() == old(self).spec_lines(),
            final(self).spec_file_map() == old(self).spec_file_map(),
            final(self).spec_code_offsets() == old(self).spec_code_offsets(),
            match sdi_pos(old(self).spec_sdi(), p) {
                Some(i) => {
                    &&& final(self).spec_sdi().len() == old(self).spec_sdi().len()
                    &&& (forall|k: int|
                        0 <= k < final(self).spec_sdi().len() && k != i
                            ==> #[trigger] final(self).spec_sdi()[k] == old(self).spec_sdi()[k])
                    &&& final(self).spec_sdi()[i].path_idx == p
                    &&& final(self).spec_sdi()[i].functions@
                        == old(self).spec_sdi()[i].functions@.push(fr)
                    &&& final(self).spec_sdi()[i].branches@ == old(self).spec_sdi()[i].branches@
                },
                None => {
                    &&& final(self).spec_sdi().len() == old(self).spec_sdi().len() + 1
                    &&& (forall|k: int|
                        0 <= k < old(self).spec_sdi().len() ==> #[trigger] final(self).spec_sdi()[k]
                            == old(self).spec_sdi()[k])
                    &&& final(self).spec_sdi().last().path_idx == p
                    &&& final(self).spec_sdi().last().functions@ == seq![fr]
                    &&& final(self).spec_sdi().last().branches@.len() == 0
                },
            },
    {
        let mut i: usize = 0;
        while i < self.sdi_vec.len()
            invariant
                0 <= i <= self.sdi_vec@.len(),
                old(self).wf(),
                p < old(self).spec_file_map().len(),
                self.spec_lines() == old(self).spec_lines(),
                self.spec_file_map() == old(self).spec_file_map(),
                self.spec_code_offsets() == old(self).spec_code_offsets(),
                self.spec_sdi() == old(self).spec_sdi(),
                forall|k: int| 0 <= k < i ==> (#[trigger] old(self).spec_sdi()[k]).path_idx != p,
            decreases self.sdi_vec@.len() - i,
        {
            if self.sdi_vec[i].path_idx == p {
                proof {
                    lemma_sdi_pos_found(old(self).spec_sdi(), i as int, p);
                }
                let mut e = self.sdi_vec.remove(i);
                e.functions.push(fr);
                let ghost mid = self.sdi_vec@;
                self.sdi_vec.insert(i, e);
                proof {
                    assert forall|k: int|
                        0 <= k < self.spec_sdi().len() && k != i implies #[trigger] self.spec_sdi()[k]
                        == old(self).spec_sdi()[k] by {
                        if k < i {
                        } else {
                            assert(self.spec_sdi()[k] == mid[k - 1]);
                            assert(mid[k - 1] == old(self).spec_sdi()[k]);
                        }
                    }
                    assert forall|k: int|
                        0 <= k < self.spec_sdi().len() implies (
                    #[trigger] self.spec_sdi()[k]).path_idx < self.spec_file_map().len() by {
                        if k != i {
                            assert(self.spec_sdi()[k] == old(self).spec_sdi()[k]);
                        }
                    }
                }
                return ;
            }
            i += 1;
        }
        proof {
            lemma_sdi_pos_none(old(self).spec_sdi(), p);
        }
        let mut fns: Vec<FuncRec> = Vec::new();
        fns.push(fr);
        let ghost spre = self.sdi_vec@;
        self.sdi_vec.push(SourceDebugInfo { path_idx: p, functions: fns, branches: Vec::new() });
        proof {
            assert(fns@ =~= seq![fr]);
            assert forall|k: int|
                0 <= k < self.spec_sdi().len() implies (#[trigger] self.spec_sdi()[k]).path_idx
                < self.spec_file_map().len() by {
                if k < spre.len() {
                    assert(self.spec_sdi()[k] == spre[k]);
                    assert(spre[k] == old(self).spec_sdi()[k]);
                }
            }
        }
    }
}

/// The first per-file entry keyed by the file, if any.
pub open spec fn sdi_pos(sdi: Seq<SourceDebugInfo>, p: usize) -> Option<int>
    decreases sdi.len(),
{
    if sdi.len() == 0 {
        None
    } else if sdi.first().path_idx == p {
        Some(0)
    } else {
        match sdi_pos(sdi.drop_first(), p) {
            Some(i) => Some(i + 1),
            None => None,
        }
    }
}

/// The first matching index is the one the scan found.
proof fn lemma_sdi_pos_found(sdi: Seq<SourceDebugInfo>, i: int, p: usize)
    requires
        0 <= i < sdi.len(),
        sdi[i].path_idx == p,
        forall|k: int| 0 <= k < i ==> (#[trigger] sdi[k]).path_idx != p,
    ensures
        sdi_pos(sdi, p) == Some(i),
    decreases i,
{
    if i > 0 {
        assert(sdi[0].path_idx != p);
        assert(sdi.drop_first()[i - 1].path_idx == p);
        assert(forall|k: int| 0 <= k < i - 1 ==> (#[trigger] sdi.drop_first()[k]).path_idx != p);
        lemma_sdi_pos_found(sdi.drop_first(), i - 1, p);
    }
}

/// With no matching entry, there is no position.
proof fn lemma_sdi_pos_none(sdi: Seq<SourceDebugInfo>, p: usize)
    requires
        forall|k: int| 0 <= k < sdi.len() ==> (#[trigger] sdi[k]).path_idx != p,
    ensures
        sdi_pos(sdi, p) is None,
    decreases sdi.len(),
{
    if sdi.len() > 0 {
        assert(sdi[0].path_idx != p);
        assert(forall|k: int|
            0 <= k < sdi.drop_first().len() ==> (#[trigger] sdi.drop_first()[k]).path_idx != p);
        lemma_sdi_pos_none(sdi.drop_first(), p);
    }
}

/// Whether every cached file entry points into the file map.
pub open spec fn fmap_ok(fmap: Seq<(u64, Vec<u8>, usize)>, len: nat) -> bool {
    forall|i: int| 0 <= i < fmap.len() ==> (#[trigger] fmap[i]).2 < len
}

/// A function record with its name as a plain byte sequence.
pub struct FuncRecView {
    /// The source line where the function starts.
    pub start_line: u64,
    /// The last source line of the function, where known.
    pub end_line: Option<u64>,
    /// The function's name.
    pub name: Seq<u8>,
    /// The code-section address of the function's first line record.
    pub start_addr: u64,
}

/// Per-file debug information with plain sequences inside.
pub struct SdiView {
    /// The index of the source file in the file map.
    pub path_idx: usize,
    /// The functions recorded for the file.
    pub functions: Seq<FuncRecView>,
    /// The branches recorded for the file.
    pub branches: Seq<BranchRec>,
}

/// The plain value of a function record.
pub open spec fn func_rec_view(f: FuncRec) -> FuncRecView {
    FuncRecView {
        start_line: f.start_line,
        end_line: f.end_line,
        name: f.name@,
        start_addr: f.start_addr,
    }
}

/// The plain value of one per-file entry.
pub open spec fn sdi_view(s: SourceDebugInfo) -> SdiView {
    SdiView {
        path_idx: s.path_idx,
        functions: s.functions@.map_values(|f: FuncRec| func_rec_view(f)),
        branches: s.branches@,
    }
}

/// The plain values of the per-file entries.
pub open spec fn sdi_views(s: Seq<SourceDebugInfo>) -> Seq<SdiView> {
    s.map_values(|e: SourceDebugInfo| sdi_view(e))
}

/// The plain values of the file map.
pub open spec fn files_views(fm: Seq<Vec<u8>>) -> Seq<Seq<u8>> {
    fm.map_values(|v: Vec<u8>| v@)
}

/// The plain values of the file cache.
pub open spec fn fmap_views(f: Seq<(u64, Vec<u8>, usize)>) -> Seq<(u64, Seq<u8>, usize)> {
    f.map_values(|e: (u64, Vec<u8>, usize)| (e.0, e.1@, e.2))
}

/// What the reader has built: the line records, the file map, the
/// per-(directory, name) cache, and the per-file function records.
pub struct ReadSt {
    /// The line records.
    pub lines: Seq<DebugLineInfo>,
    /// The file map.
    pub files: Seq<Seq<u8>>,
    /// The cache from (directory index, file name) to file index.
    pub fmap: Seq<(u64, Seq<u8>, usize)>,
    /// The per-file function records.
    pub sdi: Seq<SdiView>,
}

/// The first cached file index for a (directory index, file name) pair.
pub open spec fn fmap_find(fmap: Seq<(u64, Seq<u8>, usize)>, d: u64, name: Seq<u8>) -> Option<
    usize,
>
    decreases fmap.len(),
{
    if fmap.len() == 0 {
        None
    } else if fmap.first().0 == d && fmap.first().1 == name {
        Some(fmap.first().2)
    } else {
        fmap_find(fmap.drop_first(), d, name)
    }
}

/// The first file-map index holding this path.
pub open spec fn files_find(files: Seq<Seq<u8>>, path: Seq<u8>) -> Option<int>
    decreases files.len(),
{
    if files.len() == 0 {
        None
    } else if files.first() == path {
        Some(0)
    } else {
        match files_find(files.drop_first(), path) {
            Some(i) => Some(i + 1),
            None => None,
        }
    }
}

/// The path a row resolves to: the compilation directory, the directory
/// entry for a nonzero index, then the file name.
pub open spec fn row_path(comp_dir: Seq<u8>, row: RawLineRow) -> Seq<u8> {
    let base = if row.dir_idx != 0 && row.dir is Some {
        spec_path_join(comp_dir, row.dir->Some_0@)
    } else {
        comp_dir
    };
    spec_path_join(base, row.file_name@)
}

/// The state after one row: nothing for a row without a file; otherwise the
/// file is resolved through the cache (filling cache and file map on a
/// miss) and the row becomes one line record — unless an identical record
/// exists, which is the duplicate error.
pub open spec fn row_step(st: ReadSt, comp_dir: Seq<u8>, row: RawLineRow, mi: usize) -> Option<
    ReadSt,
> {
    if !row.has_file {
        Some(st)
    } else {
        let path = row_path(comp_dir, row);
        let cached = fmap_find(st.fmap, row.dir_idx, row.file_name@);
        let pidx: usize = match cached {
            Some(x) => x,
            None => match files_find(st.files, path) {
                Some(j) => j as usize,
                None => st.files.len() as usize,
            },
        };
        let st1 = match cached {
            Some(_) => st,
            None => ReadSt {
                files: match files_find(st.files, path) {
                    Some(_) => st.files,
                    None => st.files.push(path),
                },
                fmap: st.fmap.push((row.dir_idx, row.file_name@, pidx)),
                ..st
            },
        };
        let dli = DebugLineInfo {
            address: row.address,
            path_idx: pidx,
            line: row.line,
            column: row.column,
            code_module_idx: mi,
        };
        if st1.lines.contains(dli) {
            None
        } else {
            Some(ReadSt { lines: st1.lines.push(dli), ..st1 })
        }
    }
}

/// The function's end address: the high-pc offset minus the closing return
/// instruction's two bytes, past the low pc.
pub open spec fn func_end_addr(fr: RawFuncRec) -> Option<u64> {
    match fr.high_off {
        Some(h) => if h >= 2 && fr.low_pc <= u64::MAX - (h - 2) {
            Some((fr.low_pc + (h - 2)) as u64)
        } else {
            None
        },
        None => None,
    }
}

/// The first per-file view entry keyed by the file, if any.
pub open spec fn sdi_vpos(sdi: Seq<SdiView>, p: usize) -> Option<int>
    decreases sdi.len(),
{
    if sdi.len() == 0 {
        None
    } else if sdi.first().path_idx == p {
        Some(0)
    } else {
        match sdi_vpos(sdi.drop_first(), p) {
            Some(i) => Some(i + 1),
            None => None,
        }
    }
}

/// Appends one function record to the first entry keyed by the file,
/// creating the entry on first use.
pub open spec fn sdi_push_func(sdi: Seq<SdiView>, p: usize, rec: FuncRecView) -> Seq<SdiView> {
    match sdi_vpos(sdi, p) {
        Some(i) => sdi.update(
            i,
            SdiView {
                path_idx: sdi[i].path_idx,
                functions: sdi[i].functions.push(rec),
                branches: sdi[i].branches,
            },
        ),
        None => sdi.push(SdiView { path_idx: p, functions: seq![rec], branches: Seq::empty() }),
    }
}

/// The state after one subprogram record: its file must have been seen in a
/// row, and some record of the module and file must sit at or past its low
/// pc — otherwise it is dropped. The start line and address come from the
/// lowest such record; the end line is the highest line at or before the
/// end address.
pub open spec fn func_step(st: ReadSt, fr: RawFuncRec, mi: usize) -> ReadSt {
    match fmap_find(st.fmap, fr.dir_idx, fr.file_name@) {
        None => st,
        Some(p) => match start_dli(st.lines, mi, p, fr.low_pc) {
            None => st,
            Some(sd) => {
                let end_line = match func_end_addr(fr) {
                    Some(ea) => match end_line_dli(st.lines, mi, p, ea) {
                        Some(e) => Some(e.line),
                        None => None,
                    },
                    None => None,
                };
                let rec = FuncRecView {
                    start_line: sd.line,
                    end_line,
                    name: fr.name@,
                    start_addr: sd.address,
                };
                ReadSt { sdi: sdi_push_func(st.sdi, p, rec), ..st }
            },
        },
    }
}

/// The rows of one unit, in order; a duplicate record stops the pass.
pub open spec fn rows_fold(
    st: ReadSt,
    comp_dir: Seq<u8>,
    rows: Seq<RawLineRow>,
    mi: usize,
) -> Option<ReadSt>
    decreases rows.len(),
{
    if rows.len() == 0 {
        Some(st)
    } else {
        match rows_fold(st, comp_dir, rows.drop_last(), mi) {
            None => None,
            Some(s1) => row_step(s1, comp_dir, rows.last(), mi),
        }
    }
}

/// The subprogram records of one unit, in order.
pub open spec fn funcs_fold(st: ReadSt, funcs: Seq<RawFuncRec>, mi: usize) -> ReadSt
    decreases funcs.len(),
{
    if funcs.len() == 0 {
        st
    } else {
        func_step(funcs_fold(st, funcs.drop_last(), mi), funcs.last(), mi)
    }
}

/// One unit: its rows, then its subprogram records.
pub open spec fn unit_step(st: ReadSt, unit: UnitDebugInput, mi: usize) -> Option<ReadSt> {
    match rows_fold(st, unit.comp_dir@, unit.rows@, mi) {
        None => None,
        Some(s1) => Some(funcs_fold(s1, unit.funcs@, mi)),
    }
}

/// The units of one module, in order.
pub open spec fn units_fold(st: ReadSt, units: Seq<UnitDebugInput>, mi: usize) -> Option<ReadSt>
    decreases units.len(),
{
    if units.len() == 0 {
        Some(st)
    } else {
        match units_fold(st, units.drop_last(), mi) {
            None => None,
            Some(s1) => unit_step(s1, units.last(), mi),
        }
    }
}

/// Every inline module's debug information, in source order; the module's
/// position is its record index.
pub open spec fn modules_fold(st: ReadSt, inputs: Seq<ModuleDebugInput>) -> Option<ReadSt>
    decreases inputs.len(),
{
    if inputs.len() == 0 {
        Some(st)
    } else {
        match modules_fold(st, inputs.drop_last()) {
            None => None,
            Some(s1) => units_fold(s1, inputs.last().units@, (inputs.len() - 1) as usize),
        }
    }
}

/// The reader's state as the mapper and the cache hold it.
pub open spec fn read_state(map: WatLineMapper, fmap: Seq<(u64, Vec<u8>, usize)>) -> ReadSt {
    ReadSt {
        lines: map.spec_lines(),
        files: files_views(map.spec_file_map()),
        fmap: fmap_views(fmap),
        sdi: sdi_views(map.spec_sdi()),
    }
}

/// The first matching cache entry is the one the scan found.
proof fn lemma_fmap_find_found(fmap: Seq<(u64, Seq<u8>, usize)>, i: int, d: u64, name: Seq<u8>)
    requires
        0 <= i < fmap.len(),
        fmap[i].0 == d,
        fmap[i].1 == name,
        forall|k: int| 0 <= k < i ==> !((#[trigger] fmap[k]).0 == d && fmap[k].1 == name),
    ensures
        fmap_find(fmap, d, name) == Some(fmap[i].2),
    decreases i,
{
    if i > 0 {
        assert(!(fmap[0].0 == d && fmap[0].1 == name));
        assert(fmap.drop_first()[i - 1] == fmap[i]);
        let fd = fmap.drop_first();
        assert(forall|k: int| 0 <= k < i - 1 ==> !((#[trigger] fd[k]).0 == d && fd[k].1 == name));
        lemma_fmap_find_found(fmap.drop_first(), i - 1, d, name);
    }
}

/// With no matching cache entry, the lookup is empty.
proof fn lemma_fmap_find_none(fmap: Seq<(u64, Seq<u8>, usize)>, d: u64, name: Seq<u8>)
    requires
        forall|k: int| 0 <= k < fmap.len() ==> !((#[trigger] fmap[k]).0 == d && fmap[k].1 == name),
    ensures
        fmap_find(fmap, d, name) is None,
    decreases fmap.len(),
{
    if fmap.len() > 0 {
        assert(!(fmap[0].0 == d && fmap[0].1 == name));
        assert(forall|k: int|
            0 <= k < fmap.drop_first().len() ==> !((#[trigger] fmap.drop_first()[k]).0 == d
                && fmap.drop_first()[k].1 == name));
        lemma_fmap_find_none(fmap.drop_first(), d, name);
    }
}

/// The first matching path is the one found.
proof fn lemma_files_find_at(files: Seq<Seq<u8>>, j: int, path: Seq<u8>)
    requires
        0 <= j < files.len(),
        files[j] == path,
        forall|k: int| 0 <= k < j ==> #[trigger] files[k] != path,
    ensures
        files_find(files, path) == Some(j),
    decreases j,
{
    if j > 0 {
        assert(files[0] != path);
        assert(files.drop_first()[j - 1] == files[j]);
        let fd = files.drop_first();
        assert(forall|k: int| 0 <= k < j - 1 ==> #[trigger] fd[k] != path);
        lemma_files_find_at(files.drop_first(), j - 1, path);
    }
}

/// With no matching path, the lookup is empty.
proof fn lemma_files_find_none(files: Seq<Seq<u8>>, path: Seq<u8>)
    requires
        forall|k: int| 0 <= k < files.len() ==> #[trigger] files[k] != path,
    ensures
        files_find(files, path) is None,
    decreases files.len(),
{
    if files.len() > 0 {
        assert(files[0] != path);
        let fd = files.drop_first();
        assert(forall|k: int| 0 <= k < fd.len() ==> #[trigger] fd[k] != path);
        lemma_files_find_none(files.drop_first(), path);
    }
}

/// A found cache index points into the file map.
proof fn lemma_fmap_find_bound(f: Seq<(u64, Seq<u8>, usize)>, d: u64, name: Seq<u8>)
    ensures
        match fmap_find(f, d, name) {
            Some(x) => exists|k: int| 0 <= k < f.len() && (#[trigger] f[k]).2 == x,
            None => true,
        },
    decreases f.len(),
{
    if f.len() > 0 {
        if f.first().0 == d && f.first().1 == name {
            assert(f[0].2 == f.first().2);
        } else {
            lemma_fmap_find_bound(f.drop_first(), d, name);
            match fmap_find(f.drop_first(), d, name) {
                Some(x) => {
                    let k = choose|k: int|
                        0 <= k < f.drop_first().len() && (#[trigger] f.drop_first()[k]).2 == x;
                    assert(f[k + 1].2 == x);
                },
                None => {},
            }
        }
    }
}

/// The found entry is keyed by the file.
proof fn lemma_sdi_pos_is(s: Seq<SourceDebugInfo>, p: usize)
    ensures
        match sdi_pos(s, p) {
            Some(i) => 0 <= i < s.len() && s[i].path_idx == p,
            None => true,
        },
    decreases s.len(),
{
    if s.len() > 0 && s.first().path_idx != p {
        lemma_sdi_pos_is(s.drop_first(), p);
    }
}

/// The view-level entry position agrees with the value-level one.
proof fn lemma_sdi_vpos_views(s: Seq<SourceDebugInfo>, p: usize)
    ensures
        sdi_vpos(sdi_views(s), p) == sdi_pos(s, p),
    decreases s.len(),
{
    if s.len() > 0 {
        assert(sdi_views(s).first() == sdi_view(s.first()));
        assert(sdi_views(s).drop_first() =~= sdi_views(s.drop_first()));
        lemma_sdi_vpos_views(s.drop_first(), p);
    }
}

/// A stopped row fold stays stopped.
proof fn lemma_rows_fold_none(st: ReadSt, comp_dir: Seq<u8>, rows: Seq<RawLineRow>, i: int, mi: usize)
    requires
        0 <= i <= rows.len(),
        rows_fold(st, comp_dir, rows.take(i), mi) is None,
    ensures
        rows_fold(st, comp_dir, rows, mi) is None,
    decreases rows.len() - i,
{
    if i < rows.len() {
        assert(rows.take(i + 1).drop_last() =~= rows.take(i));
        lemma_rows_fold_none(st, comp_dir, rows, i + 1, mi);
    } else {
        assert(rows.take(i) =~= rows);
    }
}

/// A stopped unit fold stays stopped.
proof fn lemma_units_fold_none(st: ReadSt, units: Seq<UnitDebugInput>, i: int, mi: usize)
    requires
        0 <= i <= units.len(),
        units_fold(st, units.take(i), mi) is None,
    ensures
        units_fold(st, units, mi) is None,
    decreases units.len() - i,
{
    if i < units.len() {
        assert(units.take(i + 1).drop_last() =~= units.take(i));
        lemma_units_fold_none(st, units, i + 1, mi);
    } else {
        assert(units.take(i) =~= units);
    }
}

/// A stopped module fold stays stopped.
proof fn lemma_modules_fold_none(st: ReadSt, inputs: Seq<ModuleDebugInput>, i: int)
    requires
        0 <= i <= inputs.len(),
        modules_fold(st, inputs.take(i)) is None,
    ensures
        modules_fold(st, inputs) is None,
    decreases inputs.len() - i,
{
    if i < inputs.len() {
        assert(inputs.take(i + 1).drop_last() =~= inputs.take(i));
        lemma_modules_fold_none(st, inputs, i + 1);
    } else {
        assert(inputs.take(i) =~= inputs);
    }
}

/// Looks up a `(directory index, file name)` pair in the cache.
fn fmap_lookup(fmap: &Vec<(u64, Vec<u8>, usize)>, dir_idx: u64, name: &Vec<u8>) -> (r: Option<
    usize,
>)
    ensures
        r == fmap_find(fmap_views(fmap@), dir_idx, name@),
{
    let ghost fv = fmap_views(fmap@);
    let mut i: usize = 0;
    while i < fmap.len()
        invariant
            0 <= i <= fmap@.len(),
            fv == fmap_views(fmap@),
            forall|k: int| 0 <= k < i ==> !((#[trigger] fv[k]).0 == dir_idx && fv[k].1 == name@),
        decreases fmap@.len() - i,
    {
        if fmap[i].0 == dir_idx {
            if crate::model::bytes_eq(&fmap[i].1, name) {
                let x = fmap[i].2;
                proof {
                    let entry = fmap@[i as int];
                    assert(fv[i as int] == (entry.0, entry.1@, entry.2));
                    lemma_fmap_find_found(fv, i as int, dir_idx, name@);
                }
                return Some(x);
            }
        }
        proof {
            let entry = fmap@[i as int];
            assert(fv[i as int].0 == entry.0 && fv[i as int].1 == entry.1@);
        }
        i += 1;
    }
    proof {
        lemma_fmap_find_none(fv, dir_idx, name@);
    }
    None
}

/// Handles one line row: resolves its file through the cache and the file
/// map and records it, per [`row_step`].
fn do_row(
    map: &mut WatLineMapper,
    fmap: &mut Vec<(u64, Vec<u8>, usize)>,
    comp_dir: &Vec<u8>,
    row: &RawLineRow,
    mi: usize,
) -> (r: Result<(), DebugError>)
    requires
        old(map).wf(),
        fmap_ok(old(fmap)@, old(map).spec_file_map().len()),
    ensures
        final(map).wf(),
        fmap_ok(final(fmap)@, final(map).spec_file_map().len()),
        final(map).spec_code_offsets() == old(map).spec_code_offsets(),
        match row_step(read_state(*old(map), old(fmap)@), comp_dir@, *row, mi) {
            Some(st1) => r is Ok && read_state(*final(map), final(fmap)@) == st1,
            None => r == Result::<(), DebugError>::Err(DebugError::DuplicateLine),
        },
{
    let ghost st0 = read_state(*old(map), old(fmap)@);
    if !row.has_file {
        return Ok(());
    }
    let ghost path = row_path(comp_dir@, *row);
    let ghost cached = fmap_find(st0.fmap, row.dir_idx, row.file_name@);
    let ghost spidx: usize = (match cached {
        Some(x) => x,
        None => match files_find(st0.files, path) {
            Some(j) => j as usize,
            None => st0.files.len() as usize,
        },
    });
    let path_idx: usize = match fmap_lookup(fmap, row.dir_idx, &row.file_name) {
        Some(x) => x,
        None => {
            // resolve the path: compilation directory, then the directory
            // entry for a nonzero index, then the file name
            let mut pathv = copy_bytes(comp_dir);
            if row.dir_idx != 0 {
                match &row.dir {
                    Some(d) => {
                        pathv = path_join(&pathv, d);
                    },
                    None => {},
                }
            }
            pathv = path_join(&pathv, &row.file_name);
            proof {
                assert(pathv@ == path);
            }
            let ghost fm0 = map.spec_file_map();
            let x = map.add_file(pathv);
            proof {
                // the previous file map is one shorter than a real vector
                vstd::std_specs::vec::axiom_spec_len(&map.file_map);
                assert(fm0.len() <= usize::MAX);
                // the file-map change matches the step's view-level change
                if file_known(fm0, path) {
                    assert(map.spec_file_map() == fm0);
                    let j = choose|j: int| 0 <= j < fm0.len() && (#[trigger] fm0[j])@ == path;
                    assert(files_views(fm0)[j] == path);
                    assert(paths_unique(fm0));
                    assert forall|k: int|
                        0 <= k < x as int implies #[trigger] files_views(fm0)[k] != path by {
                        if fm0[k]@ == path {
                            assert(fm0[k]@ != fm0[x as int]@);
                        }
                    }
                    lemma_files_find_at(files_views(fm0), x as int, path);
                } else {
                    assert forall|k: int|
                        0 <= k < files_views(fm0).len() implies #[trigger] files_views(fm0)[k]
                        != path by {
                        assert(fm0[k]@ != path);
                    }
                    lemma_files_find_none(files_views(fm0), path);
                    assert(files_views(map.spec_file_map()) =~= files_views(fm0).push(path));
                }
            }
            let ghost fpre = fmap@;
            fmap.push((row.dir_idx, copy_bytes(&row.file_name), x));
            proof {
                assert forall|k: int|
                    0 <= k < fmap@.len() implies (#[trigger] fmap@[k]).2
                    < map.spec_file_map().len() by {
                    if k < fpre.len() {
                        assert(fmap@[k] == fpre[k]);
                    }
                }
                assert(fmap_views(fmap@) =~= fmap_views(fpre).push(
                    (row.dir_idx, row.file_name@, x),
                ));
            }
            x
        },
    };
    // checkpoint: the resolved index and the state match the step's
    let ghost smid: ReadSt = (match cached {
        Some(_) => st0,
        None => ReadSt {
            files: match files_find(st0.files, path) {
                Some(_) => st0.files,
                None => st0.files.push(path),
            },
            fmap: st0.fmap.push((row.dir_idx, row.file_name@, spidx)),
            ..st0
        },
    });
    proof {
        match cached {
            Some(_) => {
                lemma_fmap_find_bound(st0.fmap, row.dir_idx, row.file_name@);
                let k = choose|k: int|
                    0 <= k < st0.fmap.len() && (#[trigger] st0.fmap[k]).2 == cached->Some_0;
                assert(old(fmap)@[k].2 == cached->Some_0);
            },
            None => {},
        }
        assert(path_idx == spidx);
        assert(read_state(*map, fmap@).lines == smid.lines);
        assert(read_state(*map, fmap@).files == smid.files);
        assert(read_state(*map, fmap@).fmap == smid.fmap);
        assert(read_state(*map, fmap@).sdi == smid.sdi);
        assert(read_state(*map, fmap@) == smid);
        assert(path_idx < map.spec_file_map().len());
        assert(smid.lines == st0.lines);
    }
    let info = DebugLineInfo {
        address: row.address,
        path_idx,
        line: row.line,
        column: row.column,
        code_module_idx: mi,
    };
    let r = map.add_line(info);
    match r {
        Ok(_) => {
            proof {
                assert(!smid.lines.contains(info));
                let st1 = row_step(st0, comp_dir@, *row, mi);
                assert(st1 == Some(ReadSt { lines: smid.lines.push(info), ..smid }));
                assert(read_state(*map, fmap@).lines == smid.lines.push(info));
                assert(read_state(*map, fmap@).files == smid.files);
                assert(read_state(*map, fmap@).fmap == smid.fmap);
                assert(read_state(*map, fmap@).sdi == smid.sdi);
                assert(read_state(*map, fmap@) == st1->Some_0);
            }
            Ok(())
        },
        Err(e) => {
            proof {
                assert(smid.lines.contains(info));
                assert(row_step(st0, comp_dir@, *row, mi) is None);
                assert(e == DebugError::DuplicateLine);
            }
            Err(e)
        },
    }
}
/// Handles one subprogram record, per [`func_step`].
fn do_func(
    map: &mut WatLineMapper,
    fmap: &Vec<(u64, Vec<u8>, usize)>,
    fr: &RawFuncRec,
    mi: usize,
)
    requires
        old(map).wf(),
        fmap_ok(fmap@, old(map).spec_file_map().len()),
    ensures
        final(map).wf(),
        final(map).spec_file_map() == old(map).spec_file_map(),
        final(map).spec_code_offsets() == old(map).spec_code_offsets(),
        read_state(*final(map), fmap@) == func_step(read_state(*old(map), fmap@), *fr, mi),
{
    let ghost st0 = read_state(*old(map), fmap@);
    // the printed form's high pc includes the closing return instruction:
    // two bytes come off
    let end_addr: Option<u64> = match fr.high_off {
        Some(h) => if h >= 2 && fr.low_pc <= u64::MAX - (h - 2) {
            Some(fr.low_pc + (h - 2))
        } else {
            None
        },
        None => None,
    };
    let p = match fmap_lookup(fmap, fr.dir_idx, &fr.file_name) {
        Some(p) => p,
        None => {
            // the file was never seen in a row: drop the record
            return ;
        },
    };
    let s = match start_dli_exec(map.lines(), mi, p, fr.low_pc) {
        Some(s) => s,
        None => {
            // no record covers the function: drop it
            return ;
        },
    };
    let end_line: Option<u64> = match end_addr {
        Some(ea) => match end_line_dli_exec(map.lines(), mi, p, ea) {
            Some(e) => Some(e.line),
            None => None,
        },
        None => None,
    };
    let rec = FuncRec {
        start_line: s.line,
        end_line,
        name: copy_bytes(&fr.name),
        start_addr: s.address,
    };
    let ghost recv = func_rec_view(rec);
    let ghost sdi0 = map.spec_sdi();
    proof {
        lemma_fmap_find_bound(fmap_views(fmap@), fr.dir_idx, fr.file_name@);
        let k = choose|k: int|
            0 <= k < fmap_views(fmap@).len() && (#[trigger] fmap_views(fmap@)[k]).2 == p;
        assert(fmap@[k as int].2 == p);
        assert(p < old(map).spec_file_map().len());
    }
    map.push_func_rec(p, rec);
    proof {
        lemma_sdi_vpos_views(sdi0, p);
        lemma_sdi_pos_is(sdi0, p);
        let target = sdi_push_func(sdi_views(sdi0), p, recv);
        match sdi_pos(sdi0, p) {
            Some(i) => {
                assert(sdi_views(map.spec_sdi()) =~= target) by {
                    assert forall|k: int|
                        0 <= k < sdi_views(map.spec_sdi()).len() implies #[trigger] sdi_views(
                        map.spec_sdi(),
                    )[k] == target[k] by {
                        if k == i {
                            let prev = sdi_views(sdi0)[i];
                            assert(sdi_view(map.spec_sdi()[i]).functions =~= prev.functions.push(
                                recv,
                            )) by {
                                assert(map.spec_sdi()[i].functions@ =~= sdi0[i].functions@.push(
                                    rec,
                                ));
                            }
                            assert(sdi_view(map.spec_sdi()[i]).path_idx == prev.path_idx);
                            assert(sdi_view(map.spec_sdi()[i]).branches == prev.branches);
                            assert(target[i].path_idx == prev.path_idx);
                            assert(target[i].functions == prev.functions.push(recv));
                            assert(target[i].branches == prev.branches);
                        } else {
                            assert(map.spec_sdi()[k] == sdi0[k]);
                            assert(target[k] == sdi_views(sdi0)[k]);
                        }
                    }
                }
            },
            None => {
                assert(sdi_views(map.spec_sdi()) =~= target) by {
                    assert forall|k: int|
                        0 <= k < sdi_views(map.spec_sdi()).len() implies #[trigger] sdi_views(
                        map.spec_sdi(),
                    )[k] == target[k] by {
                        if k < sdi0.len() {
                            assert(map.spec_sdi()[k] == sdi0[k]);
                            assert(target[k] == sdi_views(sdi0)[k]);
                        } else {
                            assert(sdi_view(map.spec_sdi()[k]).functions =~= seq![recv]) by {
                                assert(map.spec_sdi()[k].functions@ =~= seq![rec]);
                            }
                            assert(sdi_view(map.spec_sdi()[k]).path_idx == p);
                            assert(sdi_view(map.spec_sdi()[k]).branches =~= Seq::<
                                BranchRec,
                            >::empty());
                        }
                    }
                }
            },
        }
        assert(read_state(*map, fmap@) == func_step(st0, *fr, mi));
    }
}

/// Handles one unit: its rows, then its subprogram records.
fn do_unit(
    map: &mut WatLineMapper,
    fmap: &mut Vec<(u64, Vec<u8>, usize)>,
    unit: &UnitDebugInput,
    mi: usize,
) -> (r: Result<(), DebugError>)
    requires
        old(map).wf(),
        fmap_ok(old(fmap)@, old(map).spec_file_map().len()),
    ensures
        final(map).wf(),
        fmap_ok(final(fmap)@, final(map).spec_file_map().len()),
        final(map).spec_code_offsets() == old(map).spec_code_offsets(),
        match unit_step(read_state(*old(map), old(fmap)@), *unit, mi) {
            Some(st1) => r is Ok && read_state(*final(map), final(fmap)@) == st1,
            None => r == Result::<(), DebugError>::Err(DebugError::DuplicateLine),
        },
{
    let ghost st0 = read_state(*old(map), old(fmap)@);
    let ghost rows = unit.rows@;
    let mut ri: usize = 0;
    while ri < unit.rows.len()
        invariant
            0 <= ri <= rows.len(),
            rows == unit.rows@,
            map.wf(),
            fmap_ok(fmap@, map.spec_file_map().len()),
            map.spec_code_offsets() == old(map).spec_code_offsets(),
            st0 == read_state(*old(map), old(fmap)@),
            rows_fold(st0, unit.comp_dir@, rows.take(ri as int), mi) == Some(
                read_state(*map, fmap@),
            ),
        decreases rows.len() - ri,
    {
        proof {
            assert(rows.take(ri + 1).drop_last() =~= rows.take(ri as int));
            assert(rows.take(ri + 1).last() == rows[ri as int]);
        }
        let ghost pre = read_state(*map, fmap@);
        match do_row(map, fmap, &unit.comp_dir, &unit.rows[ri], mi) {
            Ok(_) => {},
            Err(e) => {
                proof {
                    assert(row_step(pre, unit.comp_dir@, rows[ri as int], mi) is None);
                    assert(rows_fold(st0, unit.comp_dir@, rows.take(ri + 1), mi) is None);
                    lemma_rows_fold_none(st0, unit.comp_dir@, rows, ri + 1, mi);
                    assert(rows_fold(st0, unit.comp_dir@, rows, mi) is None);
                    assert(unit_step(st0, *unit, mi) is None);
                }
                return Err(e);
            },
        }
        ri += 1;
    }
    proof {
        assert(rows.take(rows.len() as int) =~= rows);
    }
    let ghost st1 = read_state(*map, fmap@);
    let ghost funcs = unit.funcs@;
    let mut fi: usize = 0;
    while fi < unit.funcs.len()
        invariant
            0 <= fi <= funcs.len(),
            funcs == unit.funcs@,
            map.wf(),
            fmap_ok(fmap@, map.spec_file_map().len()),
            map.spec_code_offsets() == old(map).spec_code_offsets(),
            st0 == read_state(*old(map), old(fmap)@),
            rows_fold(st0, unit.comp_dir@, unit.rows@, mi) == Some(st1),
            read_state(*map, fmap@) == funcs_fold(st1, funcs.take(fi as int), mi),
        decreases funcs.len() - fi,
    {
        proof {
            assert(funcs.take(fi + 1).drop_last() =~= funcs.take(fi as int));
            assert(funcs.take(fi + 1).last() == funcs[fi as int]);
        }
        do_func(map, fmap, &unit.funcs[fi], mi);
        fi += 1;
    }
    proof {
        assert(funcs.take(funcs.len() as int) =~= funcs);
    }
    Ok(())
}

/// Fills the mapper with the debug information of every inline core module,
/// per [`modules_fold`]: one line record per resolved row (rows without a
/// file are dropped), file paths deduplicated by exact equality, and one
/// function record per subprogram whose file and start line can be mapped.
/// A duplicate line record is the one hard error.
pub fn read_dbg_info(map: &mut WatLineMapper, inputs: &Vec<ModuleDebugInput>) -> (r: Result<
    (),
    DebugError,
>)
    requires
        old(map).wf(),
    ensures
        final(map).wf(),
        final(map).spec_code_offsets() == old(map).spec_code_offsets(),
        ({
            let st0 = ReadSt {
                lines: old(map).spec_lines(),
                files: files_views(old(map).spec_file_map()),
                fmap: Seq::empty(),
                sdi: sdi_views(old(map).spec_sdi()),
            };
            match modules_fold(st0, inputs@) {
                Some(st1) => r is Ok && final(map).spec_lines() == st1.lines && files_views(
                    final(map).spec_file_map(),
                ) == st1.files && sdi_views(final(map).spec_sdi()) == st1.sdi,
                None => r == Result::<(), DebugError>::Err(DebugError::DuplicateLine),
            }
        }),
{
    let mut fmap: Vec<(u64, Vec<u8>, usize)> = Vec::new();
    let ghost ins = inputs@;
    let ghost st0 = read_state(*old(map), fmap@);
    proof {
        assert(fmap_views(fmap@) =~= Seq::<(u64, Seq<u8>, usize)>::empty());
        vstd::std_specs::vec::axiom_spec_len(inputs);
    }
    let mut mi: usize = 0;
    while mi < inputs.len()
        invariant
            0 <= mi <= ins.len(),
            ins == inputs@,
            ins.len() <= usize::MAX,
            map.wf(),
            map.spec_code_offsets() == old(map).spec_code_offsets(),
            fmap_ok(fmap@, map.spec_file_map().len()),
            st0 == (ReadSt {
                lines: old(map).spec_lines(),
                files: files_views(old(map).spec_file_map()),
                fmap: Seq::<(u64, Seq<u8>, usize)>::empty(),
                sdi: sdi_views(old(map).spec_sdi()),
            }),
            modules_fold(st0, ins.take(mi as int)) == Some(read_state(*map, fmap@)),
        decreases ins.len() - mi,
    {
        proof {
            assert(ins.take(mi + 1).drop_last() =~= ins.take(mi as int));
            assert(ins.take(mi + 1).last() == ins[mi as int]);
            assert(ins.take(mi + 1).len() - 1 == mi as int);
        }
        let ghost stm = read_state(*map, fmap@);
        let units = &inputs[mi].units;
        let ghost us = units@;
        let mut ui: usize = 0;
        while ui < units.len()
            invariant
                0 <= ui <= us.len(),
                us == units@,
                ins == inputs@,
                0 <= mi < ins.len(),
                us == ins[mi as int].units@,
                map.wf(),
                map.spec_code_offsets() == old(map).spec_code_offsets(),
                fmap_ok(fmap@, map.spec_file_map().len()),
                st0 == (ReadSt {
                    lines: old(map).spec_lines(),
                    files: files_views(old(map).spec_file_map()),
                    fmap: Seq::<(u64, Seq<u8>, usize)>::empty(),
                    sdi: sdi_views(old(map).spec_sdi()),
                }),
                modules_fold(st0, ins.take(mi as int)) == Some(stm),
                units_fold(stm, us.take(ui as int), mi) == Some(read_state(*map, fmap@)),
            decreases us.len() - ui,
        {
            proof {
                assert(us.take(ui + 1).drop_last() =~= us.take(ui as int));
                assert(us.take(ui + 1).last() == us[ui as int]);
            }
            let ghost preu = read_state(*map, fmap@);
            match do_unit(map, &mut fmap, &units[ui], mi) {
                Ok(_) => {},
                Err(e) => {
                    proof {
                        assert(unit_step(preu, us[ui as int], mi) is None);
                        assert(units_fold(stm, us.take(ui + 1), mi) is None);
                        lemma_units_fold_none(stm, us, ui + 1, mi);
                        assert(units_fold(stm, us, mi) is None);
                        assert(ins.take(mi + 1).drop_last() =~= ins.take(mi as int));
                        assert(ins.take(mi + 1).last() == ins[mi as int]);
                        assert(modules_fold(st0, ins.take(mi as int)) == Some(stm));
                        assert(modules_fold(st0, ins.take(mi + 1)) is None);
                        lemma_modules_fold_none(st0, ins, mi + 1);
                        assert(modules_fold(st0, ins) is None);
                    }
                    return Err(e);
                },
            }
            ui += 1;
        }
        proof {
            assert(us.take(us.len() as int) =~= us);
        }
        mi += 1;
    }
    proof {
        assert(ins.take(ins.len() as int) =~= ins);
    }
    Ok(())
}

/// The reader's outcome on a fresh mapper: what the debug information of
/// the given modules builds, starting from nothing.
pub open spec fn fresh_read(inputs: Seq<ModuleDebugInput>) -> Option<ReadSt> {
    modules_fold(
        ReadSt {
            lines: Seq::empty(),
            files: Seq::empty(),
            fmap: Seq::empty(),
            sdi: Seq::empty(),
        },
        inputs,
    )
}

/// The byte offsets at which the code sections of the binary's core modules
/// start, one per module, nested modules included, in input order.
pub uninterp spec fn code_section_starts(binary: Seq<u8>) -> Seq<usize>;

/// Whether the binary's section structure can be walked at all; like the
/// offsets themselves, this depends on the input bytes alone.
pub uninterp spec fn code_sections_readable(binary: Seq<u8>) -> bool;

/// Relies on wasmparser's `Parser::parse_all`: every `CodeSectionStart`
/// payload carries the byte range of one code section's contents, nested
/// modules included, in input order; the walk succeeds or fails, and the
/// offsets are what they are, as a function of the input bytes alone.
#[verifier::external_body]
pub fn find_code_offsets(input: &Vec<u8>) -> (r: Result<Vec<usize>, String>)
    ensures
        (r is Ok) == code_sections_readable(input@),
        r matches Ok(v) ==> v@ == code_section_starts(input@),
{
    let mut offs = Vec::new();
    for payload in wasmparser::Parser::new(0).parse_all(input) {
        match payload {
            Err(e) => {
                return Err(format!("{}", e));
            },
            Ok(wasmparser::Payload::CodeSectionStart { range, .. }) => {
                offs.push(range.start as usize);
            },
            Ok(_) => {},
        }
    }
    Ok(offs)
}

} // verus!
