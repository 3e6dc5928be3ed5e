//! Per-line counter state for the GCov listings.
//!
//! A [`Line`] holds, for one source line, the number of times each of its
//! instrumented blocks was entered, keyed by column. A [`GCovFile`] holds
//! one such line table per source file, primed from the blocks-per-line
//! table so that uninstrumented and unexecuted blocks can be told apart.

use vstd::prelude::*;
use vstd::string::StringSliceAdditionalSpecFns;

use crate::debug_info::{bpl_lookup, DebugDataOwned};

verus! {

/// The column-to-count map encoded by a pair list, later pairs winning.
pub open spec fn pairs_map(s: Seq<(u64, u64)>) -> Map<u64, u64>
    decreases s.len(),
{
    if s.len() == 0 {
        Map::empty()
    } else {
        pairs_map(s.drop_last()).insert(s.last().0, s.last().1)
    }
}

/// The sum of the counts of a pair list.
pub open spec fn pair_sum(s: Seq<(u64, u64)>) -> nat
    decreases s.len(),
{
    if s.len() == 0 {
        0
    } else {
        (pair_sum(s.drop_last()) + s.last().1) as nat
    }
}

/// The counters of one source line, keyed by column.
pub enum Line {
    /// No block was entered yet.
    Empty,
    /// One block, with its count.
    Singlet((u64, u64)),
    /// Several blocks, each with its count.
    Plural(Vec<(u64, u64)>),
}

impl Line {
    /// The counts per column.
    pub closed spec fn spec_counts(&self) -> Map<u64, u64> {
        match self {
            Line::Empty => Map::empty(),
            Line::Singlet(p) => Map::empty().insert(p.0, p.1),
            Line::Plural(v) => pairs_map(v@),
        }
    }

    /// The total count over all blocks.
    pub closed spec fn spec_total(&self) -> nat {
        match self {
            Line::Empty => 0,
            Line::Singlet(p) => p.1 as nat,
            Line::Plural(v) => pair_sum(v@),
        }
    }

    /// The number of distinct blocks.
    pub closed spec fn spec_blocks(&self) -> nat {
        match self {
            Line::Empty => 0,
            Line::Singlet(_) => 1,
            Line::Plural(v) => v@.len(),
        }
    }

    /// The column keys are distinct; the pair list never shrinks below two.
    pub closed spec fn wf(&self) -> bool {
        match self {
            Line::Plural(v) => forall|a: int, b: int|
                0 <= a < b < v@.len() ==> (#[trigger] v@[a]).0 != (#[trigger] v@[b]).0,
            _ => true,
        }
    }

    /// A line with no counters.
    pub fn empty() -> (r: Line)
        ensures
            r.wf(),
            r.spec_counts() == Map::<u64, u64>::empty(),
            r.spec_total() == 0,
            r.spec_blocks() == 0,
    {
        Line::Empty
    }

    /// A line whose block at `idx` was entered once.
    pub fn new(idx: u64) -> (r: Line)
        ensures
            r.wf(),
            r.spec_counts() == Map::<u64, u64>::empty().insert(idx, 1),
            r.spec_total() == 1,
            r.spec_blocks() == 1,
    {
        Line::Singlet((idx, 1))
    }

    /// Counts one entry of the block at `idx`: a known block's count grows
    /// by one (saturating), a fresh block starts at one. The total grows by
    /// one (short of saturation), and the block count grows exactly when the
    /// column is new.
    pub fn increment(&mut self, idx: u64)
        requires
            old(self).wf(),
        ensures
            final(self).wf(),
            final(self).spec_counts() == old(self).spec_counts().insert(
                idx,
                (if old(self).spec_counts().contains_key(idx) && old(self).spec_counts()[idx]
                    < u64::MAX {
                    (old(self).spec_counts()[idx] + 1) as u64
                } else if old(self).spec_counts().contains_key(idx) {
                    u64::MAX
                } else {
                    1u64
                }),
            ),
            final(self).spec_blocks() == old(self).spec_blocks() + (if old(
                self,
            ).spec_counts().contains_key(idx) {
                0int
            } else {
                1int
            }),
            (!old(self).spec_counts().contains_key(idx) || old(self).spec_counts()[idx]
                < u64::MAX) ==> final(self).spec_total() == old(self).spec_total() + 1,
    {
        let mut cur = Line::Empty;
        core::mem::swap(self, &mut cur);
        match cur {
            Line::Empty => {
                *self = Line::Singlet((idx, 1));
                proof {
                    assert(self.spec_counts() =~= old(self).spec_counts().insert(idx, 1u64));
                }
            },
            Line::Singlet(p) => {
                let (c, n) = p;
                if c == idx {
                    let n2 = if n < u64::MAX {
                        n + 1
                    } else {
                        n
                    };
                    *self = Line::Singlet((c, n2));
                    proof {
                        assert(self.spec_counts() =~= old(self).spec_counts().insert(
                            idx,
                            (if n < u64::MAX {
                                (n + 1) as u64
                            } else {
                                u64::MAX
                            }),
                        ));
                    }
                } else {
                    let mut v: Vec<(u64, u64)> = Vec::new();
                    v.push((c, n));
                    v.push((idx, 1));
                    proof {
                        assert(v@.drop_last() =~= seq![(c, n)]);
                        assert(seq![(c, n)].drop_last() =~= Seq::<(u64, u64)>::empty());
                        assert(seq![(c, n)].last() == (c, n));
                        assert(v@.last() == (idx, 1u64));
                        assert(pairs_map(Seq::<(u64, u64)>::empty()) =~= Map::<u64, u64>::empty());
                        assert(pairs_map(seq![(c, n)]) =~= Map::<u64, u64>::empty().insert(c, n));
                        assert(pairs_map(v@) =~= Map::<u64, u64>::empty().insert(c, n).insert(
                            idx,
                            1u64,
                        ));
                        assert(pair_sum(Seq::<(u64, u64)>::empty()) == 0);
                        assert(pair_sum(seq![(c, n)]) == n);
                        assert(pair_sum(v@) == n + 1);
                    }
                    *self = Line::Plural(v);
                    proof {
                        assert(self.spec_counts() =~= old(self).spec_counts().insert(idx, 1u64));
                    }
                }
            },
            Line::Plural(v) => {
                let mut v = v;
                let ghost v0 = v@;
                proof {
                    assert(old(self).wf());
                    assert(forall|a: int, b: int|
                        0 <= a < b < v0.len() ==> (#[trigger] v0[a]).0 != (#[trigger] v0[b]).0);
                }
                let mut k: usize = 0;
                let n = v.len();
                let mut hit: bool = false;
                while k < n && !hit
                    invariant
                        0 <= k <= n == v@.len(),
                        forall|a: int, b: int|
                            0 <= a < b < v0.len() ==> (#[trigger] v0[a]).0 != (
                            #[trigger] v0[b]).0,
                        !hit ==> v@ == v0,
                        !hit ==> forall|a: int| 0 <= a < k ==> (#[trigger] v0[a]).0 != idx,
                        hit ==> {
                            &&& (forall|a: int, b: int|
                                0 <= a < b < v@.len() ==> (#[trigger] v@[a]).0 != (
                                #[trigger] v@[b]).0)
                            &&& pairs_map(v@) == pairs_map(v0).insert(
                                idx,
                                (if pairs_map(v0).contains_key(idx) && pairs_map(v0)[idx]
                                    < u64::MAX {
                                    (pairs_map(v0)[idx] + 1) as u64
                                } else if pairs_map(v0).contains_key(idx) {
                                    u64::MAX
                                } else {
                                    1u64
                                }),
                            )
                            &&& v@.len() == v0.len()
                            &&& pairs_map(v0).contains_key(idx)
                            &&& (pairs_map(v0)[idx] < u64::MAX ==> pair_sum(v@) == pair_sum(v0)
                                + 1)
                        },
                    decreases n - k,
                {
                    if v[k].0 == idx {
                        let cnt = v[k].1;
                        let n2 = if cnt < u64::MAX {
                            cnt + 1
                        } else {
                            cnt
                        };
                        v.set(k, (idx, n2));
                        hit = true;
                        proof {
                            lemma_pairs_map_update(v0, k as int, (idx, n2));
                            assert(v@ == v0.update(k as int, (idx, n2)));
                            assert forall|a: int, b: int|
                                0 <= a < b < v@.len() implies (#[trigger] v@[a]).0 != (
                            #[trigger] v@[b]).0 by {
                                assert(v0[a].0 != v0[b].0);
                                if a == k {
                                    assert(v@[a].0 == idx && idx == v0[k as int].0);
                                } else if b == k {
                                    assert(v@[b].0 == idx && idx == v0[k as int].0);
                                }
                            }
                            lemma_pairs_map_first(v0, k as int);
                            lemma_pair_sum_update(v0, k as int, (idx, n2));
                        }
                    }
                    k += 1;
                }
                if !hit {
                    proof {
                        lemma_pairs_map_absent(v0, idx);
                    }
                    v.push((idx, 1));
                    proof {
                        assert(v@.drop_last() =~= v0);
                        assert(pair_sum(v@) == pair_sum(v0) + 1);
                        assert forall|a: int, b: int|
                            0 <= a < b < v@.len() implies (#[trigger] v@[a]).0 != (
                        #[trigger] v@[b]).0 by {
                            if b < v0.len() {
                                assert(v@[a] == v0[a] && v@[b] == v0[b]);
                            } else {
                                assert(v@[b].0 == idx && v@[a] == v0[a]);
                            }
                        }
                    }
                }
                *self = Line::Plural(v);
                proof {
                    assert(self.spec_counts() =~= old(self).spec_counts().insert(
                        idx,
                        (if old(self).spec_counts().contains_key(idx) && old(
                            self,
                        ).spec_counts()[idx] < u64::MAX {
                            (old(self).spec_counts()[idx] + 1) as u64
                        } else if old(self).spec_counts().contains_key(idx) {
                            u64::MAX
                        } else {
                            1u64
                        }),
                    ));
                }
            },
        }
    }

    /// The total count over all blocks of the line, saturating.
    pub fn total_counters(&self) -> (r: u64)
        ensures
            self.spec_total() <= u64::MAX ==> r as nat == self.spec_total(),
            self.spec_total() > u64::MAX ==> r == u64::MAX,
    {
        match self {
            Line::Empty => 0,
            Line::Singlet(p) => p.1,
            Line::Plural(v) => {
                let ghost v0 = v@;
                let mut sum: u64 = 0;
                let mut sat: bool = false;
                let mut k: usize = 0;
                while k < v.len()
                    invariant
                        0 <= k <= v0.len(),
                        v0 == v@,
                        !sat ==> sum as nat == pair_sum(v0.take(k as int)),
                        sat ==> pair_sum(v0.take(k as int)) > u64::MAX && sum == u64::MAX,
                    decreases v0.len() - k,
                {
                    proof {
                        assert(v0.take(k + 1).drop_last() =~= v0.take(k as int));
                        assert(v0.take(k + 1).last() == v0[k as int]);
                    }
                    let c = v[k].1;
                    if !sat {
                        if sum > u64::MAX - c {
                            sat = true;
                            sum = u64::MAX;
                        } else {
                            sum = sum + c;
                        }
                    }
                    k += 1;
                }
                proof {
                    assert(v0.take(v0.len() as int) =~= v0);
                }
                sum
            },
        }
    }

    /// The number of distinct blocks on this line.
    pub fn num_blocks(&self) -> (r: u64)
        requires
            self.spec_blocks() <= u64::MAX,
        ensures
            r as nat == self.spec_blocks(),
    {
        match self {
            Line::Empty => 0,
            Line::Singlet(_) => 1,
            Line::Plural(v) => v.len() as u64,
        }
    }
}

/// Updating the entry at `k` replaces only its key's count, when the keys
/// are distinct.
proof fn lemma_pairs_map_update(v: Seq<(u64, u64)>, k: int, e: (u64, u64))
    requires
        0 <= k < v.len(),
        v[k].0 == e.0,
        forall|a: int, b: int| 0 <= a < b < v.len() ==> (#[trigger] v[a]).0 != (#[trigger] v[b]).0,
    ensures
        pairs_map(v.update(k, e)) == pairs_map(v).insert(e.0, e.1),
    decreases v.len(),
{
    let w = v.update(k, e);
    if k == v.len() - 1 {
        assert(w.drop_last() =~= v.drop_last());
        assert(pairs_map(w) =~= pairs_map(v).insert(e.0, e.1));
    } else {
        assert(w.drop_last() =~= v.drop_last().update(k, e));
        assert(forall|a: int, b: int|
            0 <= a < b < v.drop_last().len() ==> (#[trigger] v.drop_last()[a]).0 != (
            #[trigger] v.drop_last()[b]).0);
        lemma_pairs_map_update(v.drop_last(), k, e);
        assert(v.last().0 != e.0) by {
            assert(v[k].0 != v[v.len() - 1].0);
        }
        assert(pairs_map(w) =~= pairs_map(v).insert(e.0, e.1));
    }
}

/// With distinct keys, the map holds the entry's own count.
proof fn lemma_pairs_map_first(v: Seq<(u64, u64)>, k: int)
    requires
        0 <= k < v.len(),
        forall|a: int, b: int| 0 <= a < b < v.len() ==> (#[trigger] v[a]).0 != (#[trigger] v[b]).0,
    ensures
        pairs_map(v).contains_key(v[k].0),
        pairs_map(v)[v[k].0] == v[k].1,
    decreases v.len(),
{
    if k == v.len() - 1 {
    } else {
        assert(forall|a: int, b: int|
            0 <= a < b < v.drop_last().len() ==> (#[trigger] v.drop_last()[a]).0 != (
            #[trigger] v.drop_last()[b]).0);
        lemma_pairs_map_first(v.drop_last(), k);
        assert(v[k].0 != v[v.len() - 1].0);
    }
}

/// A key on no entry is not in the map.
proof fn lemma_pairs_map_absent(v: Seq<(u64, u64)>, key: u64)
    requires
        forall|a: int| 0 <= a < v.len() ==> (#[trigger] v[a]).0 != key,
    ensures
        !pairs_map(v).contains_key(key),
    decreases v.len(),
{
    if v.len() > 0 {
        assert(v[v.len() - 1].0 != key);
        assert(forall|a: int|
            0 <= a < v.drop_last().len() ==> (#[trigger] v.drop_last()[a]).0 != key);
        lemma_pairs_map_absent(v.drop_last(), key);
    }
}

/// Updating one entry moves the sum by the count difference.
proof fn lemma_pair_sum_update(v: Seq<(u64, u64)>, k: int, e: (u64, u64))
    requires
        0 <= k < v.len(),
    ensures
        pair_sum(v.update(k, e)) == pair_sum(v) - v[k].1 + e.1,
    decreases v.len(),
{
    let w = v.update(k, e);
    if k == v.len() - 1 {
        assert(w.drop_last() =~= v.drop_last());
    } else {
        assert(w.drop_last() =~= v.drop_last().update(k, e));
        lemma_pair_sum_update(v.drop_last(), k, e);
    }
}

// ------------------------------------------------------------------
// Per-file counter state
// ------------------------------------------------------------------

/// The first line-table entry for a source line.
pub open spec fn gc_lookup(cs: Seq<(u64, (Line, u64))>, line: u64) -> Option<int>
    decreases cs.len(),
{
    if cs.len() == 0 {
        None
    } else if cs.first().0 == line {
        Some(0)
    } else {
        match gc_lookup(cs.drop_first(), line) {
            Some(i) => Some(i + 1),
            None => None,
        }
    }
}

/// The counter table of one source file: for each line with compiled code,
/// its per-column counters and how many blocks the instrumenter placed
/// there.
pub struct GCovFile {
    src_file: Vec<u8>,
    counters: Vec<(u64, (Line, u64))>,
}

impl GCovFile {
    /// The path of the source file.
    pub closed spec fn spec_src(&self) -> Seq<u8> {
        self.src_file@
    }

    /// The line table.
    pub closed spec fn spec_counters(&self) -> Seq<(u64, (Line, u64))> {
        self.counters@
    }

    /// Every stored line's counters are well-formed.
    pub closed spec fn wf(&self) -> bool {
        forall|i: int| 0 <= i < self.counters@.len() ==> (#[trigger] self.counters@[i]).1.0.wf()
    }

    /// Primes the table for the file at `file_idx`: one empty line entry per
    /// line the blocks-per-line table names for that file, in table order.
    pub fn new(data: &DebugDataOwned, file_idx: usize) -> (r: GCovFile)
        requires
            file_idx < data.file_map@.len(),
        ensures
            r.wf(),
            r.spec_src() == data.file_map@[file_idx as int]@,
            r.spec_counters().len() == bpl_pairs(data.blocks_per_line@, file_idx).len(),
            forall|i: int|
                0 <= i < r.spec_counters().len() ==> {
                    &&& ((#[trigger] r.spec_counters()[i]).1.0 matches Line::Empty)
                    &&& r.spec_counters()[i].1.0.spec_counts() == Map::<u64, u64>::empty()
                    &&& r.spec_counters()[i].1.0.spec_total() == 0
                    &&& r.spec_counters()[i].1.0.spec_blocks() == 0
                    &&& r.spec_counters()[i].0 == bpl_pairs(data.blocks_per_line@, file_idx)[i].0
                    &&& r.spec_counters()[i].1.1 == bpl_pairs(data.blocks_per_line@, file_idx)[i].1
                },
    {
        let src_file = crate::debug_info::copy_bytes(&data.file_map[file_idx]);
        let mut counters: Vec<(u64, (Line, u64))> = Vec::new();
        let bpl = &data.blocks_per_line;
        let mut e: usize = 0;
        let mut done: bool = false;
        while e < bpl.len()
            invariant
                0 <= e <= bpl@.len(),
                bpl@ == data.blocks_per_line@,
                !done ==> counters@.len() == 0,
                !done ==> forall|a: int| 0 <= a < e ==> (#[trigger] bpl@[a]).0 != file_idx,
                done ==> counters@.len() == bpl_pairs(bpl@, file_idx).len(),
                done ==> forall|i: int|
                    0 <= i < counters@.len() ==> {
                        &&& ((#[trigger] counters@[i]).1.0 matches Line::Empty)
                        &&& counters@[i].1.0.wf()
                        &&& counters@[i].1.0.spec_counts() == Map::<u64, u64>::empty()
                        &&& counters@[i].1.0.spec_total() == 0
                        &&& counters@[i].1.0.spec_blocks() == 0
                        &&& counters@[i].0 == bpl_pairs(bpl@, file_idx)[i].0
                        &&& counters@[i].1.1 == bpl_pairs(bpl@, file_idx)[i].1
                    },
            decreases bpl@.len() - e,
        {
            if !done {
                if bpl[e].0 == file_idx {
                    let pairs = &bpl[e].1;
                    let ghost ps = pairs@;
                    proof {
                        lemma_bpl_pairs_at(bpl@, e as int, file_idx);
                    }
                    let mut w: usize = 0;
                    while w < pairs.len()
                        invariant
                            0 <= w <= ps.len(),
                            ps == pairs@,
                            counters@.len() == w,
                            forall|i: int|
                                0 <= i < w ==> {
                                    &&& ((#[trigger] counters@[i]).1.0 matches Line::Empty)
                                    &&& counters@[i].1.0.wf()
                                    &&& counters@[i].1.0.spec_counts() == Map::<u64, u64>::empty()
                                    &&& counters@[i].1.0.spec_total() == 0
                                    &&& counters@[i].1.0.spec_blocks() == 0
                                    &&& counters@[i].0 == ps[i].0
                                    &&& counters@[i].1.1 == ps[i].1
                                },
                        decreases ps.len() - w,
                    {
                        let pr = pairs[w];
                        counters.push((pr.0, (Line::Empty, pr.1)));
                        w += 1;
                    }
                    done = true;
                }
            }
            e += 1;
        }
        if !done {
            proof {
                lemma_bpl_pairs_none(bpl@, file_idx);
            }
        }
        GCovFile { src_file, counters }
    }

    /// Counts one entry of the block at `line_idx`:`column_idx`. A line the
    /// table does not know is left alone.
    pub fn increment(&mut self, line_idx: u64, column_idx: u64)
        requires
            old(self).wf(),
        ensures
            final(self).wf(),
            final(self).spec_src() == old(self).spec_src(),
            final(self).spec_counters().len() == old(self).spec_counters().len(),
            gc_lookup(old(self).spec_counters(), line_idx) is None ==> final(self).spec_counters()
                == old(self).spec_counters(),
            gc_lookup(old(self).spec_counters(), line_idx) matches Some(k) ==> {
                &&& final(self).spec_counters()[k].0 == line_idx
                &&& final(self).spec_counters()[k].1.1 == old(self).spec_counters()[k].1.1
                &&& final(self).spec_counters()[k].1.0.spec_counts()
                    == old(self).spec_counters()[k].1.0.spec_counts().insert(
                    column_idx,
                    (if old(self).spec_counters()[k].1.0.spec_counts().contains_key(column_idx)
                        && old(self).spec_counters()[k].1.0.spec_counts()[column_idx]
                        < u64::MAX {
                        (old(self).spec_counters()[k].1.0.spec_counts()[column_idx] + 1) as u64
                    } else if old(self).spec_counters()[k].1.0.spec_counts().contains_key(
                        column_idx,
                    ) {
                        u64::MAX
                    } else {
                        1u64
                    }),
                )
                &&& final(self).spec_counters()[k].1.0.spec_blocks() == old(
                    self,
                ).spec_counters()[k].1.0.spec_blocks() + (if old(
                    self,
                ).spec_counters()[k].1.0.spec_counts().contains_key(column_idx) {
                    0int
                } else {
                    1int
                })
                &&& ((!old(self).spec_counters()[k].1.0.spec_counts().contains_key(column_idx)
                    || old(self).spec_counters()[k].1.0.spec_counts()[column_idx] < u64::MAX)
                    ==> final(self).spec_counters()[k].1.0.spec_total() == old(
                    self,
                ).spec_counters()[k].1.0.spec_total() + 1)
                &&& forall|i: int|
                    0 <= i < final(self).spec_counters().len() && i != k
                        ==> final(self).spec_counters()[i] == old(self).spec_counters()[i]
            },
    {
        let ghost cs0 = self.counters@;
        let mut k: usize = 0;
        let n = self.counters.len();
        while k < n
            invariant
                0 <= k <= n == self.counters@.len(),
                self.counters@ == cs0,
                cs0 == old(self).spec_counters(),
                self.src_file@ == old(self).spec_src(),
                old(self).wf(),
                forall|a: int| 0 <= a < k ==> (#[trigger] cs0[a]).0 != line_idx,
            decreases n - k,
        {
            if self.counters[k].0 == line_idx {
                proof {
                    lemma_gc_lookup_found(cs0, k as int, line_idx);
                }
                let mut entry = self.counters.remove(k);
                proof {
                    assert(entry == cs0[k as int]);
                    assert(old(self).spec_counters()[k as int].1.0.wf());
                }
                let ghost mid = self.counters@;
                entry.1.0.increment(column_idx);
                let ghost newline = entry.1.0;
                let lnv = entry.0;
                self.counters.insert(k, entry);
                proof {
                    assert(self.counters@ =~= cs0.update(
                        k as int,
                        (cs0[k as int].0, (newline, cs0[k as int].1.1)),
                    ));
                    assert forall|i: int|
                        0 <= i < self.counters@.len() implies (
                    #[trigger] self.counters@[i]).1.0.wf() by {
                        if i != k {
                            assert(self.counters@[i] == cs0[i]);
                        } else {
                            assert(self.counters@[i].1.0 == newline);
                        }
                    }
                }
                return ;
            }
            k += 1;
        }
        proof {
            lemma_gc_lookup_none(cs0, line_idx);
        }
    }

    /// The path of the source file this table belongs to.
    pub fn clone_src_file(&self) -> (r: Vec<u8>)
        ensures
            r@ == self.spec_src(),
    {
        crate::debug_info::copy_bytes(&self.src_file)
    }

    /// The total count on a line, or nothing when the line holds no code.
    pub fn get_counters_for_line(&self, line: u64) -> (r: Option<u64>)
        ensures
            gc_lookup(self.spec_counters(), line) is None ==> r is None,
            gc_lookup(self.spec_counters(), line) matches Some(k) ==> {
                &&& r is Some
                &&& (self.spec_counters()[k].1.0.spec_total() <= u64::MAX ==> r->Some_0 as nat
                    == self.spec_counters()[k].1.0.spec_total())
                &&& (self.spec_counters()[k].1.0.spec_total() > u64::MAX ==> r->Some_0
                    == u64::MAX)
            },
    {
        let ghost cs0 = self.counters@;
        let mut k: usize = 0;
        let n = self.counters.len();
        while k < n
            invariant
                0 <= k <= n == self.counters@.len(),
                self.counters@ == cs0,
                forall|a: int| 0 <= a < k ==> (#[trigger] cs0[a]).0 != line,
            decreases n - k,
        {
            if self.counters[k].0 == line {
                proof {
                    lemma_gc_lookup_found(cs0, k as int, line);
                }
                return Some(self.counters[k].1.0.total_counters());
            }
            k += 1;
        }
        proof {
            lemma_gc_lookup_none(cs0, line);
        }
        None
    }

    /// How many blocks the instrumenter placed on a line, and how many of
    /// them were entered; nothing when the line holds no code.
    pub fn line_block_stats(&self, line: u64) -> (r: Option<(u64, u64)>)
        ensures
            gc_lookup(self.spec_counters(), line) is None ==> r is None,
            gc_lookup(self.spec_counters(), line) matches Some(k) ==> {
                &&& r is Some
                &&& r->Some_0.1 == self.spec_counters()[k].1.1
                &&& (self.spec_counters()[k].1.0.spec_blocks() <= u64::MAX ==> r->Some_0.0 as nat
                    == self.spec_counters()[k].1.0.spec_blocks())
            },
    {
        let ghost cs0 = self.counters@;
        let mut k: usize = 0;
        let n = self.counters.len();
        while k < n
            invariant
                0 <= k <= n == self.counters@.len(),
                self.counters@ == cs0,
                forall|a: int| 0 <= a < k ==> (#[trigger] cs0[a]).0 != line,
            decreases n - k,
        {
            if self.counters[k].0 == line {
                proof {
                    lemma_gc_lookup_found(cs0, k as int, line);
                }
                let blocks: u64 = match &self.counters[k].1.0 {
                    Line::Empty => 0,
                    Line::Singlet(_) => 1,
                    Line::Plural(v) => {
                        if v.len() as u64 <= u64::MAX {
                            v.len() as u64
                        } else {
                            u64::MAX
                        }
                    },
                };
                return Some((blocks, self.counters[k].1.1));
            }
            k += 1;
        }
        proof {
            lemma_gc_lookup_none(cs0, line);
        }
        None
    }
}

/// The first matching index is the one the scan found.
proof fn lemma_gc_lookup_found(cs: Seq<(u64, (Line, u64))>, k: int, line: u64)
    requires
        0 <= k < cs.len(),
        cs[k].0 == line,
        forall|a: int| 0 <= a < k ==> (#[trigger] cs[a]).0 != line,
    ensures
        gc_lookup(cs, line) == Some(k),
    decreases k,
{
    if k > 0 {
        assert(cs[0].0 != line);
        assert(cs.drop_first()[k - 1].0 == line);
        assert(forall|a: int| 0 <= a < k - 1 ==> (#[trigger] cs.drop_first()[a]).0 != line);
        lemma_gc_lookup_found(cs.drop_first(), k - 1, line);
    }
}

/// With no matching entry, the lookup is empty.
proof fn lemma_gc_lookup_none(cs: Seq<(u64, (Line, u64))>, line: u64)
    requires
        forall|a: int| 0 <= a < cs.len() ==> (#[trigger] cs[a]).0 != line,
    ensures
        gc_lookup(cs, line) is None,
    decreases cs.len(),
{
    if cs.len() > 0 {
        assert(cs[0].0 != line);
        assert(forall|a: int| 0 <= a < cs.drop_first().len() ==> (#[trigger] cs.drop_first()[a]).0
            != line);
        lemma_gc_lookup_none(cs.drop_first(), line);
    }
}

/// The pair list of the first table entry for the file; empty when the
/// table has none.
pub open spec fn bpl_pairs(bpl: Seq<(usize, Vec<(u64, u64)>)>, p: usize) -> Seq<(u64, u64)>
    decreases bpl.len(),
{
    if bpl.len() == 0 {
        Seq::empty()
    } else if bpl.first().0 == p {
        bpl.first().1@
    } else {
        bpl_pairs(bpl.drop_first(), p)
    }
}

/// The first entry keyed by the file carries its pair list.
proof fn lemma_bpl_pairs_at(bpl: Seq<(usize, Vec<(u64, u64)>)>, e: int, p: usize)
    requires
        0 <= e < bpl.len(),
        bpl[e].0 == p,
        forall|a: int| 0 <= a < e ==> (#[trigger] bpl[a]).0 != p,
    ensures
        bpl_pairs(bpl, p) == bpl[e].1@,
    decreases e,
{
    if e > 0 {
        assert(bpl[0].0 != p);
        assert(bpl.drop_first()[e - 1].0 == p);
        assert(forall|a: int| 0 <= a < e - 1 ==> (#[trigger] bpl.drop_first()[a]).0 != p);
        lemma_bpl_pairs_at(bpl.drop_first(), e - 1, p);
    }
}

/// Without an entry, the pair list is empty.
proof fn lemma_bpl_pairs_none(bpl: Seq<(usize, Vec<(u64, u64)>)>, p: usize)
    requires
        forall|a: int| 0 <= a < bpl.len() ==> (#[trigger] bpl[a]).0 != p,
    ensures
        bpl_pairs(bpl, p) == Seq::<(u64, u64)>::empty(),
    decreases bpl.len(),
{
    if bpl.len() > 0 {
        assert(bpl[0].0 != p);
        assert(forall|a: int|
            0 <= a < bpl.drop_first().len() ==> (#[trigger] bpl.drop_first()[a]).0 != p);
        lemma_bpl_pairs_none(bpl.drop_first(), p);
    }
}

} // verus!

verus! {

/// The saturated total of one line.
pub open spec fn spec_sat_total(l: Line) -> u64 {
    if l.spec_total() <= u64::MAX {
        l.spec_total() as u64
    } else {
        u64::MAX
    }
}

/// The count column of one source line in a GCov listing: the total count,
/// or `-` when no block was entered; a `*` when some block was entered but
/// some instrumented block was not; nothing but `-:` for a line without
/// code.
pub open spec fn count_column(cs: Seq<(u64, (Line, u64))>, ln: u64) -> Seq<u8> {
    match gc_lookup(cs, ln) {
        None => "-:".spec_bytes(),
        Some(k) => {
            let l = cs[k].1.0;
            let expected = cs[k].1.1;
            let total = spec_sat_total(l);
            (if total > 0 {
                crate::numeral::dec_digits(total as nat)
            } else {
                "-".spec_bytes()
            }) + (if l.spec_blocks() > 0 && expected > l.spec_blocks() {
                "*".spec_bytes()
            } else {
                Seq::<u8>::empty()
            }) + ":".spec_bytes()
        },
    }
}

/// Appends a slice to a byte vector.
fn append_slice(dst: &mut Vec<u8>, src: &[u8])
    ensures
        final(dst)@ == old(dst)@ + src@,
{
    let n = src.len();
    let mut i: usize = 0;
    while i < n
        invariant
            0 <= i <= n == src@.len(),
            dst@ == old(dst)@ + src@.take(i as int),
        decreases n - i,
    {
        dst.push(*vstd::slice::slice_index_get(src, i));
        proof {
            assert(dst@ =~= old(dst)@ + src@.take(i + 1));
        }
        i += 1;
    }
    proof {
        assert(src@.take(n as int) =~= src@);
    }
}

impl GCovFile {
    /// Renders the count column of one source line.
    pub fn render_count_column(&self, line: u64) -> (r: Vec<u8>)
        ensures
            r@ == count_column(self.spec_counters(), line),
    {
        let ghost cs0 = self.counters@;
        let mut k: usize = 0;
        let n = self.counters.len();
        while k < n
            invariant
                0 <= k <= n == self.counters@.len(),
                self.counters@ == cs0,
                cs0 == self.spec_counters(),
                forall|a: int| 0 <= a < k ==> (#[trigger] cs0[a]).0 != line,
            decreases n - k,
        {
            if self.counters[k].0 == line {
                proof {
                    lemma_gc_lookup_found(cs0, k as int, line);
                }
                let total = self.counters[k].1.0.total_counters();
                let expected = self.counters[k].1.1;
                let blocks: u64 = match &self.counters[k].1.0 {
                    Line::Empty => 0,
                    Line::Singlet(_) => 1,
                    Line::Plural(v) => v.len() as u64,
                };
                let mut out: Vec<u8> = if total > 0 {
                    crate::numeral::u64_to_dec(total)
                } else {
                    vstd::slice::slice_to_vec("-".as_bytes())
                };
                if blocks > 0 && expected > blocks {
                    append_slice(&mut out, "*".as_bytes());
                }
                append_slice(&mut out, ":".as_bytes());
                proof {
                    assert(out@ =~= count_column(cs0, line));
                }
                return out;
            }
            k += 1;
        }
        proof {
            lemma_gc_lookup_none(cs0, line);
        }
        let out = vstd::slice::slice_to_vec("-:".as_bytes());
        proof {
            assert(out@ =~= count_column(cs0, line));
        }
        out
    }
}

} // verus!
