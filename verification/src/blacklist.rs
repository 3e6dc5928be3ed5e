//! The instrumentation blacklist.
//!
//! Functions on the canonical-ABI realloc chain must not call out of their
//! instance, so the instrumenter must not insert counter calls into them.
//! Starting from the realloc targets, [`process_blacklist`] closes the set
//! under intra-module calls: whenever a blacklisted function's body calls a
//! function of the same module that has an inline body, that function is
//! blacklisted too. Functions are identified by their textual span, the one
//! identifier that index rewrites cannot disturb.

use vstd::prelude::*;

use crate::model::{
    ExportKind, Field, IdxRef, InstrKind, ModField, ModFunc,
};

verus! {

broadcast use vstd::seq_lib::group_seq_properties;

/// Why the blacklist could not be built: an impossible index, a sign of a
/// broken reader.
#[derive(Clone, Copy, Debug, PartialEq, Eq, Structural)]
pub enum BlacklistError {
    /// A realloc target or export chain pointed at nothing.
    BadIndex,
}

/// A work queue with a memory: an item that was ever popped is never queued
/// again.
pub struct Blacklist {
    already_checked: Vec<usize>,
    queue: Vec<usize>,
}

impl Blacklist {
    /// The items that were popped so far.
    pub closed spec fn spec_checked(&self) -> Seq<usize> {
        self.already_checked@
    }

    /// The items waiting in the queue.
    pub closed spec fn spec_queue(&self) -> Seq<usize> {
        self.queue@
    }

    /// Creates an empty blacklist.
    pub fn new() -> (r: Blacklist)
        ensures
            r.spec_checked() == Seq::<usize>::empty(),
            r.spec_queue() == Seq::<usize>::empty(),
    {
        Blacklist { already_checked: Vec::new(), queue: Vec::new() }
    }

    /// Queues an item, unless it was already popped once.
    pub fn add_to_queue(&mut self, item: usize)
        ensures
            final(self).spec_checked() == old(self).spec_checked(),
            old(self).spec_checked().contains(item) ==> final(self).spec_queue() == old(
                self,
            ).spec_queue(),
            !old(self).spec_checked().contains(item) ==> final(self).spec_queue() == old(
                self,
            ).spec_queue().push(item),
    {
        let mut found: bool = false;
        let mut i: usize = 0;
        while i < self.already_checked.len()
            invariant
                0 <= i <= self.already_checked@.len(),
                self.already_checked@ == old(self).spec_checked(),
                self.queue@ == old(self).spec_queue(),
                found == exists|k: int| 0 <= k < i && old(self).spec_checked()[k] == item,
            decreases self.already_checked@.len() - i,
        {
            if self.already_checked[i] == item {
                found = true;
            }
            i += 1;
        }
        if !found {
            self.queue.push(item);
        }
    }

    /// The front of the queue, if any.
    pub fn get_next(&self) -> (r: Option<usize>)
        ensures
            self.spec_queue().len() == 0 ==> r is None,
            self.spec_queue().len() > 0 ==> r == Some(self.spec_queue().first()),
    {
        if self.queue.len() == 0 {
            None
        } else {
            Some(self.queue[0])
        }
    }

    /// Whether the queue is empty.
    pub fn is_queue_empty(&self) -> (r: bool)
        ensures
            r == (self.spec_queue().len() == 0),
    {
        self.queue.len() == 0
    }

    /// Pops the front of the queue into the memory of checked items.
    pub fn pop_next(&mut self)
        ensures
            old(self).spec_queue().len() == 0 ==> final(self).spec_queue() == old(
                self,
            ).spec_queue() && final(self).spec_checked() == old(self).spec_checked(),
            old(self).spec_queue().len() > 0 ==> final(self).spec_queue() == old(
                self,
            ).spec_queue().drop_first() && final(self).spec_checked() == old(
                self,
            ).spec_checked().push(old(self).spec_queue().first()),
    {
        if self.queue.len() > 0 {
            let item = self.queue.remove(0);
            self.already_checked.push(item);
        }
    }
}

// ------------------------------------------------------------------
// Resolving calls and exports inside a module
// ------------------------------------------------------------------

/// The module fields of the component field at `m`, when it is an inline
/// core module.
pub open spec fn mod_fields(fields: Seq<Field>, m: int) -> Seq<ModField> {
    match fields[m] {
        Field::CoreModule { fields: mfso, .. } => match mfso {
            Some(mfs) => mfs@,
            None => Seq::empty(),
        },
        _ => Seq::empty(),
    }
}

/// Whether the component field at `m` is an inline core module.
pub open spec fn is_module(fields: Seq<Field>, m: int) -> bool {
    &&& 0 <= m < fields.len()
    &&& match fields[m] {
        Field::CoreModule { fields: mfso, .. } => mfso is Some,
        _ => false,
    }
}

/// Whether the module field at `j` defines a function.
pub open spec fn func_at(mfs: Seq<ModField>, j: int) -> bool {
    &&& 0 <= j < mfs.len()
    &&& mfs[j] matches ModField::Func(_)
}

/// The function defined at `j`.
pub open spec fn the_func(mfs: Seq<ModField>, j: int) -> ModFunc {
    match mfs[j] {
        ModField::Func(f) => f,
        _ => arbitrary(),
    }
}

/// The position of the `n`-th function field at or after `from`.
pub open spec fn nth_func_pos(mfs: Seq<ModField>, n: int, from: int) -> Option<int>
    decreases mfs.len() - from when 0 <= from <= mfs.len()
{
    if from >= mfs.len() {
        None
    } else if mfs[from] matches ModField::Func(_) {
        if n == 0 {
            Some(from)
        } else {
            nth_func_pos(mfs, n - 1, from + 1)
        }
    } else {
        nth_func_pos(mfs, n, from + 1)
    }
}

/// Where a call index points within its module: the position of the
/// function field it names, for a numeric index. Symbolic and unresolvable
/// indices stay unresolved and end the blacklist frontier.
pub open spec fn resolve_call(mfs: Seq<ModField>, idx: IdxRef) -> Option<int> {
    match idx {
        IdxRef::Num { num, .. } => nth_func_pos(mfs, num as int, 0),
        IdxRef::Sym => None,
    }
}

/// Finds the position of the function field a call index names.
fn resolve_call_exec(mfs: &Vec<ModField>, idx: IdxRef) -> (r: Option<usize>)
    ensures
        match resolve_call(mfs@, idx) {
            Some(p) => r is Some && r->Some_0 as int == p,
            None => r is None,
        },
{
    let num = match idx {
        IdxRef::Num { num, .. } => num,
        IdxRef::Sym => {
            return None;
        },
    };
    let ghost ms = mfs@;
    let mut n: u32 = num;
    let mut i: usize = 0;
    while i < mfs.len()
        invariant
            0 <= i <= ms.len(),
            ms == mfs@,
            resolve_call(ms, idx) == nth_func_pos(ms, num as int, 0),
            nth_func_pos(ms, num as int, 0) == nth_func_pos(ms, n as int, i as int),
        decreases ms.len() - i,
    {
        match &mfs[i] {
            ModField::Func(_) => {
                if n == 0 {
                    proof {
                        assert(nth_func_pos(ms, 0, i as int) == Some(i as int));
                    }
                    return Some(i);
                }
                n = n - 1;
            },
            _ => {},
        }
        i += 1;
    }
    proof {
        assert(nth_func_pos(ms, n as int, ms.len() as int) is None);
    }
    None
}

// ------------------------------------------------------------------
// The closure law
// ------------------------------------------------------------------

/// One call of one blacklisted function is covered: if it resolves to a
/// function of the same module that has an inline body, that function's
/// span is blacklisted too.
pub open spec fn call_covered(fields: Seq<Field>, bl: Seq<usize>, m: int, j: int, k: int) -> bool {
    let mfs = mod_fields(fields, m);
    let body = the_func(mfs, j).body->Some_0@;
    match body[k].kind {
        InstrKind::Call(idx) => match resolve_call(mfs, idx) {
            Some(p) => the_func(mfs, p).body is Some ==> bl.contains(the_func(mfs, p).span),
            None => true,
        },
        _ => true,
    }
}

/// The blacklist is closed under intra-module calls: every call in the body
/// of a blacklisted inline function that resolves to an inline function of
/// the same module hits a blacklisted function.
pub open spec fn blacklist_closed(fields: Seq<Field>, bl: Seq<usize>) -> bool {
    forall|m: int, j: int, k: int|
        {
            let mfs = mod_fields(fields, m);
            (is_module(fields, m) && func_at(mfs, j) && bl.contains(the_func(mfs, j).span)
                && the_func(mfs, j).body is Some && 0 <= k < the_func(
                mfs,
                j,
            ).body->Some_0@.len()) ==> #[trigger] call_covered(fields, bl, m, j, k)
        }
}

/// A call of one blacklisted function is covered or still queued.
pub open spec fn call_covered_or_queued(
    fields: Seq<Field>,
    bl: Seq<usize>,
    queue: Seq<(usize, usize)>,
    m: int,
    j: int,
    k: int,
) -> bool {
    let mfs = mod_fields(fields, m);
    let body = the_func(mfs, j).body->Some_0@;
    match body[k].kind {
        InstrKind::Call(idx) => match resolve_call(mfs, idx) {
            Some(p) => the_func(mfs, p).body is Some ==> (bl.contains(the_func(mfs, p).span)
                || queue.contains((m as usize, p as usize))),
            None => true,
        },
        _ => true,
    }
}

/// The worklist invariant: every call of every blacklisted function is
/// covered or queued.
pub open spec fn closure_inv(
    fields: Seq<Field>,
    bl: Seq<usize>,
    queue: Seq<(usize, usize)>,
) -> bool {
    forall|m: int, j: int, k: int|
        {
            let mfs = mod_fields(fields, m);
            (is_module(fields, m) && func_at(mfs, j) && bl.contains(the_func(mfs, j).span)
                && the_func(mfs, j).body is Some && 0 <= k < the_func(
                mfs,
                j,
            ).body->Some_0@.len()) ==> #[trigger] call_covered_or_queued(fields, bl, queue, m, j, k)
        }
}

/// A queue entry names a function field of an inline module.
pub open spec fn entry_ok(fields: Seq<Field>, e: (usize, usize)) -> bool {
    &&& is_module(fields, e.0 as int)
    &&& func_at(mod_fields(fields, e.0 as int), e.1 as int)
}

/// The spans of the functions of one module, in order.
pub open spec fn spans_of_mfs(mfs: Seq<ModField>) -> Seq<usize>
    decreases mfs.len(),
{
    if mfs.len() == 0 {
        Seq::empty()
    } else {
        spans_of_mfs(mfs.drop_last()) + (match mfs.last() {
            ModField::Func(f) => seq![f.span],
            _ => Seq::empty(),
        })
    }
}

/// The spans of every function of every inline module, in order.
pub open spec fn all_func_spans(fields: Seq<Field>) -> Seq<usize>
    decreases fields.len(),
{
    if fields.len() == 0 {
        Seq::empty()
    } else {
        all_func_spans(fields.drop_last()) + (match fields.last() {
            Field::CoreModule { fields: mfso, .. } => match mfso {
                Some(mfs) => spans_of_mfs(mfs@),
                None => Seq::empty(),
            },
            _ => Seq::empty(),
        })
    }
}

/// A function's span is among its module's spans.
proof fn lemma_span_in_mfs(mfs: Seq<ModField>, j: int)
    requires
        func_at(mfs, j),
    ensures
        spans_of_mfs(mfs).contains(the_func(mfs, j).span),
    decreases mfs.len(),
{
    if j == mfs.len() - 1 {
        assert(spans_of_mfs(mfs)[spans_of_mfs(mfs.drop_last()).len() as int] == the_func(
            mfs,
            j,
        ).span);
    } else {
        assert(func_at(mfs.drop_last(), j));
        lemma_span_in_mfs(mfs.drop_last(), j);
        let w = choose|w: int|
            0 <= w < spans_of_mfs(mfs.drop_last()).len() && spans_of_mfs(mfs.drop_last())[w]
                == the_func(mfs.drop_last(), j).span;
        assert(spans_of_mfs(mfs)[w] == the_func(mfs, j).span);
    }
}

/// A function's span is among the component's spans.
proof fn lemma_span_in_fields(fields: Seq<Field>, m: int, j: int)
    requires
        is_module(fields, m),
        func_at(mod_fields(fields, m), j),
    ensures
        all_func_spans(fields).contains(the_func(mod_fields(fields, m), j).span),
    decreases fields.len(),
{
    let sp = the_func(mod_fields(fields, m), j).span;
    if m == fields.len() - 1 {
        lemma_span_in_mfs(mod_fields(fields, m), j);
        let w = choose|w: int|
            0 <= w < spans_of_mfs(mod_fields(fields, m)).len() && spans_of_mfs(
                mod_fields(fields, m),
            )[w] == sp;
        assert(all_func_spans(fields)[all_func_spans(fields.drop_last()).len() + w] == sp);
    } else {
        assert(is_module(fields.drop_last(), m));
        assert(mod_fields(fields.drop_last(), m) == mod_fields(fields, m));
        lemma_span_in_fields(fields.drop_last(), m, j);
        let w = choose|w: int|
            0 <= w < all_func_spans(fields.drop_last()).len() && all_func_spans(
                fields.drop_last(),
            )[w] == sp;
        assert(all_func_spans(fields)[w] == sp);
    }
}

/// With pairwise distinct spans, a span determines its function.
proof fn lemma_mfs_span_unique(mfs: Seq<ModField>, j1: int, j2: int)
    requires
        spans_of_mfs(mfs).no_duplicates(),
        func_at(mfs, j1),
        func_at(mfs, j2),
        the_func(mfs, j1).span == the_func(mfs, j2).span,
    ensures
        j1 == j2,
    decreases mfs.len(),
{
    if j1 != j2 {
        let lo = if j1 < j2 {
            j1
        } else {
            j2
        };
        let hi = if j1 < j2 {
            j2
        } else {
            j1
        };
        if hi == mfs.len() - 1 {
            assert(func_at(mfs.drop_last(), lo));
            assert(the_func(mfs.drop_last(), lo) == the_func(mfs, lo));
            lemma_span_in_mfs(mfs.drop_last(), lo);
            let w = choose|w: int|
                0 <= w < spans_of_mfs(mfs.drop_last()).len() && spans_of_mfs(mfs.drop_last())[w]
                    == the_func(mfs, lo).span;
            let n = spans_of_mfs(mfs.drop_last()).len() as int;
            assert(spans_of_mfs(mfs)[w] == spans_of_mfs(mfs)[n]);
            assert(false);
        } else {
            assert(spans_of_mfs(mfs.drop_last()).no_duplicates()) by {
                lemma_spans_prefix_nodup(mfs);
            }
            assert(func_at(mfs.drop_last(), lo) && func_at(mfs.drop_last(), hi));
            lemma_mfs_span_unique(mfs.drop_last(), lo, hi);
            assert(false);
        }
    }
}

/// Dropping the last field keeps the spans duplicate-free.
proof fn lemma_spans_prefix_nodup(mfs: Seq<ModField>)
    requires
        mfs.len() > 0,
        spans_of_mfs(mfs).no_duplicates(),
    ensures
        spans_of_mfs(mfs.drop_last()).no_duplicates(),
{
    let pre = spans_of_mfs(mfs.drop_last());
    assert forall|a: int, b: int| 0 <= a < b < pre.len() implies pre[a] != pre[b] by {
        assert(spans_of_mfs(mfs)[a] == pre[a]);
        assert(spans_of_mfs(mfs)[b] == pre[b]);
    }
}

/// Dropping the last field keeps the component's spans duplicate-free.
proof fn lemma_all_spans_prefix_nodup(fields: Seq<Field>)
    requires
        fields.len() > 0,
        all_func_spans(fields).no_duplicates(),
    ensures
        all_func_spans(fields.drop_last()).no_duplicates(),
{
    let pre = all_func_spans(fields.drop_last());
    assert forall|a: int, b: int| 0 <= a < b < pre.len() implies pre[a] != pre[b] by {
        assert(all_func_spans(fields)[a] == pre[a]);
        assert(all_func_spans(fields)[b] == pre[b]);
    }
}

/// The last module's spans are duplicate-free too.
proof fn lemma_last_mod_spans_nodup(fields: Seq<Field>, mfs: Seq<ModField>)
    requires
        fields.len() > 0,
        all_func_spans(fields).no_duplicates(),
        is_module(fields, fields.len() - 1),
        mod_fields(fields, fields.len() - 1) == mfs,
    ensures
        spans_of_mfs(mfs).no_duplicates(),
{
    let pre = all_func_spans(fields.drop_last());
    let suf = spans_of_mfs(mfs);
    assert forall|a: int, b: int| 0 <= a < b < suf.len() implies suf[a] != suf[b] by {
        assert(all_func_spans(fields)[pre.len() + a] == suf[a]);
        assert(all_func_spans(fields)[pre.len() + b] == suf[b]);
    }
}

/// With pairwise distinct spans over the whole component, a span determines
/// its module and function.
proof fn lemma_span_unique(fields: Seq<Field>, m1: int, j1: int, m2: int, j2: int)
    requires
        all_func_spans(fields).no_duplicates(),
        is_module(fields, m1),
        func_at(mod_fields(fields, m1), j1),
        is_module(fields, m2),
        func_at(mod_fields(fields, m2), j2),
        the_func(mod_fields(fields, m1), j1).span == the_func(mod_fields(fields, m2), j2).span,
    ensures
        m1 == m2 && j1 == j2,
    decreases fields.len(),
{
    let sp = the_func(mod_fields(fields, m1), j1).span;
    if m1 == m2 {
        let mfs = mod_fields(fields, m1);
        assert(spans_of_mfs(mfs).no_duplicates()) by {
            lemma_mod_spans_nodup(fields, m1);
        }
        lemma_mfs_span_unique(mfs, j1, j2);
    } else {
        let lo = if m1 < m2 {
            m1
        } else {
            m2
        };
        let hi = if m1 < m2 {
            m2
        } else {
            m1
        };
        let jlo = if m1 < m2 {
            j1
        } else {
            j2
        };
        let jhi = if m1 < m2 {
            j2
        } else {
            j1
        };
        if hi == fields.len() - 1 {
            assert(is_module(fields.drop_last(), lo));
            assert(mod_fields(fields.drop_last(), lo) == mod_fields(fields, lo));
            lemma_span_in_fields(fields.drop_last(), lo, jlo);
            let w = choose|w: int|
                0 <= w < all_func_spans(fields.drop_last()).len() && all_func_spans(
                    fields.drop_last(),
                )[w] == sp;
            lemma_span_in_mfs(mod_fields(fields, hi), jhi);
            let v = choose|v: int|
                0 <= v < spans_of_mfs(mod_fields(fields, hi)).len() && spans_of_mfs(
                    mod_fields(fields, hi),
                )[v] == sp;
            let n = all_func_spans(fields.drop_last()).len() as int;
            assert(all_func_spans(fields)[w] == all_func_spans(fields)[n + v]);
            assert(false);
        } else {
            lemma_all_spans_prefix_nodup(fields);
            assert(is_module(fields.drop_last(), lo) && is_module(fields.drop_last(), hi));
            assert(mod_fields(fields.drop_last(), lo) == mod_fields(fields, lo));
            assert(mod_fields(fields.drop_last(), hi) == mod_fields(fields, hi));
            lemma_span_unique(fields.drop_last(), lo, jlo, hi, jhi);
            assert(false);
        }
    }
}

/// Any module's spans are duplicate-free when the whole component's are.
proof fn lemma_mod_spans_nodup(fields: Seq<Field>, m: int)
    requires
        all_func_spans(fields).no_duplicates(),
        is_module(fields, m),
    ensures
        spans_of_mfs(mod_fields(fields, m)).no_duplicates(),
    decreases fields.len(),
{
    if m == fields.len() - 1 {
        lemma_last_mod_spans_nodup(fields, mod_fields(fields, m));
    } else {
        lemma_all_spans_prefix_nodup(fields);
        assert(is_module(fields.drop_last(), m));
        assert(mod_fields(fields.drop_last(), m) == mod_fields(fields, m));
        lemma_mod_spans_nodup(fields.drop_last(), m);
    }
}

} // verus!

verus! {

/// Whether the component field at `a` is an alias of a core-exported
/// function.
pub open spec fn is_func_alias(fields: Seq<Field>, a: int) -> bool {
    &&& 0 <= a < fields.len()
    &&& match fields[a] {
        Field::Alias { target, .. } => match target {
            crate::model::AliasTarget::CoreExport { kind, .. } => kind == ExportKind::Func,
            _ => false,
        },
        _ => false,
    }
}

/// Maps each realloc seed token to the module reference of the core
/// instance whose export it aliases, together with the alias field that
/// names the export. An unresolvable chain is an impossible index.
fn map_seed_to_exports(fields: &Vec<Field>, seed: &Vec<IdxRef>) -> (r: Result<
    Vec<(IdxRef, usize)>,
    BlacklistError,
>)
    ensures
        (r is Err) == (seed_scan(
            fields@,
            seed@,
            0,
            0,
            Seq::<Option<IdxRef>>::empty(),
            Seq::<(IdxRef, usize)>::empty(),
        ) is None),
        r matches Ok(v) ==> Some(v@) == seed_scan(
            fields@,
            seed@,
            0,
            0,
            Seq::<Option<IdxRef>>::empty(),
            Seq::<(IdxRef, usize)>::empty(),
        ),
        r matches Ok(v) ==> forall|i: int|
            0 <= i < v@.len() ==> is_func_alias(fields@, (#[trigger] v@[i]).1 as int),
{
    let ghost fs = fields@;
    let ghost sd = seed@;
    let mut out: Vec<(IdxRef, usize)> = Vec::new();
    let mut core_func_idx: usize = 0;
    let mut core_instances: Vec<Option<IdxRef>> = Vec::new();
    let mut a: usize = 0;
    while a < fields.len()
        invariant
            0 <= a <= fs.len(),
            fs == fields@,
            sd == seed@,
            seed_scan(fs, sd, 0, 0, Seq::<Option<IdxRef>>::empty(), Seq::<(IdxRef, usize)>::empty())
                == seed_scan(fs, sd, a as int, core_func_idx, core_instances@, out@),
            forall|i: int|
                0 <= i < out@.len() ==> is_func_alias(fs, (#[trigger] out@[i]).1 as int),
        decreases fs.len() - a,
    {
        match &fields[a] {
            Field::Alias { target: crate::model::AliasTarget::CoreExport {
                instance,
                kind: ExportKind::Func,
                ..
            }, .. } => {
                // does any seed token name this core-function index?
                let mut hit: bool = false;
                let mut st: usize = 0;
                while st < seed.len()
                    invariant
                        0 <= st <= sd.len(),
                        sd == seed@,
                        0 <= a < fs.len(),
                        fs == fields@,
                        is_func_alias(fs, a as int),
                        fs[a as int] matches Field::Alias { target: crate::model::AliasTarget::CoreExport { kind: ExportKind::Func, .. }, .. },
                        seed_scan(fs, sd, 0, 0, Seq::<Option<IdxRef>>::empty(), Seq::<(IdxRef, usize)>::empty())
                            == seed_scan(fs, sd, a as int, core_func_idx, core_instances@, out@),
                        forall|t: int| 0 <= t < st ==> !((#[trigger] sd[t]) matches IdxRef::Sym),
                        hit == exists|t: int|
                            0 <= t < st && ((#[trigger] sd[t]) matches IdxRef::Num { num, .. }
                                && num as usize == core_func_idx),
                        forall|i: int|
                            0 <= i < out@.len() ==> is_func_alias(
                                fs,
                                (#[trigger] out@[i]).1 as int,
                            ),
                    decreases sd.len() - st,
                {
                    match seed[st] {
                        IdxRef::Num { num, .. } => {
                            if num as usize == core_func_idx {
                                hit = true;
                                proof {
                                    assert((#[trigger] sd[st as int]) matches IdxRef::Num {
                                        num,
                                        ..
                                    } && num as usize == core_func_idx);
                                }
                            }
                        },
                        IdxRef::Sym => {
                            proof {
                                assert((#[trigger] sd[st as int]) matches IdxRef::Sym);
                                assert(seed_has_sym(sd));
                            }
                            return Err(BlacklistError::BadIndex);
                        },
                    }
                    st += 1;
                }
                proof {
                    assert(!seed_has_sym(sd)) by {
                        if seed_has_sym(sd) {
                            let t = choose|t: int|
                                0 <= t < sd.len() && (#[trigger] sd[t]) matches IdxRef::Sym;
                        }
                    }
                    assert(hit == seed_hits(sd, core_func_idx));
                }
                if hit {
                    let inum = match instance {
                        IdxRef::Num { num, .. } => *num as usize,
                        IdxRef::Sym => {
                            return Err(BlacklistError::BadIndex);
                        },
                    };
                    if inum >= core_instances.len() {
                        return Err(BlacklistError::BadIndex);
                    }
                    match core_instances[inum] {
                        Some(mref) => {
                            out.push((mref, a));
                        },
                        None => {
                            return Err(BlacklistError::BadIndex);
                        },
                    }
                }
                if core_func_idx < usize::MAX {
                    core_func_idx += 1;
                }
            },
            Field::CoreFunc { .. } => {
                if core_func_idx < usize::MAX {
                    core_func_idx += 1;
                }
            },
            Field::CoreInstance { kind, .. } => {
                match kind {
                    crate::model::CoreInstanceKind::Instantiate { module, .. } => {
                        core_instances.push(Some(*module));
                    },
                    crate::model::CoreInstanceKind::BundleOfExports(..) => {
                        core_instances.push(None);
                    },
                }
            },
            _ => {},
        }
        a += 1;
    }
    Ok(out)
}

/// Resolves each (module reference, alias field) pair to the function the
/// named export points at. A missing module, a binary module, or a missing
/// export is an impossible index.
fn resolve_export_entries(fields: &Vec<Field>, entries: &Vec<(IdxRef, usize)>) -> (r: Result<
    Vec<(usize, usize)>,
    BlacklistError,
>)
    requires
        forall|i: int|
            0 <= i < entries@.len() ==> is_func_alias(fields@, (#[trigger] entries@[i]).1 as int),
    ensures
        (r is Err) == (resolve_all(fields@, entries@) is None),
        r matches Ok(q) ==> Some(q@) == resolve_all(fields@, entries@),
        r matches Ok(q) ==> forall|i: int|
            0 <= i < q@.len() ==> entry_ok(fields@, #[trigger] q@[i]),
{
    let ghost fs = fields@;
    // the positions of the core-module fields, in order
    let mut mods: Vec<usize> = Vec::new();
    let mut i: usize = 0;
    while i < fields.len()
        invariant
            0 <= i <= fs.len(),
            fs == fields@,
            mods@ == module_positions(fs.take(i as int)),
            forall|k: int| 0 <= k < mods@.len() ==> (#[trigger] mods@[k]) < i,
            forall|k: int|
                0 <= k < mods@.len() ==> fs[(#[trigger] mods@[k]) as int] matches
                    Field::CoreModule { .. },
        decreases fs.len() - i,
    {
        proof {
            assert(fs.take(i + 1).drop_last() =~= fs.take(i as int));
            assert(fs.take(i + 1).last() == fs[i as int]);
        }
        match &fields[i] {
            Field::CoreModule { .. } => {
                mods.push(i);
                proof {
                    assert(mods@ =~= module_positions(fs.take(i + 1)));
                }
            },
            _ => {
                proof {
                    assert(mods@ =~= module_positions(fs.take(i + 1)));
                }
            },
        }
        i += 1;
    }
    proof {
        assert(fs.take(fs.len() as int) =~= fs);
    }
    let ghost es = entries@;
    let mut q: Vec<(usize, usize)> = Vec::new();
    let mut e: usize = 0;
    while e < entries.len()
        invariant
            0 <= e <= es.len(),
            fs == fields@,
            es == entries@,
            mods@ == module_positions(fs),
            forall|k: int| 0 <= k < mods@.len() ==> (#[trigger] mods@[k]) < fs.len(),
            forall|k: int|
                0 <= k < mods@.len() ==> fs[(#[trigger] mods@[k]) as int] matches
                    Field::CoreModule { .. },
            forall|i2: int|
                0 <= i2 < es.len() ==> is_func_alias(fs, (#[trigger] es[i2]).1 as int),
            resolve_all(fs, es.take(e as int)) == Some(q@),
            forall|k: int| 0 <= k < q@.len() ==> entry_ok(fs, #[trigger] q@[k]),
        decreases es.len() - e,
    {
        proof {
            assert(es.take(e + 1).drop_last() =~= es.take(e as int));
            assert(es.take(e + 1).last() == es[e as int]);
        }
        let (mref, alias_at) = entries[e];
        let mnum = match mref {
            IdxRef::Num { num, .. } => num as usize,
            IdxRef::Sym => {
                proof {
                    assert(resolve_entry(fs, es[e as int]) is None);
                    lemma_resolve_all_none(fs, es, e + 1);
                }
                return Err(BlacklistError::BadIndex);
            },
        };
        if mnum >= mods.len() {
            proof {
                assert(resolve_entry(fs, es[e as int]) is None);
                lemma_resolve_all_none(fs, es, e + 1);
            }
            return Err(BlacklistError::BadIndex);
        }
        let mpos = mods[mnum];
        let mfs: &Vec<ModField> = match &fields[mpos] {
            Field::CoreModule { fields: Some(m), .. } => m,
            _ => {
                proof {
                    assert(resolve_entry(fs, es[e as int]) is None);
                    lemma_resolve_all_none(fs, es, e + 1);
                }
                return Err(BlacklistError::BadIndex);
            },
        };
        // the export name the alias refers to
        let want: &Vec<u8> = match &fields[alias_at] {
            Field::Alias {
                target: crate::model::AliasTarget::CoreExport { name, .. },
                ..
            } => name,
            _ => {
                proof {
                    assert(is_func_alias(fs, alias_at as int));
                    assert(false);
                }
                return Err(BlacklistError::BadIndex);
            },
        };
        proof {
            assert(want@ == alias_name(fs, alias_at as int));
        }
        // find the first matching func export that resolves
        let mut found: Option<usize> = None;
        let mut j: usize = 0;
        while j < mfs.len()
            invariant
                0 <= j <= mfs@.len(),
                want@ == alias_name(fs, alias_at as int),
                match found {
                    Some(p) => func_at(mfs@, p as int) && find_export(
                        mfs@,
                        want@,
                        0,
                    ) == Some(p as int),
                    None => find_export(mfs@, want@, 0) == find_export(mfs@, want@, j as int),
                },
            decreases mfs@.len() - j,
        {
            if found.is_none() {
                match &mfs[j] {
                    ModField::Export { name, kind: ExportKind::Func, item, .. } => {
                        if crate::model::bytes_eq(name, want) {
                            match resolve_call_exec(mfs, *item) {
                                Some(p) => {
                                    proof {
                                        lemma_nth_func_pos_is_func(mfs@, *item);
                                    }
                                    found = Some(p);
                                },
                                None => {},
                            }
                        }
                    },
                    _ => {},
                }
            }
            j += 1;
        }
        match found {
            Some(p) => {
                proof {
                    assert(is_module(fs, mpos as int));
                    assert(resolve_entry(fs, es[e as int]) == Some((mpos, p)));
                    assert(resolve_all(fs, es.take(e + 1)) == Some(q@.push((mpos, p))));
                }
                q.push((mpos, p));
            },
            None => {
                proof {
                    assert(resolve_entry(fs, es[e as int]) is None);
                    lemma_resolve_all_none(fs, es, e + 1);
                }
                return Err(BlacklistError::BadIndex);
            },
        }
        e += 1;
    }
    proof {
        assert(es.take(es.len() as int) =~= es);
    }
    Ok(q)
}

/// A stopped resolution stays stopped.
proof fn lemma_resolve_all_none(fields: Seq<Field>, entries: Seq<(IdxRef, usize)>, i: int)
    requires
        0 <= i <= entries.len(),
        resolve_all(fields, entries.take(i)) is None,
    ensures
        resolve_all(fields, entries) is None,
    decreases entries.len() - i,
{
    if i < entries.len() {
        assert(entries.take(i + 1).drop_last() =~= entries.take(i));
        lemma_resolve_all_none(fields, entries, i + 1);
    } else {
        assert(entries.take(i) =~= entries);
    }
}

/// What `nth_func_pos` finds is a function field.
proof fn lemma_nth_func_pos_aux(mfs: Seq<ModField>, n: int, from: int)
    requires
        0 <= from <= mfs.len(),
    ensures
        match nth_func_pos(mfs, n, from) {
            Some(p) => func_at(mfs, p),
            None => true,
        },
    decreases mfs.len() - from,
{
    if from < mfs.len() {
        lemma_nth_func_pos_aux(mfs, n - 1, from + 1);
        lemma_nth_func_pos_aux(mfs, n, from + 1);
    }
}

/// What a call resolves to is a function field.
proof fn lemma_nth_func_pos_is_func(mfs: Seq<ModField>, idx: IdxRef)
    ensures
        match resolve_call(mfs, idx) {
            Some(p) => func_at(mfs, p),
            None => true,
        },
{
    match idx {
        IdxRef::Num { num, .. } => {
            lemma_nth_func_pos_aux(mfs, num as int, 0);
        },
        IdxRef::Sym => {},
    }
}

} // verus!

verus! {

/// Every call of the entry's function that resolves sits in the queue.
pub open spec fn calls_queued(fields: Seq<Field>, e: (usize, usize), q: Seq<(usize, usize)>) -> bool {
    let mfs = mod_fields(fields, e.0 as int);
    let body = the_func(mfs, e.1 as int).body->Some_0@;
    forall|k: int|
        0 <= k < body.len() ==> match (#[trigger] body[k]).kind {
            InstrKind::Call(idx) => match resolve_call(mfs, idx) {
                Some(p) => q.contains((e.0, p as usize)),
                None => true,
            },
            _ => true,
        }
}

/// The fields of an inline module fit in memory: the inner vector is a real
/// vector.
proof fn lemma_mod_fields_len(fields: Seq<Field>, m: int)
    requires
        is_module(fields, m),
    ensures
        mod_fields(fields, m).len() <= usize::MAX,
{
    match fields[m] {
        Field::CoreModule { fields: mfso, .. } => match mfso {
            Some(v) => {
                vstd::std_specs::vec::axiom_spec_len(&v);
            },
            None => {},
        },
        _ => {},
    }
}

/// Popping an entry whose function is not inline, or whose span is already
/// blacklisted, keeps the worklist invariant.
proof fn lemma_closure_pop(fields: Seq<Field>, bl: Seq<usize>, q0: Seq<(usize, usize)>)
    requires
        fields.len() <= usize::MAX,
        closure_inv(fields, bl, q0),
        q0.len() > 0,
        entry_ok(fields, q0.last()),
        the_func(mod_fields(fields, q0.last().0 as int), q0.last().1 as int).body is None
            || bl.contains(
            the_func(mod_fields(fields, q0.last().0 as int), q0.last().1 as int).span,
        ),
    ensures
        closure_inv(fields, bl, q0.drop_last()),
{
    let e = q0.last();
    let q1 = q0.drop_last();
    assert forall|m: int, j: int, k: int|
        {
            let mfs = mod_fields(fields, m);
            (is_module(fields, m) && func_at(mfs, j) && bl.contains(the_func(mfs, j).span)
                && the_func(mfs, j).body is Some && 0 <= k < the_func(
                mfs,
                j,
            ).body->Some_0@.len())
        } implies #[trigger] call_covered_or_queued(fields, bl, q1, m, j, k) by {
        assert(call_covered_or_queued(fields, bl, q0, m, j, k));
        let mfs = mod_fields(fields, m);
        let body = the_func(mfs, j).body->Some_0@;
        match body[k].kind {
            InstrKind::Call(idx) => {
                match resolve_call(mfs, idx) {
                    Some(p) => {
                        lemma_nth_func_pos_is_func(mfs, idx);
                        if the_func(mfs, p).body is Some && !bl.contains(the_func(mfs, p).span) {
                            assert(q0.contains((m as usize, p as usize)));
                            let w = choose|w: int|
                                0 <= w < q0.len() && q0[w] == (m as usize, p as usize);
                            if w < q0.len() - 1 {
                                assert(q1[w] == (m as usize, p as usize));
                                assert(q1.contains((m as usize, p as usize)));
                            } else {
                                // the popped entry itself: covered by the
                                // hypothesis on it
                                assert(q0[w] == e);
                                assert(e.0 == m as usize && e.1 == p as usize);
                                lemma_mod_fields_len(fields, m);
                                assert(m == e.0 as int && p == e.1 as int);
                                assert(false);
                            }
                        }
                    },
                    None => {},
                }
            },
            _ => {},
        }
    }
}

/// Blacklisting the popped entry after queueing all its resolved calls
/// keeps the worklist invariant.
proof fn lemma_closure_step(
    fields: Seq<Field>,
    bl: Seq<usize>,
    q0: Seq<(usize, usize)>,
    q1: Seq<(usize, usize)>,
)
    requires
        fields.len() <= usize::MAX,
        all_func_spans(fields).no_duplicates(),
        closure_inv(fields, bl, q0),
        q0.len() > 0,
        entry_ok(fields, q0.last()),
        the_func(mod_fields(fields, q0.last().0 as int), q0.last().1 as int).body is Some,
        forall|x: (usize, usize)| q0.drop_last().contains(x) ==> #[trigger] q1.contains(x),
        calls_queued(fields, q0.last(), q1),
    ensures
        closure_inv(
            fields,
            bl.push(the_func(mod_fields(fields, q0.last().0 as int), q0.last().1 as int).span),
            q1,
        ),
{
    let e = q0.last();
    let sp = the_func(mod_fields(fields, e.0 as int), e.1 as int).span;
    let bl1 = bl.push(sp);
    assert forall|m: int, j: int, k: int|
        {
            let mfs = mod_fields(fields, m);
            (is_module(fields, m) && func_at(mfs, j) && bl1.contains(the_func(mfs, j).span)
                && the_func(mfs, j).body is Some && 0 <= k < the_func(
                mfs,
                j,
            ).body->Some_0@.len())
        } implies #[trigger] call_covered_or_queued(fields, bl1, q1, m, j, k) by {
        let mfs = mod_fields(fields, m);
        let body = the_func(mfs, j).body->Some_0@;
        let spj = the_func(mfs, j).span;
        if bl.contains(spj) {
            assert(call_covered_or_queued(fields, bl, q0, m, j, k));
            match body[k].kind {
                InstrKind::Call(idx) => {
                    match resolve_call(mfs, idx) {
                        Some(p) => {
                            lemma_nth_func_pos_aux(mfs, match idx {
                                IdxRef::Num { num, .. } => num as int,
                                IdxRef::Sym => 0,
                            }, 0);
                            if the_func(mfs, p).body is Some {
                                if bl.contains(the_func(mfs, p).span) {
                                    assert(bl1.contains(the_func(mfs, p).span));
                                } else if q0.contains((m as usize, p as usize)) {
                                    let w = choose|w: int|
                                        0 <= w < q0.len() && q0[w] == (m as usize, p as usize);
                                    if w < q0.len() - 1 {
                                        assert(q0.drop_last()[w] == (m as usize, p as usize));
                                        assert(q0.drop_last().contains(
                                            (m as usize, p as usize),
                                        ));
                                    } else {
                                        // the call hits the entry just
                                        // blacklisted
                                        assert(q0[w] == e);
                                        assert(e.0 == m as usize && e.1 == p as usize);
                                        lemma_mod_fields_len(fields, m);
                                        assert(m == e.0 as int && p == e.1 as int);
                                        assert(the_func(mod_fields(fields, m), p).span == sp);
                                        assert(bl1[bl.len() as int] == sp);
                                        assert(bl1.contains(sp));
                                    }
                                }
                            }
                        },
                        None => {},
                    }
                },
                _ => {},
            }
        } else {
            // the function just blacklisted: its span determines it
            assert(bl1[bl.len() as int] == sp);
            assert(spj == sp) by {
                let w = choose|w: int| 0 <= w < bl1.len() && bl1[w] == spj;
                if w < bl.len() {
                    assert(bl.contains(spj));
                }
            }
            lemma_span_unique(fields, m, j, e.0 as int, e.1 as int);
            assert(calls_queued(fields, e, q1));
            assert(match body[k].kind {
                InstrKind::Call(idx) => match resolve_call(mfs, idx) {
                    Some(p) => q1.contains((e.0, p as usize)),
                    None => true,
                },
                _ => true,
            });
        }
    }
}

/// Popping a non-inline or already-blacklisted entry keeps every seed
/// function covered.
proof fn lemma_seeds_pop(
    fields: Seq<Field>,
    q0: Seq<(usize, usize)>,
    bl: Seq<usize>,
    q: Seq<(usize, usize)>,
)
    requires
        seeds_covered(fields, q0, bl, q),
        q.len() > 0,
        bl.contains(the_func(mod_fields(fields, q.last().0 as int), q.last().1 as int).span)
            || !(the_func(mod_fields(fields, q.last().0 as int), q.last().1 as int).body
            is Some),
    ensures
        seeds_covered(fields, q0, bl, q.drop_last()),
{
    let e = q.last();
    assert forall|k: int| 0 <= k < q0.len() implies entry_covered(
        fields,
        bl,
        q.drop_last(),
        #[trigger] q0[k],
    ) by {
        assert(entry_covered(fields, bl, q, q0[k]));
        if q.contains(q0[k]) {
            let w = choose|w: int| 0 <= w < q.len() && q[w] == q0[k];
            if w < q.len() - 1 {
                assert(q.drop_last()[w] == q0[k]);
                assert(q.drop_last().contains(q0[k]));
            } else {
                assert(q0[k] == e);
            }
        }
    }
}

/// Blacklisting the popped entry keeps every seed function covered.
proof fn lemma_seeds_step(
    fields: Seq<Field>,
    q0: Seq<(usize, usize)>,
    bl: Seq<usize>,
    q: Seq<(usize, usize)>,
    q1: Seq<(usize, usize)>,
)
    requires
        seeds_covered(fields, q0, bl, q),
        q.len() > 0,
        forall|x: (usize, usize)| q.drop_last().contains(x) ==> #[trigger] q1.contains(x),
    ensures
        seeds_covered(
            fields,
            q0,
            bl.push(the_func(mod_fields(fields, q.last().0 as int), q.last().1 as int).span),
            q1,
        ),
{
    let e = q.last();
    let sp = the_func(mod_fields(fields, e.0 as int), e.1 as int).span;
    let bl1 = bl.push(sp);
    assert forall|k: int| 0 <= k < q0.len() implies entry_covered(
        fields,
        bl1,
        q1,
        #[trigger] q0[k],
    ) by {
        assert(entry_covered(fields, bl, q, q0[k]));
        if bl.contains(the_func(mod_fields(fields, q0[k].0 as int), q0[k].1 as int).span) {
            let w = choose|w: int|
                0 <= w < bl.len() && bl[w] == the_func(
                    mod_fields(fields, q0[k].0 as int),
                    q0[k].1 as int,
                ).span;
            assert(bl1[w] == bl[w]);
            assert(bl1.contains(the_func(mod_fields(fields, q0[k].0 as int), q0[k].1 as int).span));
        } else if q.contains(q0[k]) {
            let w = choose|w: int| 0 <= w < q.len() && q[w] == q0[k];
            if w < q.len() - 1 {
                assert(q.drop_last()[w] == q0[k]);
                assert(q.drop_last().contains(q0[k]));
            } else {
                assert(q0[k] == e);
                assert(bl1[bl.len() as int] == sp);
                assert(bl1.contains(sp));
            }
        }
    }
}

/// Expands the realloc seed to the set of functions the instrumenter must
/// not touch: transitively, every function of the same module that a
/// blacklisted function calls. The result is closed under intra-module
/// calls; functions are named by their spans.
pub fn process_blacklist(fields: &Vec<Field>, seed: &Vec<IdxRef>) -> (r: Result<
    Vec<usize>,
    BlacklistError,
>)
    requires
        all_func_spans(fields@).no_duplicates(),
    ensures
        (r is Err) == (initial_queue(fields@, seed@) is None),
        r matches Ok(bl) ==> {
            &&& blacklist_closed(fields@, bl@)
            &&& match initial_queue(fields@, seed@) {
                Some(q0) => forall|k: int|
                    0 <= k < q0.len() ==> (the_func(
                        mod_fields(fields@, (#[trigger] q0[k]).0 as int),
                        q0[k].1 as int,
                    ).body is Some ==> bl@.contains(
                        the_func(mod_fields(fields@, q0[k].0 as int), q0[k].1 as int).span,
                    )),
                None => false,
            }
        },
{
    broadcast use vstd::seq_lib::seq_to_set_is_finite;

    let entries = match map_seed_to_exports(fields, seed) {
        Ok(v) => v,
        Err(x) => {
            return Err(x);
        },
    };
    let mut queue = match resolve_export_entries(fields, &entries) {
        Ok(v) => v,
        Err(x) => {
            return Err(x);
        },
    };
    let ghost q0seed = queue@;
    proof {
        assert(initial_queue(fields@, seed@) == Some(q0seed));
    }
    let mut bl: Vec<usize> = Vec::new();
    let ghost fs = fields@;
    proof {
        vstd::std_specs::vec::axiom_spec_len(fields);
    }
    let ghost spanset = all_func_spans(fs).to_set();
    while queue.len() > 0
        invariant
            fs == fields@,
            fs.len() <= usize::MAX,
            all_func_spans(fs).no_duplicates(),
            spanset == all_func_spans(fs).to_set(),
            forall|k: int| 0 <= k < queue@.len() ==> entry_ok(fs, #[trigger] queue@[k]),
            bl@.no_duplicates(),
            forall|k: int| 0 <= k < bl@.len() ==> spanset.contains(#[trigger] bl@[k]),
            closure_inv(fs, bl@, queue@),
            seeds_covered(fs, q0seed, bl@, queue@),
        decreases spanset.len() - bl@.to_set().len(), queue@.len(),
    {
        proof {
            bl@.unique_seq_to_set();
            all_func_spans(fs).lemma_cardinality_of_set();
            assert(bl@.to_set().subset_of(spanset));
            vstd::set_lib::lemma_len_subset(bl@.to_set(), spanset);
        }
        let ghost q0 = queue@;
        let ghost bl0 = bl@;
        let e = queue[queue.len() - 1];
        queue.pop();
        proof {
            assert(queue@ =~= q0.drop_last());
            assert(e == q0.last());
        }
        let mfs: &Vec<ModField> = match &fields[e.0] {
            Field::CoreModule { fields: Some(m), .. } => m,
            _ => {
                proof {
                    assert(entry_ok(fs, q0[q0.len() - 1]));
                    assert(false);
                }
                return Err(BlacklistError::BadIndex);
            },
        };
        let f: &ModFunc = match &mfs[e.1] {
            ModField::Func(ff) => ff,
            _ => {
                proof {
                    assert(entry_ok(fs, q0[q0.len() - 1]));
                    assert(false);
                }
                return Err(BlacklistError::BadIndex);
            },
        };
        let body: &Vec<crate::model::Instr> = match &f.body {
            Some(b) => b,
            None => {
                proof {
                    assert(entry_ok(fs, q0[q0.len() - 1]));
                    lemma_closure_pop(fs, bl@, q0);
                    lemma_seeds_pop(fs, q0seed, bl@, q0);
                }
                continue ;
            },
        };
        // skip a function whose span is already blacklisted
        let mut inbl: bool = false;
        let mut bi: usize = 0;
        while bi < bl.len()
            invariant
                0 <= bi <= bl@.len(),
                bl@ == bl0,
                inbl == exists|w: int| 0 <= w < bi && bl0[w] == f.span,
            decreases bl@.len() - bi,
        {
            if bl[bi] == f.span {
                inbl = true;
            }
            bi += 1;
        }
        if inbl {
            proof {
                assert(bl@.contains(f.span));
                assert(entry_ok(fs, q0[q0.len() - 1]));
                assert(the_func(mod_fields(fs, e.0 as int), e.1 as int).span == f.span);
                lemma_closure_pop(fs, bl@, q0);
                lemma_seeds_pop(fs, q0seed, bl@, q0);
            }
            continue ;
        }
        // queue every call of the body that resolves within the module
        let ghost qbase = queue@;
        let mut k: usize = 0;
        while k < body.len()
            invariant
                0 <= k <= body@.len(),
                fs == fields@,
                e.0 < fs.len(),
                is_module(fs, e.0 as int),
                mfs@ == mod_fields(fs, e.0 as int),
                func_at(mod_fields(fs, e.0 as int), e.1 as int),
                body@ == the_func(mod_fields(fs, e.0 as int), e.1 as int).body->Some_0@,
                forall|x: (usize, usize)| qbase.contains(x) ==> #[trigger] queue@.contains(x),
                forall|w: int| 0 <= w < queue@.len() ==> entry_ok(fs, #[trigger] queue@[w]),
                forall|x: int|
                    0 <= x < k ==> match (#[trigger] body@[x]).kind {
                        InstrKind::Call(idx) => match resolve_call(
                            mod_fields(fs, e.0 as int),
                            idx,
                        ) {
                            Some(p) => queue@.contains((e.0, p as usize)),
                            None => true,
                        },
                        _ => true,
                    },
            decreases body@.len() - k,
        {
            let ghost qprev = queue@;
            match body[k].kind {
                InstrKind::Call(idx) => {
                    match resolve_call_exec(mfs, idx) {
                        Some(p) => {
                            proof {
                                lemma_nth_func_pos_is_func(mfs@, idx);
                            }
                            queue.push((e.0, p));
                            proof {
                                assert forall|x: (usize, usize)|
                                    qprev.contains(x) implies #[trigger] queue@.contains(x) by {
                                    let w = choose|w: int|
                                        0 <= w < qprev.len() && qprev[w] == x;
                                    assert(queue@[w] == x);
                                }
                                assert(queue@[queue@.len() - 1] == (e.0, p));
                            }
                        },
                        None => {},
                    }
                },
                _ => {},
            }
            proof {
                assert forall|x: int|
                    0 <= x < k + 1 implies match (#[trigger] body@[x]).kind {
                    InstrKind::Call(idx) => match resolve_call(mod_fields(fs, e.0 as int), idx) {
                        Some(p) => queue@.contains((e.0, p as usize)),
                        None => true,
                    },
                    _ => true,
                } by {
                    if x < k {
                        match body@[x].kind {
                            InstrKind::Call(idx) => {
                                match resolve_call(mod_fields(fs, e.0 as int), idx) {
                                    Some(p) => {
                                        assert(qprev.contains((e.0, p as usize)));
                                    },
                                    None => {},
                                }
                            },
                            _ => {},
                        }
                    }
                }
            }
            k += 1;
        }
        let ghost blbefore = bl@;
        bl.push(f.span);
        proof {
            // the new span is fresh and known
            assert(!blbefore.contains(f.span)) by {
                if blbefore.contains(f.span) {
                    let w = choose|w: int| 0 <= w < blbefore.len() && blbefore[w] == f.span;
                }
            }
            assert(bl@.no_duplicates()) by {
                assert forall|a: int, b: int| 0 <= a < b < bl@.len() implies bl@[a] != bl@[b] by {
                    if b < blbefore.len() {
                        assert(bl@[a] == blbefore[a] && bl@[b] == blbefore[b]);
                    } else {
                        assert(bl@[b] == f.span && bl@[a] == blbefore[a]);
                        if blbefore[a] == f.span {
                            assert(blbefore.contains(f.span));
                        }
                    }
                }
            }
            lemma_span_in_fields(fs, e.0 as int, e.1 as int);
            assert(spanset.contains(f.span));
            assert forall|w: int| 0 <= w < bl@.len() implies spanset.contains(
                #[trigger] bl@[w],
            ) by {
                if w < blbefore.len() {
                    assert(bl@[w] == blbefore[w]);
                }
            }
            // the invariant is preserved
            assert(entry_ok(fs, q0[q0.len() - 1]));
            assert(calls_queued(fs, e, queue@));
            lemma_closure_step(fs, blbefore, q0, queue@);
            lemma_seeds_step(fs, q0seed, blbefore, q0, queue@);
            // and the measure falls
            bl@.unique_seq_to_set();
            blbefore.unique_seq_to_set();
            assert(bl@.to_set() =~= blbefore.to_set().insert(f.span));
            assert(bl@.to_set().subset_of(spanset));
            vstd::set_lib::lemma_len_subset(bl@.to_set(), spanset);
        }
    }
    proof {
        assert forall|k: int|
            0 <= k < q0seed.len() implies (the_func(
            mod_fields(fs, (#[trigger] q0seed[k]).0 as int),
            q0seed[k].1 as int,
        ).body is Some ==> bl@.contains(
            the_func(mod_fields(fs, q0seed[k].0 as int), q0seed[k].1 as int).span,
        )) by {
            assert(entry_covered(fs, bl@, queue@, q0seed[k]));
            if queue@.contains(q0seed[k]) {
                assert(false);
            }
        }
        assert forall|m: int, j: int, k: int|
            {
                let mfs = mod_fields(fs, m);
                (is_module(fs, m) && func_at(mfs, j) && bl@.contains(the_func(mfs, j).span)
                    && the_func(mfs, j).body is Some && 0 <= k < the_func(
                    mfs,
                    j,
                ).body->Some_0@.len())
            } implies #[trigger] call_covered(fs, bl@, m, j, k) by {
            assert(call_covered_or_queued(fs, bl@, queue@, m, j, k));
            let mfs = mod_fields(fs, m);
            let body = the_func(mfs, j).body->Some_0@;
            match body[k].kind {
                InstrKind::Call(idx) => {
                    match resolve_call(mfs, idx) {
                        Some(p) => {
                            if the_func(mfs, p).body is Some && !bl@.contains(
                                the_func(mfs, p).span,
                            ) {
                                assert(queue@.contains((m as usize, p as usize)));
                                assert(false);
                            }
                        },
                        None => {},
                    }
                },
                _ => {},
            }
        }
    }
    Ok(bl)
}

} // verus!

verus! {

/// Whether the seed holds a symbolic token, which the export chain cannot
/// resolve.
pub open spec fn seed_has_sym(seed: Seq<IdxRef>) -> bool {
    exists|s: int| 0 <= s < seed.len() && (#[trigger] seed[s]) matches IdxRef::Sym
}

/// Whether some seed token names this core-function index.
pub open spec fn seed_hits(seed: Seq<IdxRef>, cfi: usize) -> bool {
    exists|s: int|
        0 <= s < seed.len() && ((#[trigger] seed[s]) matches IdxRef::Num { num, .. } && num
            as usize == cfi)
}

/// The next core-function index, saturating at the machine bound.
pub open spec fn cfi_bump(cfi: usize) -> usize {
    if cfi < usize::MAX {
        (cfi + 1) as usize
    } else {
        cfi
    }
}

/// The walk that maps each hit realloc seed to the module reference of the
/// core instance whose export it aliases, together with the alias field
/// that names the export; an unresolvable chain yields nothing.
pub open spec fn seed_scan(
    fields: Seq<Field>,
    seed: Seq<IdxRef>,
    i: int,
    cfi: usize,
    insts: Seq<Option<IdxRef>>,
    out: Seq<(IdxRef, usize)>,
) -> Option<Seq<(IdxRef, usize)>>
    decreases fields.len() - i when 0 <= i <= fields.len()
{
    if i >= fields.len() {
        Some(out)
    } else {
        match fields[i] {
            Field::Alias { target, .. } => match target {
                crate::model::AliasTarget::CoreExport { instance, kind, .. } => {
                    if kind == ExportKind::Func {
                        if seed.len() > 0 && seed_has_sym(seed) {
                            None
                        } else if seed_hits(seed, cfi) {
                            match instance {
                                IdxRef::Num { num, .. } => {
                                    if num as int >= insts.len() {
                                        None
                                    } else {
                                        match insts[num as int] {
                                            Some(mref) => seed_scan(
                                                fields,
                                                seed,
                                                i + 1,
                                                cfi_bump(cfi),
                                                insts,
                                                out.push((mref, i as usize)),
                                            ),
                                            None => None,
                                        }
                                    }
                                },
                                IdxRef::Sym => None,
                            }
                        } else {
                            seed_scan(fields, seed, i + 1, cfi_bump(cfi), insts, out)
                        }
                    } else {
                        seed_scan(fields, seed, i + 1, cfi, insts, out)
                    }
                },
                _ => seed_scan(fields, seed, i + 1, cfi, insts, out),
            },
            Field::CoreFunc { .. } => seed_scan(fields, seed, i + 1, cfi_bump(cfi), insts, out),
            Field::CoreInstance { kind, .. } => seed_scan(
                fields,
                seed,
                i + 1,
                cfi,
                insts.push(
                    match kind {
                        crate::model::CoreInstanceKind::Instantiate { module, .. } => Some(module),
                        crate::model::CoreInstanceKind::BundleOfExports(..) => None,
                    },
                ),
                out,
            ),
            _ => seed_scan(fields, seed, i + 1, cfi, insts, out),
        }
    }
}

/// The positions of the core-module fields, in order.
pub open spec fn module_positions(fields: Seq<Field>) -> Seq<usize>
    decreases fields.len(),
{
    if fields.len() == 0 {
        Seq::empty()
    } else {
        module_positions(fields.drop_last()) + (match fields.last() {
            Field::CoreModule { .. } => seq![(fields.len() - 1) as usize],
            _ => Seq::empty(),
        })
    }
}

/// The export name an alias field refers to.
pub open spec fn alias_name(fields: Seq<Field>, a: int) -> Seq<u8> {
    match fields[a] {
        Field::Alias { target, .. } => match target {
            crate::model::AliasTarget::CoreExport { name, .. } => name@,
            _ => arbitrary(),
        },
        _ => arbitrary(),
    }
}

/// The function position behind the first export of the module that carries
/// the wanted name, is of kind func, and resolves.
pub open spec fn find_export(mfs: Seq<ModField>, want: Seq<u8>, j: int) -> Option<int>
    decreases mfs.len() - j when 0 <= j <= mfs.len()
{
    if j >= mfs.len() {
        None
    } else {
        match mfs[j] {
            ModField::Export { name, kind, item, .. } => {
                if kind == ExportKind::Func && name@ == want {
                    match resolve_call(mfs, item) {
                        Some(p) => Some(p),
                        None => find_export(mfs, want, j + 1),
                    }
                } else {
                    find_export(mfs, want, j + 1)
                }
            },
            _ => find_export(mfs, want, j + 1),
        }
    }
}

/// Resolves one (module reference, alias field) pair to the function the
/// named export points at.
pub open spec fn resolve_entry(fields: Seq<Field>, entry: (IdxRef, usize)) -> Option<
    (usize, usize),
> {
    match entry.0 {
        IdxRef::Num { num, .. } => {
            let mods = module_positions(fields);
            if num as int >= mods.len() {
                None
            } else {
                let mpos = mods[num as int];
                match fields[mpos as int] {
                    Field::CoreModule { fields: mfso, .. } => match mfso {
                        Some(mfs) => match find_export(mfs@, alias_name(fields, entry.1 as int), 0) {
                            Some(p) => Some((mpos, p as usize)),
                            None => None,
                        },
                        None => None,
                    },
                    _ => None,
                }
            }
        },
        IdxRef::Sym => None,
    }
}

/// Resolves every pair, in order; one unresolvable pair stops the stage.
pub open spec fn resolve_all(fields: Seq<Field>, entries: Seq<(IdxRef, usize)>) -> Option<
    Seq<(usize, usize)>,
>
    decreases entries.len(),
{
    if entries.len() == 0 {
        Some(Seq::empty())
    } else {
        match resolve_all(fields, entries.drop_last()) {
            None => None,
            Some(q) => match resolve_entry(fields, entries.last()) {
                Some(e) => Some(q.push(e)),
                None => None,
            },
        }
    }
}

/// The functions the realloc seed resolves to through the export chain:
/// what the blacklist starts from. Nothing when a chain is unresolvable.
pub open spec fn initial_queue(fields: Seq<Field>, seed: Seq<IdxRef>) -> Option<
    Seq<(usize, usize)>,
> {
    match seed_scan(fields, seed, 0, 0, Seq::empty(), Seq::empty()) {
        None => None,
        Some(es) => resolve_all(fields, es),
    }
}

/// One entry is blacklisted, still queued, or not inline.
pub open spec fn entry_covered(
    fields: Seq<Field>,
    bl: Seq<usize>,
    queue: Seq<(usize, usize)>,
    e: (usize, usize),
) -> bool {
    ||| bl.contains(the_func(mod_fields(fields, e.0 as int), e.1 as int).span)
    ||| queue.contains(e)
    ||| !(the_func(mod_fields(fields, e.0 as int), e.1 as int).body is Some)
}

/// Every function the seed resolved to is blacklisted, queued, or not
/// inline.
pub open spec fn seeds_covered(
    fields: Seq<Field>,
    q0: Seq<(usize, usize)>,
    bl: Seq<usize>,
    queue: Seq<(usize, usize)>,
) -> bool {
    forall|k: int| 0 <= k < q0.len() ==> entry_covered(fields, bl, queue, #[trigger] q0[k])
}

} // verus!
