//! The instrumentation passes that edit the component text.
//!
//! Every pass walks the field model, decides which index tokens to bump or
//! where to insert text, and performs its edits through the offset tracker,
//! so that all coordinates stay expressed against the original text. Each
//! pass's contract pins the resulting edit sequence exactly, as a fold of
//! the per-token or per-field steps over the model.

use vstd::prelude::*;
use vstd::string::StringSliceAdditionalSpecFns;

use crate::edits::Edit;
use crate::model::{
    AliasTarget, CanonOpt, ComponentExportKind, CoreFuncKind, CoreInstArg, CoreInstanceKind,
    Field, FuncKind, IdxRef, InstArg, InstanceKind, ModField, TypeDecl, TypeDef, WatShape,
};
use crate::offset_tracker::{
    bump_step, insert_step, lb_val, tracker_consistent, OffsetTracker,
};
use crate::scan::find_inst_head_from;

verus! {

// ------------------------------------------------------------------
// Generic bump machinery
// ------------------------------------------------------------------

/// The edits after the index bumper has seen the tokens in order.
pub open spec fn bump_fold(t: Seq<u8>, es: Seq<Edit>, toks: Seq<IdxRef>, lb: u32) -> Seq<Edit>
    decreases toks.len(),
{
    if toks.len() == 0 {
        es
    } else {
        bump_step(t, bump_fold(t, es, toks.drop_last(), lb), toks.last(), lb)
    }
}

/// Bumps every token of the list, in order, against the lower bound.
pub fn bump_tokens(
    tracker: &mut OffsetTracker,
    output: &mut Vec<u8>,
    text: &Vec<u8>,
    toks: &Vec<IdxRef>,
    lower_bound: Option<u32>,
)
    requires
        tracker_consistent(old(tracker), text@, old(output)@),
    ensures
        tracker_consistent(final(tracker), text@, final(output)@),
        final(tracker)@ == bump_fold(text@, old(tracker)@, toks@, lb_val(lower_bound)),
{
    let ghost t = text@;
    let ghost es0 = old(tracker)@;
    let mut i: usize = 0;
    while i < toks.len()
        invariant
            0 <= i <= toks@.len(),
            t == text@,
            tracker_consistent(tracker, t, output@),
            tracker@ == bump_fold(t, es0, toks@.take(i as int), lb_val(lower_bound)),
        decreases toks@.len() - i,
    {
        proof {
            assert(toks@.take(i + 1).drop_last() =~= toks@.take(i as int));
            assert(toks@.take(i + 1).last() == toks@[i as int]);
        }
        tracker.increment_idx(output, text, toks[i], lower_bound);
        i += 1;
    }
    proof {
        assert(toks@.take(toks@.len() as int) =~= toks@);
    }
}

// ------------------------------------------------------------------
// Token enumerations per index space
// ------------------------------------------------------------------

/// The instance-index tokens of one component-instance argument list.
pub open spec fn inst_args_instance_tokens(args: Seq<InstArg>) -> Seq<IdxRef>
    decreases args.len(),
{
    if args.len() == 0 {
        Seq::empty()
    } else {
        inst_args_instance_tokens(args.drop_last()) + (match args.last() {
            InstArg::Item(ComponentExportKind::Instance(i)) => seq![i],
            _ => Seq::empty(),
        })
    }
}

/// The instance-index tokens of one core-instance argument list.
pub open spec fn core_args_instance_tokens(args: Seq<CoreInstArg>) -> Seq<IdxRef>
    decreases args.len(),
{
    if args.len() == 0 {
        Seq::empty()
    } else {
        core_args_instance_tokens(args.drop_last()) + (match args.last() {
            CoreInstArg::Instance(i) => seq![i],
            _ => Seq::empty(),
        })
    }
}

/// The instance-index tokens of one field: core-instance references in alias
/// exports and in instantiation arguments.
pub open spec fn field_instance_tokens(f: Field) -> Seq<IdxRef> {
    match f {
        Field::Alias { target: AliasTarget::CoreExport { instance, .. }, .. } => seq![instance],
        Field::Instance { kind: InstanceKind::Instantiate { args }, .. } =>
            inst_args_instance_tokens(args@),
        Field::CoreInstance { kind: CoreInstanceKind::Instantiate { args, .. }, .. } =>
            core_args_instance_tokens(args@),
        _ => Seq::empty(),
    }
}

/// All instance-index tokens of the component, in field order.
pub open spec fn instance_tokens(fields: Seq<Field>) -> Seq<IdxRef>
    decreases fields.len(),
{
    if fields.len() == 0 {
        Seq::empty()
    } else {
        instance_tokens(fields.drop_last()) + field_instance_tokens(fields.last())
    }
}

/// The component-function tokens of a bundle of core exports.
pub open spec fn core_exports_func_tokens(exps: Seq<crate::model::CoreExportItem>) -> Seq<IdxRef>
    decreases exps.len(),
{
    if exps.len() == 0 {
        Seq::empty()
    } else {
        core_exports_func_tokens(exps.drop_last()) + (match exps.last().kind {
            crate::model::ExportKind::Func => seq![exps.last().idx],
            _ => Seq::empty(),
        })
    }
}

/// The component-function tokens of one core-instance argument list.
pub open spec fn core_args_func_tokens(args: Seq<CoreInstArg>) -> Seq<IdxRef>
    decreases args.len(),
{
    if args.len() == 0 {
        Seq::empty()
    } else {
        core_args_func_tokens(args.drop_last()) + (match args.last() {
            CoreInstArg::BundleOfExports(exps) => core_exports_func_tokens(exps@),
            _ => Seq::empty(),
        })
    }
}

/// The component-function tokens of a bundle of component exports.
pub open spec fn comp_exports_func_tokens(exps: Seq<ComponentExportKind>) -> Seq<IdxRef>
    decreases exps.len(),
{
    if exps.len() == 0 {
        Seq::empty()
    } else {
        comp_exports_func_tokens(exps.drop_last()) + (match exps.last() {
            ComponentExportKind::Func(i) => seq![i],
            _ => Seq::empty(),
        })
    }
}

/// The component-function tokens of one component-instance argument list.
pub open spec fn inst_args_func_tokens(args: Seq<InstArg>) -> Seq<IdxRef>
    decreases args.len(),
{
    if args.len() == 0 {
        Seq::empty()
    } else {
        inst_args_func_tokens(args.drop_last()) + (match args.last() {
            InstArg::Item(ComponentExportKind::Func(i)) => seq![i],
            InstArg::BundleOfExports(exps) => comp_exports_func_tokens(exps@),
            _ => Seq::empty(),
        })
    }
}

/// The component-function tokens of one field: `canon lower` arguments and
/// exports of kind func.
pub open spec fn field_comp_func_tokens(f: Field) -> Seq<IdxRef> {
    match f {
        Field::CoreFunc { kind: CoreFuncKind::Lower { func, .. }, .. } => seq![func],
        Field::CoreInstance { kind, .. } => match kind {
            CoreInstanceKind::Instantiate { args, .. } => core_args_func_tokens(args@),
            CoreInstanceKind::BundleOfExports(exps) => core_exports_func_tokens(exps@),
        },
        Field::Instance { kind: InstanceKind::Instantiate { args }, .. } => inst_args_func_tokens(
            args@,
        ),
        _ => Seq::empty(),
    }
}

/// All component-function tokens of the component, in field order.
pub open spec fn comp_func_tokens(fields: Seq<Field>) -> Seq<IdxRef>
    decreases fields.len(),
{
    if fields.len() == 0 {
        Seq::empty()
    } else {
        comp_func_tokens(fields.drop_last()) + field_comp_func_tokens(fields.last())
    }
}

/// The realloc tokens of one option list.
pub open spec fn opts_realloc_tokens(opts: Seq<CanonOpt>) -> Seq<IdxRef>
    decreases opts.len(),
{
    if opts.len() == 0 {
        Seq::empty()
    } else {
        opts_realloc_tokens(opts.drop_last()) + (match opts.last() {
            CanonOpt::Realloc(i) => seq![i],
            _ => Seq::empty(),
        })
    }
}

/// The core-function tokens of one field: realloc options of `canon lower`
/// and the argument of `canon lift`.
pub open spec fn field_core_func_tokens(f: Field) -> Seq<IdxRef> {
    match f {
        Field::CoreFunc { kind: CoreFuncKind::Lower { opts, .. }, .. } => opts_realloc_tokens(
            opts@,
        ),
        Field::Func { kind: FuncKind::Lift { func, .. }, .. } => seq![func],
        _ => Seq::empty(),
    }
}

/// All core-function tokens of the component, in field order.
pub open spec fn core_func_tokens(fields: Seq<Field>) -> Seq<IdxRef>
    decreases fields.len(),
{
    if fields.len() == 0 {
        Seq::empty()
    } else {
        core_func_tokens(fields.drop_last()) + field_core_func_tokens(fields.last())
    }
}

/// The realloc tokens of one field: the seed of the blacklist.
pub open spec fn field_realloc_tokens(f: Field) -> Seq<IdxRef> {
    match f {
        Field::CoreFunc { kind: CoreFuncKind::Lower { opts, .. }, .. } => opts_realloc_tokens(
            opts@,
        ),
        _ => Seq::empty(),
    }
}

/// All realloc tokens of the component, in field order.
pub open spec fn realloc_tokens(fields: Seq<Field>) -> Seq<IdxRef>
    decreases fields.len(),
{
    if fields.len() == 0 {
        Seq::empty()
    } else {
        realloc_tokens(fields.drop_last()) + field_realloc_tokens(fields.last())
    }
}

/// The type-reference tokens of a value-type list.
pub open spec fn valtype_tokens(vs: Seq<crate::model::ComponentValType>) -> Seq<IdxRef>
    decreases vs.len(),
{
    if vs.len() == 0 {
        Seq::empty()
    } else {
        valtype_tokens(vs.drop_last()) + (match vs.last() {
            crate::model::ComponentValType::Ref(i) => seq![i],
            _ => Seq::empty(),
        })
    }
}

/// The type-reference tokens inside one type definition.
pub open spec fn typedef_tokens(def: TypeDef) -> Seq<IdxRef>
    decreases def,
{
    match def {
        TypeDef::Func { params, results } => valtype_tokens(params@) + valtype_tokens(results@),
        TypeDef::Component(decls) => decls_tokens(decls@),
        _ => Seq::empty(),
    }
}

/// The type-reference tokens of the declarations of a component type.
pub open spec fn decls_tokens(decls: Seq<TypeDecl>) -> Seq<IdxRef>
    decreases decls,
{
    if decls.len() == 0 {
        Seq::empty()
    } else {
        decls_tokens(decls.drop_last()) + (match decls.last() {
            TypeDecl::Type(d) => typedef_tokens(*d),
            _ => Seq::empty(),
        })
    }
}

/// The type-index tokens of one field: `canon resource.drop` types,
/// references inside type definitions, and the type of a `canon lift`.
pub open spec fn field_type_tokens(f: Field) -> Seq<IdxRef> {
    match f {
        Field::CoreFunc { kind: CoreFuncKind::ResourceDrop { ty }, .. } => seq![ty],
        Field::Type { def, .. } => typedef_tokens(def),
        Field::Func { kind: FuncKind::Lift { ty: Some(r), .. }, .. } => seq![r],
        _ => Seq::empty(),
    }
}

/// All type-index tokens of the component, in field order.
pub open spec fn type_tokens(fields: Seq<Field>) -> Seq<IdxRef>
    decreases fields.len(),
{
    if fields.len() == 0 {
        Seq::empty()
    } else {
        type_tokens(fields.drop_last()) + field_type_tokens(fields.last())
    }
}

} // verus!

verus! {

// ------------------------------------------------------------------
// Exec token collectors
// ------------------------------------------------------------------

/// Collects the instance-index tokens of one component-instance argument
/// list.
fn push_inst_args_instance_tokens(out: &mut Vec<IdxRef>, args: &Vec<InstArg>)
    ensures
        final(out)@ == old(out)@ + inst_args_instance_tokens(args@),
{
    let ghost base = out@;
    let mut j: usize = 0;
    while j < args.len()
        invariant
            0 <= j <= args@.len(),
            out@ == base + inst_args_instance_tokens(args@.take(j as int)),
        decreases args@.len() - j,
    {
        proof {
            assert(args@.take(j + 1).drop_last() =~= args@.take(j as int));
            assert(args@.take(j + 1).last() == args@[j as int]);
        }
        match &args[j] {
            InstArg::Item(ComponentExportKind::Instance(i)) => {
                out.push(*i);
                proof {
                    assert(out@ =~= base + inst_args_instance_tokens(args@.take(j + 1)));
                }
            },
            _ => {},
        }
        j += 1;
    }
    proof {
        assert(args@.take(args@.len() as int) =~= args@);
    }
}

/// Collects the instance-index tokens of one core-instance argument list.
fn push_core_args_instance_tokens(out: &mut Vec<IdxRef>, args: &Vec<CoreInstArg>)
    ensures
        final(out)@ == old(out)@ + core_args_instance_tokens(args@),
{
    let ghost base = out@;
    let mut j: usize = 0;
    while j < args.len()
        invariant
            0 <= j <= args@.len(),
            out@ == base + core_args_instance_tokens(args@.take(j as int)),
        decreases args@.len() - j,
    {
        proof {
            assert(args@.take(j + 1).drop_last() =~= args@.take(j as int));
            assert(args@.take(j + 1).last() == args@[j as int]);
        }
        match &args[j] {
            CoreInstArg::Instance(i) => {
                out.push(*i);
                proof {
                    assert(out@ =~= base + core_args_instance_tokens(args@.take(j + 1)));
                }
            },
            _ => {},
        }
        j += 1;
    }
    proof {
        assert(args@.take(args@.len() as int) =~= args@);
    }
}

/// Collects every instance-index token of the component, in field order.
pub fn collect_instance_tokens(fields: &Vec<Field>) -> (r: Vec<IdxRef>)
    ensures
        r@ == instance_tokens(fields@),
{
    let mut out: Vec<IdxRef> = Vec::new();
    let mut i: usize = 0;
    while i < fields.len()
        invariant
            0 <= i <= fields@.len(),
            out@ == instance_tokens(fields@.take(i as int)),
        decreases fields@.len() - i,
    {
        proof {
            assert(fields@.take(i + 1).drop_last() =~= fields@.take(i as int));
            assert(fields@.take(i + 1).last() == fields@[i as int]);
        }
        let ghost before = out@;
        match &fields[i] {
            Field::Alias { target: AliasTarget::CoreExport { instance, .. }, .. } => {
                out.push(*instance);
                proof {
                    assert(out@ =~= before + field_instance_tokens(fields@[i as int]));
                }
            },
            Field::Instance { kind: InstanceKind::Instantiate { args }, .. } => {
                push_inst_args_instance_tokens(&mut out, args);
            },
            Field::CoreInstance { kind: CoreInstanceKind::Instantiate { args, .. }, .. } => {
                push_core_args_instance_tokens(&mut out, args);
            },
            _ => {
                proof {
                    assert(out@ =~= before + field_instance_tokens(fields@[i as int]));
                }
            },
        }
        proof {
            assert(out@ =~= instance_tokens(fields@.take(i + 1)));
        }
        i += 1;
    }
    proof {
        assert(fields@.take(fields@.len() as int) =~= fields@);
    }
    out
}

/// Collects the component-function tokens of a bundle of core exports.
fn push_core_exports_func_tokens(out: &mut Vec<IdxRef>, exps: &Vec<crate::model::CoreExportItem>)
    ensures
        final(out)@ == old(out)@ + core_exports_func_tokens(exps@),
{
    let ghost base = out@;
    let mut j: usize = 0;
    while j < exps.len()
        invariant
            0 <= j <= exps@.len(),
            out@ == base + core_exports_func_tokens(exps@.take(j as int)),
        decreases exps@.len() - j,
    {
        proof {
            assert(exps@.take(j + 1).drop_last() =~= exps@.take(j as int));
            assert(exps@.take(j + 1).last() == exps@[j as int]);
        }
        match exps[j].kind {
            crate::model::ExportKind::Func => {
                out.push(exps[j].idx);
                proof {
                    assert(out@ =~= base + core_exports_func_tokens(exps@.take(j + 1)));
                }
            },
            _ => {},
        }
        j += 1;
    }
    proof {
        assert(exps@.take(exps@.len() as int) =~= exps@);
    }
}

/// Collects the component-function tokens of a bundle of component exports.
fn push_comp_exports_func_tokens(out: &mut Vec<IdxRef>, exps: &Vec<ComponentExportKind>)
    ensures
        final(out)@ == old(out)@ + comp_exports_func_tokens(exps@),
{
    let ghost base = out@;
    let mut j: usize = 0;
    while j < exps.len()
        invariant
            0 <= j <= exps@.len(),
            out@ == base + comp_exports_func_tokens(exps@.take(j as int)),
        decreases exps@.len() - j,
    {
        proof {
            assert(exps@.take(j + 1).drop_last() =~= exps@.take(j as int));
            assert(exps@.take(j + 1).last() == exps@[j as int]);
        }
        match &exps[j] {
            ComponentExportKind::Func(i) => {
                out.push(*i);
                proof {
                    assert(out@ =~= base + comp_exports_func_tokens(exps@.take(j + 1)));
                }
            },
            _ => {},
        }
        j += 1;
    }
    proof {
        assert(exps@.take(exps@.len() as int) =~= exps@);
    }
}

/// Collects the component-function tokens of one core-instance argument
/// list.
fn push_core_args_func_tokens(out: &mut Vec<IdxRef>, args: &Vec<CoreInstArg>)
    ensures
        final(out)@ == old(out)@ + core_args_func_tokens(args@),
{
    let ghost base = out@;
    let mut j: usize = 0;
    while j < args.len()
        invariant
            0 <= j <= args@.len(),
            out@ == base + core_args_func_tokens(args@.take(j as int)),
        decreases args@.len() - j,
    {
        proof {
            assert(args@.take(j + 1).drop_last() =~= args@.take(j as int));
            assert(args@.take(j + 1).last() == args@[j as int]);
        }
        let ghost before = out@;
        match &args[j] {
            CoreInstArg::BundleOfExports(exps) => {
                push_core_exports_func_tokens(out, exps);
                proof {
                    assert(out@ =~= base + core_args_func_tokens(args@.take(j + 1)));
                }
            },
            _ => {},
        }
        proof {
            assert(out@ =~= base + core_args_func_tokens(args@.take(j + 1)));
        }
        j += 1;
    }
    proof {
        assert(args@.take(args@.len() as int) =~= args@);
    }
}

/// Collects the component-function tokens of one component-instance
/// argument list.
fn push_inst_args_func_tokens(out: &mut Vec<IdxRef>, args: &Vec<InstArg>)
    ensures
        final(out)@ == old(out)@ + inst_args_func_tokens(args@),
{
    let ghost base = out@;
    let mut j: usize = 0;
    while j < args.len()
        invariant
            0 <= j <= args@.len(),
            out@ == base + inst_args_func_tokens(args@.take(j as int)),
        decreases args@.len() - j,
    {
        proof {
            assert(args@.take(j + 1).drop_last() =~= args@.take(j as int));
            assert(args@.take(j + 1).last() == args@[j as int]);
        }
        match &args[j] {
            InstArg::Item(ComponentExportKind::Func(i)) => {
                out.push(*i);
            },
            InstArg::BundleOfExports(exps) => {
                push_comp_exports_func_tokens(out, exps);
            },
            _ => {},
        }
        proof {
            assert(out@ =~= base + inst_args_func_tokens(args@.take(j + 1)));
        }
        j += 1;
    }
    proof {
        assert(args@.take(args@.len() as int) =~= args@);
    }
}

/// Collects every component-function token of the component, in field
/// order.
pub fn collect_comp_func_tokens(fields: &Vec<Field>) -> (r: Vec<IdxRef>)
    ensures
        r@ == comp_func_tokens(fields@),
{
    let mut out: Vec<IdxRef> = Vec::new();
    let mut i: usize = 0;
    while i < fields.len()
        invariant
            0 <= i <= fields@.len(),
            out@ == comp_func_tokens(fields@.take(i as int)),
        decreases fields@.len() - i,
    {
        proof {
            assert(fields@.take(i + 1).drop_last() =~= fields@.take(i as int));
            assert(fields@.take(i + 1).last() == fields@[i as int]);
        }
        let ghost before = out@;
        match &fields[i] {
            Field::CoreFunc { kind: CoreFuncKind::Lower { func, .. }, .. } => {
                out.push(*func);
            },
            Field::CoreInstance { kind, .. } => {
                match kind {
                    CoreInstanceKind::Instantiate { args, .. } => {
                        push_core_args_func_tokens(&mut out, args);
                    },
                    CoreInstanceKind::BundleOfExports(exps) => {
                        push_core_exports_func_tokens(&mut out, exps);
                    },
                }
            },
            Field::Instance { kind: InstanceKind::Instantiate { args }, .. } => {
                push_inst_args_func_tokens(&mut out, args);
            },
            _ => {},
        }
        proof {
            assert(out@ =~= comp_func_tokens(fields@.take(i + 1)));
        }
        i += 1;
    }
    proof {
        assert(fields@.take(fields@.len() as int) =~= fields@);
    }
    out
}

/// Collects the realloc tokens of one option list.
fn push_opts_realloc_tokens(out: &mut Vec<IdxRef>, opts: &Vec<CanonOpt>)
    ensures
        final(out)@ == old(out)@ + opts_realloc_tokens(opts@),
{
    let ghost base = out@;
    let mut j: usize = 0;
    while j < opts.len()
        invariant
            0 <= j <= opts@.len(),
            out@ == base + opts_realloc_tokens(opts@.take(j as int)),
        decreases opts@.len() - j,
    {
        proof {
            assert(opts@.take(j + 1).drop_last() =~= opts@.take(j as int));
            assert(opts@.take(j + 1).last() == opts@[j as int]);
        }
        match &opts[j] {
            CanonOpt::Realloc(i) => {
                out.push(*i);
            },
            _ => {},
        }
        proof {
            assert(out@ =~= base + opts_realloc_tokens(opts@.take(j + 1)));
        }
        j += 1;
    }
    proof {
        assert(opts@.take(opts@.len() as int) =~= opts@);
    }
}

/// Collects every core-function token of the component, together with the
/// realloc tokens that seed the blacklist.
pub fn collect_core_func_tokens(fields: &Vec<Field>) -> (r: (Vec<IdxRef>, Vec<IdxRef>))
    ensures
        r.0@ == core_func_tokens(fields@),
        r.1@ == realloc_tokens(fields@),
{
    let mut out: Vec<IdxRef> = Vec::new();
    let mut seed: Vec<IdxRef> = Vec::new();
    let mut i: usize = 0;
    while i < fields.len()
        invariant
            0 <= i <= fields@.len(),
            out@ == core_func_tokens(fields@.take(i as int)),
            seed@ == realloc_tokens(fields@.take(i as int)),
        decreases fields@.len() - i,
    {
        proof {
            assert(fields@.take(i + 1).drop_last() =~= fields@.take(i as int));
            assert(fields@.take(i + 1).last() == fields@[i as int]);
        }
        match &fields[i] {
            Field::CoreFunc { kind: CoreFuncKind::Lower { opts, .. }, .. } => {
                push_opts_realloc_tokens(&mut out, opts);
                push_opts_realloc_tokens(&mut seed, opts);
            },
            Field::Func { kind: FuncKind::Lift { func, .. }, .. } => {
                out.push(*func);
            },
            _ => {},
        }
        proof {
            assert(out@ =~= core_func_tokens(fields@.take(i + 1)));
            assert(seed@ =~= realloc_tokens(fields@.take(i + 1)));
        }
        i += 1;
    }
    proof {
        assert(fields@.take(fields@.len() as int) =~= fields@);
    }
    (out, seed)
}

/// Collects the type-reference tokens of a value-type list.
fn push_valtype_tokens(out: &mut Vec<IdxRef>, vs: &Vec<crate::model::ComponentValType>)
    ensures
        final(out)@ == old(out)@ + valtype_tokens(vs@),
{
    let ghost base = out@;
    let mut j: usize = 0;
    while j < vs.len()
        invariant
            0 <= j <= vs@.len(),
            out@ == base + valtype_tokens(vs@.take(j as int)),
        decreases vs@.len() - j,
    {
        proof {
            assert(vs@.take(j + 1).drop_last() =~= vs@.take(j as int));
            assert(vs@.take(j + 1).last() == vs@[j as int]);
        }
        match &vs[j] {
            crate::model::ComponentValType::Ref(i) => {
                out.push(*i);
            },
            _ => {},
        }
        proof {
            assert(out@ =~= base + valtype_tokens(vs@.take(j + 1)));
        }
        j += 1;
    }
    proof {
        assert(vs@.take(vs@.len() as int) =~= vs@);
    }
}

/// Collects the type-reference tokens inside one type definition.
#[verifier::loop_isolation(false)]
fn push_typedef_tokens(out: &mut Vec<IdxRef>, def: &TypeDef)
    ensures
        final(out)@ == old(out)@ + typedef_tokens(*def),
    decreases *def,
{
    let ghost base = out@;
    match def {
        TypeDef::Func { params, results } => {
            push_valtype_tokens(out, params);
            push_valtype_tokens(out, results);
            proof {
                assert(out@ =~= base + typedef_tokens(*def));
            }
        },
        TypeDef::Component(decls) => {
            let mut j: usize = 0;
            while j < decls.len()
                invariant
                    0 <= j <= decls@.len(),
                    out@ == base + decls_tokens(decls@.take(j as int)),
                decreases decls@.len() - j,
            {
                proof {
                    assert(decls@.take(j + 1).drop_last() =~= decls@.take(j as int));
                    assert(decls@.take(j + 1).last() == decls@[j as int]);
                }
                match &decls[j] {
                    TypeDecl::Type(d) => {
                        push_typedef_tokens(out, d);
                    },
                    _ => {},
                }
                proof {
                    assert(out@ =~= base + decls_tokens(decls@.take(j + 1)));
                }
                j += 1;
            }
            proof {
                assert(decls@.take(decls@.len() as int) =~= decls@);
            }
        },
        _ => {},
    }
}

/// Collects every type-index token of the component, in field order.
pub fn collect_type_tokens(fields: &Vec<Field>) -> (r: Vec<IdxRef>)
    ensures
        r@ == type_tokens(fields@),
{
    let mut out: Vec<IdxRef> = Vec::new();
    let mut i: usize = 0;
    while i < fields.len()
        invariant
            0 <= i <= fields@.len(),
            out@ == type_tokens(fields@.take(i as int)),
        decreases fields@.len() - i,
    {
        proof {
            assert(fields@.take(i + 1).drop_last() =~= fields@.take(i as int));
            assert(fields@.take(i + 1).last() == fields@[i as int]);
        }
        match &fields[i] {
            Field::CoreFunc { kind: CoreFuncKind::ResourceDrop { ty }, .. } => {
                out.push(*ty);
            },
            Field::Type { def, .. } => {
                push_typedef_tokens(&mut out, def);
            },
            Field::Func { kind: FuncKind::Lift { ty: Some(r), .. }, .. } => {
                out.push(*r);
            },
            _ => {},
        }
        proof {
            assert(out@ =~= type_tokens(fields@.take(i + 1)));
        }
        i += 1;
    }
    proof {
        assert(fields@.take(fields@.len() as int) =~= fields@);
    }
    out
}

// ------------------------------------------------------------------
// The four index-bump passes
// ------------------------------------------------------------------

/// Bumps every instance index: a new core instance is about to be prepended
/// to the instance space.
pub fn bump_instance_idxs(
    tracker: &mut OffsetTracker,
    output: &mut Vec<u8>,
    text: &Vec<u8>,
    fields: &Vec<Field>,
)
    requires
        tracker_consistent(old(tracker), text@, old(output)@),
    ensures
        tracker_consistent(final(tracker), text@, final(output)@),
        final(tracker)@ == bump_fold(text@, old(tracker)@, instance_tokens(fields@), 0),
{
    let toks = collect_instance_tokens(fields);
    bump_tokens(tracker, output, text, &toks, None);
}

/// Bumps every component-function index: the lowered counter import becomes
/// component function zero.
pub fn bump_comp_func_idxs(
    tracker: &mut OffsetTracker,
    output: &mut Vec<u8>,
    text: &Vec<u8>,
    fields: &Vec<Field>,
)
    requires
        tracker_consistent(old(tracker), text@, old(output)@),
    ensures
        tracker_consistent(final(tracker), text@, final(output)@),
        final(tracker)@ == bump_fold(text@, old(tracker)@, comp_func_tokens(fields@), 0),
{
    let toks = collect_comp_func_tokens(fields);
    bump_tokens(tracker, output, text, &toks, None);
}

/// Bumps every core-function index and returns the realloc tokens that seed
/// the blacklist.
pub fn bump_core_func_idxs(
    tracker: &mut OffsetTracker,
    output: &mut Vec<u8>,
    text: &Vec<u8>,
    fields: &Vec<Field>,
) -> (r: Vec<IdxRef>)
    requires
        tracker_consistent(old(tracker), text@, old(output)@),
    ensures
        tracker_consistent(final(tracker), text@, final(output)@),
        final(tracker)@ == bump_fold(text@, old(tracker)@, core_func_tokens(fields@), 0),
        r@ == realloc_tokens(fields@),
{
    let (toks, seed) = collect_core_func_tokens(fields);
    bump_tokens(tracker, output, text, &toks, None);
    seed
}

/// Bumps every type index at or above the bound; references below it point
/// into the pre-import type space and stay.
pub fn bump_type_idxs(
    tracker: &mut OffsetTracker,
    output: &mut Vec<u8>,
    text: &Vec<u8>,
    fields: &Vec<Field>,
    lower_bound: u32,
)
    requires
        tracker_consistent(old(tracker), text@, old(output)@),
    ensures
        tracker_consistent(final(tracker), text@, final(output)@),
        final(tracker)@ == bump_fold(text@, old(tracker)@, type_tokens(fields@), lower_bound),
{
    let toks = collect_type_tokens(fields);
    bump_tokens(tracker, output, text, &toks, Some(lower_bound));
}

} // verus!

verus! {

// ------------------------------------------------------------------
// Inserted text
// ------------------------------------------------------------------

/// The component-level import of the counter host function.
pub open spec fn comp_import_line() -> Seq<u8> {
    "(import \"inc-counter\" (func $inc-counter (param \"idx\" s32) (param \"type\" s32) (param \"file-idx\" s32) (param \"line-num\" s32) (param \"column\" s32)))".spec_bytes()
}

/// Builds the component-level import line.
pub fn comp_import_line_exec() -> (r: Vec<u8>)
    ensures
        r@ == comp_import_line(),
{
    vstd::slice::slice_to_vec(
        "(import \"inc-counter\" (func $inc-counter (param \"idx\" s32) (param \"type\" s32) (param \"file-idx\" s32) (param \"line-num\" s32) (param \"column\" s32)))".as_bytes(),
    )
}

/// The core-level import of the counter function inside each module.
pub open spec fn module_import_line() -> Seq<u8> {
    "(import \"inc-counter-module\" \"inc-counter\" (func $inc-counter (param i32) (param i32) (param i32) (param i32) (param i32)))\n".spec_bytes()
}

/// Builds the core-level import line.
pub fn module_import_line_exec() -> (r: Vec<u8>)
    ensures
        r@ == module_import_line(),
{
    vstd::slice::slice_to_vec(
        "(import \"inc-counter-module\" \"inc-counter\" (func $inc-counter (param i32) (param i32) (param i32) (param i32) (param i32)))\n".as_bytes(),
    )
}

/// The extra instantiation argument wiring the counter instance in.
pub open spec fn with_arg_line() -> Seq<u8> {
    "(with \"inc-counter-module\" (instance $inc-counter-module))".spec_bytes()
}

/// Builds the extra instantiation argument.
pub fn with_arg_line_exec() -> (r: Vec<u8>)
    ensures
        r@ == with_arg_line(),
{
    vstd::slice::slice_to_vec(
        "(with \"inc-counter-module\" (instance $inc-counter-module))".as_bytes(),
    )
}

/// The lowering of the imported function and the instance that exports it.
pub open spec fn canon_lower_lines() -> Seq<u8> {
    "(core func $inc-counter (canon lower (func $inc-counter)))\n(core instance $inc-counter-module (export \"inc-counter\" (func $inc-counter)))\n".spec_bytes()
}

/// Builds the lowering and instance lines.
pub fn canon_lower_lines_exec() -> (r: Vec<u8>)
    ensures
        r@ == canon_lower_lines(),
{
    vstd::slice::slice_to_vec(
        "(core func $inc-counter (canon lower (func $inc-counter)))\n(core instance $inc-counter-module (export \"inc-counter\" (func $inc-counter)))\n".as_bytes(),
    )
}

// ------------------------------------------------------------------
// The component-level import pass
// ------------------------------------------------------------------

/// One less, clamped at zero: insertions land on the byte before a field's
/// opening parenthesis.
pub open spec fn sub1(n: nat) -> nat {
    if n >= 1 {
        (n - 1) as nat
    } else {
        0
    }
}

/// Whether the field belongs to the leading type/import/alias group.
pub open spec fn is_leading(f: Field) -> bool {
    ||| f matches Field::Type { .. }
    ||| f matches Field::Import { .. }
    ||| f matches Field::Alias { .. }
}

/// How much the field advances the leading type count.
pub open spec fn leading_type_inc(f: Field) -> nat {
    match f {
        Field::Type { .. } => 1,
        Field::Alias { target: AliasTarget::Export { is_type: true }, .. } => 1,
        _ => 0,
    }
}

/// Where the component-level import goes: one byte before the first
/// spanned field that follows a member of the leading group.
pub open spec fn import_insert_offset(fields: Seq<Field>, was: bool) -> Option<nat>
    decreases fields.len(),
{
    if fields.len() == 0 {
        None
    } else {
        let f = fields.first();
        if is_leading(f) {
            import_insert_offset(fields.drop_first(), true)
        } else if was && crate::model::spec_get_span(&f) is Some {
            Some(sub1(crate::model::spec_get_span(&f)->Some_0 as nat))
        } else {
            import_insert_offset(fields.drop_first(), was)
        }
    }
}

/// The number of types among the leading fields, up to the insertion point:
/// the bound below which type references stay untouched.
pub open spec fn type_count_until(fields: Seq<Field>, was: bool) -> nat
    decreases fields.len(),
{
    if fields.len() == 0 {
        0
    } else {
        let f = fields.first();
        if is_leading(f) {
            leading_type_inc(f) + type_count_until(fields.drop_first(), true)
        } else if was && crate::model::spec_get_span(&f) is Some {
            0
        } else {
            type_count_until(fields.drop_first(), was)
        }
    }
}

/// The location the import pass inserts at; the start of the text when no
/// insertion point was found.
pub open spec fn import_insert_loc(fields: Seq<Field>) -> nat {
    match import_insert_offset(fields, false) {
        Some(o) => o,
        None => 0,
    }
}

/// Inserts the component-level import of `inc-counter` after the last
/// leading type/import/alias field, and returns the count of types seen
/// among the leading fields: the bound for the type-index pass.
pub fn add_inc_import_section(
    tracker: &mut OffsetTracker,
    output: &mut Vec<u8>,
    text: &Vec<u8>,
    fields: &Vec<Field>,
) -> (r: u32)
    requires
        tracker_consistent(old(tracker), text@, old(output)@),
        fields@.len() < u32::MAX,
    ensures
        tracker_consistent(final(tracker), text@, final(output)@),
        final(tracker)@ == insert_step(
            text@,
            old(tracker)@,
            import_insert_loc(fields@),
            comp_import_line(),
        ),
        r as nat == type_count_until(fields@, false),
{
    let ghost fs = fields@;
    let mut was: bool = false;
    let mut count: u32 = 0;
    let mut offset: usize = 0;
    let mut found: bool = false;
    let mut i: usize = 0;
    proof {
        assert(fs.skip(0) =~= fs);
    }
    while i < fields.len()
        invariant
            0 <= i <= fs.len(),
            fs == fields@,
            fs.len() < u32::MAX,
            count as int <= i,
            !found ==> import_insert_offset(fs, false) == import_insert_offset(
                fs.skip(i as int),
                was,
            ),
            !found ==> type_count_until(fs, false) == count + type_count_until(
                fs.skip(i as int),
                was,
            ),
            !found ==> offset == 0,
            found ==> import_insert_offset(fs, false) == Some(offset as nat),
            found ==> type_count_until(fs, false) == count as nat,
        decreases fs.len() - i,
    {
        proof {
            assert(fs.skip(i as int).first() == fs[i as int]);
            assert(fs.skip(i as int).drop_first() =~= fs.skip(i + 1));
        }
        if !found {
            match &fields[i] {
                Field::Type { .. } => {
                    was = true;
                    count = count + 1;
                },
                Field::Import { .. } => {
                    was = true;
                },
                Field::Alias { target, .. } => {
                    was = true;
                    match target {
                        AliasTarget::Export { is_type: true } => {
                            count = count + 1;
                        },
                        _ => {},
                    }
                },
                _ => {
                    if was {
                        match crate::model::get_span(&fields[i]) {
                            Some(s) => {
                                found = true;
                                offset = if s >= 1 {
                                    s - 1
                                } else {
                                    0
                                };
                            },
                            None => {},
                        }
                    }
                },
            }
        }
        i += 1;
    }
    proof {
        assert(fs.skip(fs.len() as int) =~= Seq::<Field>::empty());
    }
    let msg = comp_import_line_exec();
    tracker.insert_text(output, text, offset, &msg);
    count
}

// ------------------------------------------------------------------
// The per-module import pass
// ------------------------------------------------------------------

/// Where the core-level import goes inside one module: one byte before the
/// first spanned field after the module's last leading import.
pub open spec fn module_import_offset(mfs: Seq<ModField>, was: bool) -> Option<nat>
    decreases mfs.len(),
{
    if mfs.len() == 0 {
        None
    } else {
        let f = mfs.first();
        if f matches ModField::Import { .. } {
            module_import_offset(mfs.drop_first(), true)
        } else if was {
            match crate::model::spec_get_module_span(&f) {
                Some(s) => Some(sub1(s as nat)),
                None => module_import_offset(mfs.drop_first(), false),
            }
        } else {
            module_import_offset(mfs.drop_first(), false)
        }
    }
}

/// The edits after the per-module import pass has seen the fields in order:
/// one import line per inline module with a usable insertion point. Modules
/// without one are skipped.
pub open spec fn module_imports_fold(t: Seq<u8>, es: Seq<Edit>, fields: Seq<Field>) -> Seq<Edit>
    decreases fields.len(),
{
    if fields.len() == 0 {
        es
    } else {
        let es1 = module_imports_fold(t, es, fields.drop_last());
        match fields.last() {
            Field::CoreModule { fields: mfso, .. } => match mfso {
                Some(mfs) => match module_import_offset(mfs@, false) {
                    Some(o) => if o != 0 {
                        insert_step(t, es1, o, module_import_line())
                    } else {
                        es1
                    },
                    None => es1,
                },
                None => es1,
            },
            _ => es1,
        }
    }
}

/// Finds the insertion point of one module's import line.
fn find_module_import_offset(mfs: &Vec<ModField>) -> (r: Option<usize>)
    ensures
        match module_import_offset(mfs@, false) {
            Some(o) => r is Some && r->Some_0 as nat == o,
            None => r is None,
        },
{
    let ghost ms = mfs@;
    let mut was: bool = false;
    let mut i: usize = 0;
    proof {
        assert(ms.skip(0) =~= ms);
    }
    while i < mfs.len()
        invariant
            0 <= i <= ms.len(),
            ms == mfs@,
            module_import_offset(ms, false) == module_import_offset(ms.skip(i as int), was),
        decreases ms.len() - i,
    {
        proof {
            assert(ms.skip(i as int).first() == ms[i as int]);
            assert(ms.skip(i as int).drop_first() =~= ms.skip(i + 1));
        }
        match &mfs[i] {
            ModField::Import { .. } => {
                was = true;
            },
            _ => {
                if was {
                    match crate::model::get_module_span(&mfs[i]) {
                        Some(s) => {
                            return Some(
                                if s >= 1 {
                                    s - 1
                                } else {
                                    0
                                },
                            );
                        },
                        None => {
                            was = false;
                        },
                    }
                }
            },
        }
        i += 1;
    }
    proof {
        assert(ms.skip(ms.len() as int) =~= Seq::<ModField>::empty());
    }
    None
}

/// Inserts the core-level import of the counter function into each inline
/// module, after the module's last leading import. Modules with no usable
/// insertion point are left alone.
pub fn add_imports_in_module(
    tracker: &mut OffsetTracker,
    output: &mut Vec<u8>,
    text: &Vec<u8>,
    fields: &Vec<Field>,
)
    requires
        tracker_consistent(old(tracker), text@, old(output)@),
    ensures
        tracker_consistent(final(tracker), text@, final(output)@),
        final(tracker)@ == module_imports_fold(text@, old(tracker)@, fields@),
{
    let ghost fs = fields@;
    let ghost t = text@;
    let ghost es0 = old(tracker)@;
    let mut i: usize = 0;
    while i < fields.len()
        invariant
            0 <= i <= fs.len(),
            fs == fields@,
            t == text@,
            tracker_consistent(tracker, t, output@),
            tracker@ == module_imports_fold(t, es0, fs.take(i as int)),
        decreases fs.len() - i,
    {
        proof {
            assert(fs.take(i + 1).drop_last() =~= fs.take(i as int));
            assert(fs.take(i + 1).last() == fs[i as int]);
        }
        match &fields[i] {
            Field::CoreModule { fields: Some(mfs), .. } => {
                match find_module_import_offset(mfs) {
                    Some(o) => {
                        if o != 0 {
                            let msg = module_import_line_exec();
                            tracker.insert_text(output, text, o, &msg);
                        }
                    },
                    None => {},
                }
            },
            _ => {},
        }
        i += 1;
    }
    proof {
        assert(fs.take(fs.len() as int) =~= fs);
    }
}

// ------------------------------------------------------------------
// The instantiation-argument pass
// ------------------------------------------------------------------

/// The edits after the instantiation-argument pass has seen the fields in
/// order: one `with` clause appended at the matched head of every core
/// instantiation.
pub open spec fn inst_arg_fold(t: Seq<u8>, es: Seq<Edit>, fields: Seq<Field>) -> Seq<Edit>
    decreases fields.len(),
{
    if fields.len() == 0 {
        es
    } else {
        let es1 = inst_arg_fold(t, es, fields.drop_last());
        match fields.last() {
            Field::CoreInstance { span, kind: CoreInstanceKind::Instantiate { .. } } => {
                if span <= t.len() {
                    match find_inst_head_from(t, span as int) {
                        Some(e) => insert_step(t, es1, e as nat, with_arg_line()),
                        None => es1,
                    }
                } else {
                    es1
                }
            },
            _ => es1,
        }
    }
}

/// Appends the `with` clause wiring the counter instance to every core
/// instantiation, at the end of the instantiation head found in the
/// original text from the field's span on.
pub fn add_instantiaion_arg(
    tracker: &mut OffsetTracker,
    output: &mut Vec<u8>,
    text: &Vec<u8>,
    fields: &Vec<Field>,
)
    requires
        tracker_consistent(old(tracker), text@, old(output)@),
    ensures
        tracker_consistent(final(tracker), text@, final(output)@),
        final(tracker)@ == inst_arg_fold(text@, old(tracker)@, fields@),
{
    let ghost fs = fields@;
    let ghost t = text@;
    let ghost es0 = old(tracker)@;
    let mut i: usize = 0;
    while i < fields.len()
        invariant
            0 <= i <= fs.len(),
            fs == fields@,
            t == text@,
            tracker_consistent(tracker, t, output@),
            tracker@ == inst_arg_fold(t, es0, fs.take(i as int)),
        decreases fs.len() - i,
    {
        proof {
            assert(fs.take(i + 1).drop_last() =~= fs.take(i as int));
            assert(fs.take(i + 1).last() == fs[i as int]);
        }
        match &fields[i] {
            Field::CoreInstance { span, kind: CoreInstanceKind::Instantiate { .. } } => {
                if *span <= text.len() {
                    match crate::scan::find_instantiate_head(text, *span) {
                        Some(e) => {
                            let msg = with_arg_line_exec();
                            tracker.insert_text(output, text, e, &msg);
                        },
                        None => {},
                    }
                }
            },
            _ => {},
        }
        i += 1;
    }
    proof {
        assert(fs.take(fs.len() as int) =~= fs);
    }
}

// ------------------------------------------------------------------
// The lowering pass
// ------------------------------------------------------------------

/// Where the lowering and its instance go: one byte before the first
/// spanned field after the last run of core modules begins... the first
/// spanned field that follows any core module.
pub open spec fn canon_insert_offset(fields: Seq<Field>, passed: bool) -> Option<nat>
    decreases fields.len(),
{
    if fields.len() == 0 {
        None
    } else {
        let f = fields.first();
        if f matches Field::CoreModule { .. } {
            canon_insert_offset(fields.drop_first(), true)
        } else if passed && crate::model::spec_get_span(&f) is Some {
            Some(sub1(crate::model::spec_get_span(&f)->Some_0 as nat))
        } else {
            canon_insert_offset(fields.drop_first(), passed)
        }
    }
}

/// Inserts the lowering of the imported function and the instance that
/// exports it, right after the last core-module field. When no field
/// follows the modules, nothing is inserted and `false` is returned.
pub fn add_canon_lower_and_instance(
    tracker: &mut OffsetTracker,
    output: &mut Vec<u8>,
    text: &Vec<u8>,
    fields: &Vec<Field>,
) -> (r: bool)
    requires
        tracker_consistent(old(tracker), text@, old(output)@),
    ensures
        tracker_consistent(final(tracker), text@, final(output)@),
        match canon_insert_offset(fields@, false) {
            Some(o) => r == true && final(tracker)@ == insert_step(
                text@,
                old(tracker)@,
                o,
                canon_lower_lines(),
            ),
            None => r == false && final(tracker)@ == old(tracker)@,
        },
{
    let ghost fs = fields@;
    let mut passed: bool = false;
    let mut i: usize = 0;
    proof {
        assert(fs.skip(0) =~= fs);
    }
    while i < fields.len()
        invariant
            0 <= i <= fs.len(),
            fs == fields@,
            tracker_consistent(tracker, text@, output@),
            tracker@ == old(tracker)@,
            canon_insert_offset(fs, false) == canon_insert_offset(fs.skip(i as int), passed),
        decreases fs.len() - i,
    {
        proof {
            assert(fs.skip(i as int).first() == fs[i as int]);
            assert(fs.skip(i as int).drop_first() =~= fs.skip(i + 1));
        }
        match &fields[i] {
            Field::CoreModule { .. } => {
                passed = true;
            },
            _ => {
                if passed {
                    match crate::model::get_span(&fields[i]) {
                        Some(s) => {
                            let o = if s >= 1 {
                                s - 1
                            } else {
                                0
                            };
                            let msg = canon_lower_lines_exec();
                            tracker.insert_text(output, text, o, &msg);
                            return true;
                        },
                        None => {},
                    }
                }
            },
        }
        i += 1;
    }
    proof {
        assert(fs.skip(fs.len() as int) =~= Seq::<Field>::empty());
    }
    false
}

} // verus!

verus! {

/// Why the component could not be instrumented.
#[derive(Clone, Copy, Debug, PartialEq, Eq, Structural)]
pub enum AnnotateError {
    /// The input is not a component in textual form.
    Shape,
    /// The component has too many fields to count types.
    TooManyFields,
    /// Two functions share a textual span: a broken scan.
    DuplicateSpan,
    /// A realloc target or export chain pointed at nothing.
    BadBlacklistIndex,
    /// Two identical debug line records: a broken reader.
    DuplicateLine,
    /// A record referenced a file outside the file map.
    BadFileIndex,
    /// The binary form could not be walked for code sections.
    BinaryRead,
}

/// The spans of one module's functions, collected.
fn collect_mfs_spans(out: &mut Vec<usize>, mfs: &Vec<ModField>)
    ensures
        final(out)@ == old(out)@ + crate::blacklist::spans_of_mfs(mfs@),
{
    let ghost base = out@;
    let mut j: usize = 0;
    while j < mfs.len()
        invariant
            0 <= j <= mfs@.len(),
            out@ == base + crate::blacklist::spans_of_mfs(mfs@.take(j as int)),
        decreases mfs@.len() - j,
    {
        proof {
            assert(mfs@.take(j + 1).drop_last() =~= mfs@.take(j as int));
            assert(mfs@.take(j + 1).last() == mfs@[j as int]);
        }
        match &mfs[j] {
            ModField::Func(f) => {
                out.push(f.span);
            },
            _ => {},
        }
        proof {
            assert(out@ =~= base + crate::blacklist::spans_of_mfs(mfs@.take(j + 1)));
        }
        j += 1;
    }
    proof {
        assert(mfs@.take(mfs@.len() as int) =~= mfs@);
    }
}

/// The spans of every function of every inline module, collected.
fn collect_func_spans(fields: &Vec<Field>) -> (r: Vec<usize>)
    ensures
        r@ == crate::blacklist::all_func_spans(fields@),
{
    let mut out: Vec<usize> = Vec::new();
    let mut i: usize = 0;
    while i < fields.len()
        invariant
            0 <= i <= fields@.len(),
            out@ == crate::blacklist::all_func_spans(fields@.take(i as int)),
        decreases fields@.len() - i,
    {
        proof {
            assert(fields@.take(i + 1).drop_last() =~= fields@.take(i as int));
            assert(fields@.take(i + 1).last() == fields@[i as int]);
        }
        match &fields[i] {
            Field::CoreModule { fields: Some(mfs), .. } => {
                collect_mfs_spans(&mut out, mfs);
            },
            _ => {},
        }
        proof {
            assert(out@ =~= crate::blacklist::all_func_spans(fields@.take(i + 1)));
        }
        i += 1;
    }
    proof {
        assert(fields@.take(fields@.len() as int) =~= fields@);
    }
    out
}

/// Checks that no two spans coincide.
fn spans_distinct(v: &Vec<usize>) -> (r: bool)
    ensures
        r == v@.no_duplicates(),
{
    let mut i: usize = 0;
    while i < v.len()
        invariant
            0 <= i <= v@.len(),
            forall|a: int, b: int| 0 <= a < b < v@.len() && b < i ==> v@[a] != v@[b],
        decreases v@.len() - i,
    {
        let mut j: usize = 0;
        while j < i
            invariant
                0 <= j <= i < v@.len(),
                forall|a: int| 0 <= a < j ==> v@[a] != v@[i as int],
            decreases i - j,
        {
            if v[j] == v[i] {
                proof {
                    assert(v@[j as int] == v@[i as int]);
                }
                return false;
            }
            j += 1;
        }
        i += 1;
    }
    true
}

/// The fields of a textual component.
pub open spec fn shape_fields(shape: WatShape) -> Seq<Field> {
    match shape {
        WatShape::ComponentText(fields) => fields@,
        _ => Seq::empty(),
    }
}

/// The edits the pipeline records before the instrumentation pass: the
/// component-level import, the per-module imports, and the core-function
/// bumps.
pub open spec fn pipeline_front(t: Seq<u8>, fields: Seq<Field>) -> Seq<Edit> {
    let e1 = insert_step(t, Seq::empty(), import_insert_loc(fields), comp_import_line());
    let e2 = module_imports_fold(t, e1, fields);
    bump_fold(t, e2, core_func_tokens(fields), 0)
}

/// The state after the instrumentation pass of the pipeline.
pub open spec fn pipeline_calls(
    t: Seq<u8>,
    fields: Seq<Field>,
    lines: Seq<crate::debug_info::DebugLineInfo>,
    co: Seq<usize>,
    sdi: Seq<crate::debug_info::SourceDebugInfo>,
    bl: Seq<usize>,
) -> crate::instrument::InsState {
    crate::instrument::calls_fold(
        t,
        crate::instrument::InsState {
            es: pipeline_front(t, fields),
            counter: 0,
            inserted: Seq::empty(),
        },
        fields,
        lines,
        co,
        sdi,
        bl,
    )
}

/// Every edit of the whole pipeline, in the order the passes record them.
pub open spec fn pipeline_edits(
    t: Seq<u8>,
    fields: Seq<Field>,
    lines: Seq<crate::debug_info::DebugLineInfo>,
    co: Seq<usize>,
    sdi: Seq<crate::debug_info::SourceDebugInfo>,
    bl: Seq<usize>,
) -> Seq<Edit> {
    let e4 = pipeline_calls(t, fields, lines, co, sdi, bl).es;
    let e5 = bump_fold(t, e4, instance_tokens(fields), 0);
    let e6 = bump_fold(t, e5, comp_func_tokens(fields), 0);
    let e7 = bump_fold(t, e6, type_tokens(fields), type_count_until(fields, false) as u32);
    let e8 = inst_arg_fold(t, e7, fields);
    match canon_insert_offset(fields, false) {
        Some(o) => insert_step(t, e8, o, canon_lower_lines()),
        None => e8,
    }
}

/// Every inline function the realloc seed resolves to is in the blacklist.
pub open spec fn seed_functions_in(fields: Seq<Field>, bl: Seq<usize>) -> bool {
    match crate::blacklist::initial_queue(fields, realloc_tokens(fields)) {
        Some(q0) => forall|k: int|
            0 <= k < q0.len() ==> (crate::blacklist::the_func(
                crate::blacklist::mod_fields(fields, (#[trigger] q0[k]).0 as int),
                q0[k].1 as int,
            ).body is Some ==> bl.contains(
                crate::blacklist::the_func(
                    crate::blacklist::mod_fields(fields, q0[k].0 as int),
                    q0[k].1 as int,
                ).span,
            )),
        None => false,
    }
}

/// When the pipeline succeeds and which error it returns otherwise: a
/// non-textual input is a shape error; an oversized field list cannot be
/// counted; coinciding function spans and unresolvable realloc chains are
/// impossible-index errors; everything else succeeds.
pub open spec fn scaffolding_verdict(
    shape: WatShape,
    r: Result<(Vec<u8>, crate::debug_info::DebugDataOwned, u64), AnnotateError>,
) -> bool {
    let fields = shape_fields(shape);
    if !(shape matches WatShape::ComponentText(_)) {
        r matches Err(e) && e == AnnotateError::Shape
    } else if fields.len() >= 0xffff_ffff {
        r matches Err(e) && e == AnnotateError::TooManyFields
    } else if !crate::blacklist::all_func_spans(fields).no_duplicates() {
        r matches Err(e) && e == AnnotateError::DuplicateSpan
    } else if crate::blacklist::initial_queue(fields, realloc_tokens(fields)) is None {
        r matches Err(e) && e == AnnotateError::BadBlacklistIndex
    } else {
        r is Ok
    }
}

/// Instruments the component text: inserts the counter import at component
/// and core level, one counter prelude per debug line record, bumps every
/// downstream index, wires the counter instance into every instantiation,
/// and lowers the imported function. Returns the annotated text, the
/// debug-data bundle, and the number of counters assigned. The verdict is
/// total: a well-shaped component is always instrumented.
pub fn add_scaffolding(
    text: &Vec<u8>,
    shape: &WatShape,
    map: crate::debug_info::WatLineMapper,
) -> (r: Result<(Vec<u8>, crate::debug_info::DebugDataOwned, u64), AnnotateError>)
    requires
        map.wf(),
    ensures
        scaffolding_verdict(*shape, r),
        r matches Ok(tr) ==> {
            &&& shape matches WatShape::ComponentText(_)
            &&& exists|bl: Seq<usize>|
                {
                    &&& #[trigger] crate::blacklist::blacklist_closed(shape_fields(*shape), bl)
                    &&& seed_functions_in(shape_fields(*shape), bl)
                    &&& tr.0@ == crate::edits::apply_edits(
                        text@,
                        pipeline_edits(
                            text@,
                            shape_fields(*shape),
                            map.spec_lines(),
                            map.spec_code_offsets(),
                            map.spec_sdi(),
                            bl,
                        ),
                    )
                    &&& tr.2 as nat == pipeline_calls(
                        text@,
                        shape_fields(*shape),
                        map.spec_lines(),
                        map.spec_code_offsets(),
                        map.spec_sdi(),
                        bl,
                    ).counter
                }
            &&& tr.1.file_map@ == map.spec_file_map()
            &&& tr.1.sdi_vec@ == map.spec_sdi()
            &&& crate::debug_info::paths_unique(tr.1.file_map@)
            &&& forall|p: usize, ln: u64|
                #[trigger] crate::debug_info::bpl_lookup(tr.1.blocks_per_line@, p, ln) == (
                if crate::debug_info::dli_count(map.spec_lines(), p, ln) > 0 {
                    Some(crate::debug_info::dli_count(map.spec_lines(), p, ln) as u64)
                } else {
                    None::<u64>
                })
        },
{
    let fields: &Vec<Field> = match crate::model::get_fields(shape) {
        Some(f) => f,
        None => {
            return Err(AnnotateError::Shape);
        },
    };
    if fields.len() >= 0xffff_ffff {
        return Err(AnnotateError::TooManyFields);
    }
    let spans = collect_func_spans(fields);
    if !spans_distinct(&spans) {
        return Err(AnnotateError::DuplicateSpan);
    }
    let ghost t = text@;
    let mut output: Vec<u8> = crate::debug_info::copy_bytes(text);
    let mut tracker = OffsetTracker::new();
    proof {
        assert(crate::edits::apply_edits(t, Seq::<Edit>::empty()) == t);
        assert(tracker_consistent(&tracker, t, output@));
    }
    let bound = add_inc_import_section(&mut tracker, &mut output, text, fields);
    add_imports_in_module(&mut tracker, &mut output, text, fields);
    let seed = bump_core_func_idxs(&mut tracker, &mut output, text, fields);
    let ghost front = tracker@;
    let bl = match crate::blacklist::process_blacklist(fields, &seed) {
        Ok(b) => b,
        Err(_) => {
            return Err(AnnotateError::BadBlacklistIndex);
        },
    };
    let counters = crate::instrument::add_func_calls(
        &mut tracker,
        &mut output,
        text,
        fields,
        &map,
        &bl,
    );
    bump_instance_idxs(&mut tracker, &mut output, text, fields);
    bump_comp_func_idxs(&mut tracker, &mut output, text, fields);
    bump_type_idxs(&mut tracker, &mut output, text, fields, bound);
    add_instantiaion_arg(&mut tracker, &mut output, text, fields);
    add_canon_lower_and_instance(&mut tracker, &mut output, text, fields);
    proof {
        assert(front == pipeline_front(t, fields@));
        assert(tracker@ == pipeline_edits(
            t,
            fields@,
            map.spec_lines(),
            map.spec_code_offsets(),
            map.spec_sdi(),
            bl@,
        ));
        assert(shape_fields(*shape) == fields@);
    }
    let data = map.into_debug_data();
    Ok((output, data, counters))
}

} // verus!

verus! {

/// Index-bump totality: a bump pass appends at most one edit per token and
/// touches nothing it already recorded; every appended edit replaces one
/// numeric token's literal with the literal of its value plus one — so no
/// index leaves its space's new size — and every token whose bump applies
/// at its turn contributes exactly its own edit.
pub proof fn lemma_bump_fold_totality(t: Seq<u8>, es: Seq<Edit>, toks: Seq<IdxRef>, lb: u32)
    ensures
        bump_fold(t, es, toks, lb).len() >= es.len(),
        bump_fold(t, es, toks, lb).len() <= es.len() + toks.len(),
        forall|i: int| 0 <= i < es.len() ==> #[trigger] bump_fold(t, es, toks, lb)[i] == es[i],
        forall|i: int|
            es.len() <= i < bump_fold(t, es, toks, lb).len() ==> exists|k: int|
                {
                    &&& 0 <= k < toks.len()
                    &&& (#[trigger] toks[k]) matches IdxRef::Num { num, off }
                    &&& num >= lb
                    &&& (#[trigger] bump_fold(t, es, toks, lb)[i])
                        == crate::offset_tracker::bump_edit(
                        toks[k]->Num_num,
                        toks[k]->Num_off as nat,
                    )
                },
    decreases toks.len(),
{
    if toks.len() > 0 {
        lemma_bump_fold_totality(t, es, toks.drop_last(), lb);
        let prev = bump_fold(t, es, toks.drop_last(), lb);
        let cur = bump_fold(t, es, toks, lb);
        match toks.last() {
            IdxRef::Num { num, off } => {
                if crate::offset_tracker::bump_ok(t, prev, num, off as nat, lb) {
                    assert(cur == prev.push(crate::offset_tracker::bump_edit(num, off as nat)));
                    assert forall|i: int| es.len() <= i < cur.len() implies exists|k: int|
                        {
                            &&& 0 <= k < toks.len()
                            &&& (#[trigger] toks[k]) matches IdxRef::Num { num, off }
                            &&& num >= lb
                            &&& (#[trigger] cur[i]) == crate::offset_tracker::bump_edit(
                                toks[k]->Num_num,
                                toks[k]->Num_off as nat,
                            )
                        } by {
                        if i < prev.len() {
                            assert(cur[i] == prev[i]);
                            let k = choose|k: int|
                                {
                                    &&& 0 <= k < toks.drop_last().len()
                                    &&& (#[trigger] toks.drop_last()[k]) matches IdxRef::Num {
                                        num,
                                        off,
                                    }
                                    &&& num >= lb
                                    &&& prev[i] == crate::offset_tracker::bump_edit(
                                        toks.drop_last()[k]->Num_num,
                                        toks.drop_last()[k]->Num_off as nat,
                                    )
                                };
                            assert(toks[k] == toks.drop_last()[k]);
                        } else {
                            let k = toks.len() - 1;
                            assert(toks[k] matches IdxRef::Num { .. });
                            assert(cur[i] == crate::offset_tracker::bump_edit(
                                toks[k]->Num_num,
                                toks[k]->Num_off as nat,
                            ));
                        }
                    }
                } else {
                    assert(cur == prev);
                    assert forall|i: int| es.len() <= i < cur.len() implies exists|k: int|
                        {
                            &&& 0 <= k < toks.len()
                            &&& (#[trigger] toks[k]) matches IdxRef::Num { num, off }
                            &&& num >= lb
                            &&& (#[trigger] cur[i]) == crate::offset_tracker::bump_edit(
                                toks[k]->Num_num,
                                toks[k]->Num_off as nat,
                            )
                        } by {
                        let k = choose|k: int|
                            {
                                &&& 0 <= k < toks.drop_last().len()
                                &&& (#[trigger] toks.drop_last()[k]) matches IdxRef::Num {
                                    num,
                                    off,
                                }
                                &&& num >= lb
                                &&& prev[i] == crate::offset_tracker::bump_edit(
                                    toks.drop_last()[k]->Num_num,
                                    toks.drop_last()[k]->Num_off as nat,
                                )
                            };
                        assert(toks[k] == toks.drop_last()[k]);
                    }
                }
            },
            IdxRef::Sym => {
                assert(cur == prev);
                assert forall|i: int| es.len() <= i < cur.len() implies exists|k: int|
                    {
                        &&& 0 <= k < toks.len()
                        &&& (#[trigger] toks[k]) matches IdxRef::Num { num, off }
                        &&& num >= lb
                        &&& (#[trigger] cur[i]) == crate::offset_tracker::bump_edit(
                            toks[k]->Num_num,
                            toks[k]->Num_off as nat,
                        )
                    } by {
                    let k = choose|k: int|
                        {
                            &&& 0 <= k < toks.drop_last().len()
                            &&& (#[trigger] toks.drop_last()[k]) matches IdxRef::Num { num, off }
                            &&& num >= lb
                            &&& prev[i] == crate::offset_tracker::bump_edit(
                                toks.drop_last()[k]->Num_num,
                                toks.drop_last()[k]->Num_off as nat,
                            )
                        };
                    assert(toks[k] == toks.drop_last()[k]);
                }
            },
        }
    }
}

} // verus!

verus! {

/// When the whole core succeeds and which error it returns otherwise: an
/// unwalkable binary, then a duplicate line record, then the pipeline's own
/// verdict.
pub open spec fn instrument_verdict(
    shape: WatShape,
    binary: Seq<u8>,
    dwarf: Seq<crate::debug_info::ModuleDebugInput>,
    r: Result<(Vec<u8>, crate::debug_info::DebugDataOwned, u64), AnnotateError>,
) -> bool {
    if !crate::debug_info::code_sections_readable(binary) {
        r matches Err(e) && e == AnnotateError::BinaryRead
    } else if crate::debug_info::fresh_read(dwarf) is None {
        r matches Err(e) && e == AnnotateError::DuplicateLine
    } else {
        scaffolding_verdict(shape, r)
    }
}

/// The whole core in one call: walks the binary for code-section offsets,
/// reads the debug information, and instruments the text. Returns the
/// annotated text, the debug-data bundle, and the number of counters. The
/// verdict is total, and on success the output is the pipeline's edits over
/// the records the debug information builds.
pub fn instrument(
    text: &Vec<u8>,
    shape: &WatShape,
    binary: &Vec<u8>,
    dwarf: &Vec<crate::debug_info::ModuleDebugInput>,
) -> (r: Result<(Vec<u8>, crate::debug_info::DebugDataOwned, u64), AnnotateError>)
    ensures
        instrument_verdict(*shape, binary@, dwarf@, r),
        r matches Ok(tr) ==> exists|bl: Seq<usize>, sdi: Seq<crate::debug_info::SourceDebugInfo>|
            {
                &&& #[trigger] crate::blacklist::blacklist_closed(shape_fields(*shape), bl)
                &&& seed_functions_in(shape_fields(*shape), bl)
                &&& #[trigger] crate::debug_info::sdi_views(sdi) == crate::debug_info::fresh_read(
                    dwarf@,
                )->Some_0.sdi
                &&& tr.1.sdi_vec@ == sdi
                &&& crate::debug_info::files_views(tr.1.file_map@) == crate::debug_info::fresh_read(
                    dwarf@,
                )->Some_0.files
                &&& crate::debug_info::paths_unique(tr.1.file_map@)
                &&& tr.0@ == crate::edits::apply_edits(
                    text@,
                    pipeline_edits(
                        text@,
                        shape_fields(*shape),
                        crate::debug_info::fresh_read(dwarf@)->Some_0.lines,
                        crate::debug_info::code_section_starts(binary@),
                        sdi,
                        bl,
                    ),
                )
                &&& tr.2 as nat == pipeline_calls(
                    text@,
                    shape_fields(*shape),
                    crate::debug_info::fresh_read(dwarf@)->Some_0.lines,
                    crate::debug_info::code_section_starts(binary@),
                    sdi,
                    bl,
                ).counter
                &&& forall|p: usize, ln: u64|
                    #[trigger] crate::debug_info::bpl_lookup(tr.1.blocks_per_line@, p, ln) == (
                    if crate::debug_info::dli_count(
                        crate::debug_info::fresh_read(dwarf@)->Some_0.lines,
                        p,
                        ln,
                    ) > 0 {
                        Some(
                            crate::debug_info::dli_count(
                                crate::debug_info::fresh_read(dwarf@)->Some_0.lines,
                                p,
                                ln,
                            ) as u64,
                        )
                    } else {
                        None::<u64>
                    })
            },
{
    let offsets = match crate::debug_info::find_code_offsets(binary) {
        Ok(v) => v,
        Err(_) => {
            return Err(AnnotateError::BinaryRead);
        },
    };
    let mut map = crate::debug_info::WatLineMapper::new(offsets);
    let ghost st0 = crate::debug_info::ReadSt {
        lines: map.spec_lines(),
        files: crate::debug_info::files_views(map.spec_file_map()),
        fmap: Seq::empty(),
        sdi: crate::debug_info::sdi_views(map.spec_sdi()),
    };
    proof {
        assert(st0.files =~= Seq::<Seq<u8>>::empty());
        assert(st0.sdi =~= Seq::<crate::debug_info::SdiView>::empty());
        assert(st0 == (crate::debug_info::ReadSt {
            lines: Seq::empty(),
            files: Seq::empty(),
            fmap: Seq::empty(),
            sdi: Seq::empty(),
        }));
    }
    match crate::debug_info::read_dbg_info(&mut map, dwarf) {
        Ok(_) => {},
        Err(crate::debug_info::DebugError::DuplicateLine) => {
            return Err(AnnotateError::DuplicateLine);
        },
        Err(crate::debug_info::DebugError::BadFileIndex) => {
            proof {
                assert(false);
            }
            return Err(AnnotateError::BadFileIndex);
        },
    }
    let ghost st1 = crate::debug_info::fresh_read(dwarf@)->Some_0;
    let ghost glines = map.spec_lines();
    let ghost gsdi = map.spec_sdi();
    let ghost gfiles = map.spec_file_map();
    proof {
        assert(glines == st1.lines);
        assert(crate::debug_info::sdi_views(gsdi) == st1.sdi);
        assert(crate::debug_info::files_views(gfiles) == st1.files);
        assert(map.spec_code_offsets() == crate::debug_info::code_section_starts(binary@));
    }
    let res = add_scaffolding(text, shape, map);
    proof {
        let fields = shape_fields(*shape);
        match &res {
            Ok(tr) => {
                let bl = choose|bl: Seq<usize>|
                    {
                        &&& #[trigger] crate::blacklist::blacklist_closed(fields, bl)
                        &&& seed_functions_in(fields, bl)
                        &&& tr.0@ == crate::edits::apply_edits(
                            text@,
                            pipeline_edits(
                                text@,
                                fields,
                                glines,
                                crate::debug_info::code_section_starts(binary@),
                                gsdi,
                                bl,
                            ),
                        )
                        &&& tr.2 as nat == pipeline_calls(
                            text@,
                            fields,
                            glines,
                            crate::debug_info::code_section_starts(binary@),
                            gsdi,
                            bl,
                        ).counter
                    };
                assert(crate::blacklist::blacklist_closed(fields, bl) && crate::debug_info::sdi_views(
                    gsdi,
                ) == st1.sdi);
            },
            Err(_) => {},
        }
    }
    res
}

} // verus!
