//! A plain model of a component's textual form.
//!
//! The shallow scan of the component text yields the typed field sequence
//! modelled here: every field kind the instrumenter distinguishes, with the
//! byte span of its opening parenthesis in the original text, and, for each
//! inline core module, its own field sequence with per-instruction spans.
//! Index references carry the numeric literal and the byte offset where that
//! literal starts, which is all the index bumper needs.

use vstd::prelude::*;

verus! {

/// A reference to an index: a numeric literal together with the byte offset
/// where the literal starts in the original text, or a symbolic name, which
/// the index bumper leaves untouched.
#[derive(Clone, Copy, PartialEq, Eq, Structural)]
pub enum IdxRef {
    /// A numeric index literal.
    Num {
        /// The value of the literal.
        num: u32,
        /// The byte offset of the literal's first digit.
        off: usize,
    },
    /// A symbolic index.
    Sym,
}

/// What kind of item an export or alias refers to.
#[derive(Clone, Copy, PartialEq, Eq, Structural)]
pub enum ExportKind {
    /// A core function.
    Func,
    /// Anything else (table, memory, global, tag).
    Other,
}

/// One instruction of an inline function body.
#[derive(Clone, Copy, PartialEq, Eq, Structural)]
pub struct Instr {
    /// Byte offset of the instruction in the original text.
    pub off: usize,
    /// Whether the instruction is a call, and to which function.
    pub kind: InstrKind,
}

/// The instruction kinds the instrumenter distinguishes.
#[derive(Clone, Copy, PartialEq, Eq, Structural)]
pub enum InstrKind {
    /// A direct call to the function the index refers to.
    Call(IdxRef),
    /// Any other instruction.
    Other,
}

/// A function defined in an inline core module.
pub struct ModFunc {
    /// Byte span of the function field.
    pub span: usize,
    /// The instructions of the body, in order, when the function is inline.
    pub body: Option<Vec<Instr>>,
}

/// A field of an inline core module. Spans are byte offsets of the field's
/// opening parenthesis; fields the text scanner assigns no span to carry
/// none here either.
pub enum ModField {
    /// An import of the module.
    Import {
        /// Byte span of the field.
        span: usize,
    },
    /// A function of the module.
    Func(ModFunc),
    /// An export of the module.
    Export {
        /// Byte span of the field.
        span: usize,
        /// The export's name.
        name: Vec<u8>,
        /// What kind of item is exported.
        kind: ExportKind,
        /// The exported item.
        item: IdxRef,
    },
    /// Any other field with a span (type, table, memory, global, elem, data,
    /// tag, rec).
    Other {
        /// Byte span of the field.
        span: usize,
    },
    /// A field without a span (start, custom).
    NoSpan,
}

/// The target of an alias field.
pub enum AliasTarget {
    /// An export of a core instance.
    CoreExport {
        /// The core instance the export comes from.
        instance: IdxRef,
        /// The export's name.
        name: Vec<u8>,
        /// What kind of item the export is.
        kind: ExportKind,
    },
    /// An export of a component instance.
    Export {
        /// Whether the aliased export is a type.
        is_type: bool,
    },
    /// An outer alias.
    Outer,
}

/// One item exported by a core instance.
#[derive(Clone, Copy, PartialEq, Eq, Structural)]
pub struct CoreExportItem {
    /// What kind of item is exported.
    pub kind: ExportKind,
    /// The exported item.
    pub idx: IdxRef,
}

/// One argument of a core-instance instantiation.
pub enum CoreInstArg {
    /// A whole instance handed in by index.
    Instance(IdxRef),
    /// A bundle of individual exports.
    BundleOfExports(Vec<CoreExportItem>),
}

/// The form of a core-instance field.
pub enum CoreInstanceKind {
    /// Instantiation of a core module.
    Instantiate {
        /// The instantiated module.
        module: IdxRef,
        /// The instantiation arguments.
        args: Vec<CoreInstArg>,
    },
    /// A bundle of exports forming an instance.
    BundleOfExports(Vec<CoreExportItem>),
}

/// What kind of component-level item an export or argument names.
#[derive(Clone, Copy, PartialEq, Eq, Structural)]
pub enum ComponentExportKind {
    /// A component-level function.
    Func(IdxRef),
    /// A component-level instance.
    Instance(IdxRef),
    /// Anything else.
    Other,
}

/// One argument of a component-instance instantiation.
pub enum InstArg {
    /// A single item.
    Item(ComponentExportKind),
    /// A bundle of exports.
    BundleOfExports(Vec<ComponentExportKind>),
}

/// The form of a component-instance field.
pub enum InstanceKind {
    /// Instantiation of a component.
    Instantiate {
        /// The instantiation arguments.
        args: Vec<InstArg>,
    },
    /// Any other form.
    Other,
}

/// A canonical option of a `canon lower`.
#[derive(Clone, Copy, PartialEq, Eq, Structural)]
pub enum CanonOpt {
    /// The realloc helper the canonical ABI calls.
    Realloc(IdxRef),
    /// Any other option.
    Other,
}

/// The form of a core-func field.
pub enum CoreFuncKind {
    /// A `canon lower` of a component function.
    Lower {
        /// The lowered component function.
        func: IdxRef,
        /// The canonical options.
        opts: Vec<CanonOpt>,
    },
    /// A `canon resource.drop`.
    ResourceDrop {
        /// The dropped resource type.
        ty: IdxRef,
    },
    /// Any other form.
    Other,
}

/// The form of a component-level func field.
pub enum FuncKind {
    /// A `canon lift` of a core function.
    Lift {
        /// The lifted function's component type, when given by reference.
        ty: Option<IdxRef>,
        /// The lifted core function.
        func: IdxRef,
    },
    /// Any other form.
    Other,
}

/// A component value type as it appears in a func type.
pub enum ComponentValType {
    /// A primitive value type.
    Prim,
    /// A reference to a type index.
    Ref(IdxRef),
}

/// One declaration inside a component type.
pub enum TypeDecl {
    /// A core type declaration.
    CoreType,
    /// A nested type declaration.
    Type(Box<TypeDef>),
    /// An alias declaration.
    Alias,
    /// An import declaration.
    Import,
    /// An export declaration.
    Export,
}

/// The definition carried by a type field.
pub enum TypeDef {
    /// A defined value type.
    Defined,
    /// A function type, whose parameters and results may reference types.
    Func {
        /// The parameter types.
        params: Vec<ComponentValType>,
        /// The result types.
        results: Vec<ComponentValType>,
    },
    /// A component type with nested declarations.
    Component(Vec<TypeDecl>),
    /// An instance type.
    Instance,
    /// A resource type.
    Resource,
}

/// A field of the component. Spans are byte offsets of the field's opening
/// parenthesis in the original text; start and producers fields carry none.
#[allow(inconsistent_fields)]
pub enum Field {
    /// An inline or imported core module.
    CoreModule {
        /// Byte span of the field.
        span: usize,
        /// The module's own fields, when the module is inline.
        fields: Option<Vec<ModField>>,
    },
    /// A core instance.
    CoreInstance {
        /// Byte span of the field.
        span: usize,
        /// The form of the instance.
        kind: CoreInstanceKind,
    },
    /// A core type.
    CoreType {
        /// Byte span of the field.
        span: usize,
    },
    /// A nested component.
    Component {
        /// Byte span of the field.
        span: usize,
    },
    /// A component instance.
    Instance {
        /// Byte span of the field.
        span: usize,
        /// The form of the instance.
        kind: InstanceKind,
    },
    /// An alias.
    Alias {
        /// Byte span of the field.
        span: usize,
        /// What the alias refers to.
        target: AliasTarget,
    },
    /// A type definition.
    Type {
        /// Byte span of the field.
        span: usize,
        /// The definition.
        def: TypeDef,
    },
    /// A canonical function.
    CanonicalFunc {
        /// Byte span of the field.
        span: usize,
    },
    /// A core function.
    CoreFunc {
        /// Byte span of the field.
        span: usize,
        /// The form of the core function.
        kind: CoreFuncKind,
    },
    /// A component-level function.
    Func {
        /// Byte span of the field.
        span: usize,
        /// The form of the function.
        kind: FuncKind,
    },
    /// The start field; it carries no span.
    Start,
    /// An import.
    Import {
        /// Byte span of the field.
        span: usize,
    },
    /// An export.
    Export {
        /// Byte span of the field.
        span: usize,
    },
    /// A custom section.
    Custom {
        /// Byte span of the field.
        span: usize,
    },
    /// The producers field; it carries no span.
    Producers,
}

/// The shape of a parsed input file: only the textual form of a component
/// can be instrumented.
pub enum WatShape {
    /// A component in textual form, as a field sequence.
    ComponentText(Vec<Field>),
    /// A component in binary form.
    ComponentBinary,
    /// A plain module, not a component.
    Module,
}

/// The byte span of a component field, for the fields that have one.
pub open spec fn spec_get_span(f: &Field) -> Option<usize> {
    match f {
        Field::CoreModule { span, .. } => Some(*span),
        Field::CoreInstance { span, .. } => Some(*span),
        Field::CoreType { span } => Some(*span),
        Field::Component { span } => Some(*span),
        Field::Instance { span, .. } => Some(*span),
        Field::Alias { span, .. } => Some(*span),
        Field::Type { span, .. } => Some(*span),
        Field::CanonicalFunc { span } => Some(*span),
        Field::CoreFunc { span, .. } => Some(*span),
        Field::Func { span, .. } => Some(*span),
        Field::Start => None,
        Field::Import { span } => Some(*span),
        Field::Export { span } => Some(*span),
        Field::Custom { span } => Some(*span),
        Field::Producers => None,
    }
}

/// The byte span of a component field, for the fields that have one.
pub fn get_span(f: &Field) -> (r: Option<usize>)
    ensures
        r == spec_get_span(f),
{
    match f {
        Field::CoreModule { span, .. } => Some(*span),
        Field::CoreInstance { span, .. } => Some(*span),
        Field::CoreType { span } => Some(*span),
        Field::Component { span } => Some(*span),
        Field::Instance { span, .. } => Some(*span),
        Field::Alias { span, .. } => Some(*span),
        Field::Type { span, .. } => Some(*span),
        Field::CanonicalFunc { span } => Some(*span),
        Field::CoreFunc { span, .. } => Some(*span),
        Field::Func { span, .. } => Some(*span),
        Field::Start => None,
        Field::Import { span } => Some(*span),
        Field::Export { span } => Some(*span),
        Field::Custom { span } => Some(*span),
        Field::Producers => None,
    }
}

/// The byte span of a module field, for the fields that have one.
pub open spec fn spec_get_module_span(f: &ModField) -> Option<usize> {
    match f {
        ModField::Import { span } => Some(*span),
        ModField::Func(mf) => Some(mf.span),
        ModField::Export { span, .. } => Some(*span),
        ModField::Other { span } => Some(*span),
        ModField::NoSpan => None,
    }
}

/// The byte span of a module field, for the fields that have one.
pub fn get_module_span(f: &ModField) -> (r: Option<usize>)
    ensures
        r == spec_get_module_span(f),
{
    match f {
        ModField::Import { span } => Some(*span),
        ModField::Func(mf) => Some(mf.span),
        ModField::Export { span, .. } => Some(*span),
        ModField::Other { span } => Some(*span),
        ModField::NoSpan => None,
    }
}

/// The field sequence of a textual component; a binary component or a plain
/// module has none.
pub fn get_fields(shape: &WatShape) -> (r: Option<&Vec<Field>>)
    ensures
        match shape {
            WatShape::ComponentText(fields) => r == Some(fields),
            _ => r is None,
        },
{
    match shape {
        WatShape::ComponentText(fields) => Some(fields),
        _ => None,
    }
}

/// Compares two byte strings.
pub fn bytes_eq(a: &Vec<u8>, b: &Vec<u8>) -> (r: bool)
    ensures
        r == (a@ == b@),
{
    if a.len() != b.len() {
        return false;
    }
    let mut i: usize = 0;
    while i < a.len()
        invariant
            0 <= i <= a.len(),
            a.len() == b.len(),
            forall|k: int| 0 <= k < i ==> a@[k] == b@[k],
        decreases a.len() - i,
    {
        if a[i] != b[i] {
            return false;
        }
        i += 1;
    }
    proof {
        assert(a@ =~= b@);
    }
    true
}

} // verus!
