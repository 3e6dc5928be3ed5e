use wcov::annotate::add_scaffolding;
use wcov::debug_info::{DebugLineInfo, ModuleDebugInput, RawLineRow, UnitDebugInput, WatLineMapper};
use wcov::model::{
    CoreInstanceKind, Field, IdxRef, Instr, InstrKind, ModField, ModFunc, WatShape,
};

fn s(b: &[u8]) -> Vec<u8> {
    b.to_vec()
}

fn find(hay: &[u8], needle: &[u8]) -> usize {
    hay.windows(needle.len()).position(|w| w == needle).unwrap()
}

fn count(hay: &[u8], needle: &[u8]) -> usize {
    hay.windows(needle.len()).filter(|w| *w == needle).count()
}

/// The minimal component: one inline core module with one `block` at
/// source foo.rs:7:5, plus one core instance. Mirrors the shape the printer
/// produces, binary-offset comments included.
fn minimal_component() -> (Vec<u8>, Vec<Field>, WatLineMapper) {
    let text = s(
        b"(component (core module (;0;) (func (;0;) (block (;@69;) nop))) (core instance (;0;) (instantiate 0)))",
    );
    let mod_span = find(&text, b"(core module");
    let func_span = find(&text, b"(func (;0;)");
    let block_off = find(&text, b"(block");
    let nop_off = find(&text, b"nop");
    let ci_span = find(&text, b"(core instance");
    let fields = vec![
        Field::CoreModule {
            span: mod_span,
            fields: Some(vec![ModField::Func(ModFunc {
                span: func_span,
                body: Some(vec![
                    Instr { off: block_off, kind: InstrKind::Other },
                    Instr { off: nop_off, kind: InstrKind::Other },
                ]),
            })]),
        },
        Field::CoreInstance {
            span: ci_span,
            kind: CoreInstanceKind::Instantiate {
                module: IdxRef::Num { num: 0, off: find(&text, b"(instantiate 0") + 13 },
                args: vec![],
            },
        },
    ];
    // the code section of the module starts at binary offset 0x64; the
    // record's address 5 gives the absolute address 0x69 of the comment
    let mut map = WatLineMapper::new(vec![0x64]);
    let fidx = map.add_file(s(b"foo.rs"));
    assert_eq!(fidx, 0);
    map.add_line(DebugLineInfo {
        address: 5,
        path_idx: 0,
        line: 7,
        column: 5,
        code_module_idx: 0,
    })
    .unwrap();
    (text, fields, map)
}

#[test]
fn minimal_component_gets_one_prelude() {
    let (text, fields, map) = minimal_component();
    let (out, data, n) = add_scaffolding(&text, &WatShape::ComponentText(fields), map).unwrap();
    assert_eq!(n, 1);
    // the prelude carries counter 0, kind 0, file 0, line 7, column 5
    let prelude = b"i32.const 0 i32.const 0 i32.const 0 i32.const 7 i32.const 5 call $inc-counter\n";
    assert_eq!(count(&out, prelude), 1);
    // it stands right after the matching binary-offset comment
    let at = find(&out, b"(;@69;)");
    assert_eq!(&out[at + 7..at + 7 + prelude.len()], &prelude[..]);
    // the component-level import was inserted
    assert_eq!(count(&out, b"(import \"inc-counter\" (func $inc-counter"), 1);
    // the instantiation got its extra argument right after the module index
    let w = find(&out, b"(instantiate 0(with \"inc-counter-module\" (instance $inc-counter-module))");
    assert!(w > 0);
    // the lowering and its instance were inserted after the module
    assert_eq!(count(&out, b"(core func $inc-counter (canon lower (func $inc-counter)))"), 1);
    assert_eq!(
        count(&out, b"(core instance $inc-counter-module (export \"inc-counter\" (func $inc-counter)))"),
        1,
    );
    // the blocks-per-line table records one block on line 7 of file 0
    assert_eq!(data.blocks_per_line.len(), 1);
    assert_eq!(data.blocks_per_line[0].0, 0);
    assert_eq!(data.blocks_per_line[0].1, vec![(7, 1)]);
    assert_eq!(data.file_map.len(), 1);
    assert_eq!(data.file_map[0], s(b"foo.rs"));
}

#[test]
fn unmatched_record_is_skipped_without_misaligning_counters() {
    // a record whose address matches no comment is dropped; the next
    // record still gets the next counter
    let (text, fields, mut map) = minimal_component();
    map.add_line(DebugLineInfo {
        address: 3, // absolute 0x67: no comment has that value
        path_idx: 0,
        line: 9,
        column: 1,
        code_module_idx: 0,
    })
    .unwrap();
    let (out, _data, n) = add_scaffolding(&text, &WatShape::ComponentText(fields), map).unwrap();
    assert_eq!(n, 1);
    assert_eq!(count(&out, b"call $inc-counter\n"), 1);
    assert_eq!(count(&out, b"i32.const 0 i32.const 0 i32.const 0 i32.const 7 i32.const 5"), 1);
}

#[test]
fn two_modules_get_counters_in_source_order() {
    let text = s(
        b"(component (core module (;0;) (func (;0;) (block (;@69;) nop))) (core module (;1;) (func (;0;) (block (;@c8;) nop))) (core instance (;0;) (instantiate 0)))",
    );
    let m1 = find(&text, b"(core module (;0;)");
    let m2 = find(&text, b"(core module (;1;)");
    let f1 = find(&text, b"(func (;0;) (block (;@69;)");
    let f2 = find(&text, b"(func (;0;) (block (;@c8;)");
    let b1 = f1 + 12;
    let b2 = f2 + 12;
    let n1 = find(&text, b"nop))) (core module");
    let n2 = b2 + 15;
    assert_eq!(&text[n2..n2 + 3], b"nop");
    let ci_span = find(&text, b"(core instance");
    let fields = vec![
        Field::CoreModule {
            span: m1,
            fields: Some(vec![ModField::Func(ModFunc {
                span: f1,
                body: Some(vec![
                    Instr { off: b1, kind: InstrKind::Other },
                    Instr { off: n1, kind: InstrKind::Other },
                ]),
            })]),
        },
        Field::CoreModule {
            span: m2,
            fields: Some(vec![ModField::Func(ModFunc {
                span: f2,
                body: Some(vec![
                    Instr { off: b2, kind: InstrKind::Other },
                    Instr { off: n2, kind: InstrKind::Other },
                ]),
            })]),
        },
        Field::CoreInstance {
            span: ci_span,
            kind: CoreInstanceKind::Instantiate {
                module: IdxRef::Num { num: 0, off: find(&text, b"(instantiate 0") + 13 },
                args: vec![],
            },
        },
    ];
    // module 0's code section starts at 0x64, module 1's at 0xc0; the
    // records' addresses differ, as the per-pass address set is global
    let mut map = WatLineMapper::new(vec![0x64, 0xc0]);
    let fidx = map.add_file(s(b"foo.rs"));
    map.add_line(DebugLineInfo {
        address: 5,
        path_idx: fidx,
        line: 7,
        column: 5,
        code_module_idx: 0,
    })
    .unwrap();
    map.add_line(DebugLineInfo {
        address: 8,
        path_idx: fidx,
        line: 3,
        column: 1,
        code_module_idx: 1,
    })
    .unwrap();
    let (out, _data, n) = add_scaffolding(&text, &WatShape::ComponentText(fields), map).unwrap();
    assert_eq!(n, 2);
    let first = find(&out, b"i32.const 0 i32.const 0 i32.const 0 i32.const 7 i32.const 5");
    let second = find(&out, b"i32.const 1 i32.const 0 i32.const 0 i32.const 3 i32.const 1");
    assert!(first < second);
}

#[test]
fn type_references_below_the_bound_stay() {
    // a component whose leading group holds 18 types: references to 17 are
    // untouched, references to 18 are bumped
    let mut text_str = String::from("(component ");
    let mut fields: Vec<Field> = Vec::new();
    for _ in 0..18 {
        let span = text_str.len();
        text_str.push_str("(type (;x;) (func)) ");
        fields.push(Field::Type { span, def: wcov::model::TypeDef::Defined });
    }
    let f_span = text_str.len();
    let ref17 = f_span + "(func (type ".len();
    text_str.push_str("(func (type 17)) ");
    let g_span = text_str.len();
    let ref18 = g_span + "(func (type ".len();
    text_str.push_str("(func (type 18)))");
    let text = s(text_str.as_bytes());
    fields.push(Field::Func {
        span: f_span,
        kind: wcov::model::FuncKind::Lift {
            ty: Some(IdxRef::Num { num: 17, off: ref17 }),
            func: IdxRef::Sym,
        },
    });
    fields.push(Field::Func {
        span: g_span,
        kind: wcov::model::FuncKind::Lift {
            ty: Some(IdxRef::Num { num: 18, off: ref18 }),
            func: IdxRef::Sym,
        },
    });
    let map = WatLineMapper::new(vec![]);
    let (out, _data, n) = add_scaffolding(&text, &WatShape::ComponentText(fields), map).unwrap();
    assert_eq!(n, 0);
    assert_eq!(count(&out, b"(type 17)"), 1);
    assert_eq!(count(&out, b"(type 19)"), 1);
    assert_eq!(count(&out, b"(type 18)"), 0);
    // the import line went in after the leading type group, before the
    // first func field
    let imp = find(&out, b"(import \"inc-counter\"");
    let fnc = find(&out, b"(func (type 17))");
    assert!(imp < fnc);
}

#[test]
fn non_component_input_is_a_shape_error() {
    let text = s(b"(module)");
    let map = WatLineMapper::new(vec![]);
    let r = add_scaffolding(&text, &WatShape::Module, map);
    assert!(matches!(r, Err(wcov::annotate::AnnotateError::Shape)));
    let map2 = WatLineMapper::new(vec![]);
    let r2 = add_scaffolding(&text, &WatShape::ComponentBinary, map2);
    assert!(matches!(r2, Err(wcov::annotate::AnnotateError::Shape)));
}

#[test]
fn duplicate_function_spans_are_refused() {
    let text = s(b"(component (core module (func) (func)))");
    let fields = vec![Field::CoreModule {
        span: 11,
        fields: Some(vec![
            ModField::Func(ModFunc { span: 24, body: None }),
            ModField::Func(ModFunc { span: 24, body: None }),
        ]),
    }];
    let map = WatLineMapper::new(vec![]);
    let r = add_scaffolding(&text, &WatShape::ComponentText(fields), map);
    assert!(matches!(r, Err(wcov::annotate::AnnotateError::DuplicateSpan)));
}

#[test]
fn module_imports_go_after_the_last_leading_import() {
    // one module whose fields are import, import, func: the core-level
    // import line lands right before the func
    let text = s(
        b"(component (core module (;0;) (import \"a\" \"b\" (func)) (import \"c\" \"d\" (func)) (func (;2;) nop)))",
    );
    let mod_span = find(&text, b"(core module");
    let i1 = find(&text, b"(import \"a\"");
    let i2 = find(&text, b"(import \"c\"");
    let f = find(&text, b"(func (;2;)");
    let nop = find(&text, b"nop");
    let fields = vec![Field::CoreModule {
        span: mod_span,
        fields: Some(vec![
            ModField::Import { span: i1 },
            ModField::Import { span: i2 },
            ModField::Func(ModFunc {
                span: f,
                body: Some(vec![Instr { off: nop, kind: InstrKind::Other }]),
            }),
        ]),
    }];
    let map = WatLineMapper::new(vec![0]);
    let (out, _data, _n) = add_scaffolding(&text, &WatShape::ComponentText(fields), map).unwrap();
    let imp = find(
        &out,
        b"(import \"inc-counter-module\" \"inc-counter\" (func $inc-counter (param i32) (param i32) (param i32) (param i32) (param i32)))",
    );
    let func_at = find(&out, b"(func (;2;)");
    let second_import = find(&out, b"(import \"c\"");
    assert!(second_import < imp && imp < func_at);
}

#[test]
fn module_with_nothing_after_imports_is_skipped() {
    // a module that ends after its imports gets no core-level import line
    let text = s(b"(component (core module (;0;) (import \"a\" \"b\" (func))))");
    let mod_span = find(&text, b"(core module");
    let i1 = find(&text, b"(import \"a\"");
    let fields = vec![Field::CoreModule {
        span: mod_span,
        fields: Some(vec![ModField::Import { span: i1 }]),
    }];
    let map = WatLineMapper::new(vec![0]);
    let (out, _data, n) = add_scaffolding(&text, &WatShape::ComponentText(fields), map).unwrap();
    assert_eq!(n, 0);
    assert_eq!(count(&out, b"inc-counter-module\" \"inc-counter\""), 0);
}

#[test]
fn core_function_indices_are_bumped_and_seed_the_blacklist() {
    // a canon lift argument and a realloc option both get bumped
    let text = s(b"(component (func (;0;) (type 0) (canon lift (core func 2) (realloc 3))))");
    let f_span = find(&text, b"(func (;0;)");
    let lift_ref = find(&text, b"(core func 2") + 11;
    let realloc_ref = find(&text, b"(realloc 3") + 9;
    let fields = vec![Field::Func {
        span: f_span,
        kind: wcov::model::FuncKind::Lift {
            ty: None,
            func: IdxRef::Num { num: 2, off: lift_ref },
        },
    }, Field::CoreFunc {
        span: find(&text, b"(canon lift"),
        kind: wcov::model::CoreFuncKind::Lower {
            func: IdxRef::Sym,
            opts: vec![wcov::model::CanonOpt::Realloc(IdxRef::Num { num: 3, off: realloc_ref })],
        },
    }];
    let map = WatLineMapper::new(vec![]);
    // a realloc seed that no alias exports blacklists nothing
    let (out, _data, _n) =
        add_scaffolding(&text, &WatShape::ComponentText(fields), map).unwrap();
    assert_eq!(count(&out, b"(core func 3"), 1);
    assert_eq!(count(&out, b"(realloc 4"), 1);
}

/// The whole core in one call: a hand-built component binary provides the
/// code-section offset, raw rows provide the record, and the text gets its
/// prelude.
#[test]
fn instrument_composes_reader_and_pipeline() {
    // a component holding one core module with empty type, function and
    // code sections; the code section's contents start at offset 26
    let mut binary: Vec<u8> = Vec::new();
    binary.extend_from_slice(b"\0asm");
    binary.extend_from_slice(&[0x0d, 0x00, 0x01, 0x00]);
    let module: Vec<u8> = {
        let mut m: Vec<u8> = Vec::new();
        m.extend_from_slice(b"\0asm");
        m.extend_from_slice(&[0x01, 0x00, 0x00, 0x00]);
        m.extend_from_slice(&[0x01, 0x01, 0x00]);
        m.extend_from_slice(&[0x03, 0x01, 0x00]);
        m.extend_from_slice(&[0x0a, 0x01, 0x00]);
        m
    };
    binary.push(0x01);
    binary.push(module.len() as u8);
    binary.extend_from_slice(&module);
    // the record at address 5 lands on the comment at 26 + 5 = 0x1f
    let text = s(
        b"(component (core module (;0;) (func (;0;) (block (;@1f;) nop))) (core instance (;0;) (instantiate 0)))",
    );
    let mod_span = find(&text, b"(core module");
    let func_span = find(&text, b"(func (;0;)");
    let block_off = find(&text, b"(block");
    let nop_off = find(&text, b"nop");
    let ci_span = find(&text, b"(core instance");
    let fields = vec![
        Field::CoreModule {
            span: mod_span,
            fields: Some(vec![ModField::Func(ModFunc {
                span: func_span,
                body: Some(vec![
                    Instr { off: block_off, kind: InstrKind::Other },
                    Instr { off: nop_off, kind: InstrKind::Other },
                ]),
            })]),
        },
        Field::CoreInstance {
            span: ci_span,
            kind: CoreInstanceKind::Instantiate {
                module: IdxRef::Num { num: 0, off: find(&text, b"(instantiate 0") + 13 },
                args: vec![],
            },
        },
    ];
    let dwarf = vec![ModuleDebugInput {
        units: vec![UnitDebugInput {
            comp_dir: s(b"/src"),
            rows: vec![RawLineRow {
                address: 5,
                has_file: true,
                dir_idx: 0,
                dir: None,
                file_name: s(b"foo.rs"),
                line: 7,
                column: 5,
            }],
            funcs: vec![],
        }],
    }];
    let (out, data, n) =
        wcov::annotate::instrument(&text, &WatShape::ComponentText(fields), &binary, &dwarf)
            .unwrap();
    assert_eq!(n, 1);
    assert_eq!(data.file_map, vec![s(b"/src/foo.rs")]);
    assert_eq!(
        count(&out, b"i32.const 0 i32.const 0 i32.const 0 i32.const 7 i32.const 5 call $inc-counter\n"),
        1,
    );
    // an unwalkable binary is its own error
    let r = wcov::annotate::instrument(
        &text,
        &WatShape::ComponentText(vec![]),
        &s(b"not wasm"),
        &dwarf,
    );
    assert!(matches!(r, Err(wcov::annotate::AnnotateError::BinaryRead)));
    // a duplicate record is fatal before the pipeline starts
    let dup = vec![ModuleDebugInput {
        units: vec![UnitDebugInput {
            comp_dir: s(b"/src"),
            rows: vec![
                RawLineRow {
                    address: 5,
                    has_file: true,
                    dir_idx: 0,
                    dir: None,
                    file_name: s(b"foo.rs"),
                    line: 7,
                    column: 5,
                },
                RawLineRow {
                    address: 5,
                    has_file: true,
                    dir_idx: 0,
                    dir: None,
                    file_name: s(b"foo.rs"),
                    line: 7,
                    column: 5,
                },
            ],
            funcs: vec![],
        }],
    }];
    let r2 = wcov::annotate::instrument(&text, &WatShape::ComponentText(vec![]), &binary, &dup);
    assert!(matches!(r2, Err(wcov::annotate::AnnotateError::DuplicateLine)));
}
