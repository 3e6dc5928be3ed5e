use wcov::blacklist::{process_blacklist, Blacklist};
use wcov::model::{
    AliasTarget, CanonOpt, CoreFuncKind, CoreInstanceKind, ExportKind, Field, IdxRef, Instr,
    InstrKind, ModField, ModFunc,
};

fn s(b: &[u8]) -> Vec<u8> {
    b.to_vec()
}

fn func(span: usize, calls: &[u32]) -> ModField {
    let body = calls
        .iter()
        .map(|c| Instr { off: span + 1, kind: InstrKind::Call(IdxRef::Num { num: *c, off: 0 }) })
        .collect::<Vec<_>>();
    ModField::Func(ModFunc { span, body: Some(body) })
}

/// A realloc at core-func index 3 whose body calls 4 and 5: the blacklist
/// closes over all three.
#[test]
fn realloc_chain_is_blacklisted() {
    // core-func indices 0..2 are canon funcs; index 3 is the aliased export
    let fields = vec![
        Field::CoreModule {
            span: 1,
            fields: Some(vec![
                func(10, &[]),
                func(20, &[]),
                func(30, &[]),
                ModField::Func(ModFunc {
                    span: 40,
                    body: Some(vec![
                        Instr { off: 41, kind: InstrKind::Call(IdxRef::Num { num: 4, off: 0 }) },
                        Instr { off: 42, kind: InstrKind::Call(IdxRef::Num { num: 5, off: 0 }) },
                    ]),
                }),
                func(50, &[]),
                func(60, &[]),
                ModField::Export {
                    span: 70,
                    name: s(b"cabi_realloc"),
                    kind: ExportKind::Func,
                    item: IdxRef::Num { num: 3, off: 0 },
                },
            ]),
        },
        Field::CoreInstance {
            span: 80,
            kind: CoreInstanceKind::Instantiate {
                module: IdxRef::Num { num: 0, off: 0 },
                args: vec![],
            },
        },
        Field::Alias {
            span: 100,
            target: AliasTarget::CoreExport {
                instance: IdxRef::Num { num: 0, off: 0 },
                name: s(b"cabi_realloc"),
                kind: ExportKind::Func,
            },
        },
        Field::CoreFunc {
            span: 90,
            kind: CoreFuncKind::Lower {
                func: IdxRef::Sym,
                opts: vec![CanonOpt::Realloc(IdxRef::Num { num: 3, off: 0 })],
            },
        },
    ];
    // core-func index of the alias: the canon lower at span 90 counts as
    // index 0... the alias must sit at index 3: put three core funcs first
    let mut with_three = vec![
        Field::CoreFunc { span: 2, kind: CoreFuncKind::Other },
        Field::CoreFunc { span: 3, kind: CoreFuncKind::Other },
        Field::CoreFunc { span: 4, kind: CoreFuncKind::Other },
    ];
    with_three.extend(fields);
    let seed = vec![IdxRef::Num { num: 3, off: 0 }];
    let bl = process_blacklist(&with_three, &seed).unwrap();
    let mut spans = bl.clone();
    spans.sort();
    assert_eq!(spans, vec![40, 50, 60]);
}

#[test]
fn calls_to_imports_end_the_frontier() {
    // the blacklisted function calls index 9, which no function field has:
    // the frontier ends there
    let fields = vec![
        Field::CoreModule {
            span: 1,
            fields: Some(vec![
                func(10, &[9]),
                ModField::Export {
                    span: 70,
                    name: s(b"realloc"),
                    kind: ExportKind::Func,
                    item: IdxRef::Num { num: 0, off: 0 },
                },
            ]),
        },
        Field::CoreInstance {
            span: 80,
            kind: CoreInstanceKind::Instantiate {
                module: IdxRef::Num { num: 0, off: 0 },
                args: vec![],
            },
        },
        Field::Alias {
            span: 100,
            target: AliasTarget::CoreExport {
                instance: IdxRef::Num { num: 0, off: 0 },
                name: s(b"realloc"),
                kind: ExportKind::Func,
            },
        },
    ];
    let seed = vec![IdxRef::Num { num: 0, off: 0 }];
    let bl = process_blacklist(&fields, &seed).unwrap();
    assert_eq!(bl, vec![10]);
}

#[test]
fn bad_seed_index_is_fatal() {
    // the seed names core-func index 7 but no alias reaches it: the export
    // chain resolves nothing, which is an impossible index
    let fields = vec![Field::Alias {
        span: 100,
        target: AliasTarget::CoreExport {
            instance: IdxRef::Num { num: 0, off: 0 },
            name: s(b"realloc"),
            kind: ExportKind::Func,
        },
    }];
    let seed = vec![IdxRef::Num { num: 0, off: 0 }];
    // the alias is at core-func index 0, so the seed matches it, but there
    // is no core instance to resolve against
    let r = process_blacklist(&fields, &seed);
    assert!(r.is_err());
}

#[test]
fn queue_remembers_popped_items() {
    let mut b = Blacklist::new();
    b.add_to_queue(5);
    b.add_to_queue(6);
    assert!(!b.is_queue_empty());
    assert_eq!(b.get_next(), Some(5));
    b.pop_next();
    assert_eq!(b.get_next(), Some(6));
    b.pop_next();
    assert!(b.is_queue_empty());
    // 5 was popped once: it never queues again
    b.add_to_queue(5);
    assert!(b.is_queue_empty());
    b.add_to_queue(7);
    assert_eq!(b.get_next(), Some(7));
}
