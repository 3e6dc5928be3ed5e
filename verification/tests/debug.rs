use wcov::counters::record_hit;
use wcov::debug_info::{
    find_code_offsets, path_join, read_dbg_info, DebugError, DebugLineInfo, ModuleDebugInput,
    RawFuncRec, RawLineRow, UnitDebugInput, WatLineMapper,
};
use wcov::{CounterType, NoiseLevel};

fn s(b: &[u8]) -> Vec<u8> {
    b.to_vec()
}

#[test]
fn code_offsets_of_a_minimal_component() {
    // a component holding one core module with empty type, function and
    // code sections; the code section's contents start at offset 26
    let mut bytes: Vec<u8> = Vec::new();
    bytes.extend_from_slice(b"\0asm");
    bytes.extend_from_slice(&[0x0d, 0x00, 0x01, 0x00]);
    let module: Vec<u8> = {
        let mut m: Vec<u8> = Vec::new();
        m.extend_from_slice(b"\0asm");
        m.extend_from_slice(&[0x01, 0x00, 0x00, 0x00]);
        m.extend_from_slice(&[0x01, 0x01, 0x00]); // type section, empty
        m.extend_from_slice(&[0x03, 0x01, 0x00]); // function section, empty
        m.extend_from_slice(&[0x0a, 0x01, 0x00]); // code section, empty
        m
    };
    bytes.push(0x01); // core module section
    bytes.push(module.len() as u8);
    bytes.extend_from_slice(&module);
    let offs = find_code_offsets(&bytes).unwrap();
    assert_eq!(offs, vec![26]);
}

#[test]
fn code_offsets_reject_garbage() {
    let bytes = s(b"not wasm at all");
    assert!(find_code_offsets(&bytes).is_err());
}

#[test]
fn file_map_deduplicates_by_equality() {
    let mut map = WatLineMapper::new(vec![]);
    let a = map.add_file(s(b"/a/foo.rs"));
    let b = map.add_file(s(b"/a/bar.rs"));
    let a2 = map.add_file(s(b"/a/foo.rs"));
    assert_eq!(a, 0);
    assert_eq!(b, 1);
    assert_eq!(a2, 0);
}

#[test]
fn duplicate_line_records_are_a_hard_error() {
    let mut map = WatLineMapper::new(vec![]);
    let p = map.add_file(s(b"foo.rs"));
    let dli = DebugLineInfo { address: 5, path_idx: p, line: 7, column: 5, code_module_idx: 0 };
    assert!(map.add_line(dli).is_ok());
    assert_eq!(map.add_line(dli), Err(DebugError::DuplicateLine));
    // a different column is a different record
    let dli2 = DebugLineInfo { address: 5, path_idx: p, line: 7, column: 6, code_module_idx: 0 };
    assert!(map.add_line(dli2).is_ok());
}

#[test]
fn source_triplet_picks_the_record_at_or_before() {
    let mut map = WatLineMapper::new(vec![100]);
    let p = map.add_file(s(b"foo.rs"));
    for (addr, line) in [(5u64, 7u64), (9, 8), (20, 12)] {
        map.add_line(DebugLineInfo {
            address: addr,
            path_idx: p,
            line,
            column: 1,
            code_module_idx: 0,
        })
        .unwrap();
    }
    // binary offset 112 is code-section offset 12: the record at 9 wins
    let t = map.get_source_triplet(0, 112).unwrap();
    assert_eq!(t.line, 8);
    // before the first record: nothing
    assert!(map.get_source_triplet(0, 104).is_none());
    // an out-of-range module: nothing
    assert!(map.get_source_triplet(1, 112).is_none());
}

#[test]
fn dwarf_rows_become_records_and_functions() {
    let mut map = WatLineMapper::new(vec![100]);
    let inputs = vec![ModuleDebugInput {
        units: vec![UnitDebugInput {
            comp_dir: s(b"/src"),
            rows: vec![
                RawLineRow {
                    address: 5,
                    has_file: true,
                    dir_idx: 0,
                    dir: None,
                    file_name: s(b"foo.rs"),
                    line: 7,
                    column: 5,
                },
                RawLineRow {
                    address: 9,
                    has_file: true,
                    dir_idx: 0,
                    dir: None,
                    file_name: s(b"foo.rs"),
                    line: 9,
                    column: 1,
                },
            ],
            funcs: vec![RawFuncRec {
                low_pc: 5,
                // minus the closing return's two bytes: the span ends at 11
                high_off: Some(8),
                dir_idx: 0,
                file_name: s(b"foo.rs"),
                name: s(b"run"),
            }],
        }],
    }];
    read_dbg_info(&mut map, &inputs).unwrap();
    assert_eq!(map.lines().len(), 2);
    assert_eq!(map.lines()[0].path_idx, map.lines()[1].path_idx);
    assert_eq!(map.sdi_vec.len(), 1);
    let f = &map.sdi_vec[0].functions[0];
    assert_eq!(f.start_line, 7);
    assert_eq!(f.end_line, Some(9));
    assert_eq!(f.name, s(b"run"));
    assert_eq!(f.start_addr, 5);
    let data = map.into_debug_data();
    assert_eq!(data.file_map, vec![s(b"/src/foo.rs")]);
    assert_eq!(data.blocks_per_line, vec![(0usize, vec![(7u64, 1u64), (9, 1)])]);
}

#[test]
fn path_join_follows_the_push_rules() {
    assert_eq!(path_join(&s(b"/src"), &s(b"foo.rs")), s(b"/src/foo.rs"));
    assert_eq!(path_join(&s(b"/src/"), &s(b"foo.rs")), s(b"/src/foo.rs"));
    assert_eq!(path_join(&s(b"/src"), &s(b"/abs/foo.rs")), s(b"/abs/foo.rs"));
    assert_eq!(path_join(&s(b""), &s(b"foo.rs")), s(b"foo.rs"));
}

#[test]
fn counter_types_cross_the_wire_as_integers() {
    assert!(matches!(CounterType::from_i32(0), Some(CounterType::Block)));
    assert!(matches!(CounterType::from_i32(1), Some(CounterType::If)));
    assert!(matches!(CounterType::from_i32(2), Some(CounterType::Else)));
    assert!(matches!(CounterType::from_i32(3), Some(CounterType::Loop)));
    assert!(CounterType::from_i32(4).is_none());
    assert!(CounterType::from_i32(-1).is_none());
    assert_eq!(CounterType::Loop.to_i32(), 3);
}

#[test]
fn noise_levels_follow_the_switches() {
    assert!(NoiseLevel::from_settings(true, false).debug());
    assert!(NoiseLevel::from_settings(true, false).err());
    assert!(!NoiseLevel::from_settings(false, true).err());
    assert!(!NoiseLevel::from_settings(false, false).debug());
    assert!(NoiseLevel::from_settings(false, false).err());
}

#[test]
fn counter_table_grows_with_zeroes() {
    let mut counters: Vec<u64> = Vec::new();
    record_hit(&mut counters, 2);
    assert_eq!(counters, vec![0, 0, 1]);
    record_hit(&mut counters, 2);
    assert_eq!(counters, vec![0, 0, 2]);
    record_hit(&mut counters, 0);
    assert_eq!(counters, vec![1, 0, 2]);
}
