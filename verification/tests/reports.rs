use wcov::debug_info::{DebugDataOwned, SourceDebugInfo, FuncRec};
use wcov::gcov::{GCovFile, Line};
use wcov::lcov::{SourceFile, TraceFile};

fn s(b: &[u8]) -> Vec<u8> {
    b.to_vec()
}

#[test]
fn line_counts_blocks_and_totals() {
    let mut l = Line::empty();
    assert_eq!(l.total_counters(), 0);
    assert_eq!(l.num_blocks(), 0);
    l.increment(5);
    assert_eq!(l.total_counters(), 1);
    assert_eq!(l.num_blocks(), 1);
    l.increment(5);
    assert_eq!(l.total_counters(), 2);
    assert_eq!(l.num_blocks(), 1);
    l.increment(9);
    assert_eq!(l.total_counters(), 3);
    assert_eq!(l.num_blocks(), 2);
    l.increment(9);
    l.increment(12);
    assert_eq!(l.total_counters(), 5);
    assert_eq!(l.num_blocks(), 3);
}

#[test]
fn line_new_starts_at_one() {
    let l = Line::new(7);
    assert_eq!(l.total_counters(), 1);
    assert_eq!(l.num_blocks(), 1);
}

fn sample_data() -> DebugDataOwned {
    DebugDataOwned {
        file_map: vec![s(b"/src/foo.rs")],
        blocks_per_line: vec![(0, vec![(7, 2), (9, 1)])],
        sdi_vec: vec![SourceDebugInfo {
            path_idx: 0,
            functions: vec![FuncRec {
                start_line: 7,
                end_line: Some(9),
                name: s(b"run"),
                start_addr: 5,
            }],
            branches: vec![],
        }],
    }
}

#[test]
fn gcov_file_tracks_hits_per_line() {
    let data = sample_data();
    let mut g = GCovFile::new(&data, 0);
    assert_eq!(g.clone_src_file(), s(b"/src/foo.rs"));
    // both lines exist with zero hits
    assert_eq!(g.get_counters_for_line(7), Some(0));
    assert_eq!(g.get_counters_for_line(9), Some(0));
    assert_eq!(g.get_counters_for_line(8), None);
    g.increment(7, 5);
    g.increment(7, 5);
    g.increment(7, 13);
    g.increment(9, 1);
    assert_eq!(g.get_counters_for_line(7), Some(3));
    assert_eq!(g.get_counters_for_line(9), Some(1));
    // one of line 7's two blocks was entered... both columns were hit, so
    // the stats report two entered blocks out of the two instrumented
    assert_eq!(g.line_block_stats(7), Some((2, 2)));
    // a line the table does not know is left alone
    g.increment(42, 1);
    assert_eq!(g.get_counters_for_line(42), None);
}

#[test]
fn lcov_block_lists_functions_and_lines() {
    let data = sample_data();
    let mut g = GCovFile::new(&data, 0);
    g.increment(7, 5);
    g.increment(7, 5);
    let sf = SourceFile::new(&g, &data.sdi_vec[0], true);
    let rendered = sf.render();
    let text = String::from_utf8(rendered).unwrap();
    assert_eq!(
        text,
        "SF:/src/foo.rs\n\
         FN:7,run\n\
         FNDA:2,run\n\
         FNF:1\n\
         FNH:1\n\
         BRF:0\nBRH:0\n\
         DA:7,2\n\
         DA:9,0\n\
         LH:1\n\
         LF:2\n\
         end_of_record"
    );
}

#[test]
fn tracefile_omits_files_missing_on_disk() {
    let data = sample_data();
    let g = GCovFile::new(&data, 0);
    let present = SourceFile::new(&g, &data.sdi_vec[0], true);
    let missing = SourceFile::new(&g, &data.sdi_vec[0], false);
    let tf = TraceFile::new(Some(s(b"tracefile")), vec![missing, present]);
    let out = String::from_utf8(tf.render()).unwrap();
    assert!(out.starts_with("TN:tracefile\n"));
    // exactly one SF block: the file that is on disk
    assert_eq!(out.matches("SF:/src/foo.rs").count(), 1);
    assert!(out.ends_with("end_of_record\n"));
}

#[test]
fn debug_data_lookups() {
    let data = sample_data();
    assert!(data.file_map_idx(0).is_some());
    assert!(data.file_map_idx(1).is_none());
    let sdi = data.get_sdi_from_file(&s(b"/src/foo.rs")).unwrap();
    assert_eq!(sdi.path_idx, 0);
    assert!(data.get_sdi_from_file(&s(b"/src/bar.rs")).is_none());
}

#[test]
fn gcov_count_column_shows_counts_dashes_and_stars() {
    let data = sample_data();
    let mut g = GCovFile::new(&data, 0);
    // nothing ran yet: lines with code show a dash, others too
    assert_eq!(g.render_count_column(7), b"-:".to_vec());
    assert_eq!(g.render_count_column(8), b"-:".to_vec());
    // one of line 7's two blocks ran: count plus a star
    g.increment(7, 5);
    assert_eq!(g.render_count_column(7), b"1*:".to_vec());
    // both blocks ran: no star
    g.increment(7, 13);
    assert_eq!(g.render_count_column(7), b"2:".to_vec());
    // line 9's single block ran twice
    g.increment(9, 1);
    g.increment(9, 1);
    assert_eq!(g.render_count_column(9), b"2:".to_vec());
}
