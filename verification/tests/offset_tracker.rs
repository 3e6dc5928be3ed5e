use wcov::model::IdxRef;
use wcov::offset_tracker::OffsetTracker;

fn s(b: &[u8]) -> Vec<u8> {
    b.to_vec()
}

#[test]
fn insert_shifts_following_text() {
    let text = s(b"abcdef");
    let mut out = text.clone();
    let mut t = OffsetTracker::new();
    t.add_to_string(&mut out, 2, &s(b"XY"));
    assert_eq!(out, s(b"abXYcdef"));
    t.add_to_string(&mut out, 4, &s(b"Z"));
    assert_eq!(out, s(b"abXYcdZef"));
}

#[test]
fn edits_out_of_order_match_sorted_replay() {
    // the offset-tracker law on concrete values: recording the edits
    // back-to-front gives the same text as recording them front-to-back
    let text = s(b"0123456789");
    let mut out1 = text.clone();
    let mut t1 = OffsetTracker::new();
    t1.add_to_string(&mut out1, 8, &s(b"<late>"));
    t1.add_to_string(&mut out1, 2, &s(b"<early>"));
    t1.add_to_string(&mut out1, 5, &s(b"<mid>"));

    let mut out2 = text.clone();
    let mut t2 = OffsetTracker::new();
    t2.add_to_string(&mut out2, 2, &s(b"<early>"));
    t2.add_to_string(&mut out2, 5, &s(b"<mid>"));
    t2.add_to_string(&mut out2, 8, &s(b"<late>"));

    assert_eq!(out1, out2);
    assert_eq!(out1, s(b"01<early>234<mid>567<late>89"));
}

#[test]
fn increment_idx_bumps_numeric_literal() {
    let text = s(b"(canon lower (func 7))");
    let mut out = text.clone();
    let mut t = OffsetTracker::new();
    let off = 19; // position of the literal 7
    assert_eq!(&text[off..off + 1], b"7");
    let r = t.increment_idx(&mut out, &text.clone(), IdxRef::Num { num: 7, off }, None);
    assert!(r);
    assert_eq!(out, s(b"(canon lower (func 8))"));
}

#[test]
fn increment_idx_grows_literal_length() {
    let text = s(b"func 9 end");
    let mut out = text.clone();
    let mut t = OffsetTracker::new();
    let r = t.increment_idx(&mut out, &text.clone(), IdxRef::Num { num: 9, off: 5 }, None);
    assert!(r);
    assert_eq!(out, s(b"func 10 end"));
    // a later insertion at an original offset past the literal lands right
    let text2 = text.clone();
    t.add_to_string(&mut out, 7, &s(b"!"));
    let _ = text2;
    assert_eq!(out, s(b"func 10 !end"));
}

#[test]
fn increment_idx_respects_lower_bound() {
    let text = s(b"type 17 type 18");
    let mut out = text.clone();
    let mut t = OffsetTracker::new();
    let r17 = t.increment_idx(&mut out, &text, IdxRef::Num { num: 17, off: 5 }, Some(18));
    let r18 = t.increment_idx(&mut out, &text, IdxRef::Num { num: 18, off: 13 }, Some(18));
    assert!(!r17);
    assert!(r18);
    assert_eq!(out, s(b"type 17 type 19"));
}

#[test]
fn increment_idx_ignores_symbolic_and_mismatched() {
    let text = s(b"call $f 33");
    let mut out = text.clone();
    let mut t = OffsetTracker::new();
    assert!(!t.increment_idx(&mut out, &text, IdxRef::Sym, None));
    // the token claims 7 but the text holds 33: nothing happens
    assert!(!t.increment_idx(&mut out, &text, IdxRef::Num { num: 7, off: 8 }, None));
    assert_eq!(out, text);
}

#[test]
fn get_slice_from_translates_offsets() {
    let text = s(b"hello world");
    let mut out = text.clone();
    let mut t = OffsetTracker::new();
    t.add_to_string(&mut out, 0, &s(b">>"));
    let tail = t.get_slice_from(&out, 6);
    assert_eq!(tail, b"world");
}
