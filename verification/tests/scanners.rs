use wcov::numeral::u64_to_dec;
use wcov::scan::{find_instantiate_head, scan_hex_comments};

fn s(b: &[u8]) -> Vec<u8> {
    b.to_vec()
}

#[test]
fn decimal_rendering() {
    assert_eq!(u64_to_dec(0), s(b"0"));
    assert_eq!(u64_to_dec(7), s(b"7"));
    assert_eq!(u64_to_dec(10), s(b"10"));
    assert_eq!(u64_to_dec(105), s(b"105"));
    assert_eq!(u64_to_dec(u64::MAX), s(b"18446744073709551615"));
}

#[test]
fn hex_comments_are_found_with_values_and_ends() {
    let text = s(b"x (;@24;) block (;@a3 ;) nop");
    let r = scan_hex_comments(&text, 0, text.len());
    assert_eq!(r.len(), 2);
    assert_eq!(r[0].val, 0x24);
    assert_eq!(r[0].end, 9);
    assert_eq!(r[1].val, 0xa3);
    assert_eq!(r[1].end, 24);
}

#[test]
fn hex_comment_needs_digits_and_closer() {
    // no digits, uppercase digits, and an unterminated comment all fail
    let text = s(b"(;@;) (;@AB;) (;@12");
    let r = scan_hex_comments(&text, 0, text.len());
    assert_eq!(r.len(), 0);
}

#[test]
fn hex_comments_respect_the_window() {
    let text = s(b"(;@1;)(;@2;)");
    let r = scan_hex_comments(&text, 6, text.len());
    assert_eq!(r.len(), 1);
    assert_eq!(r[0].val, 2);
}

#[test]
fn instantiate_head_is_found_past_the_module_index() {
    let text = s(b"  (core instance (;0;) (instantiate 12 (with ...)))");
    let r = find_instantiate_head(&text, 0);
    // the head ends just past the digits of the module index
    assert_eq!(r, Some(38));
    assert_eq!(&text[36..38], b"12");
}

#[test]
fn instantiate_head_respects_the_start() {
    let text = s(b"core instance (;0;) (instantiate 1 core instance (;1;) (instantiate 2");
    let first = find_instantiate_head(&text, 0).unwrap();
    let second = find_instantiate_head(&text, first).unwrap();
    assert_eq!(&text[first - 1..first], b"1");
    assert_eq!(&text[second - 1..second], b"2");
    assert!(find_instantiate_head(&text, second).is_none());
}
