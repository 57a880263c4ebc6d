use bogobble::err::Expected;
use bogobble::iter::{index, line_col, PIter};
use bogobble::text::{char_width, slice, slice_from};

#[test]
fn it_works() {
    assert_eq!(2 + 2, 4);
}

#[test]
fn new_cursor_is_at_the_start() {
    let it = PIter::new("ab");
    assert_eq!(it.index(), Some(0));
    assert_eq!(it.lc(), (0, 0));
    assert_eq!(it.as_str(), "ab");
    assert!(!it.eoi());
}

#[test]
fn next_consumes_one_character() {
    let mut it = PIter::new("ab");
    assert_eq!(it.next(), Some('a'));
    assert_eq!(it.index(), Some(1));
    assert_eq!(it.lc(), (0, 1));
    assert_eq!(it.as_str(), "b");
    assert_eq!(it.next(), Some('b'));
    assert_eq!(it.index(), None);
    assert!(it.eoi());
    assert_eq!(it.next(), None);
    assert_eq!(it.lc(), (0, 2));
    assert_eq!(it.as_str(), "");
}

#[test]
fn newline_starts_a_line_at_column_zero() {
    let mut it = PIter::new("a\nbc");
    it.next();
    assert_eq!(it.lc(), (0, 1));
    assert_eq!(it.next(), Some('\n'));
    assert_eq!(it.lc(), (1, 0));
    it.next();
    assert_eq!(it.lc(), (1, 1));
    assert_eq!(it.index(), Some(3));
}

#[test]
fn offsets_count_bytes() {
    let mut it = PIter::new("é€𝄞x");
    assert_eq!(it.next(), Some('é'));
    assert_eq!(it.index(), Some(2));
    assert_eq!(it.next(), Some('€'));
    assert_eq!(it.index(), Some(5));
    assert_eq!(it.next(), Some('𝄞'));
    assert_eq!(it.index(), Some(9));
    assert_eq!(it.lc(), (0, 3));
    assert_eq!(it.as_str(), "x");
}

#[test]
fn char_width_of_each_size() {
    assert_eq!(char_width('a'), 1);
    assert_eq!(char_width('\u{7f}'), 1);
    assert_eq!(char_width('\u{80}'), 2);
    assert_eq!(char_width('é'), 2);
    assert_eq!(char_width('\u{7ff}'), 2);
    assert_eq!(char_width('\u{800}'), 3);
    assert_eq!(char_width('€'), 3);
    assert_eq!(char_width('\u{ffff}'), 3);
    assert_eq!(char_width('\u{10000}'), 4);
    assert_eq!(char_width('𝄞'), 4);
}

#[test]
fn advancing_a_duplicate_leaves_the_original() {
    let original = PIter::new("x\ny");
    let mut copy = original.duplicate();
    copy.next();
    copy.next();
    assert_eq!(copy.index(), Some(2));
    assert_eq!(copy.lc(), (1, 0));
    assert_eq!(original.index(), Some(0));
    assert_eq!(original.lc(), (0, 0));
    assert_eq!(original.as_str(), "x\ny");
    let mut second = original.clone();
    second.next();
    assert_eq!(original.index(), Some(0));
    assert_eq!(second.index(), Some(1));
}

#[test]
fn peek_char_leaves_the_cursor() {
    let mut it = PIter::new("hi");
    assert_eq!(it.peek_char(), Some('h'));
    assert_eq!(it.index(), Some(0));
    it.next();
    it.next();
    assert_eq!(it.peek_char(), None);
}

#[test]
fn next_i_keeps_line_and_column() {
    let mut it = PIter::new("\nab");
    assert_eq!(it.next_i(), Some((0, '\n')));
    assert_eq!(it.lc(), (0, 0));
    assert_eq!(it.next_i(), Some((1, 'a')));
    assert_eq!(it.index(), Some(2));
    assert_eq!(it.next_i(), Some((2, 'b')));
    assert_eq!(it.next_i(), None);
}

#[test]
fn str_to_gives_the_text_up_to_an_offset() {
    let start = PIter::new("héllo world");
    let mut it = start;
    for _ in 0..5 {
        it.next();
    }
    assert_eq!(it.index(), Some(6));
    assert_eq!(start.str_to(it.index()), "héllo");
    assert_eq!(start.str_to(None), "héllo world");
    assert_eq!(start.str_to(Some(0)), "");
    assert_eq!(it.str_to(Some(7)), " ");
    let mut end = start;
    while end.next().is_some() {}
    assert_eq!(end.str_to(Some(3)), "");
}

#[test]
fn err_records_place_and_text() {
    let mut it = PIter::new("a\nbcd");
    it.next();
    it.next();
    it.next();
    let e = it.err(Expected::Char('x'));
    assert_eq!(e.exp, Expected::Char('x'));
    assert_eq!(e.found, "cd");
    assert_eq!(e.index, Some(3));
    assert_eq!(e.line, 1);
    assert_eq!(e.col, 1);
    assert!(!e.is_break);
    assert!(e.child.is_none());
    let e2 = it.err_s("name");
    assert_eq!(e2.exp, Expected::Str("name"));
    let r: Result<u8, _> = it.err_rs("other");
    assert_eq!(r.unwrap_err().exp, Expected::Str("other"));
    let r: Result<u8, _> = it.err_r(Expected::EOI);
    assert_eq!(r.unwrap_err().exp, Expected::EOI);
}

#[test]
fn err_at_the_end_has_no_offset() {
    let mut it = PIter::new("a");
    it.next();
    let e = it.err(Expected::EOI);
    assert_eq!(e.index, None);
    assert_eq!(e.found, "");
    assert_eq!(e.col, 1);
}

#[test]
fn index_and_line_col_match_nothing() {
    let mut it = PIter::new("ab\nc");
    it.next();
    it.next();
    it.next();
    let (after, v, soft) = index(&it).unwrap();
    assert_eq!(v, Some(3));
    assert_eq!(after.index(), Some(3));
    assert!(soft.is_none());
    let (after, v, soft) = line_col(&it).unwrap();
    assert_eq!(v, (1, 0));
    assert_eq!(after.as_str(), "c");
    assert!(soft.is_none());
}

#[test]
fn slices_by_byte_offsets() {
    assert_eq!(slice("héllo", 1, 3), "é");
    assert_eq!(slice("héllo", 0, 0), "");
    assert_eq!(slice("héllo", 0, 6), "héllo");
    assert_eq!(slice_from("héllo", 3), "llo");
    assert_eq!(slice_from("héllo", 6), "");
}
