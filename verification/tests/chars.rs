use bogobble::charbool::{
    char_expected, do_chars, do_one_char, is_alpha, is_hex, is_num, not, one_char, str_has, Alpha,
    Any, CharBool, CharBoolExt, HexDigit, NumDigit, WS, WSL,
};
use bogobble::err::Expected;
use bogobble::iter::PIter;
use bogobble::parser::Parser;

#[test]
fn test_alpha_works_as_struct() {
    assert_eq!(Alpha.char_bool('a'), true)
}

#[test]
fn character_classes() {
    assert!(is_alpha('a') && is_alpha('Z') && !is_alpha('1') && !is_alpha('é') && !is_alpha('['));
    assert!(is_num('0') && is_num('9') && !is_num('a') && !is_num('/') && !is_num(':'));
    assert!(is_hex('f') && is_hex('A') && is_hex('7') && !is_hex('g') && !is_hex('G'));
    assert!(HexDigit.char_bool('c') && !HexDigit.char_bool('x'));
    assert!(Any.char_bool('\n'));
    assert!(WS.char_bool(' ') && WS.char_bool('\t') && !WS.char_bool('\n'));
    assert!(WSL.char_bool('\n') && WSL.char_bool('\r') && WSL.char_bool(' ') && !WSL.char_bool('a'));
    assert!('x'.char_bool('x') && !'x'.char_bool('y'));
    assert!("abc".char_bool('b') && !"abc".char_bool('d') && !"".char_bool('a'));
    assert!(str_has("héllo", 'é') && !str_has("héllo", 'e'));
    assert!(not(Alpha).char_bool('1') && !not(Alpha).char_bool('a'));
}

#[test]
fn descriptions_of_predicates() {
    assert_eq!(Alpha.expected(), Expected::CharIn("Alpha"));
    assert_eq!(NumDigit.expected(), Expected::CharIn("NumDigit"));
    assert_eq!(Any.expected(), Expected::CharIn("Any"));
    assert_eq!(HexDigit.expected(), Expected::CharIn("HexDigit"));
    assert_eq!(WS.expected(), Expected::CharIn("WS"));
    assert_eq!(WSL.expected(), Expected::CharIn("WSL"));
    assert_eq!('q'.expected(), Expected::Char('q'));
    assert_eq!(char_expected('q'), Expected::Char('q'));
    assert_eq!("xyz".expected(), Expected::CharIn("xyz"));
    assert_eq!(not('a').expected(), Expected::Not(Box::new(Expected::Char('a'))));
    assert_eq!(
        Alpha.except('x').expected(),
        Expected::OneOf(vec![
            Expected::CharIn("Alpha"),
            Expected::Not(Box::new(Expected::Char('x')))
        ])
    );
}

#[test]
fn unions_of_predicates() {
    let two = (Alpha, NumDigit);
    assert!(two.char_bool('a') && two.char_bool('1') && !two.char_bool('_'));
    assert_eq!(
        two.expected(),
        Expected::OneOf(vec![Expected::CharIn("Alpha"), Expected::CharIn("NumDigit")])
    );
    let three = (Alpha, NumDigit, '_');
    assert!(three.char_bool('_') && !three.char_bool('-'));
    assert_eq!(
        three.expected(),
        Expected::OneOf(vec![
            Expected::CharIn("Alpha"),
            Expected::CharIn("NumDigit"),
            Expected::Char('_')
        ])
    );
    let four = ('a', 'b', 'c', 'd');
    assert!(four.char_bool('d') && !four.char_bool('e'));
    let five = ('a', 'b', 'c', 'd', 'e');
    assert!(five.char_bool('e') && !five.char_bool('f'));
    let six = ('a', 'b', 'c', 'd', 'e', "xyz");
    assert!(six.char_bool('y') && six.char_bool('a') && !six.char_bool('f'));
    assert_eq!(
        six.expected(),
        Expected::OneOf(vec![
            Expected::Char('a'),
            Expected::Char('b'),
            Expected::Char('c'),
            Expected::Char('d'),
            Expected::Char('e'),
            Expected::CharIn("xyz")
        ])
    );
    assert_eq!(four.expected().to_string(), "One of [a , b , c , d]");
    assert_eq!(five.expected().to_string(), "One of [a , b , c , d , e]");
}

#[test]
fn exclusion_of_predicates() {
    assert_eq!(Any.except("_").min_n(4).parse_s("asedf_wes"), Ok("asedf"));
    let p = Alpha.except("aeiou");
    assert!(p.char_bool('b') && !p.char_bool('a') && !p.char_bool('1'));
}

#[test]
fn character_run_leaves_a_soft_record() {
    let start = PIter::new("123abc");
    let (it, v, soft) = NumDigit.min_n(1).parse(&start).unwrap();
    assert_eq!(v, "123");
    assert_eq!(it.index(), Some(3));
    assert_eq!(it.as_str(), "abc");
    let soft = soft.unwrap();
    assert_eq!(soft.index, Some(3));
    assert_eq!(soft.exp, Expected::CharIn("NumDigit"));
    assert_eq!(soft.found, "abc");
    assert_eq!((soft.line, soft.col), (0, 3));
    assert_eq!(NumDigit.min_n(1).parse_s("123abc"), Ok("123"));
}

#[test]
fn run_that_the_input_ends_has_no_soft_record() {
    let start = PIter::new("123");
    let (it, v, soft) = NumDigit.star().parse(&start).unwrap();
    assert_eq!(v, "123");
    assert!(it.eoi());
    assert!(soft.is_none());
}

#[test]
fn star_accepts_nothing() {
    let start = PIter::new("abc");
    let (it, v, soft) = NumDigit.star().parse(&start).unwrap();
    assert_eq!(v, "");
    assert_eq!(it.index(), Some(0));
    assert_eq!(soft.unwrap().index, Some(0));
    assert_eq!(NumDigit.star().parse_s(""), Ok(""));
}

#[test]
fn plus_needs_one() {
    assert_eq!(Alpha.plus().parse_s("ab1"), Ok("ab"));
    let e = Alpha.plus().parse_s("1ab").unwrap_err();
    assert_eq!(e.index, Some(0));
    assert_eq!(e.exp, Expected::CharIn("Alpha"));
    let e = Alpha.plus().parse_s("").unwrap_err();
    assert_eq!(e.index, None);
}

#[test]
fn min_fails_where_the_run_broke() {
    let e = NumDigit.min_n(3).parse_s("12a45").unwrap_err();
    assert_eq!(e.index, Some(2));
    assert_eq!(e.exp, Expected::CharIn("NumDigit"));
    assert_eq!(e.found, "a45");
    assert_eq!(NumDigit.min_n(3).parse_s("12345a"), Ok("12345"));
    assert_eq!(NumDigit.min_n(0).parse_s("a"), Ok(""));
}

#[test]
fn exact_stops_at_the_count() {
    let start = PIter::new("12345");
    let (it, v, soft) = NumDigit.exact(2).parse(&start).unwrap();
    assert_eq!(v, "12");
    assert_eq!(it.index(), Some(2));
    assert!(soft.is_none());
    let e = NumDigit.exact(3).parse_s("12").unwrap_err();
    assert_eq!(e.index, None);
    let e = NumDigit.exact(3).parse_s("12ab").unwrap_err();
    assert_eq!(e.index, Some(2));
    let (it, v, soft) = NumDigit.exact(0).parse(&start).unwrap();
    assert_eq!(v, "");
    assert_eq!(it.index(), Some(0));
    assert!(soft.is_none());
}

#[test]
fn ignoring_runs() {
    let start = PIter::new("  \tx");
    let (it, v, _) = WS.istar().parse(&start).unwrap();
    assert_eq!(v, ());
    assert_eq!(it.index(), Some(3));
    let (it, _, _) = WS.iplus().parse(&start).unwrap();
    assert_eq!(it.index(), Some(3));
    assert!(WS.iplus().parse_s("x").is_err());
    let (it, _, soft) = WS.iexact(2).parse(&start).unwrap();
    assert_eq!(it.index(), Some(2));
    assert!(soft.is_none());
    assert!(WS.iexact(4).parse_s("  \tx").is_err());
}

#[test]
fn do_chars_counts_lines() {
    let start = PIter::new("\n\n x");
    let (it, _, _) = do_chars(&start, &WSL, 0, false).unwrap();
    assert_eq!(it.lc(), (2, 1));
    assert_eq!(it.index(), Some(3));
}

#[test]
fn one_character() {
    assert_eq!(Alpha.one().parse_s("q1"), Ok('q'));
    assert_eq!(one_char(NumDigit).parse_s("7"), Ok('7'));
    let e = one_char(NumDigit).parse_s("x").unwrap_err();
    assert_eq!(e.index, Some(0));
    assert_eq!(e.exp, Expected::CharIn("NumDigit"));
    let e = one_char(NumDigit).parse_s("").unwrap_err();
    assert_eq!(e.index, None);
    let start = PIter::new("éa");
    let (it, c, soft) = do_one_char(&start, &Any).unwrap();
    assert_eq!(c, 'é');
    assert_eq!(it.index(), Some(2));
    assert!(soft.is_none());
}

#[test]
fn run_until_a_terminator() {
    let start = PIter::new("abc!x");
    let (it, v, soft) = Alpha.until("!").parse(&start).unwrap();
    assert_eq!(v, ("abc", "!"));
    assert_eq!(it.index(), Some(4));
    assert!(soft.is_none());
    assert_eq!(Alpha.until("!").parse_s("!"), Ok(("", "!")));
    assert_eq!(Any.until("end").parse_s("the end"), Ok(("the ", "end")));
}

#[test]
fn run_until_fails_on_a_character_that_does_not_qualify() {
    let e = Alpha.until("!").parse_s("ab1!").unwrap_err();
    assert_eq!(e.index, Some(3));
    assert_eq!(e.exp, Expected::CharIn("Alpha"));
    let c = e.child.unwrap();
    assert_eq!(c.index, Some(2));
    assert_eq!(c.exp, Expected::Str("!"));
}

#[test]
fn run_until_fails_at_the_end() {
    let e = Alpha.until("!").parse_s("ab").unwrap_err();
    assert_eq!(e.index, None);
    assert_eq!(e.exp, Expected::OneOf(vec![Expected::Str("!"), Expected::CharIn("Alpha")]));
}
