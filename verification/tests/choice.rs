use bogobble::charbool::{Alpha, CharBool, NumDigit, WS};
use bogobble::combi::{debug, fail_on, is_present, maybe, wrap};
use bogobble::convert::{asv, try_map};
use bogobble::err::Expected;
use bogobble::iter::PIter;
use bogobble::named::{do_named, Named};
use bogobble::parser::{do_char, do_seq, Combine, ParseRes, Parser, ResTrait};
use bogobble::reader::{
    eoi, keyword, peek, pos, pos_ig, to_end, ws_, ws__, Pos, EOI,
};
use bogobble::select::{first, last, middle, or};
use bogobble::strung::{str_range, string};
use bogobble::tuple::{first_res, last_res, PFirster, PLaster};

fn lit<'a>(s: &'static str, it: &PIter<'a>) -> ParseRes<'a, &'static str> {
    Parser::parse(&s, it)
}

#[test]
fn literal_matches_its_text() {
    let start = PIter::new("catalog");
    let (it, v, soft) = lit("cat", &start).unwrap();
    assert_eq!(v, "cat");
    assert_eq!(it.index(), Some(3));
    assert!(soft.is_none());
    assert_eq!("".parse_s("x"), Ok(""));
    assert_eq!("é€".parse_s("é€!"), Ok("é€"));
}

#[test]
fn literal_fails_where_the_match_broke_off() {
    let e = "cat".parse_s("cab").unwrap_err();
    assert_eq!(e.index, Some(2));
    assert_eq!(e.exp, Expected::Str("cat"));
    assert_eq!(e.found, "b");
    assert_eq!((e.line, e.col), (0, 2));
    let e = "cat".parse_s("dog").unwrap_err();
    assert_eq!(e.index, Some(0));
    let e = "cat".parse_s("ca").unwrap_err();
    assert_eq!(e.index, None);
}

#[test]
fn single_character_matcher() {
    assert_eq!('a'.parse_s("abc"), Ok('a'));
    let e = 'a'.parse_s("bc").unwrap_err();
    assert_eq!(e.exp, Expected::Char('a'));
    assert_eq!(e.index, Some(0));
    let e = 'a'.parse_s("").unwrap_err();
    assert_eq!(e.index, None);
    let start = PIter::new("xy");
    let (it, c, _) = do_char(&start, 'x').unwrap();
    assert_eq!(c, 'x');
    assert_eq!(it.index(), Some(1));
}

#[test]
fn alternation_reports_the_longest_error() {
    let e = or("cat", "car").parse_s("cab").unwrap_err();
    assert_eq!(e.exp, Expected::OneOf(vec![Expected::Str("cat"), Expected::Str("car")]));
    assert_eq!(e.index, Some(2));
    assert!(!e.is_break);
}

#[test]
fn alternation_keeps_the_further_error() {
    let e = or("cat", "dog").parse_s("cab").unwrap_err();
    assert_eq!(e.exp, Expected::Str("cat"));
    assert_eq!(e.index, Some(2));
    let e = or("dog", "cat").parse_s("cab").unwrap_err();
    assert_eq!(e.exp, Expected::Str("cat"));
    assert_eq!(e.index, Some(2));
}

#[test]
fn alternation_takes_the_first_that_matches() {
    assert_eq!(or("cat", "car").parse_s("cart"), Ok("car"));
    assert_eq!(or("cat", "car").parse_s("cat"), Ok("cat"));
    assert_eq!(or("c", "cat").parse_s("cat"), Ok("c"));
    assert_eq!("cat".or("dog").or("car").parse_s("catdogman "), Ok("cat"));
    assert_eq!("cat".or("dog").or("car").parse_s("car"), Ok("car"));
}

#[test]
fn second_branch_starts_at_the_original_cursor() {
    let start = PIter::new("abd");
    let (it, v, _) = or(str_range(("ab", "c")), "abd").parse(&start).unwrap();
    assert_eq!(v, "abd");
    assert_eq!(it.index(), None);
}

#[test]
fn commit_stops_the_alternation() {
    let committed = or(last("c", "at".brk()), "car");
    let e = committed.parse_s("car").unwrap_err();
    assert!(e.is_break);
    assert_eq!(e.exp, Expected::Str("at"));
    assert_eq!(e.index, Some(2));
    let free = or(last("c", "at"), "car");
    assert_eq!(free.parse_s("car"), Ok("car"));
}

#[test]
fn commit_in_the_second_branch_is_passed_on() {
    let e = or("x", "y".brk()).parse_s("z").unwrap_err();
    assert!(e.is_break);
    assert_eq!(e.exp, Expected::Str("y"));
    assert_eq!("y".brk().parse_s("y"), Ok("y"));
}

#[test]
fn sequence_joins_the_soft_record_into_a_failure() {
    let e = (maybe("a"), "b").parse_s("c").unwrap_err();
    assert_eq!(e.index, Some(0));
    assert_eq!(e.exp, Expected::OneOf(vec![Expected::Str("b"), Expected::Str("a")]));
    let e = (NumDigit.star(), "!").parse_s("12x").unwrap_err();
    assert_eq!(e.index, Some(2));
    assert_eq!(e.exp, Expected::OneOf(vec![Expected::Str("!"), Expected::CharIn("NumDigit")]));
}

#[test]
fn sequence_stops_at_the_first_failure() {
    let e = ("a", "b").parse_s("xb").unwrap_err();
    assert_eq!(e.exp, Expected::Str("a"));
    assert_eq!(e.index, Some(0));
    let start = PIter::new("ab");
    let (it, v, soft) = do_seq(&"a", &"b", &start).unwrap();
    assert_eq!(v, ("a", "b"));
    assert!(it.eoi());
    assert!(soft.is_none());
}

#[test]
fn sequences_of_two_to_six() {
    assert_eq!(("a", "b").parse_s("ab"), Ok(("a", "b")));
    assert_eq!(("a", "b", "c").parse_s("abc"), Ok(("a", "b", "c")));
    assert_eq!(("a", "b", "c", "d").parse_s("abcd"), Ok(("a", "b", "c", "d")));
    assert_eq!(("a", "b", "c", "d", "e").parse_s("abcde"), Ok(("a", "b", "c", "d", "e")));
    assert_eq!(
        ("a", "b", "c", "d", "e", "f").parse_s("abcdef"),
        Ok(("a", "b", "c", "d", "e", "f"))
    );
    assert_eq!(("a", "b", "c", "d", "e", "f").parse_s("abcdeX").unwrap_err().index, Some(5));
    assert_eq!(("a", "b", "c").parse_s("abX").unwrap_err().index, Some(2));
    assert_eq!(("a", "b", "c", "d").parse_s("aX").unwrap_err().index, Some(1));
    assert_eq!(("a", "b", "c", "d", "e").parse_s("abcX").unwrap_err().index, Some(3));
}

#[test]
fn first_and_last_of_a_sequence() {
    let p = ("abc".plus(), "def".plus()).first().parse_s("aced").unwrap();
    assert_eq!(p, "ac");
    let p = ("abc".plus(), "def".plus()).last().parse_s("aced").unwrap();
    assert_eq!(p, "ed");
    assert_eq!(first_res(("a", "b", "c")).parse_s("abc"), Ok("a"));
    assert_eq!(last_res(("a", "b", "c")).parse_s("abc"), Ok("c"));
    assert_eq!(last_res(("a", "b", "c", "d")).parse_s("abcd"), Ok("d"));
    assert_eq!(last_res(("a", "b", "c", "d", "e")).parse_s("abcde"), Ok("e"));
    assert_eq!(last_res(("a", "b", "c", "d", "e", "f")).parse_s("abcdef"), Ok("f"));
    assert_eq!(first_res(("a", "b", "c", "d", "e", "f")).parse_s("abcdef"), Ok("a"));
    assert!(first_res(("a", "b")).parse_s("ax").is_err());
}

#[test]
fn selecting_matchers() {
    assert_eq!(first("a", "b").parse_s("ab"), Ok("a"));
    assert_eq!(last("a", "b").parse_s("ab"), Ok("b"));
    assert_eq!(middle("(", Alpha.plus(), ")").parse_s("(abc)"), Ok("abc"));
    assert_eq!(middle("(", Alpha.plus(), ")").parse_s("(abc]").unwrap_err().index, Some(4));
    assert_eq!("abc".ig().parse_s("abc"), Ok(()));
    assert!(first("a", "b").parse_s("a").is_err());
    assert!(last("a", "b").parse_s("b").is_err());
}

#[test]
fn optional_matcher() {
    let start = PIter::new("5");
    let (it, v, soft) = maybe("-").parse(&start).unwrap();
    assert_eq!(v, None);
    assert_eq!(it.index(), Some(0));
    let soft = soft.unwrap();
    assert_eq!(soft.exp, Expected::Str("-"));
    assert_eq!(soft.index, Some(0));
    let start = PIter::new("-5");
    let (it, v, soft) = maybe("-").parse(&start).unwrap();
    assert_eq!(v, Some("-"));
    assert_eq!(it.index(), Some(1));
    assert!(soft.is_none());
}

#[test]
fn optional_rewinds_the_cursor() {
    let start = PIter::new("abx");
    let (it, v, soft) = maybe(("a", "b", "c")).parse(&start).unwrap();
    assert_eq!(v, None);
    assert_eq!(it.index(), Some(0));
    assert_eq!(soft.unwrap().index, Some(2));
}

#[test]
fn signed_number() {
    let p = (maybe("-"), NumDigit.min_n(1)).try_map(|(m, n): (Option<&str>, &str)| {
        let res: i32 = n.parse().map_err(|_| Expected::Str("[1..9]+"))?;
        if m.is_some() {
            return Ok(-res);
        }
        Ok(res)
    });
    assert_eq!(p.parse_s("-34").unwrap(), -34);
    assert_eq!(p.parse_s("34").unwrap(), 34);
    let e = p.parse_s("99999999999").unwrap_err();
    assert_eq!(e.exp, Expected::Str("[1..9]+"));
    assert_eq!(e.index, None);
}

#[test]
fn presence_of_a_match() {
    let start = PIter::new("ab");
    let (it, v, soft) = is_present("a").parse(&start).unwrap();
    assert!(v);
    assert_eq!(it.index(), Some(1));
    assert!(soft.is_none());
    let (it, v, soft) = is_present("b").parse(&start).unwrap();
    assert!(!v);
    assert_eq!(it.index(), Some(0));
    assert_eq!(soft.unwrap().exp, Expected::Str("b"));
}

#[test]
fn wrapped_matcher() {
    assert_eq!(wrap(" ", "x").parse_s(" x "), Ok("x"));
    assert_eq!(wrap(" ", "x").parse_s(" x").unwrap_err().index, None);
    assert_eq!(ws__("x").parse_s("  x\t "), Ok("x"));
    assert_eq!(ws__("x").parse_s("x"), Ok("x"));
    assert_eq!(ws_("x").parse_s("  x"), Ok("x"));
    let start = PIter::new(" x y");
    let (it, _, _) = ws_("x").parse(&start).unwrap();
    assert_eq!(it.index(), Some(2));
    let (it, _, _) = ws__("x").parse(&start).unwrap();
    assert_eq!(it.index(), Some(3));
}

#[test]
fn failing_on_a_match() {
    let start = PIter::new("ab");
    let (it, v, soft) = fail_on("x").parse(&start).unwrap();
    assert_eq!(v, ());
    assert_eq!(it.index(), Some(0));
    assert!(soft.is_none());
    let e = fail_on("a").parse(&start).unwrap_err();
    assert_eq!(e.exp, Expected::Str("Failon Succeeded"));
    assert_eq!(e.index, Some(0));
}

#[test]
fn named_for_reading() {
    assert_eq!(debug("ab", "pair").parse_s("abc"), Ok("ab"));
    assert_eq!(debug("ab", "pair").parse_s("ac").unwrap_err().index, Some(1));
}

#[test]
fn changing_the_value() {
    assert_eq!(asv("yes", true).parse_s("yes"), Ok(true));
    assert_eq!("yes".asv(7u8).parse_s("yes"), Ok(7));
    assert!(asv("yes", true).parse_s("no").is_err());
    assert_eq!(bogobble::convert::map(NumDigit.plus(), |s: &str| s.len()).parse_s("123x"), Ok(3));
    assert_eq!(NumDigit.plus().map(|s: &str| s.len() * 2).parse_s("123x"), Ok(6));
    assert!(bogobble::convert::map(NumDigit.plus(), |s: &str| s.len()).parse_s("x").is_err());
    let even = try_map(NumDigit.plus(), |s: &str| {
        if s.len() % 2 == 0 {
            Ok(s.len())
        } else {
            Err(Expected::Str("an even count"))
        }
    });
    assert_eq!(even.parse_s("1234"), Ok(4));
    let e = even.parse_s("123x").unwrap_err();
    assert_eq!(e.exp, Expected::Str("an even count"));
    assert_eq!(e.index, Some(3));
    assert_eq!(even.parse_s("x").unwrap_err().exp, Expected::CharIn("NumDigit"));
}

#[test]
fn keyword_boundary() {
    assert_eq!(keyword("let").parse_s("let"), Ok("let"));
    assert_eq!(keyword("let").parse_s("let "), Ok("let"));
    assert_eq!(keyword("let").parse_s("let*"), Ok("let"));
    assert!(keyword("let").parse_s("letl").is_err());
    let e = keyword("let").parse_s("letx").unwrap_err();
    assert_eq!(e.index, Some(3));
    assert_eq!(
        e.exp,
        Expected::Keyword(Box::new(Expected::OneOf(vec![
            Expected::CharIn("Alpha"),
            Expected::CharIn("NumDigit"),
            Expected::Char('_')
        ])))
    );
    assert!(keyword("let").parse_s("let_").is_err());
    assert!(keyword("let").parse_s("let9").is_err());
    assert_eq!(keyword("let").parse_s("lot").unwrap_err().exp, Expected::Str("let"));
}

#[test]
fn keyword_drops_the_soft_record() {
    let start = PIter::new("abc 1");
    let (it, v, soft) = keyword(Alpha.plus()).parse(&start).unwrap();
    assert_eq!(v, "abc");
    assert_eq!(it.index(), Some(3));
    assert!(soft.is_none());
}

#[test]
fn end_of_input() {
    let start = PIter::new("");
    let (it, _, soft) = eoi(&start).unwrap();
    assert!(it.eoi());
    assert!(soft.is_none());
    let start = PIter::new("x");
    let e = eoi(&start).unwrap_err();
    assert_eq!(e.exp, Expected::EOI);
    assert_eq!(e.index, Some(0));
    assert_eq!(EOI.parse_s(""), Ok(()));
    let e = EOI.parse_s("x").unwrap_err();
    assert_eq!(e.exp, Expected::Str("EOI"));
    assert_eq!(to_end().parse_s("  \t"), Ok(()));
    assert_eq!(to_end().parse_s(""), Ok(()));
    assert_eq!(to_end().parse_s("  x").unwrap_err().index, Some(2));
}

#[test]
fn looking_ahead() {
    let start = PIter::new("abc");
    let (it, v, _) = peek("ab").parse(&start).unwrap();
    assert_eq!(v, "ab");
    assert_eq!(it.index(), Some(0));
    assert_eq!(peek("x").parse(&start).unwrap_err().index, Some(0));
}

#[test]
fn positions() {
    let s = " \n  hello   ".to_string();
    let v = last("\n ".istar(), pos_ig(Alpha.istar())).parse_s(&s).unwrap();
    assert_eq!(
        v,
        Pos {
            line: 1,
            col: 2,
            start: Some(4),
            fin: Some(9),
            ob: ()
        }
    );
    assert_eq!(v.on_str(&s), "hello");
    let v = pos(Alpha.plus()).parse_s("abc").unwrap();
    assert_eq!(
        v,
        Pos {
            line: 0,
            col: 0,
            start: Some(0),
            fin: None,
            ob: "abc"
        }
    );
    assert_eq!(v.on_str("abc"), "abc");
    let none: Pos<()> = Pos { line: 0, col: 0, start: None, fin: Some(2), ob: () };
    assert_eq!(none.on_str("abc"), "");
    assert!(pos("x").parse_s("y").is_err());
}

#[test]
fn text_of_a_match() {
    let p = str_range(("abc".plus(), "def".plus()));
    assert_eq!(p.parse_s("aacfc_gp"), Ok("aacf"));
    assert_eq!(string(("a", "b")).parse_s("abc"), Ok("ab".to_string()));
    assert!(string(("a", "b")).parse_s("ac").is_err());
    assert_eq!(str_range(maybe("x")).parse_s("y"), Ok(""));
}

#[test]
fn matcher_under_a_name() {
    let p = Named { p: "dog", name: "DOG" };
    assert_eq!(p.parse_s("dog"), Ok("dog"));
    let e = p.parse_s("cat").unwrap_err();
    assert_eq!(e.exp, Expected::Str("DOG"));
    assert_eq!(e.index, Some(0));
    assert!(e.child.is_none());
    let e = p.parse_s("dot").unwrap_err();
    assert_eq!(e.exp, Expected::Str("dog"));
    assert_eq!(e.index, Some(2));
    let c = e.child.unwrap();
    assert_eq!(c.exp, Expected::Str("DOG"));
    assert_eq!(c.index, Some(0));
    let e = p.parse_s("").unwrap_err();
    assert_eq!(e.index, None);
    assert_eq!(e.exp, Expected::OneOf(vec![Expected::Str("dog"), Expected::Str("DOG")]));
    let start = PIter::new("dog");
    assert!(do_named(&start, &"dog", "DOG").is_ok());
}

#[test]
fn working_with_results() {
    let start = PIter::new("abc");
    let r = lit("a", &start);
    let both = r.then_p(&"b").unwrap();
    assert_eq!(both.1, ("a", "b"));
    assert_eq!(both.0.index(), Some(2));
    let r = lit("a", &start).then_ig(&"b").unwrap();
    assert_eq!(r.1, "a");
    assert_eq!(r.0.index(), Some(2));
    let r = lit("a", &start).ig_then(&"b").unwrap();
    assert_eq!(r.1, "b");
    assert!(lit("a", &start).then_p(&"x").is_err());
    assert_eq!(lit("x", &start).then_p(&"b").unwrap_err().exp, Expected::Str("x"));
    assert_eq!(lit("x", &start).then_ig(&"b").unwrap_err().exp, Expected::Str("x"));
    assert_eq!(lit("x", &start).ig_then(&"b").unwrap_err().exp, Expected::Str("x"));
    let r = ("a", "b").parse(&start).map_v(|(x, y): (&str, &str)| x.len() + y.len()).unwrap();
    assert_eq!(r.1, 2);
    let r = ("a", "b").parse(&start).map_str(&start).unwrap();
    assert_eq!(r.1, "ab");
    let r = ("a", "b").parse(&start).map_string(&start).unwrap();
    assert_eq!(r.1, "ab".to_string());
    let other = start.err(Expected::EOI);
    let e = lit("x", &start).join_err(other).unwrap_err();
    assert_eq!(e.exp, Expected::OneOf(vec![Expected::Str("x"), Expected::EOI]));
    let e = lit("x", &start).join_err_op(None).unwrap_err();
    assert_eq!(e.exp, Expected::Str("x"));
    let e = lit("x", &start).join_err_op(Some(start.err(Expected::EOI))).unwrap_err();
    assert_eq!(e.exp, Expected::OneOf(vec![Expected::Str("x"), Expected::EOI]));
    assert!(lit("a", &start).join_err(start.err(Expected::EOI)).is_ok());
}

#[test]
fn function_as_a_matcher() {
    assert_eq!((WS.star(), eoi).parse_s("  \t"), Ok(("  \t", ())));
    assert_eq!((WS.star(), eoi).ig().parse_s("  "), Ok(()));
    assert_eq!((WS.star(), eoi).parse_s(" x").unwrap_err().index, Some(1));
    let twice = |it: &PIter<'static>| ("a", "a").parse(it);
    assert_eq!(or(twice, ("b", "b")).parse_s("bb"), Ok(("b", "b")));
    assert_eq!(or(twice, ("b", "b")).parse_s("aa"), Ok(("a", "a")));
}

#[test]
fn borrowed_matcher() {
    let word = Alpha.plus();
    assert_eq!((word.br(), " ", word.br()).parse_s("ab cd"), Ok(("ab", " ", "cd")));
}
