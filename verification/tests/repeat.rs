use bogobble::charbool::{Alpha, Any, CharBool, NumDigit};
use bogobble::combi::maybe;
use bogobble::err::Expected;
use bogobble::iter::PIter;
use bogobble::parser::{Combine, Parser};
use bogobble::reader::{chars_until, peek, string_repeat, ws_};
use bogobble::repeater::{
    do_rep, do_repeat_until, do_sep, exact, plus, plus_until, plus_until_ig, reflect, sep_plus,
    sep_star, sep_until, sep_until_ig, star, star_until, star_until_ig,
};
use bogobble::select::first;
use bogobble::strings::{do_strings_until, strings_plus, strings_plus_until, strings_star_until};

#[test]
fn star_gathers_the_values() {
    let start = PIter::new("ababx");
    let (it, v, soft) = star("ab").parse(&start).unwrap();
    assert_eq!(v, vec!["ab", "ab"]);
    assert_eq!(it.index(), Some(4));
    let soft = soft.unwrap();
    assert_eq!(soft.exp, Expected::Str("ab"));
    assert_eq!(soft.index, Some(4));
    assert_eq!(star("ab").parse_s("x"), Ok(vec![]));
    assert_eq!(star("ab").parse_s(""), Ok(vec![]));
}

#[test]
fn plus_needs_a_match() {
    assert_eq!(plus("ab").parse_s("abab"), Ok(vec!["ab", "ab"]));
    let e = plus("ab").parse_s("x").unwrap_err();
    assert_eq!(e.exp, Expected::Str("ab"));
    assert_eq!(e.index, Some(0));
}

#[test]
fn star_rejects_a_match_that_stands_still() {
    let e = star(maybe("x")).parse_s("yyy").unwrap_err();
    assert_eq!(e.exp, Expected::Str("To Consume some data"));
    assert_eq!(e.index, Some(0));
    let e = star(peek("a")).parse_s("aaa").unwrap_err();
    assert_eq!(e.exp, Expected::Str("To Consume some data"));
    let e = plus(Alpha.star()).parse_s("ab1").unwrap_err();
    assert_eq!(e.exp, Expected::Str("To Consume some data"));
    assert_eq!(e.index, Some(2));
    let e = star(maybe("x")).parse_s("xxy").unwrap_err();
    assert_eq!(e.index, Some(2));
}

#[test]
fn exact_count() {
    assert_eq!(exact("ab", 2).parse_s("ababab"), Ok(vec!["ab", "ab"]));
    let start = PIter::new("ababab");
    let (it, _, soft) = exact("ab", 2).parse(&start).unwrap();
    assert_eq!(it.index(), Some(4));
    assert!(soft.is_none());
    assert_eq!(exact("ab", 3).parse_s("abab").unwrap_err().index, None);
    assert_eq!(exact("ab", 0).parse_s("abab"), Ok(vec!["ab", "ab"]));
    assert_eq!(
        exact(peek("a"), 0).parse_s("a").unwrap_err().exp,
        Expected::Str("To Consume some data")
    );
    assert_eq!(exact(peek("a"), 3).parse_s("a"), Ok(vec!["a", "a", "a"]));
    let nums = exact(first(NumDigit.plus(), ","), 5);
    assert_eq!(nums.parse_s("7,6,5,4,3,2,1"), Ok(vec!["7", "6", "5", "4", "3"]));
}

#[test]
fn do_rep_with_a_minimum() {
    let start = PIter::new("aab");
    let (it, v, soft) = do_rep(&start, &"a", 2, false).unwrap();
    assert_eq!(v, vec!["a", "a"]);
    assert_eq!(it.index(), Some(2));
    assert!(soft.is_some());
    let e = do_rep(&start, &"a", 3, false).unwrap_err();
    assert_eq!(e.index, Some(2));
}

#[test]
fn separated_values() {
    assert_eq!(sep_star("a", ",").parse_s("a,a,a"), Ok(vec!["a", "a", "a"]));
    assert_eq!(sep_star("a", ",").parse_s(""), Ok(vec![]));
    assert_eq!(sep_star("a", ",").parse_s("b"), Ok(vec![]));
    assert_eq!(sep_star("a", ",").parse_s("a"), Ok(vec!["a"]));
    let start = PIter::new("a,a;");
    let (it, v, soft) = sep_star("a", ",").parse(&start).unwrap();
    assert_eq!(v, vec!["a", "a"]);
    assert_eq!(it.index(), Some(3));
    assert_eq!(soft.unwrap().exp, Expected::Str(","));
    let e = sep_star("a", ",").parse_s("a,a,").unwrap_err();
    assert_eq!(e.exp, Expected::Str("a"));
    assert_eq!(e.index, None);
    assert_eq!(sep_plus("a", ",").parse_s("a,a"), Ok(vec!["a", "a"]));
    assert!(sep_plus("a", ",").parse_s("b").is_err());
}

#[test]
fn separated_values_with_a_count() {
    let start = PIter::new("a,a,b");
    let (it, v, soft) = do_sep(&start, &"a", &",", 2, true).unwrap();
    assert_eq!(v, vec!["a", "a"]);
    assert_eq!(it.index(), Some(4));
    assert!(soft.is_none());
    assert!(do_sep(&start, &"a", &",", 3, true).is_err());
    let short = PIter::new("a;");
    let e = do_sep(&short, &"a", &",", 2, false).unwrap_err();
    assert_eq!(e.exp, Expected::Str(","));
}

#[test]
fn separated_round_that_stands_still_fails() {
    let e = sep_star(maybe("a"), maybe(",")).parse_s("b").unwrap_err();
    assert_eq!(e.exp, Expected::Str("To Consume some data"));
    assert_eq!(e.index, Some(0));
}

#[test]
fn repeating_until_a_match() {
    assert_eq!(star_until("a", "b").parse_s("aab"), Ok((vec!["a", "a"], "b")));
    assert_eq!(star_until("a", "b").parse_s("b"), Ok((vec![], "b")));
    assert_eq!(plus_until("a", "b").parse_s("ab"), Ok((vec!["a"], "b")));
    assert_eq!(plus_until("a", "a").parse_s("aa"), Ok((vec!["a"], "a")));
    let e = plus_until("a", "b").parse_s("b").unwrap_err();
    assert_eq!(e.exp, Expected::Str("a"));
    assert!(e.child.is_none());
    let e = star_until("a", "b").parse_s("aac").unwrap_err();
    assert_eq!(e.index, Some(2));
    assert_eq!(e.exp, Expected::OneOf(vec![Expected::Str("a"), Expected::Str("b")]));
    let start = PIter::new("ab");
    let (it, v, soft) = do_repeat_until(&start, 0, &"a", &"b").unwrap();
    assert_eq!(v, (vec!["a"], "b"));
    assert!(it.eoi());
    assert!(soft.is_none());
    assert_eq!(star_until_ig("a", "b").parse_s("aab"), Ok(vec!["a", "a"]));
    assert_eq!(plus_until_ig("a", "b").parse_s("aab"), Ok(vec!["a", "a"]));
}

#[test]
fn repeating_until_rejects_a_standstill() {
    let e = star_until(maybe("a"), "b").parse_s("c").unwrap_err();
    assert_eq!(e.exp, Expected::Str("To Consume some Data"));
    assert_eq!(e.index, Some(0));
}

#[test]
fn separated_until_a_closer() {
    let p = sep_until(NumDigit.plus(), ",", "]");
    assert_eq!(p.parse_s("1,22,3]"), Ok((vec!["1", "22", "3"], "]")));
    assert_eq!(p.parse_s("]"), Ok((vec![], "]")));
    assert_eq!(p.parse_s("7]"), Ok((vec!["7"], "]")));
    let e = p.parse_s("1;2]").unwrap_err();
    assert_eq!(e.index, Some(1));
    assert_eq!(e.exp, Expected::OneOf(vec![Expected::Str(","), Expected::Str("]")]));
    let e = p.parse_s("1,]").unwrap_err();
    assert_eq!(e.exp, Expected::CharIn("NumDigit"));
    assert_eq!(e.index, Some(2));
    assert_eq!(sep_until_ig(NumDigit.plus(), ",", "]").parse_s("1,2]"), Ok(vec!["1", "2"]));
    let e = sep_until(maybe("a"), maybe(","), "]").parse_s("x").unwrap_err();
    assert_eq!(e.exp, Expected::Str("To Consume some data"));
}

#[test]
fn reflected_brackets() {
    let p = reflect(ws_("("), Alpha.min_n(1), ws_(")"));
    let (av, b, cv) = p.parse_s("(((help)))").unwrap();
    assert_eq!(av, vec!["(", "(", "("]);
    assert_eq!(b, "help".to_string());
    assert_eq!(cv, vec![")", ")", ")"]);
    let r2 = p.parse_s("(((no))");
    assert!(r2.is_err());
    let start = PIter::new("((a))))");
    let (it, _, soft) = p.parse(&start).unwrap();
    assert_eq!(it.index(), Some(5));
    assert!(soft.is_none());
}

#[test]
fn gathering_characters() {
    assert_eq!(chars_until(Any.one(), ";").parse_s("ab;c"), Ok(("ab".to_string(), ";")));
    assert_eq!(chars_until(Any.one(), ";").parse_s(";"), Ok(("".to_string(), ";")));
    let e = chars_until(Alpha.one(), ";").parse_s("a1;").unwrap_err();
    assert_eq!(e.exp, Expected::CharIn("Alpha"));
    assert_eq!(e.index, Some(1));
    let e = chars_until(peek('a'), ";").parse_s("a;").unwrap_err();
    assert_eq!(e.exp, Expected::Str("To Consume some data"));
    assert_eq!(chars_until(Any.one(), "é").parse_s("€🙂é"), Ok(("€🙂".to_string(), "é")));
}

#[test]
fn gathering_texts() {
    let p = string_repeat(Alpha.plus().or(NumDigit.plus()), 1);
    assert_eq!(p.parse_s("ab12cd!"), Ok("ab12cd".to_string()));
    assert!(p.parse_s("!").is_err());
    let zero = string_repeat(Alpha.plus(), 0);
    let start = PIter::new("!");
    let (it, v, soft) = zero.parse(&start).unwrap();
    assert_eq!(v, "");
    assert_eq!(it.index(), Some(0));
    assert!(soft.is_some());
    let two = string_repeat(first(Alpha.plus(), ","), 2);
    assert_eq!(two.parse_s("ab,cd,"), Ok("abcd".to_string()));
    assert!(two.parse_s("ab,").is_err());
    let e = string_repeat(Alpha.star(), 0).parse_s("1").unwrap_err();
    assert_eq!(e.exp, Expected::Str("To Consume some data"));
}

#[test]
fn gathering_texts_until_a_match() {
    let word = bogobble::strung::string(Alpha.plus());
    let comma = bogobble::strung::string(",");
    let p = strings_plus_until(word.or(comma), ";");
    assert_eq!(p.parse_s("ab,cd;"), Ok(("ab,cd".to_string(), ";")));
    let e = p.parse_s(";").unwrap_err();
    assert_eq!(e.index, Some(0));
    let word = bogobble::strung::string(Alpha.plus());
    let q = strings_star_until(word, ";");
    assert_eq!(q.parse_s("ab;"), Ok(("ab".to_string(), ";")));
    assert!(q.parse_s(";").is_err());
    let start = PIter::new(";");
    let (it, v, _) = do_strings_until(&start, &Alpha.plus(), &";", 0).unwrap();
    assert_eq!(v, ("".to_string(), ";"));
    assert!(it.eoi());
    let start = PIter::new("ab1");
    let e = do_strings_until(&start, &Alpha.plus(), &";", 0).unwrap_err();
    assert_eq!(e.index, Some(2));
    assert_eq!(e.exp, Expected::OneOf(vec![Expected::CharIn("Alpha"), Expected::Str(";")]));
    let e = do_strings_until(&start, &Alpha.star(), &";", 0).unwrap_err();
    assert_eq!(e.exp, Expected::Str("To Consume some data"));
    assert_eq!(e.index, Some(2));
}

#[test]
fn gathering_texts_needs_some_text() {
    let p = strings_plus(Alpha.plus().or(NumDigit.plus()));
    assert_eq!(p.parse_s("ab12!"), Ok("ab12".to_string()));
    let e = p.parse_s("!").unwrap_err();
    assert_eq!(e.index, Some(0));
    let start = PIter::new("ab!");
    let (it, v, soft) = strings_plus(Alpha.plus()).parse(&start).unwrap();
    assert_eq!(v, "ab");
    assert_eq!(it.index(), Some(2));
    assert_eq!(soft.unwrap().index, Some(2));
}
