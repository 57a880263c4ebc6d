use bogobble::charbool::{Alpha, CharBool, NumDigit};
use bogobble::err::Expected;
use bogobble::iter::PIter;
use bogobble::named::do_named;
use bogobble::parser::{ParseRes, Parser};
use bogobble::reader::ws__;
use bogobble::repeater::{reflect, star};
use bogobble::select::or;

#[derive(Copy, Clone)]
struct DOG;
impl<'a> Parser<'a> for DOG {
    type Out = &'static str;
    fn parse(&self, it: &PIter<'a>) -> ParseRes<'a, Self::Out> {
        do_named(it, &"dog", "DOG")
    }
}

#[derive(Copy, Clone)]
struct CAT;
impl<'a> Parser<'a> for CAT {
    type Out = &'static str;
    fn parse(&self, it: &PIter<'a>) -> ParseRes<'a, Self::Out> {
        do_named(it, &"cat", "CAT")
    }
}

#[derive(Copy, Clone)]
struct GROW;
impl<'a> Parser<'a> for GROW {
    type Out = Vec<&'static str>;
    fn parse(&self, it: &PIter<'a>) -> ParseRes<'a, Self::Out> {
        do_named(it, &star(or(CAT, DOG)), "GROW")
    }
}

#[test]
fn parser_makes_parser() {
    assert_eq!(DOG.parse_s("dog   "), Ok("dog"));
    assert_eq!(CAT.parse_s("cat    "), Ok("cat"));
    assert_eq!(
        GROW.parse_s("catdogcatcatno"),
        Ok(vec!["cat", "dog", "cat", "cat"])
    );
}

#[derive(Copy, Clone)]
struct HOT;
impl CharBool for HOT {
    fn char_bool(&self, c: char) -> bool {
        (&"hot").char_bool(c)
    }
    fn expected(&self) -> Expected {
        Expected::CharIn("HOT")
    }
}

#[derive(Copy, Clone)]
struct MNUM;
impl CharBool for MNUM {
    fn char_bool(&self, c: char) -> bool {
        (|c: char| c >= '0' && c <= '9')(c)
    }
    fn expected(&self) -> Expected {
        Expected::CharIn("MNUM")
    }
}

fn size_of<T: Sized>(_t: &T) -> usize {
    std::mem::size_of::<T>()
}

#[test]
fn charbool_macro_makes_parser() {
    let p = (HOT, MNUM);
    assert_eq!(std::mem::size_of::<(HOT, MNUM)>(), 0);
    assert_eq!(p.plus().parse_s("09h3f"), Ok("09h3"));
    assert_eq!(
        p.expected(),
        Expected::OneOf(vec![Expected::CharIn("HOT"), Expected::CharIn("MNUM")])
    );
    assert_eq!(size_of(&p), 0);
}

#[test]
fn repeater_test_reflecter() {
    let (av, b, cv) = reflect(ws__("("), (Alpha, NumDigit).plus(), ws__(")"))
        .parse_s("(((help)))")
        .unwrap();

    assert_eq!(av, vec!["(", "(", "("]);
    assert_eq!(b, "help".to_string());
    assert_eq!(cv, vec![")", ")", ")"]);
}

#[test]
fn p_repeat_test_reflecter() {
    let (av, b, cv) = reflect(ws__("("), (Alpha, NumDigit).plus(), ws__(")"))
        .parse_s("(((help)))")
        .unwrap();

    assert_eq!(av, vec!["(", "(", "("]);
    assert_eq!(b, "help".to_string());
    assert_eq!(cv, vec![")", ")", ")"]);
}
