use bogobble::err::{read_10, Expected, PErr, StrungError};
use bogobble::iter::PIter;

fn at<'a>(s: &'a str, n: usize, exp: Expected) -> PErr<'a> {
    let mut it = PIter::new(s);
    for _ in 0..n {
        it.next();
    }
    it.err(exp)
}

#[test]
fn join_with_nil_is_identity() {
    let samples = vec![
        Expected::Nil,
        Expected::EOI,
        Expected::Char('c'),
        Expected::CharIn("abc"),
        Expected::Str("word"),
        Expected::Not(Box::new(Expected::Char('x'))),
        Expected::Keyword(Box::new(Expected::Str("let"))),
        Expected::OneOf(vec![Expected::Char('a'), Expected::Char('b')]),
        Expected::OneOf(vec![]),
    ];
    for e in samples {
        assert_eq!(Expected::Nil.join(e.clone()), e);
        assert_eq!(e.clone().join(Expected::Nil), e);
    }
}

#[test]
fn join_of_two_singles_makes_a_list() {
    assert_eq!(
        Expected::Char('a').join(Expected::Str("b")),
        Expected::OneOf(vec![Expected::Char('a'), Expected::Str("b")])
    );
}

#[test]
fn join_of_two_lists_concatenates() {
    let a = Expected::OneOf(vec![Expected::Char('a'), Expected::Char('b')]);
    let b = Expected::OneOf(vec![Expected::Char('c')]);
    assert_eq!(
        a.join(b),
        Expected::OneOf(vec![Expected::Char('a'), Expected::Char('b'), Expected::Char('c')])
    );
}

#[test]
fn join_appends_a_single_to_a_list() {
    let list = Expected::OneOf(vec![Expected::Char('a')]);
    assert_eq!(
        list.clone().join(Expected::EOI),
        Expected::OneOf(vec![Expected::Char('a'), Expected::EOI])
    );
    assert_eq!(
        Expected::EOI.join(list),
        Expected::OneOf(vec![Expected::Char('a'), Expected::EOI])
    );
}

fn sorted_members(e: Expected) -> Vec<String> {
    let mut v: Vec<String> = match e {
        Expected::Nil => vec![],
        Expected::OneOf(v) => v.iter().map(|x| x.to_string()).collect(),
        x => vec![x.to_string()],
    };
    v.sort();
    v
}

#[test]
fn join_groups_to_the_same_members() {
    let a = Expected::Char('a');
    let b = Expected::OneOf(vec![Expected::Char('b'), Expected::Str("bb")]);
    let c = Expected::CharIn("c");
    let left = a.clone().join(b.clone()).join(c.clone());
    let right = a.join(b.join(c));
    assert_eq!(sorted_members(left.clone()), sorted_members(right.clone()));
    assert_eq!(sorted_members(left.clone()), vec!["Char In 'c'", "a", "b", "bb"]);
    for e in [left, right] {
        match e {
            Expected::OneOf(v) => {
                for m in v {
                    assert!(!matches!(m, Expected::OneOf(_)));
                }
            }
            _ => panic!("a list was expected"),
        }
    }
}

#[test]
fn first_prefers_what_says_something() {
    assert_eq!(Expected::first(Expected::Nil, Expected::EOI), Expected::EOI);
    assert_eq!(Expected::first(Expected::Char('a'), Expected::EOI), Expected::Char('a'));
    assert_eq!(Expected::first(Expected::Nil, Expected::Nil), Expected::Nil);
}

#[test]
fn is_nil_only_for_nil() {
    assert!(Expected::Nil.is_nil());
    assert!(!Expected::EOI.is_nil());
    assert!(!Expected::OneOf(vec![]).is_nil());
}

#[test]
fn expected_texts() {
    assert_eq!(Expected::Nil.to_string(), "NIL");
    assert_eq!(Expected::EOI.to_string(), "EOI");
    assert_eq!(Expected::Not(Box::new(Expected::Char('x'))).to_string(), "Not(x)");
    assert_eq!(Expected::Char('é').to_string(), "é");
    assert_eq!(Expected::CharIn("abc").to_string(), "Char In 'abc'");
    assert_eq!(Expected::Str("word").to_string(), "word");
    assert_eq!(Expected::Keyword(Box::new(Expected::Str("let"))).to_string(), "keyword let");
    assert_eq!(Expected::OneOf(vec![]).to_string(), "One of []");
    assert_eq!(Expected::OneOf(vec![Expected::Char('a')]).to_string(), "One of [a]");
    assert_eq!(
        Expected::OneOf(vec![
            Expected::Char('a'),
            Expected::Str("bc"),
            Expected::Not(Box::new(Expected::EOI))
        ])
        .to_string(),
        "One of [a , bc , Not(EOI)]"
    );
}

#[test]
fn longer_keeps_the_further_record() {
    let a = at("abcdef", 1, Expected::Char('a'));
    let b = at("abcdef", 4, Expected::Char('b'));
    let r = a.longer(b);
    assert_eq!(r.index, Some(4));
    assert_eq!(r.exp, Expected::Char('b'));
    assert!(r.child.is_none());
    let a = at("abcdef", 5, Expected::Char('a'));
    let b = at("abcdef", 2, Expected::Char('b'));
    let r = a.longer(b);
    assert_eq!(r.index, Some(5));
    assert_eq!(r.exp, Expected::Char('a'));
}

#[test]
fn longer_takes_the_end_of_input_for_furthest() {
    let a = at("abc", 3, Expected::Char('a'));
    let b = at("abc", 2, Expected::Char('b'));
    assert_eq!(a.index, None);
    let r = a.longer(b);
    assert_eq!(r.index, None);
    assert_eq!(r.exp, Expected::Char('a'));
    let a = at("abc", 2, Expected::Char('a'));
    let b = at("abc", 3, Expected::Char('b'));
    let r = a.longer(b);
    assert_eq!(r.index, None);
    assert_eq!(r.exp, Expected::Char('b'));
}

#[test]
fn longer_merges_records_at_one_place() {
    let a = at("abc", 1, Expected::Char('a'));
    let b = at("abc", 1, Expected::Char('b'));
    let r = a.longer(b);
    assert_eq!(r.index, Some(1));
    assert_eq!(r.exp, Expected::OneOf(vec![Expected::Char('a'), Expected::Char('b')]));
    let a = at("abc", 3, Expected::Char('a'));
    let b = at("abc", 3, Expected::Char('b'));
    let r = a.longer(b);
    assert_eq!(r.index, None);
    assert_eq!(r.exp, Expected::OneOf(vec![Expected::Char('a'), Expected::Char('b')]));
}

#[test]
fn join_keeps_the_nearer_record_as_cause() {
    let a = at("abcdef", 1, Expected::Char('a'));
    let b = at("abcdef", 4, Expected::Char('b'));
    let r = a.join(b);
    assert_eq!(r.index, Some(4));
    assert_eq!(r.exp, Expected::Char('b'));
    let c = r.child.unwrap();
    assert_eq!(c.index, Some(1));
    assert_eq!(c.exp, Expected::Char('a'));
    assert!(c.child.is_none());

    let a = at("abcdef", 4, Expected::Char('a'));
    let b = at("abcdef", 1, Expected::Char('b'));
    let r = a.join(b);
    assert_eq!(r.index, Some(4));
    assert_eq!(r.exp, Expected::Char('a'));
    assert_eq!(r.child.unwrap().exp, Expected::Char('b'));
}

#[test]
fn join_chains_causes() {
    let a = at("abcdef", 4, Expected::Char('a'));
    let b = at("abcdef", 1, Expected::Char('b'));
    let c = at("abcdef", 2, Expected::Char('c'));
    let r = a.join(b).join(c);
    assert_eq!(r.index, Some(4));
    let child = r.child.unwrap();
    assert_eq!(child.index, Some(2));
    assert_eq!(child.exp, Expected::Char('c'));
    let grand = child.child.unwrap();
    assert_eq!(grand.index, Some(1));
    assert_eq!(grand.exp, Expected::Char('b'));
}

#[test]
fn join_merges_records_at_one_place() {
    let a = at("abc", 2, Expected::Char('a'));
    let b = at("abc", 2, Expected::Char('b'));
    let r = a.join(b);
    assert_eq!(r.index, Some(2));
    assert_eq!(r.exp, Expected::OneOf(vec![Expected::Char('a'), Expected::Char('b')]));
    assert!(r.child.is_none());
}

#[test]
fn brk_marks_the_record() {
    let a = at("abc", 2, Expected::Char('a'));
    assert!(!a.is_break);
    let b = a.brk();
    assert!(b.is_break);
    assert_eq!(b.index, Some(2));
    assert_eq!(b.exp, Expected::Char('a'));
}

#[test]
fn read_10_shows_the_start() {
    assert_eq!(read_10(""), "EOI");
    assert_eq!(read_10("a"), "");
    assert_eq!(read_10("abc"), "ab");
    assert_eq!(read_10("abcdefghi"), "abcdefgh");
    assert_eq!(read_10("abcdefghij"), "abcdefghi");
    assert_eq!(read_10("abcdefghijklmnop"), "abcdefghi");
    assert_eq!(read_10("ééééééééééééé"), "ééééééééé");
}

#[test]
fn record_text() {
    let e = at("ab\ncdefghijklmnopq", 4, Expected::Char('x'));
    assert_eq!(e.to_string(), "Expected 'x', Found 'defghijkl', at (i:4,l:1,c:1)");
    let end = at("ab", 2, Expected::EOI);
    assert_eq!(end.to_string(), "Expected 'EOI', Found 'EOI', at (i:EOI,l:0,c:2)");
    let both = at("0123456789abcdef", 12, Expected::Str("far")).join(at("0123456789abcdef", 0, Expected::Str("near")));
    assert_eq!(
        both.to_string(),
        "Expected 'far', Found 'cde', at (i:12,l:0,c:12)\n\tExpected 'near', Found '012345678', at (i:0,l:0,c:0)"
    );
}

#[test]
fn strung_copies_the_start_of_the_text() {
    let e = at("0123456789abcdef", 12, Expected::Str("far")).join(at("0123456789abcdef", 0, Expected::Str("near")));
    let s: StrungError = e.strung();
    assert_eq!(s.found, "cde");
    assert_eq!(s.index, Some(12));
    assert_eq!(s.line, 0);
    assert_eq!(s.col, 12);
    assert_eq!(s.exp, Expected::Str("far"));
    assert!(!s.is_break);
    let c = s.child.clone().unwrap();
    assert_eq!(c.found, "012345678");
    assert_eq!(c.index, Some(0));
    assert_eq!(
        s.to_string(),
        "Expected 'far', Found 'cde', at (i=12,l=0,c=12)\n\tExpected 'near', Found '012345678', at (i=0,l=0,c=0)\n"
    );
    let copy = s.clone();
    assert!(copy == s);
}

#[test]
fn numbers_in_records_are_decimal() {
    let text = "x".repeat(1205);
    let e = at(&text, 1203, Expected::Nil);
    assert_eq!(e.to_string(), "Expected 'NIL', Found 'x', at (i:1203,l:0,c:1203)");
}
