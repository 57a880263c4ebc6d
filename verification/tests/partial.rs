use bogobble::charbool::{Alpha, CharBool, NumDigit};
use bogobble::err::Expected;
use bogobble::iter::PIter;
use bogobble::parser::Parser;
use bogobble::partial::charbool::{PartCharBool, S};
use bogobble::partial::mark_list::{mark_str, MarkErr, MarkList};
use bogobble::partial::p_repeat::{do_rep, do_sep, p_exact, p_plus, p_sep_plus, p_sep_star, p_star};
use bogobble::partial::ranger::Ranger;
use bogobble::partial::{pmaybe, tpos, vpos, Mergable, OPushable, PosTree, Pushable};

#[derive(Clone, Debug, PartialEq)]
enum L {
    Open,
    Item,
    Close,
    Group,
}

fn leaf(start: Option<usize>, fin: Option<usize>, item: L) -> PosTree<L> {
    PosTree::new(start, fin, item)
}

#[test]
fn new_node_is_a_complete_leaf() {
    let t = leaf(Some(1), Some(4), L::Item);
    assert_eq!(t.start, Some(1));
    assert_eq!(t.fin, Some(4));
    assert!(t.complete);
    assert_eq!(t.item, L::Item);
    assert!(t.children.is_empty());
    assert!(!t.is_empty());
    assert!(leaf(Some(2), Some(2), L::Item).is_empty());
    assert!(leaf(None, None, L::Item).is_empty());
    assert!(!leaf(Some(2), None, L::Item).is_empty());
}

#[test]
fn merge_of_two_nodes() {
    let a = leaf(Some(0), Some(1), L::Open);
    let b = leaf(Some(1), Some(3), L::Item);
    let m = a.merge(L::Group, b);
    assert_eq!((m.start, m.fin), (Some(0), Some(3)));
    assert!(m.complete);
    assert_eq!(m.item, L::Group);
    assert_eq!(m.children.len(), 2);
    assert_eq!(m.children[0].item, L::Open);
    assert_eq!(m.children[1].item, L::Item);
    let e = leaf(Some(1), Some(1), L::Item);
    let m = leaf(Some(0), Some(1), L::Open).merge(L::Group, e);
    assert_eq!(m.children.len(), 1);
    assert_eq!((m.start, m.fin), (Some(0), Some(1)));
    let m = leaf(Some(0), Some(1), L::Open).merge(L::Group, leaf(Some(1), Some(2), L::Item).incomplete());
    assert!(!m.complete);
}

#[test]
fn node_as_a_child() {
    let t = leaf(Some(0), Some(2), L::Item).incomplete().as_child(L::Group);
    assert_eq!((t.start, t.fin), (Some(0), Some(2)));
    assert!(!t.complete);
    assert_eq!(t.item, L::Group);
    assert_eq!(t.children.len(), 1);
    assert_eq!(t.children[0].item, L::Item);
}

#[test]
fn push_of_a_child() {
    let t = leaf(Some(0), Some(1), L::Group).push(leaf(Some(1), Some(4), L::Item));
    assert_eq!(t.fin, Some(4));
    assert_eq!(t.children.len(), 1);
    let t = t.push(leaf(Some(4), Some(4), L::Close));
    assert_eq!(t.fin, Some(4));
    assert_eq!(t.children.len(), 1);
    let t = t.push(leaf(Some(4), None, L::Close));
    assert_eq!(t.fin, None);
    assert_eq!(t.children.len(), 2);
    assert!(t.complete);
}

#[test]
fn text_and_range_of_a_node() {
    let s = "héllo wörld";
    let t = leaf(Some(0), Some(6), L::Item);
    assert_eq!(t.on_str(s), "héllo");
    assert_eq!(t.str_len(s), 6);
    let t = leaf(Some(7), None, L::Item);
    assert_eq!(t.on_str(s), "wörld");
    assert_eq!(t.str_len(s), 6);
    let t = leaf(None, Some(3), L::Item);
    assert_eq!(t.on_str(s), "");
    assert_eq!(t.str_len(s), 0);
    assert!(matches!(leaf(Some(1), Some(3), L::Item).range(), Ranger::InEx(1, 3)));
    assert!(matches!(leaf(Some(1), None, L::Item).range(), Ranger::InOpen(1)));
    assert!(matches!(leaf(None, Some(3), L::Item).range(), Ranger::InEx(0, 3)));
    assert!(matches!(leaf(None, None, L::Item).range(), Ranger::InOpen(0)));
}

#[test]
fn ranger_bounds() {
    assert!(matches!(Ranger::InOpen(3).with_end(9), Ranger::InEx(3, 9)));
    assert!(matches!(Ranger::InEx(3, 5).with_end(9), Ranger::InEx(3, 9)));
    assert_eq!(Ranger::InEx(3, 5).start_bound(), 3);
    assert_eq!(Ranger::InOpen(4).start_bound(), 4);
    assert_eq!(Ranger::InEx(3, 5).end_bound(), Some(5));
    assert_eq!(Ranger::InOpen(4).end_bound(), None);
}

#[test]
fn find_at_end_follows_the_last_complete_child() {
    let inner = leaf(Some(2), Some(3), L::Close);
    let mid = leaf(Some(1), Some(3), L::Item).push(inner);
    let early = leaf(Some(0), Some(1), L::Open);
    let cut = leaf(Some(3), Some(4), L::Close).incomplete();
    let root = leaf(Some(0), Some(4), L::Group).push(early).push(mid).push(cut);
    let found = root.find_at_end("abcd", |i: &L| *i == L::Close).unwrap();
    assert_eq!((found.start, found.fin), (Some(2), Some(3)));
    let found = root.find_at_end("abcd", |i: &L| *i == L::Group).unwrap();
    assert_eq!(found.children.len(), 3);
    assert!(root.find_at_end("abcd", |i: &L| *i == L::Open).is_none());
    let found = root.find_at_end("abcd", |i: &L| *i == L::Item).unwrap();
    assert_eq!(found.start, Some(1));
}

#[test]
fn copy_of_a_tree() {
    let t = leaf(Some(0), Some(4), L::Group).push(leaf(Some(1), Some(2), L::Item)).incomplete();
    let c = t.clone();
    assert_eq!((c.start, c.fin, c.complete), (Some(0), Some(2), false));
    assert_eq!(c.item, L::Group);
    assert_eq!(c.children.len(), 1);
    assert_eq!(c.children[0].item, L::Item);
    assert_eq!(c.children[0].fin, Some(2));
}

#[test]
fn leaf_span() {
    let start = PIter::new("ab12");
    let (it, t, soft) = tpos(Alpha.plus(), L::Item).parse(&start).unwrap();
    assert_eq!((t.start, t.fin), (Some(0), Some(2)));
    assert!(t.complete);
    assert_eq!(t.item, L::Item);
    assert!(t.children.is_empty());
    assert_eq!(it.index(), Some(2));
    assert!(soft.is_some());
    assert!(tpos(Alpha.plus(), L::Item).parse_s("12").is_err());
    let t = tpos("ab", L::Item).parse_s("ab").unwrap();
    assert_eq!((t.start, t.fin), (Some(0), None));
}

#[test]
fn partial_tree_incomplete_on_eof() {
    let grammar = tpos("(", L::Open).merge(L::Group, tpos(")", L::Close));
    let start = PIter::new("(");
    let (it, t, soft) = grammar.parse(&start).unwrap();
    assert!(it.eoi());
    assert!(soft.is_none());
    assert!(!t.complete);
    assert_eq!(t.item, L::Group);
    assert_eq!(t.children.len(), 1);
    assert_eq!(t.children[0].item, L::Open);
    assert_eq!((t.children[0].start, t.children[0].fin), (Some(0), None));
    assert!(t.children[0].complete);
    assert!(t.children[0].children.is_empty());
    assert_eq!((t.start, t.fin), (Some(0), None));
}

#[test]
fn merge_fails_with_input_left() {
    let grammar = tpos("(", L::Open).merge(L::Group, tpos(")", L::Close));
    let e = grammar.parse_s("(x").unwrap_err();
    assert_eq!(e.exp, Expected::Str(")"));
    assert_eq!(e.index, Some(1));
    let e = grammar.parse_s("x").unwrap_err();
    assert_eq!(e.exp, Expected::Str("("));
}

#[test]
fn merge_of_two_matches() {
    let grammar = tpos("(", L::Open).merge(L::Group, tpos(")", L::Close));
    let start = PIter::new("()x");
    let (it, t, _) = grammar.parse(&start).unwrap();
    assert_eq!(it.index(), Some(2));
    assert!(t.complete);
    assert_eq!((t.start, t.fin), (Some(0), Some(2)));
    assert_eq!(t.children.len(), 2);
    assert_eq!(t.children[1].item, L::Close);
    assert_eq!((t.children[1].start, t.children[1].fin), (Some(1), Some(2)));
}

#[test]
fn merge_at_the_end_of_input_is_an_empty_leaf() {
    let grammar = tpos("(", L::Open).merge(L::Group, tpos(")", L::Close));
    let start = PIter::new("");
    let (it, t, soft) = grammar.parse(&start).unwrap();
    assert!(it.eoi());
    assert!(soft.is_none());
    assert!(t.is_empty());
    assert!(t.complete);
    assert_eq!(t.item, L::Group);
    assert!(t.children.is_empty());
    assert_eq!((t.start, t.fin), (None, None));
}

#[test]
fn push_marks_incomplete_at_the_end_only() {
    let grammar = tpos("(", L::Open).push(tpos(NumDigit.plus(), L::Item));
    let start = PIter::new("(");
    let (it, t, soft) = grammar.parse(&start).unwrap();
    assert!(it.eoi());
    assert!(soft.is_none());
    assert!(!t.complete);
    assert_eq!(t.item, L::Open);
    assert!(t.children.is_empty());
    let e = grammar.parse_s("(x").unwrap_err();
    assert_eq!(e.exp, Expected::CharIn("NumDigit"));
    assert_eq!(e.index, Some(1));
    let t = grammar.parse_s("(12)").unwrap();
    assert!(t.complete);
    assert_eq!(t.fin, Some(3));
    assert_eq!(t.children.len(), 1);
    assert_eq!((t.children[0].start, t.children[0].fin), (Some(1), Some(3)));
}

#[test]
fn three_part_grammar() {
    let grammar = tpos("(", L::Open)
        .merge(L::Group, tpos(Alpha.plus(), L::Item))
        .push(tpos(")", L::Close));
    let t = grammar.parse_s("(ab)!").unwrap();
    assert!(t.complete);
    assert_eq!(t.children.len(), 3);
    assert_eq!((t.start, t.fin), (Some(0), Some(4)));
    let t = grammar.parse_s("(ab").unwrap();
    assert!(!t.complete);
    assert_eq!(t.children.len(), 2);
    let t = grammar.parse_s("(").unwrap();
    assert!(!t.complete);
    assert_eq!(t.children.len(), 1);
    assert_eq!(grammar.parse_s("(ab!").unwrap_err().exp, Expected::Str(")"));
    assert!(grammar.parse_s("(1").is_err());
}

#[test]
fn optional_push() {
    let some = tpos("(", L::Open).opush(bogobble::convert::map(tpos(")", L::Close), |t: PosTree<L>| Some(t)));
    let t = some.parse_s("()").unwrap();
    assert_eq!(t.children.len(), 1);
    assert_eq!(t.fin, None);
    let none = tpos("(", L::Open).opush(bogobble::convert::map(tpos(")", L::Close), |_t: PosTree<L>| None));
    let t = none.parse_s("()").unwrap();
    assert!(t.children.is_empty());
    assert!(t.complete);
    assert_eq!(t.fin, Some(1));
    let t = some.parse_s("(").unwrap();
    assert!(!t.complete);
    assert_eq!(some.parse_s("(x").unwrap_err().exp, Expected::Str(")"));
    assert!(some.parse_s("x").is_err());
}

#[test]
fn optional_node() {
    let p = pmaybe(tpos("x", L::Item), L::Close);
    let start = PIter::new("ya");
    let (it, t, soft) = p.parse(&start).unwrap();
    assert_eq!(it.index(), Some(0));
    assert!(t.is_empty());
    assert_eq!(t.item, L::Close);
    assert_eq!((t.start, t.fin), (Some(0), Some(0)));
    assert!(t.complete);
    assert_eq!(soft.unwrap().exp, Expected::Str("x"));
    let start = PIter::new("xa");
    let (it, t, _) = p.parse(&start).unwrap();
    assert_eq!(it.index(), Some(1));
    assert_eq!(t.item, L::Item);
}

#[test]
fn nodes_under_one_node() {
    let p = vpos(p_star(tpos(NumDigit.one(), L::Item)), L::Group);
    let t = p.parse_s("12x").unwrap();
    assert_eq!(t.item, L::Group);
    assert_eq!(t.children.len(), 2);
    assert!(t.complete);
    assert_eq!((t.start, t.fin), (Some(0), Some(2)));
    let t = p.parse_s("x").unwrap();
    assert!(!t.complete);
    assert!(t.children.is_empty());
    let q = vpos(p_plus(tpos(NumDigit.one(), L::Item)), L::Group);
    let t = q.parse_s("").unwrap();
    assert!(!t.complete);
    assert!(t.is_empty());
    assert!(t.children.is_empty());
    assert_eq!(q.parse_s("x").unwrap_err().exp, Expected::CharIn("NumDigit"));
}

#[test]
fn literal_that_the_end_may_cut_short() {
    assert_eq!(S("let").parse_s("let x"), Ok("let"));
    assert_eq!(S("let").parse_s("le"), Ok("let"));
    assert_eq!(S("let").parse_s(""), Ok("let"));
    let e = S("let").parse_s("lot").unwrap_err();
    assert_eq!(e.exp, Expected::Str("let"));
    assert_eq!(e.index, Some(2));
    let start = PIter::new("le");
    let (it, _, _) = S("let").parse(&start).unwrap();
    assert!(it.eoi());
}

#[test]
fn skip_until_a_match() {
    let p = " \t".p_until(tpos(NumDigit.plus(), L::Item), L::Group);
    let start = PIter::new("  12;");
    let (it, (span, node), soft) = p.parse(&start).unwrap();
    assert_eq!(it.index(), Some(4));
    assert_eq!((span.start, span.fin), (Some(0), Some(4)));
    assert_eq!(span.item, L::Group);
    assert!(span.children.is_empty());
    assert_eq!((node.start, node.fin), (Some(2), Some(4)));
    assert_eq!(node.item, L::Item);
    assert!(soft.is_some());
    let e = p.parse_s(" x1").unwrap_err();
    assert_eq!(e.exp, Expected::CharIn(" \t"));
    assert_eq!(e.index, Some(2));
    let e = p.parse_s("  ").unwrap_err();
    assert_eq!(e.exp, Expected::CharIn("NumDigit"));
    assert_eq!(e.index, None);
}

#[test]
fn repetition_that_the_end_ends() {
    assert_eq!(p_star("ab").parse_s("abab"), Ok(vec!["ab", "ab"]));
    let start = PIter::new("abab");
    let (it, _, soft) = p_star("ab").parse(&start).unwrap();
    assert!(it.eoi());
    assert!(soft.is_none());
    assert_eq!(p_star(S("ab")).parse_s("aba"), Ok(vec!["ab", "ab"]));
    assert_eq!(p_plus("ab").parse_s("abx"), Ok(vec!["ab"]));
    assert!(p_plus("ab").parse_s("x").is_err());
    assert_eq!(p_exact("ab", 3).parse_s("abab"), Ok(vec!["ab", "ab"]));
    assert_eq!(p_exact("ab", 1).parse_s("abab"), Ok(vec!["ab"]));
    assert!(p_exact("ab", 3).parse_s("ababx").is_err());
    let e = p_star(bogobble::combi::maybe("x")).parse_s("y").unwrap_err();
    assert_eq!(e.exp, Expected::Str("To Consume some data"));
    let start = PIter::new("aab");
    let (it, v, soft) = do_rep(&start, &"a", 1, false).unwrap();
    assert_eq!(v, vec!["a", "a"]);
    assert_eq!(it.index(), Some(2));
    assert!(soft.is_some());
}

#[test]
fn separated_repetition_that_the_end_ends() {
    assert_eq!(p_sep_star("a", ",").parse_s("a,a"), Ok(vec!["a", "a"]));
    assert_eq!(p_sep_star("a", ",").parse_s("a,a,"), Ok(vec!["a", "a"]));
    assert_eq!(p_sep_plus("a", ",").parse_s(""), Ok(vec![]));
    assert!(p_sep_plus("a", ",").parse_s("b").is_err());
    assert_eq!(p_sep_plus("a", ",").parse_s("a;"), Ok(vec!["a"]));
    let e = p_sep_star("a", ",").parse_s("a,b").unwrap_err();
    assert_eq!(e.exp, Expected::Str("a"));
    let start = PIter::new("a,");
    let (it, v, soft) = do_sep(&start, &"a", &",", 5, false).unwrap();
    assert_eq!(v, vec!["a"]);
    assert!(it.eoi());
    assert!(soft.is_none());
}

#[test]
fn reserialization_round_trip() {
    let tree = PosTree::new(None, None, ">").push(PosTree::new(Some(0), Some(2), "<"));
    assert_eq!(mark_str(&tree, "ab"), Ok("<ab>".to_string()));
    let tree = PosTree {
        start: Some(0),
        fin: Some(2),
        complete: true,
        item: "<",
        children: vec![PosTree::new(Some(2), None, ">")],
    };
    assert_eq!(mark_str(&tree, "ab"), Ok("<ab>".to_string()));
}

#[test]
fn labels_are_written_in_the_order_of_the_offsets() {
    let tree = PosTree {
        start: Some(0),
        fin: Some(11),
        complete: true,
        item: "[",
        children: vec![PosTree::new(Some(7), Some(11), "("), PosTree::new(Some(1), Some(3), "{")],
    };
    assert_eq!(mark_str(&tree, "héllo wör"), Ok("[h{é[llo (wör[".to_string()));
}

#[test]
fn later_label_replaces_an_earlier_one() {
    let tree = PosTree {
        start: Some(0),
        fin: None,
        complete: true,
        item: "a",
        children: vec![PosTree::new(Some(0), Some(1), "b"), PosTree::new(Some(1), None, "c")],
    };
    assert_eq!(mark_str(&tree, "xy"), Ok("bxcy".to_string()));
    let empty = PosTree::new(None, None, "-");
    assert_eq!(mark_str(&empty, "xy"), Ok("xy".to_string()));
}

#[test]
fn offsets_outside_the_text_are_an_error() {
    let tree = PosTree::new(Some(5), None, "<");
    assert_eq!(mark_str(&tree, "ab"), Err(MarkErr::OutOfBounds));
    let tree = PosTree::new(Some(2), None, "<");
    assert_eq!(mark_str(&tree, "hé"), Err(MarkErr::OutOfBounds));
    let tree = PosTree::new(Some(3), None, "<");
    assert_eq!(mark_str(&tree, "hé"), Ok("hé<".to_string()));
    assert_eq!(MarkErr::OutOfBounds.to_string(), "Index Outside of working String");
}

#[test]
fn mark_list_by_steps() {
    let tree = PosTree::new(Some(1), Some(2), "<");
    let close = ">";
    let mut ml = MarkList::new(&tree, Some(&close));
    assert_eq!(ml.mark_str("abc"), Ok("a<b>c".to_string()));
    let other = PosTree::new(Some(0), None, "^");
    ml.set_marks(&other, None);
    assert_eq!(ml.mark_str("abc"), Ok("^a<b>c".to_string()));
}
