//! Matchers for reading: positions, keywords, the end of the input, looking
//! ahead, and the gathering of characters and texts.

use vstd::prelude::*;
use vstd::string::StringExecFns;
use crate::charbool::{Alpha, CharBool, CharStar, ICharStar, NumDigit, WS};
use crate::combi::{wrap, Wrap};
use crate::err::{Expected, ExpectedView};
use crate::iter::{lemma_reaches_same_place, lemma_reaches_self, lemma_reaches_trans, Cursor, PIter};
use crate::parser::{outcome, Outcome, ParseRes, Parser};
use crate::select::{last, Ig, Last};
use crate::text::{
    between, concat, cuts, empty_str, lemma_concat_push, lemma_len_le_byte_len, push_char, slice,
    slice_from, AsText,
};
use crate::trace::{chain, fails, hit, lemma_chain_push, lemma_chain_start, rep_step};

verus! {

/// A position without a value.
pub type StrPos = Pos<()>;

/// A value with the place where it was matched: the line and column at its
/// start, and the byte offsets of its start and its end, each `None` at the
/// end of the input.
#[derive(Debug, Clone, PartialEq)]
pub struct Pos<O> {
    pub line: usize,
    pub col: usize,
    pub start: Option<usize>,
    pub fin: Option<usize>,
    pub ob: O,
}

/// The byte offsets `start` and `fin` can be cut out of `s`.
pub open spec fn span_fits(start: Option<usize>, fin: Option<usize>, s: Seq<char>) -> bool {
    match (start, fin) {
        (Some(st), Some(f)) => cuts(s, st as int, f as int),
        (Some(st), None) => vstd::utf8::is_char_boundary(vstd::utf8::encode_utf8(s), st as int),
        _ => true,
    }
}

/// The text of `s` between the byte offsets `start` and `fin`: to the end of
/// `s` where there is no `fin`, and empty where there is no `start`.
pub open spec fn span_text(start: Option<usize>, fin: Option<usize>, s: Seq<char>) -> Seq<char> {
    match (start, fin) {
        (Some(st), Some(f)) => between(s, st as int, f as int),
        (Some(st), None) => between(s, st as int, vstd::utf8::encode_utf8(s).len() as int),
        _ => Seq::empty(),
    }
}

/// The text of `s` between the byte offsets `start` and `fin`.
pub fn span_of<'a>(start: Option<usize>, fin: Option<usize>, s: &'a str) -> (r: &'a str)
    requires
        span_fits(start, fin, s@),
    ensures
        r@ == span_text(start, fin, s@),
{
    match (start, fin) {
        (Some(st), Some(f)) => slice(s, st, f),
        (Some(st), None) => slice_from(s, st),
        _ => empty_str(),
    }
}

impl<O> Pos<O> {
    /// The text of this position in `s`, the text it was matched in.
    pub fn on_str<'a>(&self, s: &'a str) -> (r: &'a str)
        requires
            span_fits(self.start, self.fin, s@),
        ensures
            r@ == span_text(self.start, self.fin, s@),
    {
        span_of(self.start, self.fin, s)
    }
}

/// The outcome `oa`, reached from `it`, with its value placed.
pub open spec fn pos_outcome<V>(it: Cursor, oa: Outcome<V>) -> Outcome<Pos<V>> {
    match oa {
        Outcome::Done(c, v, s) => Outcome::Done(
            c,
            Pos {
                line: it.line as usize,
                col: it.col as usize,
                start: it.index(),
                fin: c.index(),
                ob: v,
            },
            s,
        ),
        Outcome::Failed(e) => Outcome::Failed(e),
    }
}

/// The matcher that matches as `p` does and hands back the value with its place.
pub struct PPos<P> {
    pub p: P,
}

impl<'a, P: Parser<'a>> Parser<'a> for PPos<P> {
    type Out = Pos<P::Out>;

    open spec fn ready(&self) -> bool {
        self.p.ready()
    }

    open spec fn yields(&self, it: Cursor, o: Outcome<Pos<P::Out>>) -> bool {
        exists|oa: Outcome<P::Out>| #[trigger] self.p.yields(it, oa) && o == pos_outcome(it, oa)
    }

    fn parse(&self, it: &PIter<'a>) -> (r: ParseRes<'a, Pos<P::Out>>) {
        let (line, col) = it.lc();
        let start = it.index();
        let res = self.p.parse(it);
        let ghost oa = outcome(res);
        let r = match res {
            Ok((rit, ob, pex)) => {
                let fin = rit.index();
                Ok((rit, Pos { line, col, start, fin, ob }, pex))
            },
            Err(e) => Err(e),
        };
        proof {
            assert(self.p.yields(it@, oa) && outcome(r) == pos_outcome(it@, oa));
        }
        r
    }
}

/// The matcher of the place where `p` matches, the value of `p` ignored.
pub fn pos_ig<'a, P: Parser<'a>>(p: P) -> (r: PPos<Ig<P>>)
    ensures
        r.p.a == p,
{
    PPos { p: Ig { a: p } }
}

/// The matcher that matches as `p` does and hands back the value with its place.
pub fn pos<'a, P: Parser<'a>>(p: P) -> (r: PPos<P>)
    ensures
        r.p == p,
{
    PPos { p }
}

/// The matcher of `p` with tabs and spaces before and after it.
pub fn ws__<'a, P: Parser<'a>>(p: P) -> (r: Wrap<ICharStar<WS>, P>)
    ensures
        r.b == p,
        r.a.cb == WS,
{
    wrap(WS.istar(), p)
}

/// The matcher of `p` with tabs and spaces before it.
pub fn ws_<'a, P: Parser<'a>>(p: P) -> (r: Last<ICharStar<WS>, P>)
    ensures
        r.b == p,
        r.a.cb == WS,
{
    last(WS.istar(), p)
}

/// `c` may stand in a word: a letter, a digit or an underscore.
pub open spec fn word_char(c: char) -> bool {
    (Alpha, NumDigit, '_').holds(c)
}

/// The outcome `oa` taken as that of a keyword: a success that a character
/// of a word follows is a failure after the match, and a success that stands
/// loses its soft record.
pub open spec fn keyword_outcome<V>(oa: Outcome<V>) -> Outcome<V> {
    match oa {
        Outcome::Failed(e) => Outcome::Failed(e),
        Outcome::Done(c, v, _) => if c.rest.len() > 0 && word_char(c.rest[0]) {
            Outcome::Failed(
                c.fail(ExpectedView::Keyword(Box::new((Alpha, NumDigit, '_').describes()))),
            )
        } else {
            Outcome::Done(c, v, None)
        },
    }
}

/// Matches `p` at `it` as a keyword: no letter, digit or underscore may follow.
pub fn do_keyword<'a, P: Parser<'a>>(it: &PIter<'a>, p: &P) -> (r: ParseRes<'a, P::Out>)
    requires
        p.ready(),
    ensures
        exists|oa: Outcome<P::Out>| #[trigger] p.yields(it@, oa) && outcome(r) == keyword_outcome(oa),
        r matches Ok(t) ==> it@.reaches(t.0@),
{
    let res = p.parse(it);
    let ghost oa = outcome(res);
    let r = match res {
        Err(e) => Err(e),
        Ok((t2, r, _)) => {
            let mut peek = t2;
            match peek.next() {
                Some(c) => {
                    let al = (Alpha, NumDigit, '_');
                    if al.char_bool(c) {
                        t2.err_r(Expected::Keyword(Box::new(al.expected())))
                    } else {
                        Ok((t2, r, None))
                    }
                },
                None => Ok((t2, r, None)),
            }
        },
    };
    proof {
        assert(p.yields(it@, oa) && outcome(r) == keyword_outcome(oa));
    }
    r
}

/// The matcher of `p` as a keyword.
pub struct KeyWord<P> {
    pub p: P,
}

impl<'a, P: Parser<'a>> Parser<'a> for KeyWord<P> {
    type Out = P::Out;

    open spec fn ready(&self) -> bool {
        self.p.ready()
    }

    open spec fn yields(&self, it: Cursor, o: Outcome<P::Out>) -> bool {
        exists|oa: Outcome<P::Out>| #[trigger] self.p.yields(it, oa) && o == keyword_outcome(oa)
    }

    fn parse(&self, it: &PIter<'a>) -> (r: ParseRes<'a, P::Out>) {
        do_keyword(it, &self.p)
    }
}

/// The matcher of `p` as a keyword: it fails where a letter, a digit or an
/// underscore follows the match.
pub fn keyword<'a, P: Parser<'a>>(p: P) -> (r: KeyWord<P>)
    ensures
        r.p == p,
{
    KeyWord { p }
}

/// The outcome of matching the end of the input at `it`, with the
/// description `exp` for the failure.
pub open spec fn eoi_outcome(it: Cursor, exp: ExpectedView) -> Outcome<()> {
    if it.rest.len() == 0 {
        Outcome::Done(it, (), None)
    } else {
        Outcome::Failed(it.fail(exp))
    }
}

/// Matches the end of the input.
pub fn eoi<'a>(i: &PIter<'a>) -> (r: ParseRes<'a, ()>)
    ensures
        outcome(r) == eoi_outcome(i@, ExpectedView::EOI),
        r matches Ok(t) ==> i@.reaches(t.0@),
{
    proof {
        lemma_reaches_self(i@);
    }
    if i.eoi() {
        return Ok((*i, (), None));
    }
    i.err_r(Expected::EOI)
}

/// The matcher of the end of the input.
#[derive(Copy, Clone)]
pub struct EOI;

impl<'a> Parser<'a> for EOI {
    type Out = ();

    open spec fn ready(&self) -> bool {
        true
    }

    open spec fn yields(&self, it: Cursor, o: Outcome<()>) -> bool {
        o == eoi_outcome(it, ExpectedView::Str("EOI"@))
    }

    fn parse(&self, it: &PIter<'a>) -> (r: ParseRes<'a, ()>) {
        match eoi(it) {
            Ok(v) => Ok(v),
            Err(_) => it.err_rs("EOI"),
        }
    }
}

/// The matcher of tabs and spaces up to the end of the input.
pub fn to_end() -> (r: Ig<(CharStar<WS>, EOI)>)
    ensures
        r == (Ig { a: (CharStar { cb: WS }, EOI) }),
{
    Ig { a: (WS.star(), EOI) }
}

/// The outcome `oa` without its progress: the cursor is `it` again.
pub open spec fn peek_outcome<V>(it: Cursor, oa: Outcome<V>) -> Outcome<V> {
    match oa {
        Outcome::Done(_, v, s) => Outcome::Done(it, v, s),
        Outcome::Failed(e) => Outcome::Failed(e),
    }
}

/// The matcher that matches as `p` does and consumes nothing.
pub struct Peek<P> {
    pub p: P,
}

impl<'a, P: Parser<'a>> Parser<'a> for Peek<P> {
    type Out = P::Out;

    open spec fn ready(&self) -> bool {
        self.p.ready()
    }

    open spec fn yields(&self, it: Cursor, o: Outcome<P::Out>) -> bool {
        exists|oa: Outcome<P::Out>| #[trigger] self.p.yields(it, oa) && o == peek_outcome(it, oa)
    }

    fn parse(&self, it: &PIter<'a>) -> (r: ParseRes<'a, P::Out>) {
        let res = self.p.parse(it);
        let ghost oa = outcome(res);
        let r = match res {
            Ok((_, v, c)) => Ok((*it, v, c)),
            Err(e) => Err(e),
        };
        proof {
            lemma_reaches_self(it@);
            assert(self.p.yields(it@, oa) && outcome(r) == peek_outcome(it@, oa));
        }
        r
    }
}

/// The matcher that matches as `p` does and consumes nothing.
pub fn peek<'a, P: Parser<'a>>(p: P) -> (r: Peek<P>)
    ensures
        r.p == p,
{
    Peek { p }
}

/// `o` is the outcome of gathering the characters that `a` matches, from
/// `it`, until `b` matches, where `curs` and `vals` are the cursors and
/// characters of the matches of `a` made, `ob` is the outcome of `b` after
/// them, and `oa` that of `a` after them.
///
/// `b` has failed at every cursor before the last. Where it matches, the
/// result is the text of the characters with the value of `b`, and the soft
/// record of `b`. Where it fails, `a` has to match and to move the cursor:
/// its failure is the failure of the whole, and a match that leaves the
/// cursor in place is a failure at that cursor.
pub open spec fn chars_until_via<'a, A: Parser<'a, Out = char>, B: Parser<'a>>(
    a: &A,
    b: &B,
    it: Cursor,
    curs: Seq<Cursor>,
    vals: Seq<char>,
    ob: Outcome<B::Out>,
    oa: Outcome<char>,
    o: Outcome<(String, B::Out)>,
) -> bool {
    &&& chain(rep_step(a, true), it, curs, vals)
    &&& forall|i: int| 0 <= i < vals.len() ==> fails(b, #[trigger] curs[i])
    &&& b.yields(curs.last(), ob)
    &&& match ob {
        Outcome::Done(t, bv, s) => o matches Outcome::Done(t2, r, s2) && t2 == t && r.0@ == vals
            && r.1 == bv && s2 == s,
        Outcome::Failed(_) => {
            &&& a.yields(curs.last(), oa)
            &&& match oa {
                Outcome::Failed(e) => o == Outcome::<(String, B::Out)>::Failed(e),
                Outcome::Done(c2, _, _) => c2 == curs.last() && o == Outcome::<
                    (String, B::Out),
                >::Failed(curs.last().fail(ExpectedView::Str("To Consume some data"@))),
            }
        },
    }
}

/// The matcher that gathers the characters that `a` matches until `b` matches.
pub struct CharsUntil<A, B> {
    pub a: A,
    pub b: B,
}

impl<'a, A: Parser<'a, Out = char>, B: Parser<'a>> Parser<'a> for CharsUntil<A, B> {
    type Out = (String, B::Out);

    open spec fn ready(&self) -> bool {
        self.a.ready() && self.b.ready()
    }

    open spec fn yields(&self, it: Cursor, o: Outcome<(String, B::Out)>) -> bool {
        exists|curs: Seq<Cursor>, vals: Seq<char>, ob: Outcome<B::Out>, oa: Outcome<char>|
            chars_until_via(&self.a, &self.b, it, curs, vals, ob, oa, o)
    }

    fn parse(&self, i: &PIter<'a>) -> (r: ParseRes<'a, (String, B::Out)>) {
        let mut res = String::new();
        let mut it = *i;
        let ghost mut curs: Seq<Cursor> = seq![i@];
        proof {
            lemma_chain_start::<char>(rep_step(&self.a, true), i@);
            lemma_reaches_self(i@);
        }
        loop
            invariant
                self.a.ready(),
                self.b.ready(),
                chain(rep_step(&self.a, true), i@, curs, res@),
                forall|j: int| 0 <= j < res@.len() ==> fails(&self.b, #[trigger] curs[j]),
                curs.last() == it@,
                i@.reaches(it@),
            decreases it@.rest.len(),
        {
            let rb = self.b.parse(&it);
            let ghost ob = outcome(rb);
            match rb {
                Ok((i2, bv, c1)) => {
                    proof {
                        lemma_reaches_trans(i@, it@, i2@);
                    }
                    let out: ParseRes<'a, (String, B::Out)> = Ok((i2, (res, bv), c1));
                    proof {
                        assert(chars_until_via(
                            &self.a,
                            &self.b,
                            i@,
                            curs,
                            res@,
                            ob,
                            Outcome::Failed(arbitrary()),
                            outcome(out),
                        ));
                    }
                    return out;
                },
                Err(e) => {
                    proof {
                        assert(self.b.yields(it@, Outcome::Failed(e@)));
                    }
                },
            }
            let ra = self.a.parse(&it);
            let ghost oa = outcome(ra);
            match ra {
                Ok((i2, c, _)) => {
                    let (l1, c1) = it.lc();
                    let (l2, c2) = i2.lc();
                    proof {
                        lemma_reaches_same_place(it@, i2@);
                        lemma_reaches_trans(i@, it@, i2@);
                    }
                    if l1 == l2 && c1 == c2 {
                        let out: ParseRes<'a, (String, B::Out)> = Err(
                            it.err_s("To Consume some data"),
                        );
                        proof {
                            assert(chars_until_via(
                                &self.a,
                                &self.b,
                                i@,
                                curs,
                                res@,
                                ob,
                                oa,
                                outcome(out),
                            ));
                        }
                        return out;
                    }
                    proof {
                        assert(hit(&self.a, it@, i2@, c));
                        lemma_chain_push(rep_step(&self.a, true), i@, curs, res@, i2@, c);
                        let ghost curs2 = curs.push(i2@);
                        assert forall|j: int| 0 <= j < res@.len() + 1 implies fails(
                            &self.b,
                            #[trigger] curs2[j],
                        ) by {
                            if j < res@.len() {
                                assert(curs2[j] == curs[j]);
                            }
                        }
                        curs = curs2;
                    }
                    push_char(&mut res, c);
                    it = i2;
                },
                Err(e) => {
                    let out: ParseRes<'a, (String, B::Out)> = Err(e);
                    proof {
                        assert(chars_until_via(&self.a, &self.b, i@, curs, res@, ob, oa, outcome(out)));
                    }
                    return out;
                },
            }
        }
    }
}

/// The matcher that gathers the characters that `a` matches until `b`
/// matches, and hands back their text with the value of `b`.
pub fn chars_until<'a, A: Parser<'a, Out = char>, B: Parser<'a>>(a: A, b: B) -> (r: CharsUntil<A, B>)
    ensures
        r.a == a,
        r.b == b,
{
    CharsUntil { a, b }
}

/// `o` is the outcome of gathering the texts of repeated matches of `a`,
/// from `it`, where `curs` and `vals` are the cursors and values of the
/// matches made and `ol` is the outcome of `a` after them.
///
/// Each match has moved the cursor: one that does not is a failure at that
/// cursor. Where `a` fails, the result is the texts one after the other,
/// with the failure for a soft record, if at least `min` matches were made;
/// else that failure.
pub open spec fn string_repeat_via<'a, A: Parser<'a>>(
    a: &A,
    it: Cursor,
    min: usize,
    curs: Seq<Cursor>,
    vals: Seq<A::Out>,
    ol: Outcome<A::Out>,
    o: Outcome<String>,
) -> bool where A::Out: AsText {
    &&& chain(rep_step(a, true), it, curs, vals)
    &&& a.yields(curs.last(), ol)
    &&& match ol {
        Outcome::Failed(e) => if vals.len() >= min {
            o matches Outcome::Done(c, r, s) && c == curs.last() && r@ == concat(vals) && s
                == Some(e)
        } else {
            o == Outcome::<String>::Failed(e)
        },
        Outcome::Done(c2, _, _) => c2 == curs.last() && o == Outcome::<String>::Failed(
            curs.last().fail(ExpectedView::Str("To Consume some data"@)),
        ),
    }
}

/// Gathers the texts of repeated matches of `a`, at least `min` of them.
pub fn do_string_repeat<'a, A: Parser<'a, Out = AV>, AV: AsText>(
    it: &PIter<'a>,
    a: &A,
    min: usize,
) -> (r: ParseRes<'a, String>)
    requires
        a.ready(),
    ensures
        exists|curs: Seq<Cursor>, vals: Seq<AV>, ol: Outcome<AV>|
            string_repeat_via(a, it@, min, curs, vals, ol, outcome(r)),
        r matches Ok(t) ==> it@.reaches(t.0@),
{
    let mut res = String::new();
    let mut nit = *it;
    let mut done: usize = 0;
    let ghost mut curs: Seq<Cursor> = seq![it@];
    let ghost mut vals: Seq<AV> = Seq::empty();
    proof {
        lemma_chain_start::<AV>(rep_step(a, true), it@);
        lemma_reaches_self(it@);
    }
    loop
        invariant
            a.ready(),
            chain(rep_step(a, true), it@, curs, vals),
            curs.last() == nit@,
            it@.reaches(nit@),
            res@ == concat(vals),
            done == vals.len(),
            done + nit@.rest.len() <= it@.rest.len(),
        decreases nit@.rest.len(),
    {
        let ra = a.parse(&nit);
        let ghost ol = outcome(ra);
        match ra {
            Ok((i2, v, _)) => {
                let (l1, c1) = nit.lc();
                let (l2, c2) = i2.lc();
                let _ = it.lc();
                proof {
                    lemma_reaches_same_place(nit@, i2@);
                    lemma_reaches_trans(it@, nit@, i2@);
                    lemma_len_le_byte_len(it@.rest);
                }
                if l1 == l2 && c1 == c2 {
                    let out: ParseRes<'a, String> = Err(nit.err_s("To Consume some data"));
                    proof {
                        assert(string_repeat_via(a, it@, min, curs, vals, ol, outcome(out)));
                    }
                    return out;
                }
                proof {
                    assert(hit(a, nit@, i2@, v));
                    lemma_chain_push(rep_step(a, true), it@, curs, vals, i2@, v);
                    lemma_concat_push(vals, v);
                    curs = curs.push(i2@);
                    vals = vals.push(v);
                }
                res.append(v.as_text());
                nit = i2;
                done += 1;
            },
            Err(e) => {
                let out: ParseRes<'a, String> = if done >= min {
                    Ok((nit, res, Some(e)))
                } else {
                    Err(e)
                };
                proof {
                    assert(string_repeat_via(a, it@, min, curs, vals, ol, outcome(out)));
                }
                return out;
            },
        }
    }
}

/// The matcher that gathers the texts of repeated matches of `a`.
pub struct StringRepeat<A> {
    pub a: A,
    pub min: usize,
}

impl<'a, A: Parser<'a, Out = AV>, AV: AsText> Parser<'a> for StringRepeat<A> {
    type Out = String;

    open spec fn ready(&self) -> bool {
        self.a.ready()
    }

    open spec fn yields(&self, it: Cursor, o: Outcome<String>) -> bool {
        exists|curs: Seq<Cursor>, vals: Seq<AV>, ol: Outcome<AV>|
            string_repeat_via(&self.a, it, self.min, curs, vals, ol, o)
    }

    fn parse(&self, it: &PIter<'a>) -> (r: ParseRes<'a, String>) {
        do_string_repeat(it, &self.a, self.min)
    }
}

/// The matcher that gathers the texts of at least `min` matches of `a`.
pub fn string_repeat<'a, A: Parser<'a, Out = AV>, AV: AsText>(a: A, min: usize) -> (r: StringRepeat<A>)
    ensures
        r.a == a,
        r.min == min,
{
    StringRepeat { a, min }
}

} // verus!
