//! The match contract: what every matcher does with a cursor, and the results
//! it hands back.

use vstd::prelude::*;
use crate::convert::{asv, try_map, Asv, Mapped, TryMap};
use crate::err::{opt_view, Expected, ExpectedView, PErr, PErrView};
use crate::iter::{lemma_reaches_self, lemma_reaches_trans, Cursor, PIter};
use crate::select::{or, Ig, Or};
use crate::strung::{ranged, ranged_owned, span_res, span_res_owned};
use crate::text::{agree, lemma_agree};

verus! {

/// What a match attempt hands back: the cursor after the match, the value,
/// and perhaps a record of why the match went no further; or the record of
/// the failure.
pub type ParseRes<'a, V> = Result<(PIter<'a>, V, Option<PErr<'a>>), PErr<'a>>;

/// The mathematical value of a [`ParseRes`].
pub enum Outcome<V> {
    /// The match succeeded: the cursor after it, the value, and the soft record.
    Done(Cursor, V, Option<PErrView>),
    /// The match failed.
    Failed(PErrView),
}

impl<V> Outcome<V> {
    /// This outcome, with the soft record `c` of an earlier step joined to its failure.
    pub open spec fn join_err_op(self, c: Option<PErrView>) -> Outcome<V> {
        match (self, c) {
            (Outcome::Failed(e), Some(c)) => Outcome::Failed(e.join(c)),
            _ => self,
        }
    }

    /// This outcome, with its failure marked so that no alternative is tried.
    pub open spec fn brk(self) -> Outcome<V> {
        match self {
            Outcome::Failed(e) => Outcome::Failed(e.brk()),
            _ => self,
        }
    }

    /// This outcome with the value `f` of its value.
    pub open spec fn map<W>(self, f: spec_fn(V) -> W) -> Outcome<W> {
        match self {
            Outcome::Done(c, v, s) => Outcome::Done(c, f(v), s),
            Outcome::Failed(e) => Outcome::Failed(e),
        }
    }

    /// This outcome with the value replaced by `w`.
    pub open spec fn with<W>(self, w: W) -> Outcome<W> {
        match self {
            Outcome::Done(c, _, s) => Outcome::Done(c, w, s),
            Outcome::Failed(e) => Outcome::Failed(e),
        }
    }
}

/// The value of a result.
pub open spec fn outcome<'a, V>(r: ParseRes<'a, V>) -> Outcome<V> {
    match r {
        Ok((it, v, e)) => Outcome::Done(it@, v, opt_view(e)),
        Err(e) => Outcome::Failed(e@),
    }
}

/// `r` is what is left of the outcome `o` once cursor and soft record are dropped.
pub open spec fn plain<'a, V>(o: Outcome<V>, r: Result<V, PErr<'a>>) -> bool {
    match o {
        Outcome::Done(_, v, _) => r == Ok::<V, PErr<'a>>(v),
        Outcome::Failed(e) => r matches Err(x) && x@ == e,
    }
}

/// The cursor at the start of `text`.
pub open spec fn start_of(text: Seq<char>) -> Cursor {
    Cursor { rest: text, at: 0, line: 0, col: 0 }
}

/// A matcher: it attempts to advance a cursor.
pub trait Parser<'a>: Sized {
    /// The type of the values that a match produces.
    type Out;

    /// The matcher may be run: the functions it holds accept every argument.
    /// A matcher that holds none is always ready.
    open spec fn ready(&self) -> bool {
        true
    }

    /// `o` is an outcome of this matcher at the cursor `it`. An
    /// implementation states here what it hands back; one that does not
    /// leaves its outcomes open, and nothing follows about a grammar that it
    /// is part of.
    open spec fn yields(&self, it: Cursor, o: Outcome<Self::Out>) -> bool {
        arbitrary()
    }

    /// Attempts a match at `it`. A success hands back a cursor that `it`
    /// reaches: a matcher moves forward in the text it was given, or not at all.
    fn parse(&self, it: &PIter<'a>) -> (r: ParseRes<'a, Self::Out>)
        requires
            self.ready(),
        ensures
            self.yields(it@, outcome(r)),
            r matches Ok(t) ==> it@.reaches(t.0@),
    ;

    /// Attempts a match at the start of `s` and hands back the value alone.
    fn parse_s(&self, s: &'a str) -> (r: Result<Self::Out, PErr<'a>>)
        requires
            self.ready(),
        ensures
            exists|o: Outcome<Self::Out>| #[trigger] self.yields(start_of(s@), o) && plain(o, r),
    {
        let it = PIter::new(s);
        let res = self.parse(&it);
        let ghost o = outcome(res);
        let r = match res {
            Ok((_, v, _)) => Ok(v),
            Err(e) => Err(e),
        };
        proof {
            assert(self.yields(start_of(s@), o) && plain(o, r));
        }
        r
    }

    /// The matcher that matches as this one does and hands back no value.
    fn ig(self) -> (r: Ig<Self>)
        ensures
            r.a == self,
    {
        Ig { a: self }
    }

    /// This matcher, borrowed.
    fn br<'b>(&'b self) -> (r: Br<'b, Self>)
        ensures
            r.0 == self,
    {
        Br(self)
    }

    /// The matcher that matches as this one does, its failures marked so
    /// that no alternative is tried after them.
    fn brk(self) -> (r: Break<Self>)
        ensures
            r.a == self,
    {
        Break { a: self }
    }
}

/// The combinations of a matcher with another matcher, a value or a function.
pub trait Combine<'a>: Parser<'a> {
    /// The matcher that tries this one and, where it fails and allows it, `b`.
    fn or<B: Parser<'a, Out = Self::Out>>(self, b: B) -> (r: Or<Self, B>)
        ensures
            r.a == self,
            r.b == b,
    ;

    /// The matcher that matches as this one does and hands back a copy of `v`.
    fn asv<V: Clone>(self, v: V) -> (r: Asv<Self, V>)
        ensures
            r.a == self,
            r.v == v,
    ;

    /// The matcher that matches as this one does and hands back `f` of its value.
    fn map<B, F: Fn(Self::Out) -> B>(self, f: F) -> (r: Mapped<Self, F>)
        ensures
            r.a == self,
            r.f == f,
    ;

    /// The matcher that matches as this one does and hands back what `f`
    /// makes of its value, or fails with what `f` objects.
    fn try_map<B, F: Fn(Self::Out) -> Result<B, Expected>>(self, f: F) -> (r: TryMap<Self, F>)
        ensures
            r.a == self,
            r.f == f,
    ;
}

impl<'a, P: Parser<'a>> Combine<'a> for P {
    fn or<B: Parser<'a, Out = Self::Out>>(self, b: B) -> (r: Or<Self, B>) {
        or(self, b)
    }

    fn asv<V: Clone>(self, v: V) -> (r: Asv<Self, V>) {
        asv(self, v)
    }

    fn map<B, F: Fn(Self::Out) -> B>(self, f: F) -> (r: Mapped<Self, F>) {
        crate::convert::map(self, f)
    }

    fn try_map<B, F: Fn(Self::Out) -> Result<B, Expected>>(self, f: F) -> (r: TryMap<Self, F>) {
        try_map(self, f)
    }
}

/// The outcome of matching the one character `ch` at `it`.
pub open spec fn char_outcome(ch: char, it: Cursor) -> Outcome<char> {
    if it.rest.len() > 0 && it.rest[0] == ch {
        Outcome::Done(it.step(ch), ch, None)
    } else {
        Outcome::Failed(it.fail(ExpectedView::Char(ch)))
    }
}

/// Matches the one character `ch` at `i`.
pub fn do_char<'a>(i: &PIter<'a>, ch: char) -> (r: ParseRes<'a, char>)
    ensures
        outcome(r) == char_outcome(ch, i@),
        r matches Ok(t) ==> i@.reaches(t.0@),
{
    let mut it = *i;
    match it.next() {
        Some(ic) if ic == ch => Ok((it, ic, None)),
        _ => Err(i.err(Expected::Char(ch))),
    }
}

impl<'a> Parser<'a> for char {
    type Out = char;

    open spec fn ready(&self) -> bool {
        true
    }

    open spec fn yields(&self, it: Cursor, o: Outcome<char>) -> bool {
        o == char_outcome(*self, it)
    }

    fn parse(&self, i: &PIter<'a>) -> (r: ParseRes<'a, char>) {
        do_char(i, *self)
    }
}

/// The outcome of matching the literal text `name` at `it`: a success behind
/// the text where the input starts with it; else a failure behind the
/// characters that agree, where the match broke off.
pub open spec fn str_outcome(name: &'static str, it: Cursor) -> Outcome<&'static str> {
    let n = agree(name@, it.rest);
    if n == name@.len() {
        Outcome::Done(it.advance(n), name, None)
    } else {
        Outcome::Failed(it.advance(n).fail(ExpectedView::Str(name@)))
    }
}

impl<'a> Parser<'a> for &'static str {
    type Out = &'static str;

    open spec fn ready(&self) -> bool {
        true
    }

    open spec fn yields(&self, it: Cursor, o: Outcome<&'static str>) -> bool {
        o == str_outcome(*self, it)
    }

    fn parse(&self, i: &PIter<'a>) -> (r: ParseRes<'a, &'static str>) {
        let mut it = *i;
        let mut lit = PIter::new(*self);
        let ghost mut k: nat = 0;
        proof {
            lemma_reaches_self(i@);
        }
        loop
            invariant
                k <= self@.len(),
                k <= i@.rest.len(),
                lit@.rest == self@.skip(k as int),
                it@ == i@.advance(k),
                i@.reaches(it@),
                it@.rest == i@.rest.skip(k as int),
                forall|j: int| 0 <= j < k ==> self@[j] == i@.rest[j],
            decreases lit@.rest.len(),
        {
            match lit.next() {
                None => {
                    proof {
                        lemma_agree(self@, i@.rest, k);
                    }
                    return Ok((it, *self, None));
                },
                Some(c) => {
                    let before = it;
                    let matched = match it.next() {
                        Some(ic) => ic == c,
                        None => false,
                    };
                    proof {
                        assert(c == self@[k as int]);
                        if before@.rest.len() > 0 {
                            assert(before@.rest[0] == i@.rest[k as int]);
                        }
                    }
                    if matched {
                        proof {
                            lemma_reaches_trans(i@, before@, it@);
                            crate::iter::lemma_advance_twice(i@, k, 1);
                            assert(before@.advance(1) == before@.step(before@.rest[0]).advance(0));
                            assert(lit@.rest =~= self@.skip(k as int + 1));
                            assert(it@.rest =~= i@.rest.skip(k as int + 1));
                            k = k + 1;
                        }
                    } else {
                        proof {
                            lemma_agree(self@, i@.rest, k);
                        }
                        return Err(before.err_s(*self));
                    }
                },
            }
        }
    }
}

/// `o` is the outcome `oa` of `a` at `it`, its failure marked.
pub open spec fn break_via<'a, A: Parser<'a>>(
    a: &A,
    it: Cursor,
    oa: Outcome<A::Out>,
    o: Outcome<A::Out>,
) -> bool {
    a.yields(it, oa) && o == oa.brk()
}

/// A matcher whose failures stop any alternation they pass through.
pub struct Break<A> {
    pub a: A,
}

impl<'a, A: Parser<'a>> Parser<'a> for Break<A> {
    type Out = A::Out;

    open spec fn ready(&self) -> bool {
        self.a.ready()
    }

    open spec fn yields(&self, it: Cursor, o: Outcome<A::Out>) -> bool {
        exists|oa: Outcome<A::Out>| break_via(&self.a, it, oa, o)
    }

    fn parse(&self, it: &PIter<'a>) -> (r: ParseRes<'a, A::Out>) {
        let res = self.a.parse(it);
        let ghost oa = outcome(res);
        let r = match res {
            Ok(t) => Ok(t),
            Err(e) => Err(e.brk()),
        };
        proof {
            assert(break_via(&self.a, it@, oa, outcome(r)));
        }
        r
    }
}

/// A matcher borrowed: it matches as the matcher it borrows.
pub struct Br<'b, P>(pub &'b P);

impl<'a, 'b, P: Parser<'a>> Parser<'a> for Br<'b, P> {
    type Out = P::Out;

    open spec fn ready(&self) -> bool {
        self.0.ready()
    }

    open spec fn yields(&self, it: Cursor, o: Outcome<P::Out>) -> bool {
        self.0.yields(it, o)
    }

    fn parse(&self, it: &PIter<'a>) -> (r: ParseRes<'a, P::Out>) {
        self.0.parse(it)
    }
}

/// `o` is the outcome of the function `f` at `it`, where `f` was handed the
/// cursor `p` and gave back `r`.
pub open spec fn fn_via<'a, V, F: Fn(&PIter<'a>) -> ParseRes<'a, V>>(
    f: F,
    it: Cursor,
    p: PIter<'a>,
    r: ParseRes<'a, V>,
    o: Outcome<V>,
) -> bool {
    p@ == it && call_ensures(f, (&p,), r) && outcome(r) == o
}

impl<'a, F, V> Parser<'a> for F where F: Fn(&PIter<'a>) -> ParseRes<'a, V> {
    type Out = V;

    /// The function accepts every cursor, and a success of it hands back a
    /// cursor that the one it was given reaches.
    open spec fn ready(&self) -> bool {
        &&& forall|p: PIter<'a>| call_requires(*self, (&p,))
        &&& forall|p: PIter<'a>, r: ParseRes<'a, V>| #[trigger]
            call_ensures(*self, (&p,), r) ==> (r matches Ok(t) ==> p@.reaches(t.0@))
    }

    open spec fn yields(&self, it: Cursor, o: Outcome<V>) -> bool {
        exists|p: PIter<'a>, r: ParseRes<'a, V>| fn_via(*self, it, p, r, o)
    }

    fn parse(&self, it: &PIter<'a>) -> (r: ParseRes<'a, V>) {
        let r = self(it);
        proof {
            assert(fn_via(*self, it@, *it, r, outcome(r)));
        }
        r
    }
}

/// `o` is the outcome of `a` followed by `b`, where `a` had the outcome `oa`
/// and `b`, started where `a` stopped, the outcome `ob`: the value is the pair
/// of both values, and a failure of `b` takes the soft record of `a` with it.
/// A failure of `a` ends the sequence, and `ob` plays no part.
pub open spec fn seq_via<'a, A: Parser<'a>, B: Parser<'a>>(
    a: &A,
    b: &B,
    it: Cursor,
    oa: Outcome<A::Out>,
    ob: Outcome<B::Out>,
    o: Outcome<(A::Out, B::Out)>,
) -> bool {
    &&& a.yields(it, oa)
    &&& match oa {
        Outcome::Failed(e) => o == Outcome::<(A::Out, B::Out)>::Failed(e),
        Outcome::Done(i2, av, c1) => b.yields(i2, ob) && o == ob.join_err_op(c1).map(
            |bv: B::Out| (av, bv),
        ),
    }
}

/// `o` is an outcome of `a` followed by `b`.
pub open spec fn seq_yields<'a, A: Parser<'a>, B: Parser<'a>>(
    a: &A,
    b: &B,
    it: Cursor,
    o: Outcome<(A::Out, B::Out)>,
) -> bool {
    exists|oa: Outcome<A::Out>, ob: Outcome<B::Out>| seq_via(a, b, it, oa, ob, o)
}

/// Runs `a`, then `b` from where `a` stopped.
pub fn do_seq<'a, A: Parser<'a>, B: Parser<'a>>(a: &A, b: &B, it: &PIter<'a>) -> (r: ParseRes<
    'a,
    (A::Out, B::Out),
>)
    requires
        a.ready(),
        b.ready(),
    ensures
        seq_yields(a, b, it@, outcome(r)),
        r matches Ok(t) ==> it@.reaches(t.0@),
{
    let ra = a.parse(it);
    let ghost oa = outcome(ra);
    match ra {
        Err(e) => {
            let r: ParseRes<'a, (A::Out, B::Out)> = Err(e);
            proof {
                assert(seq_via(a, b, it@, oa, Outcome::Failed(e@), outcome(r)));
            }
            r
        },
        Ok((it2, av, c1)) => {
            let rb = b.parse(&it2);
            let ghost ob = outcome(rb);
            let r = match rb {
                Ok((it3, bv, c2)) => {
                    proof {
                        lemma_reaches_trans(it@, it2@, it3@);
                    }
                    Ok((it3, (av, bv), c2))
                },
                Err(e) => match c1 {
                    Some(c) => Err(e.join(c)),
                    None => Err(e),
                },
            };
            proof {
                assert(seq_via(a, b, it@, oa, ob, outcome(r)));
            }
            r
        },
    }
}

/// `r` is the result `res` with a value that `f` gives for its value.
pub open spec fn mapped_res<'a, V, R, F: Fn(V) -> R>(
    res: ParseRes<'a, V>,
    f: F,
    r: ParseRes<'a, R>,
) -> bool {
    match res {
        Ok((i, v, e)) => r matches Ok((i2, w, e2)) && i2 == i && e2 == e && call_ensures(
            f,
            (v,),
            w,
        ),
        Err(e) => r matches Err(e2) && e2 == e,
    }
}

/// `o` is the outcome of running `p` after a first step with the outcome
/// `first`, where `p` had the outcome `ob`: a failure of the first step
/// stands, and its soft record is dropped.
pub open spec fn then_via<'a, V, P: Parser<'a>>(
    first: Outcome<V>,
    p: &P,
    ob: Outcome<P::Out>,
    o: Outcome<(V, P::Out)>,
) -> bool {
    match first {
        Outcome::Failed(e) => o == Outcome::<(V, P::Out)>::Failed(e),
        Outcome::Done(i, av, _) => p.yields(i, ob) && o == ob.map(|pv: P::Out| (av, pv)),
    }
}

/// As `then_via`, with the value of the first step alone.
pub open spec fn then_ig_via<'a, V, P: Parser<'a>>(
    first: Outcome<V>,
    p: &P,
    ob: Outcome<P::Out>,
    o: Outcome<V>,
) -> bool {
    match first {
        Outcome::Failed(e) => o == Outcome::<V>::Failed(e),
        Outcome::Done(i, av, _) => p.yields(i, ob) && o == ob.with(av),
    }
}

/// As `then_via`, with the value of `p` alone.
pub open spec fn ig_then_via<'a, V, P: Parser<'a>>(
    first: Outcome<V>,
    p: &P,
    ob: Outcome<P::Out>,
    o: Outcome<P::Out>,
) -> bool {
    match first {
        Outcome::Failed(e) => o == Outcome::<P::Out>::Failed(e),
        Outcome::Done(i, _, _) => p.yields(i, ob) && o == ob,
    }
}

/// What can be done with the result of a match attempt.
pub trait ResTrait<'a>: Sized {
    /// The type of the value of a success.
    type Val;

    /// This result.
    spec fn res(self) -> ParseRes<'a, Self::Val>;

    /// The result with `f` applied to the value.
    fn map_v<F: Fn(Self::Val) -> R, R>(self, f: F) -> (r: ParseRes<'a, R>)
        requires
            self.res() matches Ok(t) ==> call_requires(f, (t.1,)),
        ensures
            mapped_res(self.res(), f, r),
    ;

    /// The result with the text matched since `start` for its value.
    fn map_str(self, start: &PIter<'a>) -> (r: ParseRes<'a, &'a str>)
        requires
            self.res() matches Ok(t) ==> start@.reaches(t.0@),
        ensures
            ranged(start@, outcome(self.res()), outcome(r)),
    ;

    /// The result with the text matched since `start`, as a `String`, for its value.
    fn map_string(self, start: &PIter<'a>) -> (r: ParseRes<'a, String>)
        requires
            self.res() matches Ok(t) ==> start@.reaches(t.0@),
        ensures
            ranged_owned(start@, outcome(self.res()), outcome(r)),
    ;

    /// The result with `e` joined to its failure.
    fn join_err(self, e: PErr<'a>) -> (r: Self)
        ensures
            outcome(r.res()) == outcome(self.res()).join_err_op(Some(e@)),
    ;

    /// The result with `e`, where there is one, joined to its failure.
    fn join_err_op(self, e: Option<PErr<'a>>) -> (r: Self)
        ensures
            outcome(r.res()) == outcome(self.res()).join_err_op(opt_view(e)),
    ;

    /// The result of `p` run after this one, with both values. The soft
    /// record of this result is dropped.
    fn then_p<P: Parser<'a>>(self, p: &P) -> (r: ParseRes<'a, (Self::Val, P::Out)>)
        requires
            p.ready(),
        ensures
            exists|ob: Outcome<P::Out>| then_via(outcome(self.res()), p, ob, outcome(r)),
    ;

    /// The result of `p` run after this one, with the value of this one.
    fn then_ig<P: Parser<'a>>(self, p: &P) -> (r: ParseRes<'a, Self::Val>)
        requires
            p.ready(),
        ensures
            exists|ob: Outcome<P::Out>| then_ig_via(outcome(self.res()), p, ob, outcome(r)),
    ;

    /// The result of `p` run after this one, with the value of `p`.
    fn ig_then<P: Parser<'a>>(self, p: &P) -> (r: ParseRes<'a, P::Out>)
        requires
            p.ready(),
        ensures
            exists|ob: Outcome<P::Out>| ig_then_via(outcome(self.res()), p, ob, outcome(r)),
    ;
}

impl<'a, V> ResTrait<'a> for ParseRes<'a, V> {
    type Val = V;

    open spec fn res(self) -> ParseRes<'a, V> {
        self
    }

    fn map_v<F: Fn(V) -> R, R>(self, f: F) -> (r: ParseRes<'a, R>) {
        match self {
            Ok((i, v, e)) => Ok((i, f(v), e)),
            Err(e) => Err(e),
        }
    }

    fn map_str(self, start: &PIter<'a>) -> (r: ParseRes<'a, &'a str>) {
        span_res(self, start)
    }

    fn map_string(self, start: &PIter<'a>) -> (r: ParseRes<'a, String>) {
        span_res_owned(self, start)
    }

    fn join_err(self, e2: PErr<'a>) -> (r: Self) {
        match self {
            Ok(t) => Ok(t),
            Err(e) => Err(e.join(e2)),
        }
    }

    fn join_err_op(self, e: Option<PErr<'a>>) -> (r: Self) {
        match e {
            Some(e) => self.join_err(e),
            None => self,
        }
    }

    fn then_p<P: Parser<'a>>(self, p: &P) -> (r: ParseRes<'a, (V, P::Out)>) {
        let ghost first = outcome(self);
        match self {
            Ok((i, av, _)) => {
                let rb = p.parse(&i);
                let ghost ob = outcome(rb);
                let r = match rb {
                    Ok((i2, pv, e)) => Ok((i2, (av, pv), e)),
                    Err(e) => Err(e),
                };
                proof {
                    assert(then_via(first, p, ob, outcome(r)));
                }
                r
            },
            Err(e) => {
                let r: ParseRes<'a, (V, P::Out)> = Err(e);
                proof {
                    assert(then_via(first, p, Outcome::Failed(arbitrary()), outcome(r)));
                }
                r
            },
        }
    }

    fn then_ig<P: Parser<'a>>(self, p: &P) -> (r: ParseRes<'a, V>) {
        let ghost first = outcome(self);
        match self {
            Ok((i, av, _)) => {
                let rb = p.parse(&i);
                let ghost ob = outcome(rb);
                let r = match rb {
                    Ok((i2, _, e)) => Ok((i2, av, e)),
                    Err(e) => Err(e),
                };
                proof {
                    assert(then_ig_via(first, p, ob, outcome(r)));
                }
                r
            },
            Err(e) => {
                let r: ParseRes<'a, V> = Err(e);
                proof {
                    assert(then_ig_via(first, p, Outcome::Failed(arbitrary()), outcome(r)));
                }
                r
            },
        }
    }

    fn ig_then<P: Parser<'a>>(self, p: &P) -> (r: ParseRes<'a, P::Out>) {
        let ghost first = outcome(self);
        match self {
            Ok((i, _, _)) => {
                let r = p.parse(&i);
                proof {
                    assert(ig_then_via(first, p, outcome(r), outcome(r)));
                }
                r
            },
            Err(e) => {
                let r: ParseRes<'a, P::Out> = Err(e);
                proof {
                    assert(ig_then_via(first, p, Outcome::Failed(arbitrary()), outcome(r)));
                }
                r
            },
        }
    }
}

/// A matcher that matches texts of any lifetime with values of one type.
pub trait OParser<Out>: for <'text>Parser<'text, Out = Out> {

}

impl<Out, P: ?Sized> OParser<Out> for P where P: for <'text>Parser<'text, Out = Out> {

}

} // verus!
