//! Sequences of two to six matchers, and the selection of the first or the
//! last value of a sequence.

use vstd::prelude::*;
use crate::iter::{Cursor, PIter};
use crate::parser::{Br, do_seq, outcome, seq_yields, Outcome, ParseRes, Parser};

verus! {

impl<'a, A, B> Parser<'a> for (A, B) where A: Parser<'a>, B: Parser<'a> {
    type Out = (A::Out, B::Out);

    open spec fn ready(&self) -> bool {
        self.0.ready() && self.1.ready()
    }

    open spec fn yields(&self, it: Cursor, o: Outcome<Self::Out>) -> bool {
        seq_yields(&self.0, &self.1, it, o)
    }

    fn parse(&self, it: &PIter<'a>) -> (r: ParseRes<'a, Self::Out>) {
        do_seq(&self.0, &self.1, it)
    }
}

/// `o` is the outcome `p` of `(a, b)` followed by `c`, the values in one tuple.
pub open spec fn seq3_via<'a, A: Parser<'a>, B: Parser<'a>, C: Parser<'a>>(
    a: &A,
    b: &B,
    c: &C,
    it: Cursor,
    p: Outcome<((A::Out, B::Out), C::Out)>,
    o: Outcome<(A::Out, B::Out, C::Out)>,
) -> bool {
    ((Br(a), Br(b)), Br(c)).yields(it, p) && o == p.map(|v: ((A::Out, B::Out), C::Out)| (v.0.0, v.0.1, v.1))
}

impl<'a, A, B, C> Parser<'a> for (A, B, C) where A: Parser<'a>, B: Parser<'a>, C: Parser<'a> {
    type Out = (A::Out, B::Out, C::Out);

    open spec fn ready(&self) -> bool {
        self.0.ready() && self.1.ready() && self.2.ready()
    }

    open spec fn yields(&self, it: Cursor, o: Outcome<Self::Out>) -> bool {
        exists|p: Outcome<((A::Out, B::Out), C::Out)>|
            seq3_via(&self.0, &self.1, &self.2, it, p, o)
    }

    fn parse(&self, it: &PIter<'a>) -> (r: ParseRes<'a, Self::Out>) {
        let inner = ((self.0.br(), self.1.br()), self.2.br());
        let res = inner.parse(it);
        let ghost p = outcome(res);
        let r = match res {
            Ok((i, ((a, b), c), e)) => Ok((i, (a, b, c), e)),
            Err(e) => Err(e),
        };
        proof {
            assert(seq3_via(&self.0, &self.1, &self.2, it@, p, outcome(r)));
        }
        r
    }
}

/// The values of four matchers as the nested sequences hand them back.
pub type Nest4<A, B, C, D> = ((A, B), (C, D));

/// `o` is the outcome `p` of the four matchers in sequence, the values in
/// one tuple.
pub open spec fn seq4_via<'a, A: Parser<'a>, B: Parser<'a>, C: Parser<'a>, D: Parser<'a>>(
    m0: &A,
    m1: &B,
    m2: &C,
    m3: &D,
    it: Cursor,
    p: Outcome<Nest4<A::Out, B::Out, C::Out, D::Out>>,
    o: Outcome<(A::Out, B::Out, C::Out, D::Out)>,
) -> bool {
    ((Br(m0), Br(m1)), (Br(m2), Br(m3))).yields(it, p) && o == p.map(
        |v: Nest4<A::Out, B::Out, C::Out, D::Out>| (v.0.0, v.0.1, v.1.0, v.1.1),
    )
}

impl<'a, A, B, C, D> Parser<'a> for (A, B, C, D) where
    A: Parser<'a>,
    B: Parser<'a>,
    C: Parser<'a>,
    D: Parser<'a>,
 {
    type Out = (A::Out, B::Out, C::Out, D::Out);

    open spec fn ready(&self) -> bool {
        self.0.ready()
            && self.1.ready()
            && self.2.ready()
            && self.3.ready()
    }

    open spec fn yields(&self, it: Cursor, o: Outcome<Self::Out>) -> bool {
        exists|p: Outcome<Nest4<A::Out, B::Out, C::Out, D::Out>>|
            seq4_via(&self.0, &self.1, &self.2, &self.3, it, p, o)
    }

    fn parse(&self, it: &PIter<'a>) -> (r: ParseRes<'a, Self::Out>) {
        let inner = ((self.0.br(), self.1.br()), (self.2.br(), self.3.br()));
        let res = inner.parse(it);
        let ghost p = outcome(res);
        let r = match res {
            Ok((i, ((a, b), (c, d)), soft)) => Ok((i, (a, b, c, d), soft)),
            Err(e) => Err(e),
        };
        proof {
            assert(seq4_via(&self.0, &self.1, &self.2, &self.3, it@, p, outcome(r)));
        }
        r
    }
}

/// The values of five matchers as the nested sequences hand them back.
pub type Nest5<A, B, C, D, E> = ((A, B, C), (D, E));

/// `o` is the outcome `p` of the five matchers in sequence, the values in
/// one tuple.
pub open spec fn seq5_via<'a, A: Parser<'a>, B: Parser<'a>, C: Parser<'a>, D: Parser<'a>, E: Parser<'a>>(
    m0: &A,
    m1: &B,
    m2: &C,
    m3: &D,
    m4: &E,
    it: Cursor,
    p: Outcome<Nest5<A::Out, B::Out, C::Out, D::Out, E::Out>>,
    o: Outcome<(A::Out, B::Out, C::Out, D::Out, E::Out)>,
) -> bool {
    ((Br(m0), Br(m1), Br(m2)), (Br(m3), Br(m4))).yields(it, p) && o == p.map(
        |v: Nest5<A::Out, B::Out, C::Out, D::Out, E::Out>| (v.0.0, v.0.1, v.0.2, v.1.0, v.1.1),
    )
}

impl<'a, A, B, C, D, E> Parser<'a> for (A, B, C, D, E) where
    A: Parser<'a>,
    B: Parser<'a>,
    C: Parser<'a>,
    D: Parser<'a>,
    E: Parser<'a>,
 {
    type Out = (A::Out, B::Out, C::Out, D::Out, E::Out);

    open spec fn ready(&self) -> bool {
        self.0.ready()
            && self.1.ready()
            && self.2.ready()
            && self.3.ready()
            && self.4.ready()
    }

    open spec fn yields(&self, it: Cursor, o: Outcome<Self::Out>) -> bool {
        exists|p: Outcome<Nest5<A::Out, B::Out, C::Out, D::Out, E::Out>>|
            seq5_via(&self.0, &self.1, &self.2, &self.3, &self.4, it, p, o)
    }

    fn parse(&self, it: &PIter<'a>) -> (r: ParseRes<'a, Self::Out>) {
        let inner = ((self.0.br(), self.1.br(), self.2.br()), (self.3.br(), self.4.br()));
        let res = inner.parse(it);
        let ghost p = outcome(res);
        let r = match res {
            Ok((i, ((a, b, c), (d, e)), soft)) => Ok((i, (a, b, c, d, e), soft)),
            Err(e) => Err(e),
        };
        proof {
            assert(seq5_via(&self.0, &self.1, &self.2, &self.3, &self.4, it@, p, outcome(r)));
        }
        r
    }
}

/// The values of six matchers as the nested sequences hand them back.
pub type Nest6<A, B, C, D, E, F> = ((A, B, C), (D, E, F));

/// `o` is the outcome `p` of the six matchers in sequence, the values in
/// one tuple.
pub open spec fn seq6_via<'a, A: Parser<'a>, B: Parser<'a>, C: Parser<'a>, D: Parser<'a>, E: Parser<'a>, F: Parser<'a>>(
    m0: &A,
    m1: &B,
    m2: &C,
    m3: &D,
    m4: &E,
    m5: &F,
    it: Cursor,
    p: Outcome<Nest6<A::Out, B::Out, C::Out, D::Out, E::Out, F::Out>>,
    o: Outcome<(A::Out, B::Out, C::Out, D::Out, E::Out, F::Out)>,
) -> bool {
    ((Br(m0), Br(m1), Br(m2)), (Br(m3), Br(m4), Br(m5))).yields(it, p) && o == p.map(
        |v: Nest6<A::Out, B::Out, C::Out, D::Out, E::Out, F::Out>| (v.0.0, v.0.1, v.0.2, v.1.0, v.1.1, v.1.2),
    )
}

impl<'a, A, B, C, D, E, F> Parser<'a> for (A, B, C, D, E, F) where
    A: Parser<'a>,
    B: Parser<'a>,
    C: Parser<'a>,
    D: Parser<'a>,
    E: Parser<'a>,
    F: Parser<'a>,
 {
    type Out = (A::Out, B::Out, C::Out, D::Out, E::Out, F::Out);

    open spec fn ready(&self) -> bool {
        self.0.ready()
            && self.1.ready()
            && self.2.ready()
            && self.3.ready()
            && self.4.ready()
            && self.5.ready()
    }

    open spec fn yields(&self, it: Cursor, o: Outcome<Self::Out>) -> bool {
        exists|p: Outcome<Nest6<A::Out, B::Out, C::Out, D::Out, E::Out, F::Out>>|
            seq6_via(&self.0, &self.1, &self.2, &self.3, &self.4, &self.5, it, p, o)
    }

    fn parse(&self, it: &PIter<'a>) -> (r: ParseRes<'a, Self::Out>) {
        let inner = (
            (self.0.br(), self.1.br(), self.2.br()),
            (self.3.br(), self.4.br(), self.5.br()),
        );
        let res = inner.parse(it);
        let ghost p = outcome(res);
        let r = match res {
            Ok((i, ((a, b, c), (d, e, f)), soft)) => Ok((i, (a, b, c, d, e, f), soft)),
            Err(e) => Err(e),
        };
        proof {
            assert(seq6_via(&self.0, &self.1, &self.2, &self.3, &self.4, &self.5, it@, p, outcome(r)));
        }
        r
    }
}

/// A tuple of which the first component can be taken.
pub trait Firster: Sized {
    /// The type of the first component.
    type Item;

    /// The first component. An implementation that does not say it leaves
    /// the component open.
    open spec fn first_of(self) -> Self::Item {
        arbitrary()
    }

    /// Takes the first component.
    fn get_first(self) -> (r: Self::Item)
        ensures
            r == self.first_of(),
    ;
}

impl<A, B> Firster for (A, B) {
    type Item = A;

    open spec fn first_of(self) -> A {
        self.0
    }

    fn get_first(self) -> (r: A) {
        self.0
    }
}

impl<A, B, C> Firster for (A, B, C) {
    type Item = A;

    open spec fn first_of(self) -> A {
        self.0
    }

    fn get_first(self) -> (r: A) {
        self.0
    }
}

impl<A, B, C, D> Firster for (A, B, C, D) {
    type Item = A;

    open spec fn first_of(self) -> A {
        self.0
    }

    fn get_first(self) -> (r: A) {
        self.0
    }
}

impl<A, B, C, D, E> Firster for (A, B, C, D, E) {
    type Item = A;

    open spec fn first_of(self) -> A {
        self.0
    }

    fn get_first(self) -> (r: A) {
        self.0
    }
}

impl<A, B, C, D, E, F> Firster for (A, B, C, D, E, F) {
    type Item = A;

    open spec fn first_of(self) -> A {
        self.0
    }

    fn get_first(self) -> (r: A) {
        self.0
    }
}

/// The matcher that matches as `a` does and hands back the first component
/// of its value.
pub struct FirstRes<A> {
    pub a: A,
}

/// The matcher that matches as `a` does and hands back the first component
/// of its value.
pub fn first_res<'a, A: Parser<'a>>(a: A) -> (r: FirstRes<A>)
    ensures
        r.a == a,
{
    FirstRes { a }
}

/// `o` is the outcome `oa` with the first component of the value.
pub open spec fn first_res_via<R: Firster>(oa: Outcome<R>, o: Outcome<R::Item>) -> bool {
    o == oa.map(|v: R| v.first_of())
}

impl<'a, A, R, O> Parser<'a> for FirstRes<A> where A: Parser<'a, Out = R>, R: Firster<Item = O> {
    type Out = O;

    open spec fn ready(&self) -> bool {
        self.a.ready()
    }

    open spec fn yields(&self, it: Cursor, o: Outcome<O>) -> bool {
        exists|oa: Outcome<R>| #[trigger] self.a.yields(it, oa) && first_res_via(oa, o)
    }

    fn parse(&self, i: &PIter<'a>) -> (r: ParseRes<'a, O>) {
        let res = self.a.parse(i);
        let ghost oa = outcome(res);
        let r = match res {
            Ok((i2, v, e)) => Ok((i2, v.get_first(), e)),
            Err(e) => Err(e),
        };
        proof {
            assert(self.a.yields(i@, oa) && first_res_via(oa, outcome(r)));
        }
        r
    }
}

/// Matchers of tuples, of which the first component can be asked for.
pub trait PFirster: Sized {
    /// The matcher that hands back the first component of this one's value.
    fn first(self) -> (r: FirstRes<Self>)
        ensures
            r.a == self,
    ;
}

impl<'a, A> PFirster for A where A: Parser<'a>, A::Out: Firster {
    fn first(self) -> (r: FirstRes<Self>) {
        FirstRes { a: self }
    }
}

/// A tuple of which the last component can be taken.
pub trait Laster: Sized {
    /// The type of the last component.
    type Item;

    /// The last component. An implementation that does not say it leaves
    /// the component open.
    open spec fn last_of(self) -> Self::Item {
        arbitrary()
    }

    /// Takes the last component.
    fn get_last(self) -> (r: Self::Item)
        ensures
            r == self.last_of(),
    ;
}

impl<A, L> Laster for (A, L) {
    type Item = L;

    open spec fn last_of(self) -> L {
        self.1
    }

    fn get_last(self) -> (r: L) {
        self.1
    }
}

impl<A, B, L> Laster for (A, B, L) {
    type Item = L;

    open spec fn last_of(self) -> L {
        self.2
    }

    fn get_last(self) -> (r: L) {
        self.2
    }
}

impl<A, B, C, L> Laster for (A, B, C, L) {
    type Item = L;

    open spec fn last_of(self) -> L {
        self.3
    }

    fn get_last(self) -> (r: L) {
        self.3
    }
}

impl<A, B, C, D, L> Laster for (A, B, C, D, L) {
    type Item = L;

    open spec fn last_of(self) -> L {
        self.4
    }

    fn get_last(self) -> (r: L) {
        self.4
    }
}

impl<A, B, C, D, E, L> Laster for (A, B, C, D, E, L) {
    type Item = L;

    open spec fn last_of(self) -> L {
        self.5
    }

    fn get_last(self) -> (r: L) {
        self.5
    }
}

/// The matcher that matches as `a` does and hands back the last component
/// of its value.
pub struct LastRes<A> {
    pub a: A,
}

/// The matcher that matches as `a` does and hands back the last component
/// of its value.
pub fn last_res<'a, A: Parser<'a>>(a: A) -> (r: LastRes<A>)
    ensures
        r.a == a,
{
    LastRes { a }
}

/// `o` is the outcome `oa` with the last component of the value.
pub open spec fn last_res_via<R: Laster>(oa: Outcome<R>, o: Outcome<R::Item>) -> bool {
    o == oa.map(|v: R| v.last_of())
}

impl<'a, A, R, O> Parser<'a> for LastRes<A> where A: Parser<'a, Out = R>, R: Laster<Item = O> {
    type Out = O;

    open spec fn ready(&self) -> bool {
        self.a.ready()
    }

    open spec fn yields(&self, it: Cursor, o: Outcome<O>) -> bool {
        exists|oa: Outcome<R>| #[trigger] self.a.yields(it, oa) && last_res_via(oa, o)
    }

    fn parse(&self, i: &PIter<'a>) -> (r: ParseRes<'a, O>) {
        let res = self.a.parse(i);
        let ghost oa = outcome(res);
        let r = match res {
            Ok((i2, v, e)) => Ok((i2, v.get_last(), e)),
            Err(e) => Err(e),
        };
        proof {
            assert(self.a.yields(i@, oa) && last_res_via(oa, outcome(r)));
        }
        r
    }
}

/// Matchers of tuples, of which the last component can be asked for.
pub trait PLaster: Sized {
    /// The matcher that hands back the last component of this one's value.
    fn last(self) -> (r: LastRes<Self>)
        ensures
            r.a == self,
    ;
}

impl<'a, A> PLaster for A where A: Parser<'a>, A::Out: Laster {
    fn last(self) -> (r: LastRes<Self>) {
        LastRes { a: self }
    }
}

} // verus!
