//! Matchers that make another matcher optional, wrap it, or turn it round.

use vstd::prelude::*;
use crate::err::ExpectedView;
use crate::iter::{lemma_reaches_self, Cursor, PIter};
use crate::parser::{Br, outcome, Outcome, ParseRes, Parser};

verus! {

/// The optional form of the outcome `oa`, reached from `it`: a failure
/// becomes a success without a value at `it`, with the failure for its soft
/// record.
pub open spec fn maybe_outcome<V>(it: Cursor, oa: Outcome<V>) -> Outcome<Option<V>> {
    match oa {
        Outcome::Done(c, v, s) => Outcome::Done(c, Some(v), s),
        Outcome::Failed(e) => Outcome::Done(it, None, Some(e)),
    }
}

/// The matcher that succeeds whether `p` matches or not.
#[derive(Clone)]
pub struct Maybe<A> {
    pub p: A,
}

impl<'a, A> Parser<'a> for Maybe<A> where A: Parser<'a> {
    type Out = Option<A::Out>;

    open spec fn ready(&self) -> bool {
        self.p.ready()
    }

    open spec fn yields(&self, it: Cursor, o: Outcome<Option<A::Out>>) -> bool {
        exists|oa: Outcome<A::Out>| #[trigger] self.p.yields(it, oa) && o == maybe_outcome(it, oa)
    }

    fn parse(&self, i: &PIter<'a>) -> (r: ParseRes<'a, Option<A::Out>>) {
        let res = self.p.parse(i);
        let ghost oa = outcome(res);
        let r = match res {
            Ok((ir, v, ex)) => Ok((ir, Some(v), ex)),
            Err(e) => Ok((*i, None, Some(e))),
        };
        proof {
            lemma_reaches_self(i@);
            assert(self.p.yields(i@, oa) && outcome(r) == maybe_outcome(i@, oa));
        }
        r
    }
}

/// The matcher that succeeds whether `p` matches or not, with the value of
/// `p` where it matched.
pub fn maybe<'a, P: Parser<'a>>(p: P) -> (r: Maybe<P>)
    ensures
        r.p == p,
{
    Maybe { p }
}

/// The outcome that says whether `oa`, reached from `it`, was a success.
pub open spec fn exists_outcome<V>(it: Cursor, oa: Outcome<V>) -> Outcome<bool> {
    match oa {
        Outcome::Done(c, _, s) => Outcome::Done(c, true, s),
        Outcome::Failed(e) => Outcome::Done(it, false, Some(e)),
    }
}

/// The matcher that says whether `p` matched.
pub struct Exists<P> {
    pub p: P,
}

impl<'a, P: Parser<'a>> Parser<'a> for Exists<P> {
    type Out = bool;

    open spec fn ready(&self) -> bool {
        self.p.ready()
    }

    open spec fn yields(&self, it: Cursor, o: Outcome<bool>) -> bool {
        exists|oa: Outcome<P::Out>| #[trigger] self.p.yields(it, oa) && o == exists_outcome(it, oa)
    }

    fn parse(&self, it: &PIter<'a>) -> (r: ParseRes<'a, bool>) {
        let res = self.p.parse(it);
        let ghost oa = outcome(res);
        let r = match res {
            Ok((nit, _, e)) => Ok((nit, true, e)),
            Err(e) => Ok((*it, false, Some(e))),
        };
        proof {
            lemma_reaches_self(it@);
            assert(self.p.yields(it@, oa) && outcome(r) == exists_outcome(it@, oa));
        }
        r
    }
}

/// The matcher that says whether `p` matched.
pub fn is_present<'a, P: Parser<'a>>(p: P) -> (r: Exists<P>)
    ensures
        r.p == p,
{
    Exists { p }
}

/// `o` is the outcome `p` of `a`, `b` and `a` again in sequence, with the
/// value of `b` alone.
pub open spec fn wrap_via<'a, A: Parser<'a>, B: Parser<'a>>(
    a: &A,
    b: &B,
    it: Cursor,
    p: Outcome<((A::Out, B::Out), A::Out)>,
    o: Outcome<B::Out>,
) -> bool {
    ((Br(a), Br(b)), Br(a)).yields(it, p) && o == p.map(|v: ((A::Out, B::Out), A::Out)| v.0.1)
}

/// The matcher of `b` with `a` before and after it.
#[derive(Clone)]
pub struct Wrap<A, B> {
    pub a: A,
    pub b: B,
}

impl<'a, A, B> Parser<'a> for Wrap<A, B> where A: Parser<'a>, B: Parser<'a> {
    type Out = B::Out;

    open spec fn ready(&self) -> bool {
        self.a.ready() && self.b.ready()
    }

    open spec fn yields(&self, it: Cursor, o: Outcome<B::Out>) -> bool {
        exists|p: Outcome<((A::Out, B::Out), A::Out)>| wrap_via(&self.a, &self.b, it, p, o)
    }

    fn parse(&self, i: &PIter<'a>) -> (r: ParseRes<'a, B::Out>) {
        let inner = ((self.a.br(), self.b.br()), self.a.br());
        let res = inner.parse(i);
        let ghost p = outcome(res);
        let r = match res {
            Ok((n, ((_, v), _), c3)) => Ok((n, v, c3)),
            Err(e) => Err(e),
        };
        proof {
            assert(wrap_via(&self.a, &self.b, i@, p, outcome(r)));
        }
        r
    }
}

/// The matcher of `b` with `a` before and after it.
pub fn wrap<'a, A, B>(a: A, b: B) -> (r: Wrap<A, B>) where A: Parser<'a>, B: Parser<'a>
    ensures
        r.a == a,
        r.b == b,
{
    Wrap { a, b }
}

/// The outcome turned round: a success becomes a failure at `it`, and a
/// failure a success at `it` without a value.
pub open spec fn fail_on_outcome<V>(it: Cursor, oa: Outcome<V>) -> Outcome<()> {
    match oa {
        Outcome::Done(..) => Outcome::Failed(it.fail(ExpectedView::Str("Failon Succeeded"@))),
        Outcome::Failed(_) => Outcome::Done(it, (), None),
    }
}

/// The matcher that succeeds, consuming nothing, where `p` fails.
pub struct FailOn<P> {
    pub p: P,
}

impl<'a, P: Parser<'a>> Parser<'a> for FailOn<P> {
    type Out = ();

    open spec fn ready(&self) -> bool {
        self.p.ready()
    }

    open spec fn yields(&self, it: Cursor, o: Outcome<()>) -> bool {
        exists|oa: Outcome<P::Out>| #[trigger] self.p.yields(it, oa) && o == fail_on_outcome(it, oa)
    }

    fn parse(&self, it: &PIter<'a>) -> (r: ParseRes<'a, ()>) {
        let res = self.p.parse(it);
        let ghost oa = outcome(res);
        let r = match res {
            Ok(_) => it.err_rs("Failon Succeeded"),
            Err(_) => Ok((*it, (), None)),
        };
        proof {
            lemma_reaches_self(it@);
            assert(self.p.yields(it@, oa) && outcome(r) == fail_on_outcome(it@, oa));
        }
        r
    }
}

/// The matcher that succeeds, consuming nothing, where `p` fails.
pub fn fail_on<'a, P: Parser<'a>>(p: P) -> (r: FailOn<P>)
    ensures
        r.p == p,
{
    FailOn { p }
}

/// A matcher under a name, for the one who reads a grammar: it matches as `p` does.
#[derive(PartialEq, Debug, Clone)]
pub struct PDebugger<P> {
    pub p: P,
    pub s: &'static str,
}

/// The matcher `p` under the name `s`.
pub fn debug<'a, P: Parser<'a>>(p: P, s: &'static str) -> (r: PDebugger<P>)
    ensures
        r.p == p,
        r.s == s,
{
    PDebugger { p, s }
}

impl<'a, P: Parser<'a>> Parser<'a> for PDebugger<P> {
    type Out = P::Out;

    open spec fn ready(&self) -> bool {
        self.p.ready()
    }

    open spec fn yields(&self, it: Cursor, o: Outcome<P::Out>) -> bool {
        self.p.yields(it, o)
    }

    fn parse(&self, it: &PIter<'a>) -> (r: ParseRes<'a, P::Out>) {
        self.p.parse(it)
    }
}

} // verus!
