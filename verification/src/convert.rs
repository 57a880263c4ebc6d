//! Matchers that change the value of another matcher.

use vstd::prelude::*;
use vstd::pervasive::cloned;
use crate::err::Expected;
use crate::iter::{Cursor, PIter};
use crate::parser::{outcome, Outcome, ParseRes, Parser};

verus! {

/// The matcher that matches as `a` does and hands back a copy of `v`.
pub fn asv<'a, A: Parser<'a>, V: Clone>(a: A, v: V) -> (r: Asv<A, V>)
    ensures
        r.a == a,
        r.v == v,
{
    Asv { a, v }
}

/// The matcher that matches as `a` does and hands back a copy of `v`.
pub struct Asv<A, V: Clone> {
    pub a: A,
    pub v: V,
}

/// `o` is the outcome `oa` with a copy of `v` for its value.
pub open spec fn asv_via<A, V: Clone>(v: V, oa: Outcome<A>, o: Outcome<V>) -> bool {
    match oa {
        Outcome::Done(c, _, s) => o matches Outcome::Done(c2, w, s2) && c2 == c && s2 == s
            && cloned(v, w),
        Outcome::Failed(e) => o == Outcome::<V>::Failed(e),
    }
}

impl<'a, A: Parser<'a>, V: Clone> Parser<'a> for Asv<A, V> {
    type Out = V;

    open spec fn ready(&self) -> bool {
        self.a.ready()
    }

    open spec fn yields(&self, it: Cursor, o: Outcome<V>) -> bool {
        exists|oa: Outcome<A::Out>| #[trigger] self.a.yields(it, oa) && asv_via(self.v, oa, o)
    }

    fn parse(&self, i: &PIter<'a>) -> (r: ParseRes<'a, V>) {
        let res = self.a.parse(i);
        let ghost oa = outcome(res);
        let r = match res {
            Ok((i2, _, e)) => Ok((i2, self.v.clone(), e)),
            Err(e) => Err(e),
        };
        proof {
            assert(self.a.yields(i@, oa) && asv_via(self.v, oa, outcome(r)));
        }
        r
    }
}

/// The matcher that matches as `a` does and hands back `f` of its value.
pub fn map<'a, A: Parser<'a>, F: Fn(A::Out) -> V, V>(a: A, f: F) -> (r: Mapped<A, F>)
    ensures
        r.a == a,
        r.f == f,
{
    Mapped { a, f }
}

/// The matcher that matches as `a` does and hands back `f` of its value.
#[derive(Clone)]
pub struct Mapped<A, F> {
    pub a: A,
    pub f: F,
}

/// `o` is the outcome `oa` with a value that `f` gives for its value.
pub open spec fn map_via<A, B, F: Fn(A) -> B>(f: F, oa: Outcome<A>, o: Outcome<B>) -> bool {
    match oa {
        Outcome::Done(c, v, s) => o matches Outcome::Done(c2, w, s2) && c2 == c && s2 == s
            && call_ensures(f, (v,), w),
        Outcome::Failed(e) => o == Outcome::<B>::Failed(e),
    }
}

impl<'a, A: Parser<'a>, B, F: Fn(A::Out) -> B> Parser<'a> for Mapped<A, F> {
    type Out = B;

    open spec fn ready(&self) -> bool {
        self.a.ready() && forall|v: A::Out| call_requires(self.f, (v,))
    }

    open spec fn yields(&self, it: Cursor, o: Outcome<B>) -> bool {
        exists|oa: Outcome<A::Out>| #[trigger] self.a.yields(it, oa) && map_via(self.f, oa, o)
    }

    fn parse(&self, i: &PIter<'a>) -> (r: ParseRes<'a, B>) {
        let res = self.a.parse(i);
        let ghost oa = outcome(res);
        let r = match res {
            Ok((ri, v, ex)) => Ok((ri, (self.f)(v), ex)),
            Err(e) => Err(e),
        };
        proof {
            assert(self.a.yields(i@, oa) && map_via(self.f, oa, outcome(r)));
        }
        r
    }
}

/// The matcher that matches as `a` does and hands back what `f` makes of its
/// value, or fails with what `f` objects.
pub fn try_map<'a, A: Parser<'a>, F: Fn(A::Out) -> Result<V, Expected>, V>(a: A, f: F) -> (r: TryMap<
    A,
    F,
>)
    ensures
        r.a == a,
        r.f == f,
{
    TryMap { a, f }
}

/// The matcher that matches as `a` does and hands back what `f` makes of its
/// value, or fails with what `f` objects.
#[derive(Clone)]
pub struct TryMap<A, F> {
    pub a: A,
    pub f: F,
}

/// `o` is the outcome `oa` with its value replaced by the value in `res`,
/// which `f` gave for it, or the failure, after the match, for what `res`
/// objects.
pub open spec fn try_map_via<A, B, F: Fn(A) -> Result<B, Expected>>(
    f: F,
    oa: Outcome<A>,
    res: Result<B, Expected>,
    o: Outcome<B>,
) -> bool {
    match oa {
        Outcome::Done(c, v, s) => call_ensures(f, (v,), res) && match res {
            Ok(w) => o == Outcome::Done(c, w, s),
            Err(e) => o == Outcome::<B>::Failed(c.fail(e@)),
        },
        Outcome::Failed(e) => o == Outcome::<B>::Failed(e),
    }
}

impl<'a, A: Parser<'a>, B, F: Fn(A::Out) -> Result<B, Expected>> Parser<'a> for TryMap<A, F> {
    type Out = B;

    open spec fn ready(&self) -> bool {
        self.a.ready() && forall|v: A::Out| call_requires(self.f, (v,))
    }

    open spec fn yields(&self, it: Cursor, o: Outcome<B>) -> bool {
        exists|oa: Outcome<A::Out>, res: Result<B, Expected>| #[trigger]
            self.a.yields(it, oa) && #[trigger] try_map_via(self.f, oa, res, o)
    }

    fn parse(&self, i: &PIter<'a>) -> (r: ParseRes<'a, B>) {
        let ra = self.a.parse(i);
        let ghost oa = outcome(ra);
        match ra {
            Ok((ri, v, ct)) => {
                let res = (self.f)(v);
                let ghost gres = res;
                let r = match res {
                    Ok(v2) => Ok((ri, v2, ct)),
                    Err(e) => ri.err_r(e),
                };
                proof {
                    assert(self.a.yields(i@, oa) && try_map_via(self.f, oa, gres, outcome(r)));
                }
                r
            },
            Err(e) => {
                let r: ParseRes<'a, B> = Err(e);
                proof {
                    let gres: Result<B, Expected> = Err(Expected::Nil);
                    assert(self.a.yields(i@, oa) && try_map_via(self.f, oa, gres, outcome(r)));
                }
                r
            },
        }
    }
}

} // verus!
