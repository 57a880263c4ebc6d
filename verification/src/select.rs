//! Choosing among the values of a sequence, and choosing between two matchers.

use vstd::prelude::*;
use crate::iter::{Cursor, PIter};
use crate::parser::{Br, do_seq, outcome, seq_yields, Outcome, ParseRes, Parser};

verus! {

/// A matcher that matches as `a` does and hands back no value.
pub struct Ig<A> {
    pub a: A,
}

impl<'a, A: Parser<'a>> Parser<'a> for Ig<A> {
    type Out = ();

    open spec fn ready(&self) -> bool {
        self.a.ready()
    }

    open spec fn yields(&self, it: Cursor, o: Outcome<()>) -> bool {
        exists|oa: Outcome<A::Out>| #[trigger] self.a.yields(it, oa) && o == oa.with(())
    }

    fn parse(&self, i: &PIter<'a>) -> (r: ParseRes<'a, ()>) {
        let res = self.a.parse(i);
        let ghost oa = outcome(res);
        let r = match res {
            Ok((i2, _, e)) => Ok((i2, (), e)),
            Err(e) => Err(e),
        };
        proof {
            assert(self.a.yields(i@, oa) && outcome(r) == oa.with(()));
        }
        r
    }
}

/// `o` is the outcome `p` of `a` followed by `b`, with the value of `a` alone.
pub open spec fn first_via<'a, A: Parser<'a>, B: Parser<'a>>(
    a: &A,
    b: &B,
    it: Cursor,
    p: Outcome<(A::Out, B::Out)>,
    o: Outcome<A::Out>,
) -> bool {
    seq_yields(a, b, it, p) && o == p.map(|v: (A::Out, B::Out)| v.0)
}

/// The matcher of `a` followed by `b` that hands back the value of `a`.
pub struct First<A, B> {
    pub a: A,
    pub b: B,
}

impl<'a, A: Parser<'a>, B: Parser<'a>> Parser<'a> for First<A, B> {
    type Out = A::Out;

    open spec fn ready(&self) -> bool {
        self.a.ready() && self.b.ready()
    }

    open spec fn yields(&self, it: Cursor, o: Outcome<A::Out>) -> bool {
        exists|p: Outcome<(A::Out, B::Out)>| first_via(&self.a, &self.b, it, p, o)
    }

    fn parse(&self, i: &PIter<'a>) -> (r: ParseRes<'a, A::Out>) {
        let res = do_seq(&self.a, &self.b, i);
        let ghost p = outcome(res);
        let r = match res {
            Ok((it, (v, _), c2)) => Ok((it, v, c2)),
            Err(e) => Err(e),
        };
        proof {
            assert(first_via(&self.a, &self.b, i@, p, outcome(r)));
        }
        r
    }
}

/// The matcher of `a` followed by `b` that hands back the value of `a`.
pub fn first<'a, A, B>(a: A, b: B) -> (r: First<A, B>) where A: Parser<'a>, B: Parser<'a>
    ensures
        r.a == a,
        r.b == b,
{
    First { a, b }
}

/// `o` is the outcome `p` of `a` followed by `b`, with the value of `b` alone.
pub open spec fn last_via<'a, A: Parser<'a>, B: Parser<'a>>(
    a: &A,
    b: &B,
    it: Cursor,
    p: Outcome<(A::Out, B::Out)>,
    o: Outcome<B::Out>,
) -> bool {
    seq_yields(a, b, it, p) && o == p.map(|v: (A::Out, B::Out)| v.1)
}

/// The matcher of `a` followed by `b` that hands back the value of `b`.
pub struct Last<A, B> {
    pub a: A,
    pub b: B,
}

impl<'a, A: Parser<'a>, B: Parser<'a>> Parser<'a> for Last<A, B> {
    type Out = B::Out;

    open spec fn ready(&self) -> bool {
        self.a.ready() && self.b.ready()
    }

    open spec fn yields(&self, it: Cursor, o: Outcome<B::Out>) -> bool {
        exists|p: Outcome<(A::Out, B::Out)>| last_via(&self.a, &self.b, it, p, o)
    }

    fn parse(&self, i: &PIter<'a>) -> (r: ParseRes<'a, B::Out>) {
        let res = do_seq(&self.a, &self.b, i);
        let ghost p = outcome(res);
        let r = match res {
            Ok((it, (_, v), c2)) => Ok((it, v, c2)),
            Err(e) => Err(e),
        };
        proof {
            assert(last_via(&self.a, &self.b, i@, p, outcome(r)));
        }
        r
    }
}

/// The matcher of `a` followed by `b` that hands back the value of `b`.
pub fn last<'a, A, B>(a: A, b: B) -> (r: Last<A, B>) where A: Parser<'a>, B: Parser<'a>
    ensures
        r.a == a,
        r.b == b,
{
    Last { a, b }
}

/// `o` is the outcome `p` of `a`, `b` and `c` in sequence, with the value of
/// `b` alone.
pub open spec fn middle_via<'a, A: Parser<'a>, B: Parser<'a>, C: Parser<'a>>(
    a: &A,
    b: &B,
    c: &C,
    it: Cursor,
    p: Outcome<((A::Out, B::Out), C::Out)>,
    o: Outcome<B::Out>,
) -> bool {
    ((Br(a), Br(b)), Br(c)).yields(it, p) && o == p.map(|v: ((A::Out, B::Out), C::Out)| v.0.1)
}

/// The matcher of `a`, `b` and `c` in sequence that hands back the value of `b`.
pub struct Middle<A, B, C> {
    pub a: A,
    pub b: B,
    pub c: C,
}

impl<'a, A: Parser<'a>, B: Parser<'a>, C: Parser<'a>> Parser<'a> for Middle<A, B, C> {
    type Out = B::Out;

    open spec fn ready(&self) -> bool {
        self.a.ready() && self.b.ready() && self.c.ready()
    }

    open spec fn yields(&self, it: Cursor, o: Outcome<B::Out>) -> bool {
        exists|p: Outcome<((A::Out, B::Out), C::Out)>|
            middle_via(&self.a, &self.b, &self.c, it, p, o)
    }

    fn parse(&self, i: &PIter<'a>) -> (r: ParseRes<'a, B::Out>) {
        let inner = ((self.a.br(), self.b.br()), self.c.br());
        let res = inner.parse(i);
        let ghost p = outcome(res);
        let r = match res {
            Ok((it, ((_, v), _), c)) => Ok((it, v, c)),
            Err(e) => Err(e),
        };
        proof {
            assert(middle_via(&self.a, &self.b, &self.c, i@, p, outcome(r)));
        }
        r
    }
}

/// The matcher of `a`, `b` and `c` in sequence that hands back the value of `b`.
pub fn middle<'a, A, B, C>(a: A, b: B, c: C) -> (r: Middle<A, B, C>) where
    A: Parser<'a>,
    B: Parser<'a>,
    C: Parser<'a>,

    ensures
        r.a == a,
        r.b == b,
        r.c == c,
{
    Middle { a, b, c }
}

/// The matcher that tries `a` and, where `a` fails and allows it, `b` at the
/// same cursor.
pub fn or<'a, A, B, V>(a: A, b: B) -> (r: Or<A, B>) where
    A: Parser<'a, Out = V>,
    B: Parser<'a, Out = V>,

    ensures
        r.a == a,
        r.b == b,
{
    Or { a, b }
}

/// `o` is the outcome of the choice between `a` and `b`, where `a` had the
/// outcome `oa` and `b`, if it was tried, the outcome `ob`, both at `it`. A
/// success of `a` stands. A failure of `a` that is marked stands too, and `b`
/// is not tried. Otherwise a success of `b` stands, or its marked failure;
/// and where both failed unmarked, the failure that lies further into the
/// input, or both merged where they lie at the same place.
pub open spec fn or_via<'a, V, A: Parser<'a, Out = V>, B: Parser<'a, Out = V>>(
    a: &A,
    b: &B,
    it: Cursor,
    oa: Outcome<V>,
    ob: Outcome<V>,
    o: Outcome<V>,
) -> bool {
    &&& a.yields(it, oa)
    &&& match oa {
        Outcome::Done(..) => o == oa,
        Outcome::Failed(e) => if e.is_break {
            o == oa
        } else {
            &&& b.yields(it, ob)
            &&& match ob {
                Outcome::Done(..) => o == ob,
                Outcome::Failed(e2) => if e2.is_break {
                    o == ob
                } else {
                    o == Outcome::<V>::Failed(e.longer(e2))
                },
            }
        },
    }
}

/// The choice between two matchers of the same type of value.
pub struct Or<A, B> {
    pub a: A,
    pub b: B,
}

impl<'a, A, B, V> Parser<'a> for Or<A, B> where A: Parser<'a, Out = V>, B: Parser<'a, Out = V> {
    type Out = V;

    open spec fn ready(&self) -> bool {
        self.a.ready() && self.b.ready()
    }

    open spec fn yields(&self, it: Cursor, o: Outcome<V>) -> bool {
        exists|oa: Outcome<V>, ob: Outcome<V>| or_via(&self.a, &self.b, it, oa, ob, o)
    }

    fn parse(&self, i: &PIter<'a>) -> (r: ParseRes<'a, V>) {
        let ra = self.a.parse(i);
        let ghost oa = outcome(ra);
        match ra {
            Ok((r, v, e)) => {
                let res: ParseRes<'a, V> = Ok((r, v, e));
                proof {
                    assert(or_via(&self.a, &self.b, i@, oa, oa, outcome(res)));
                }
                res
            },
            Err(e) => {
                if e.is_break {
                    let res: ParseRes<'a, V> = Err(e);
                    proof {
                        assert(or_via(&self.a, &self.b, i@, oa, oa, outcome(res)));
                    }
                    res
                } else {
                    let rb = self.b.parse(i);
                    let ghost ob = outcome(rb);
                    let res: ParseRes<'a, V> = match rb {
                        Ok((r, v, ex)) => Ok((r, v, ex)),
                        Err(e2) => {
                            if e2.is_break {
                                Err(e2)
                            } else {
                                Err(e.longer(e2))
                            }
                        },
                    };
                    proof {
                        assert(or_via(&self.a, &self.b, i@, oa, ob, outcome(res)));
                    }
                    res
                }
            },
        }
    }
}

} // verus!
