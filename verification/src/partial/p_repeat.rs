//! Repetition that puts up with input that ends too early: the end of the
//! input ends a repetition without a failure.

use vstd::prelude::*;
use crate::err::ExpectedView;
use crate::iter::{lemma_reaches_same_place, lemma_reaches_self, lemma_reaches_trans, Cursor, PIter};
use crate::parser::{outcome, Outcome, ParseRes, Parser};
use crate::repeater::moving;
use crate::trace::{chain, hit, lemma_chain_push, lemma_chain_start, passes, rep_step, sep_step};

verus! {

/// `o` is the outcome of repeating `a` from `it`, where `curs` and `vals` are
/// the cursors and values of the matches made before the last attempt, and
/// `ol` is the outcome of that attempt.
///
/// A match that reaches the end of the input ends the repetition with all
/// the values, without a soft record. With `exact` and a count that is not
/// zero, the repetition stops as soon as `min` values are there, and
/// succeeds with them and without a soft record. Otherwise each match has to
/// move the cursor: one that does not makes the repetition fail at that
/// cursor. Where `a` fails, the repetition succeeds with the values and that
/// failure for a soft record where at least `min` are there, else fails
/// with it.
pub open spec fn p_rep_via<'a, A: Parser<'a>>(
    a: &A,
    it: Cursor,
    min: usize,
    exact: bool,
    curs: Seq<Cursor>,
    vals: Seq<A::Out>,
    ol: Outcome<A::Out>,
    o: Outcome<Vec<A::Out>>,
) -> bool {
    &&& chain(rep_step(a, moving(min, exact)), it, curs, vals)
    &&& forall|i: int| 1 <= i < curs.len() ==> (#[trigger] curs[i]).rest.len() > 0
    &&& !moving(min, exact) ==> vals.len() < min
    &&& a.yields(curs.last(), ol)
    &&& match ol {
        Outcome::Failed(e) => if vals.len() >= min {
            o matches Outcome::Done(c, r, s) && c == curs.last() && r@ == vals && s == Some(e)
        } else {
            o == Outcome::<Vec<A::Out>>::Failed(e)
        },
        Outcome::Done(c2, v, _) => if c2.rest.len() == 0 || (!moving(min, exact) && vals.len() + 1
            == min) {
            o matches Outcome::Done(c, r, s) && c == c2 && r@ == vals.push(v) && s is None
        } else {
            moving(min, exact) && c2 == curs.last() && o == Outcome::<Vec<A::Out>>::Failed(
                curs.last().fail(ExpectedView::Str("To Consume some data"@)),
            )
        },
    }
}

/// `o` is an outcome of repeating `a` from `it`, at least `min` times, and
/// with `exact` no more, where the end of the input ends the repetition.
pub open spec fn p_rep_yields<'a, A: Parser<'a>>(
    a: &A,
    it: Cursor,
    min: usize,
    exact: bool,
    o: Outcome<Vec<A::Out>>,
) -> bool {
    exists|curs: Seq<Cursor>, vals: Seq<A::Out>, ol: Outcome<A::Out>|
        p_rep_via(a, it, min, exact, curs, vals, ol, o)
}

/// Repeats `a` from `i`, at least `min` times, and with `exact` no more. A
/// match that reaches the end of the input ends the repetition.
pub fn do_rep<'a, A: Parser<'a>>(i: &PIter<'a>, a: &A, min: usize, exact: bool) -> (r: ParseRes<
    'a,
    Vec<A::Out>,
>)
    requires
        a.ready(),
    ensures
        p_rep_yields(a, i@, min, exact, outcome(r)),
        r matches Ok(t) ==> i@.reaches(t.0@),
{
    let mut it = *i;
    let mut res: Vec<A::Out> = Vec::new();
    let counted = exact && min > 0;
    let ghost mut curs: Seq<Cursor> = seq![i@];
    proof {
        lemma_chain_start::<A::Out>(rep_step(a, !counted), i@);
        lemma_reaches_self(i@);
    }
    loop
        invariant
            a.ready(),
            counted == !moving(min, exact),
            chain(rep_step(a, !counted), i@, curs, res@),
            forall|j: int| 1 <= j < curs.len() ==> (#[trigger] curs[j]).rest.len() > 0,
            curs.last() == it@,
            i@.reaches(it@),
            counted ==> res.len() < min,
        decreases
                (if counted {
                    min - res.len()
                } else {
                    it@.rest.len() as int
                }),
    {
        let ghost vals = res@;
        let ra = a.parse(&it);
        let ghost ol = outcome(ra);
        match ra {
            Ok((i2, v, _)) => {
                proof {
                    lemma_reaches_same_place(it@, i2@);
                    lemma_reaches_trans(i@, it@, i2@);
                    assert(hit(a, it@, i2@, v));
                }
                res.push(v);
                if i2.eoi() {
                    let r: ParseRes<'a, Vec<A::Out>> = Ok((i2, res, None));
                    proof {
                        assert(p_rep_via(a, i@, min, exact, curs, vals, ol, outcome(r)));
                    }
                    return r;
                }
                let (l1, c1) = it.lc();
                let (l2, c2) = i2.lc();
                if !counted && l1 == l2 && c1 == c2 {
                    let r: ParseRes<'a, Vec<A::Out>> = Err(it.err_s("To Consume some data"));
                    proof {
                        assert(p_rep_via(a, i@, min, exact, curs, vals, ol, outcome(r)));
                    }
                    return r;
                }
                if counted && res.len() == min {
                    let r: ParseRes<'a, Vec<A::Out>> = Ok((i2, res, None));
                    proof {
                        assert(p_rep_via(a, i@, min, exact, curs, vals, ol, outcome(r)));
                    }
                    return r;
                }
                proof {
                    let v = res@.last();
                    lemma_chain_push(rep_step(a, !counted), i@, curs, vals, i2@, v);
                    assert(res@ =~= vals.push(v));
                    let ghost curs2 = curs.push(i2@);
                    assert forall|j: int| 1 <= j < curs2.len() implies (#[trigger] curs2[j]).rest.len()
                        > 0 by {
                        if j < curs.len() {
                            assert(curs2[j] == curs[j]);
                        }
                    }
                    curs = curs2;
                }
                it = i2;
            },
            Err(e) => {
                let r: ParseRes<'a, Vec<A::Out>> = if res.len() >= min {
                    Ok((it, res, Some(e)))
                } else {
                    Err(e)
                };
                proof {
                    assert(p_rep_via(a, i@, min, exact, curs, vals, ol, outcome(r)));
                }
                return r;
            },
        }
    }
}

/// The matcher of exactly `n` matches of `a`, or as many as the input has.
#[derive(Clone)]
pub struct PExact<A> {
    pub n: usize,
    pub a: A,
}

impl<'a, A: Parser<'a>> Parser<'a> for PExact<A> {
    type Out = Vec<A::Out>;

    open spec fn ready(&self) -> bool {
        self.a.ready()
    }

    open spec fn yields(&self, it: Cursor, o: Outcome<Vec<A::Out>>) -> bool {
        p_rep_yields(&self.a, it, self.n, true, o)
    }

    fn parse(&self, it: &PIter<'a>) -> (r: ParseRes<'a, Vec<A::Out>>) {
        do_rep(it, &self.a, self.n, true)
    }
}

/// The matcher of exactly `n` matches of `a`, or as many as the input has.
pub fn p_exact<'a, A: Parser<'a>>(a: A, n: usize) -> (r: PExact<A>)
    ensures
        r.a == a,
        r.n == n,
{
    PExact { a, n }
}

/// The matcher of any number of matches of `a`, up to the end of the input.
#[derive(Clone)]
pub struct PStar<A>(pub A);

impl<'a, A: Parser<'a>> Parser<'a> for PStar<A> {
    type Out = Vec<A::Out>;

    open spec fn ready(&self) -> bool {
        self.0.ready()
    }

    open spec fn yields(&self, it: Cursor, o: Outcome<Vec<A::Out>>) -> bool {
        p_rep_yields(&self.0, it, 0, false, o)
    }

    fn parse(&self, i: &PIter<'a>) -> (r: ParseRes<'a, Vec<A::Out>>) {
        do_rep(i, &self.0, 0, false)
    }
}

/// The matcher of any number of matches of `a`, up to the end of the input.
pub fn p_star<'a, A: Parser<'a>>(a: A) -> (r: PStar<A>)
    ensures
        r.0 == a,
{
    PStar(a)
}

/// The matcher of one or more matches of `a`, up to the end of the input.
#[derive(Clone)]
pub struct PPlus<A>(pub A);

impl<'a, A: Parser<'a>> Parser<'a> for PPlus<A> {
    type Out = Vec<A::Out>;

    open spec fn ready(&self) -> bool {
        self.0.ready()
    }

    open spec fn yields(&self, it: Cursor, o: Outcome<Vec<A::Out>>) -> bool {
        p_rep_yields(&self.0, it, 1, false, o)
    }

    fn parse(&self, i: &PIter<'a>) -> (r: ParseRes<'a, Vec<A::Out>>) {
        do_rep(i, &self.0, 1, false)
    }
}

/// The matcher of one or more matches of `a`, up to the end of the input.
pub fn p_plus<'a, A: Parser<'a>>(a: A) -> (r: PPlus<A>)
    ensures
        r.0 == a,
{
    PPlus(a)
}

/// `o` is the outcome of repeating `a` with `b` between the matches, from
/// `it`, where `curs` and `vals` are the cursors and values of the rounds
/// made, each a match of `a` and one of `b`, `oa` is the outcome of `a`
/// after them and `ob` that of `b` after it.
///
/// A failure at the end of the input, of `a` or of `b`, ends the repetition
/// with the values so far, without a soft record. Where `a` fails before
/// that, the repetition succeeds with the values so far if there are none
/// and none is asked for, with the failure for a soft record, or if there
/// are `min` and the count is `exact`; else it fails with that failure.
/// Where `b` fails after `a`, the repetition succeeds with the values and
/// the failure of `b` for a soft record if at least `min` are there, else
/// fails with it. A round that leaves the cursor where it was makes the
/// repetition fail at that cursor.
pub open spec fn p_sep_via<'a, A: Parser<'a>, B: Parser<'a>>(
    a: &A,
    b: &B,
    it: Cursor,
    min: usize,
    exact: bool,
    curs: Seq<Cursor>,
    vals: Seq<A::Out>,
    oa: Outcome<A::Out>,
    ob: Outcome<B::Out>,
    o: Outcome<Vec<A::Out>>,
) -> bool {
    &&& chain(sep_step(a, b), it, curs, vals)
    &&& a.yields(curs.last(), oa)
    &&& match oa {
        Outcome::Failed(e) => if curs.last().rest.len() == 0 {
            o matches Outcome::Done(c, r, s) && c == curs.last() && r@ == vals && s is None
        } else if vals.len() == 0 && min == 0 {
            o matches Outcome::Done(c, r, s) && c == curs.last() && r@ == vals && s == Some(e)
        } else if vals.len() == min && exact {
            o matches Outcome::Done(c, r, s) && c == curs.last() && r@ == vals && s is None
        } else {
            o == Outcome::<Vec<A::Out>>::Failed(e)
        },
        Outcome::Done(mid, v, _) => {
            &&& b.yields(mid, ob)
            &&& match ob {
                Outcome::Failed(e) => if mid.rest.len() == 0 {
                    o matches Outcome::Done(c, r, s) && c == mid && r@ == vals.push(v) && s is None
                } else if vals.len() + 1 < min {
                    o == Outcome::<Vec<A::Out>>::Failed(e)
                } else {
                    o matches Outcome::Done(c, r, s) && c == mid && r@ == vals.push(v) && s
                        == Some(e)
                },
                Outcome::Done(c2, _, _) => c2 == curs.last() && o == Outcome::<
                    Vec<A::Out>,
                >::Failed(curs.last().fail(ExpectedView::Str("To Consume some data"@))),
            }
        },
    }
}

/// `o` is an outcome of repeating `a` with `b` between the matches, from
/// `it`, where the end of the input ends the repetition.
pub open spec fn p_sep_yields<'a, A: Parser<'a>, B: Parser<'a>>(
    a: &A,
    b: &B,
    it: Cursor,
    min: usize,
    exact: bool,
    o: Outcome<Vec<A::Out>>,
) -> bool {
    exists|curs: Seq<Cursor>, vals: Seq<A::Out>, oa: Outcome<A::Out>, ob: Outcome<B::Out>|
        p_sep_via(a, b, it, min, exact, curs, vals, oa, ob, o)
}

/// Repeats `a` with `b` between the matches. A failure at the end of the
/// input ends the repetition.
pub fn do_sep<'a, A: Parser<'a>, B: Parser<'a>>(
    i: &PIter<'a>,
    a: &A,
    b: &B,
    min: usize,
    exact: bool,
) -> (r: ParseRes<'a, Vec<A::Out>>)
    requires
        a.ready(),
        b.ready(),
    ensures
        p_sep_yields(a, b, i@, min, exact, outcome(r)),
        r matches Ok(t) ==> i@.reaches(t.0@),
{
    let mut res: Vec<A::Out> = Vec::new();
    let mut ri = *i;
    let ghost mut curs: Seq<Cursor> = seq![i@];
    proof {
        lemma_chain_start::<A::Out>(sep_step(a, b), i@);
        lemma_reaches_self(i@);
    }
    loop
        invariant
            a.ready(),
            b.ready(),
            chain(sep_step(a, b), i@, curs, res@),
            curs.last() == ri@,
            i@.reaches(ri@),
        decreases ri@.rest.len(),
    {
        let ra = a.parse(&ri);
        let ghost oa = outcome(ra);
        match ra {
            Err(e) => {
                let r: ParseRes<'a, Vec<A::Out>> = if ri.eoi() {
                    Ok((ri, res, None))
                } else if res.len() == 0 && min == 0 {
                    Ok((ri, res, Some(e)))
                } else if res.len() == min && exact {
                    Ok((ri, res, None))
                } else {
                    Err(e)
                };
                proof {
                    assert(p_sep_via(
                        a,
                        b,
                        i@,
                        min,
                        exact,
                        curs,
                        res@,
                        oa,
                        Outcome::Failed(arbitrary()),
                        outcome(r),
                    ));
                }
                return r;
            },
            Ok((mid, v, _)) => {
                let ghost old_vals = res@;
                proof {
                    lemma_reaches_trans(i@, ri@, mid@);
                    assert(hit(a, ri@, mid@, v));
                }
                res.push(v);
                let rb = b.parse(&mid);
                let ghost ob = outcome(rb);
                match rb {
                    Err(e) => {
                        let r: ParseRes<'a, Vec<A::Out>> = if mid.eoi() {
                            Ok((mid, res, None))
                        } else if res.len() < min {
                            Err(e)
                        } else {
                            Ok((mid, res, Some(e)))
                        };
                        proof {
                            assert(p_sep_via(a, b, i@, min, exact, curs, old_vals, oa, ob, outcome(r)));
                        }
                        return r;
                    },
                    Ok((nx, _, _)) => {
                        let (l1, c1) = ri.lc();
                        let (l2, c2) = nx.lc();
                        proof {
                            lemma_reaches_trans(ri@, mid@, nx@);
                            lemma_reaches_same_place(ri@, nx@);
                            lemma_reaches_trans(i@, ri@, nx@);
                        }
                        if l1 == l2 && c1 == c2 {
                            let r: ParseRes<'a, Vec<A::Out>> = Err(
                                ri.err_s("To Consume some data"),
                            );
                            proof {
                                assert(p_sep_via(
                                    a,
                                    b,
                                    i@,
                                    min,
                                    exact,
                                    curs,
                                    old_vals,
                                    oa,
                                    ob,
                                    outcome(r),
                                ));
                            }
                            return r;
                        }
                        proof {
                            let v = res@.last();
                            assert(passes(b, mid@, nx@));
                            assert(sep_step(a, b)(ri@, nx@, v));
                            lemma_chain_push(sep_step(a, b), i@, curs, old_vals, nx@, v);
                            assert(res@ =~= old_vals.push(v));
                            curs = curs.push(nx@);
                        }
                        ri = nx;
                    },
                }
            },
        }
    }
}

/// The matcher of any number of matches of `a` with `b` between them, up to
/// the end of the input.
#[derive(Clone)]
pub struct PSepStar<A, B> {
    pub a: A,
    pub b: B,
}

impl<'a, A, B> Parser<'a> for PSepStar<A, B> where A: Parser<'a>, B: Parser<'a> {
    type Out = Vec<A::Out>;

    open spec fn ready(&self) -> bool {
        self.a.ready() && self.b.ready()
    }

    open spec fn yields(&self, it: Cursor, o: Outcome<Vec<A::Out>>) -> bool {
        p_sep_yields(&self.a, &self.b, it, 0, false, o)
    }

    fn parse(&self, it: &PIter<'a>) -> (r: ParseRes<'a, Vec<A::Out>>) {
        do_sep(it, &self.a, &self.b, 0, false)
    }
}

/// The matcher of any number of matches of `a` with `b` between them, up to
/// the end of the input.
pub fn p_sep_star<'a, A: Parser<'a>, B: Parser<'a>>(a: A, b: B) -> (r: PSepStar<A, B>)
    ensures
        r.a == a,
        r.b == b,
{
    PSepStar { a, b }
}

/// The matcher of one or more matches of `a` with `b` between them, up to
/// the end of the input.
pub fn p_sep_plus<'a, A: Parser<'a>, B: Parser<'a>>(a: A, b: B) -> (r: PSepPlus<A, B>)
    ensures
        r.a == a,
        r.b == b,
{
    PSepPlus { a, b }
}

/// The matcher of one or more matches of `a` with `b` between them, up to
/// the end of the input.
#[derive(Clone)]
pub struct PSepPlus<A, B> {
    pub a: A,
    pub b: B,
}

impl<'a, A, B> Parser<'a> for PSepPlus<A, B> where A: Parser<'a>, B: Parser<'a> {
    type Out = Vec<A::Out>;

    open spec fn ready(&self) -> bool {
        self.a.ready() && self.b.ready()
    }

    open spec fn yields(&self, it: Cursor, o: Outcome<Vec<A::Out>>) -> bool {
        p_sep_yields(&self.a, &self.b, it, 1, false, o)
    }

    fn parse(&self, it: &PIter<'a>) -> (r: ParseRes<'a, Vec<A::Out>>) {
        do_sep(it, &self.a, &self.b, 1, false)
    }
}

} // verus!
