//! Repetition: a matcher applied again and again, counted, separated, or
//! until another matcher matches.

use vstd::prelude::*;
use crate::err::{ExpectedView, PErrView};
use crate::iter::{lemma_reaches_same_place, lemma_reaches_self, lemma_reaches_trans, Cursor, PIter};
use crate::parser::{outcome, Outcome, ParseRes, Parser};
use crate::trace::{
    chain, fails, hit, lemma_chain_push, lemma_chain_start, passes, rep_step, sep_step,
    sep_until_step,
};
use crate::tuple::{first_res, FirstRes};

verus! {

/// Whether a repetition asks each match to move the cursor: it does unless
/// it counts up to an exact number that is not zero.
pub open spec fn moving(min: usize, exact: bool) -> bool {
    !exact || min == 0
}

/// `o` is the outcome of repeating `a` from `it`, where `curs` and `vals` are
/// the cursors and values of the matches made and `ol` is the outcome of `a`
/// after them.
///
/// With `exact` and a count that is not zero, the repetition stops as soon as
/// `min` values are there, and succeeds with them and without a soft record.
/// Otherwise each match has to move the cursor: one that does not makes the
/// repetition fail at that cursor. The repetition ends where `a` fails: with
/// the values and that failure for a soft record where at least `min` are
/// there, else with that failure.
pub open spec fn rep_via<'a, A: Parser<'a>>(
    a: &A,
    it: Cursor,
    min: usize,
    exact: bool,
    curs: Seq<Cursor>,
    vals: Seq<A::Out>,
    ol: Outcome<A::Out>,
    o: Outcome<Vec<A::Out>>,
) -> bool {
    &&& chain(rep_step(a, moving(min, exact)), it, curs, vals)
    &&& !moving(min, exact) ==> vals.len() <= min
    &&& if !moving(min, exact) && vals.len() == min {
        o matches Outcome::Done(c, r, s) && c == curs.last() && r@ == vals && s is None
    } else {
        &&& a.yields(curs.last(), ol)
        &&& match ol {
            Outcome::Failed(e) => if vals.len() >= min {
                o matches Outcome::Done(c, r, s) && c == curs.last() && r@ == vals && s == Some(e)
            } else {
                o == Outcome::<Vec<A::Out>>::Failed(e)
            },
            Outcome::Done(c2, _, _) => moving(min, exact) && c2 == curs.last() && o == Outcome::<
                Vec<A::Out>,
            >::Failed(curs.last().fail(ExpectedView::Str("To Consume some data"@))),
        }
    }
}

/// `o` is an outcome of repeating `a` from `it`, at least `min` times, and
/// with `exact` no more.
pub open spec fn rep_yields<'a, A: Parser<'a>>(
    a: &A,
    it: Cursor,
    min: usize,
    exact: bool,
    o: Outcome<Vec<A::Out>>,
) -> bool {
    exists|curs: Seq<Cursor>, vals: Seq<A::Out>, ol: Outcome<A::Out>|
        rep_via(a, it, min, exact, curs, vals, ol, o)
}

/// Repeats `a` from `i`, at least `min` times, and with `exact` no more.
pub fn do_rep<'a, A: Parser<'a>>(i: &PIter<'a>, a: &A, min: usize, exact: bool) -> (r: ParseRes<
    'a,
    Vec<A::Out>,
>)
    requires
        a.ready(),
    ensures
        rep_yields(a, i@, min, exact, outcome(r)),
        r matches Ok(t) ==> i@.reaches(t.0@),
{
    let mut it = *i;
    let mut res: Vec<A::Out> = Vec::new();
    let counted = exact && min > 0;
    let ghost mut curs: Seq<Cursor> = seq![i@];
    proof {
        lemma_chain_start::<A::Out>(rep_step(a, !counted), i@);
        lemma_reaches_self(i@);
    }
    loop
        invariant
            a.ready(),
            counted == !moving(min, exact),
            chain(rep_step(a, !counted), i@, curs, res@),
            curs.last() == it@,
            i@.reaches(it@),
            counted ==> res.len() < min,
        decreases
                (if counted {
                    min - res.len()
                } else {
                    it@.rest.len() as int
                }),
    {
        let ghost vals = res@;
        let ra = a.parse(&it);
        let ghost ol = outcome(ra);
        match ra {
            Ok((i2, v, _)) => {
                let (l1, c1) = it.lc();
                let (l2, c2) = i2.lc();
                proof {
                    lemma_reaches_same_place(it@, i2@);
                    lemma_reaches_trans(i@, it@, i2@);
                    assert(hit(a, it@, i2@, v));
                }
                res.push(v);
                if !counted && l1 == l2 && c1 == c2 {
                    let r: ParseRes<'a, Vec<A::Out>> = Err(it.err_s("To Consume some data"));
                    proof {
                        assert(rep_via(a, i@, min, exact, curs, vals, ol, outcome(r)));
                    }
                    return r;
                }
                proof {
                    let v = res@.last();
                    lemma_chain_push(rep_step(a, !counted), i@, curs, vals, i2@, v);
                    assert(res@ =~= vals.push(v));
                    curs = curs.push(i2@);
                }
                if counted && res.len() == min {
                    let r: ParseRes<'a, Vec<A::Out>> = Ok((i2, res, None));
                    proof {
                        assert(rep_via(
                            a,
                            i@,
                            min,
                            exact,
                            curs,
                            res@,
                            Outcome::Failed(arbitrary()),
                            outcome(r),
                        ));
                    }
                    return r;
                }
                it = i2;
            },
            Err(e) => {
                let r: ParseRes<'a, Vec<A::Out>> = if res.len() >= min {
                    Ok((it, res, Some(e)))
                } else {
                    Err(e)
                };
                proof {
                    assert(rep_via(a, i@, min, exact, curs, vals, ol, outcome(r)));
                }
                return r;
            },
        }
    }
}

/// The matcher of exactly `n` matches of `a`.
#[derive(Clone)]
pub struct Exact<A> {
    pub n: usize,
    pub a: A,
}

impl<'a, A: Parser<'a>> Parser<'a> for Exact<A> {
    type Out = Vec<A::Out>;

    open spec fn ready(&self) -> bool {
        self.a.ready()
    }

    open spec fn yields(&self, it: Cursor, o: Outcome<Vec<A::Out>>) -> bool {
        rep_yields(&self.a, it, self.n, true, o)
    }

    fn parse(&self, it: &PIter<'a>) -> (r: ParseRes<'a, Vec<A::Out>>) {
        do_rep(it, &self.a, self.n, true)
    }
}

/// The matcher of exactly `n` matches of `a`.
pub fn exact<'a, A: Parser<'a>>(a: A, n: usize) -> (r: Exact<A>)
    ensures
        r.a == a,
        r.n == n,
{
    Exact { a, n }
}

/// The matcher of any number of matches of `a`.
#[derive(Clone)]
pub struct RepStar<A> {
    pub a: A,
}

impl<'a, A: Parser<'a>> Parser<'a> for RepStar<A> {
    type Out = Vec<A::Out>;

    open spec fn ready(&self) -> bool {
        self.a.ready()
    }

    open spec fn yields(&self, it: Cursor, o: Outcome<Vec<A::Out>>) -> bool {
        rep_yields(&self.a, it, 0, false, o)
    }

    fn parse(&self, it: &PIter<'a>) -> (r: ParseRes<'a, Vec<A::Out>>) {
        do_rep(it, &self.a, 0, false)
    }
}

/// The matcher of any number of matches of `a`.
pub fn star<'a, A: Parser<'a>>(a: A) -> (r: RepStar<A>)
    ensures
        r.a == a,
{
    RepStar { a }
}

/// The matcher of one or more matches of `a`.
#[derive(Clone)]
pub struct RepPlus<A> {
    pub a: A,
}

impl<'a, A: Parser<'a>> Parser<'a> for RepPlus<A> {
    type Out = Vec<A::Out>;

    open spec fn ready(&self) -> bool {
        self.a.ready()
    }

    open spec fn yields(&self, it: Cursor, o: Outcome<Vec<A::Out>>) -> bool {
        rep_yields(&self.a, it, 1, false, o)
    }

    fn parse(&self, it: &PIter<'a>) -> (r: ParseRes<'a, Vec<A::Out>>) {
        do_rep(it, &self.a, 1, false)
    }
}

/// The matcher of one or more matches of `a`.
pub fn plus<'a, A: Parser<'a>>(a: A) -> (r: RepPlus<A>)
    ensures
        r.a == a,
{
    RepPlus { a }
}

/// `o` is the outcome of repeating `a` with `b` between the matches, from
/// `it`, where `curs` and `vals` are the cursors and values of the rounds
/// made, each a match of `a` and one of `b`, `oa` is the outcome of `a`
/// after them and `ob` that of `b` after it.
///
/// Where `a` fails, the repetition succeeds with the values so far if there
/// are none and none is asked for, with the failure for a soft record, or if
/// there are `min` and the count is `exact`; else it fails with that failure.
/// Where `b` fails after `a`, the repetition succeeds with the values and the
/// failure of `b` for a soft record if at least `min` are there, else fails
/// with it. A round that leaves the cursor where it was makes the
/// repetition fail at that cursor.
pub open spec fn sep_via<'a, A: Parser<'a>, B: Parser<'a>>(
    a: &A,
    b: &B,
    it: Cursor,
    min: usize,
    exact: bool,
    curs: Seq<Cursor>,
    vals: Seq<A::Out>,
    oa: Outcome<A::Out>,
    ob: Outcome<B::Out>,
    o: Outcome<Vec<A::Out>>,
) -> bool {
    &&& chain(sep_step(a, b), it, curs, vals)
    &&& a.yields(curs.last(), oa)
    &&& match oa {
        Outcome::Failed(e) => if vals.len() == 0 && min == 0 {
            o matches Outcome::Done(c, r, s) && c == curs.last() && r@ == vals && s == Some(e)
        } else if vals.len() == min && exact {
            o matches Outcome::Done(c, r, s) && c == curs.last() && r@ == vals && s is None
        } else {
            o == Outcome::<Vec<A::Out>>::Failed(e)
        },
        Outcome::Done(mid, v, _) => {
            &&& b.yields(mid, ob)
            &&& match ob {
                Outcome::Failed(e) => if vals.len() + 1 < min {
                    o == Outcome::<Vec<A::Out>>::Failed(e)
                } else {
                    o matches Outcome::Done(c, r, s) && c == mid && r@ == vals.push(v) && s
                        == Some(e)
                },
                Outcome::Done(c2, _, _) => c2 == curs.last() && o == Outcome::<
                    Vec<A::Out>,
                >::Failed(curs.last().fail(ExpectedView::Str("To Consume some data"@))),
            }
        },
    }
}

/// `o` is an outcome of repeating `a` with `b` between the matches, from `it`.
pub open spec fn sep_yields<'a, A: Parser<'a>, B: Parser<'a>>(
    a: &A,
    b: &B,
    it: Cursor,
    min: usize,
    exact: bool,
    o: Outcome<Vec<A::Out>>,
) -> bool {
    exists|curs: Seq<Cursor>, vals: Seq<A::Out>, oa: Outcome<A::Out>, ob: Outcome<B::Out>|
        sep_via(a, b, it, min, exact, curs, vals, oa, ob, o)
}

/// Repeats `a` with `b` between the matches.
pub fn do_sep<'a, A: Parser<'a>, B: Parser<'a>>(
    i: &PIter<'a>,
    a: &A,
    b: &B,
    min: usize,
    exact: bool,
) -> (r: ParseRes<'a, Vec<A::Out>>)
    requires
        a.ready(),
        b.ready(),
    ensures
        sep_yields(a, b, i@, min, exact, outcome(r)),
        r matches Ok(t) ==> i@.reaches(t.0@),
{
    let mut res: Vec<A::Out> = Vec::new();
    let mut ri = *i;
    let ghost mut curs: Seq<Cursor> = seq![i@];
    proof {
        lemma_chain_start::<A::Out>(sep_step(a, b), i@);
        lemma_reaches_self(i@);
    }
    loop
        invariant
            a.ready(),
            b.ready(),
            chain(sep_step(a, b), i@, curs, res@),
            curs.last() == ri@,
            i@.reaches(ri@),
        decreases ri@.rest.len(),
    {
        let ra = a.parse(&ri);
        let ghost oa = outcome(ra);
        match ra {
            Err(e) => {
                let r: ParseRes<'a, Vec<A::Out>> = if res.len() == 0 && min == 0 {
                    Ok((ri, res, Some(e)))
                } else if res.len() == min && exact {
                    Ok((ri, res, None))
                } else {
                    Err(e)
                };
                proof {
                    assert(sep_via(
                        a,
                        b,
                        i@,
                        min,
                        exact,
                        curs,
                        res@,
                        oa,
                        Outcome::Failed(arbitrary()),
                        outcome(r),
                    ));
                }
                return r;
            },
            Ok((mid, v, _)) => {
                let ghost old_vals = res@;
                proof {
                    lemma_reaches_trans(i@, ri@, mid@);
                    assert(hit(a, ri@, mid@, v));
                }
                res.push(v);
                let rb = b.parse(&mid);
                let ghost ob = outcome(rb);
                match rb {
                    Err(e) => {
                        let r: ParseRes<'a, Vec<A::Out>> = if res.len() < min {
                            Err(e)
                        } else {
                            Ok((mid, res, Some(e)))
                        };
                        proof {
                            assert(sep_via(a, b, i@, min, exact, curs, old_vals, oa, ob, outcome(r)));
                        }
                        return r;
                    },
                    Ok((nx, _, _)) => {
                        let (l1, c1) = ri.lc();
                        let (l2, c2) = nx.lc();
                        proof {
                            lemma_reaches_trans(ri@, mid@, nx@);
                            lemma_reaches_same_place(ri@, nx@);
                            lemma_reaches_trans(i@, ri@, nx@);
                        }
                        if l1 == l2 && c1 == c2 {
                            let r: ParseRes<'a, Vec<A::Out>> = Err(
                                ri.err_s("To Consume some data"),
                            );
                            proof {
                                assert(sep_via(
                                    a,
                                    b,
                                    i@,
                                    min,
                                    exact,
                                    curs,
                                    old_vals,
                                    oa,
                                    ob,
                                    outcome(r),
                                ));
                            }
                            return r;
                        }
                        proof {
                            let v = res@.last();
                            assert(passes(b, mid@, nx@));
                            assert(sep_step(a, b)(ri@, nx@, v));
                            lemma_chain_push(sep_step(a, b), i@, curs, old_vals, nx@, v);
                            assert(res@ =~= old_vals.push(v));
                            curs = curs.push(nx@);
                        }
                        ri = nx;
                    },
                }
            },
        }
    }
}

/// The matcher of any number of matches of `a` with `b` between them.
#[derive(Clone)]
pub struct SepStar<A, B> {
    pub a: A,
    pub b: B,
}

impl<'a, A, B> Parser<'a> for SepStar<A, B> where A: Parser<'a>, B: Parser<'a> {
    type Out = Vec<A::Out>;

    open spec fn ready(&self) -> bool {
        self.a.ready() && self.b.ready()
    }

    open spec fn yields(&self, it: Cursor, o: Outcome<Vec<A::Out>>) -> bool {
        sep_yields(&self.a, &self.b, it, 0, false, o)
    }

    fn parse(&self, it: &PIter<'a>) -> (r: ParseRes<'a, Vec<A::Out>>) {
        do_sep(it, &self.a, &self.b, 0, false)
    }
}

/// The matcher of any number of matches of `a` with `b` between them.
pub fn sep_star<'a, A: Parser<'a>, B: Parser<'a>>(a: A, b: B) -> (r: SepStar<A, B>)
    ensures
        r.a == a,
        r.b == b,
{
    SepStar { a, b }
}

/// The matcher of one or more matches of `a` with `b` between them.
pub fn sep_plus<'a, A: Parser<'a>, B: Parser<'a>>(a: A, b: B) -> (r: SepPlus<A, B>)
    ensures
        r.a == a,
        r.b == b,
{
    SepPlus { a, b }
}

/// The matcher of one or more matches of `a` with `b` between them.
#[derive(Clone)]
pub struct SepPlus<A, B> {
    pub a: A,
    pub b: B,
}

impl<'a, A, B> Parser<'a> for SepPlus<A, B> where A: Parser<'a>, B: Parser<'a> {
    type Out = Vec<A::Out>;

    open spec fn ready(&self) -> bool {
        self.a.ready() && self.b.ready()
    }

    open spec fn yields(&self, it: Cursor, o: Outcome<Vec<A::Out>>) -> bool {
        sep_yields(&self.a, &self.b, it, 1, false, o)
    }

    fn parse(&self, it: &PIter<'a>) -> (r: ParseRes<'a, Vec<A::Out>>) {
        do_sep(it, &self.a, &self.b, 1, false)
    }
}

/// `o` is the outcome of repeating `a` from `it` until `b` matches, where
/// `curs` and `vals` are the cursors and values of the matches of `a` made,
/// `ob` is the outcome of `b` after them, and `oa` that of `a` after them.
///
/// `b` is tried once `min` values are there, and has failed wherever it was
/// tried before the last cursor. Where it matches, the repetition succeeds
/// with the values and the value of `b`, without a soft record. Otherwise `a`
/// has to match and to move the cursor: where it leaves the cursor in place
/// the repetition fails there, and where it fails the repetition fails with
/// its failure, joined with that of `b` if `b` was tried.
pub open spec fn repeat_until_via<'a, A: Parser<'a>, B: Parser<'a>>(
    a: &A,
    b: &B,
    it: Cursor,
    min: usize,
    curs: Seq<Cursor>,
    vals: Seq<A::Out>,
    ob: Outcome<B::Out>,
    oa: Outcome<A::Out>,
    o: Outcome<(Vec<A::Out>, B::Out)>,
) -> bool {
    &&& chain(rep_step(a, true), it, curs, vals)
    &&& forall|i: int| min <= i < vals.len() ==> fails(b, #[trigger] curs[i])
    &&& vals.len() >= min ==> b.yields(curs.last(), ob)
    &&& if vals.len() >= min && ob is Done {
        o matches Outcome::Done(c, r, s) && c == ob->Done_0 && r.0@ == vals && r.1 == ob->Done_1
            && s is None
    } else {
        &&& a.yields(curs.last(), oa)
        &&& match oa {
            Outcome::Done(c2, _, _) => c2 == curs.last() && o == Outcome::<
                (Vec<A::Out>, B::Out),
            >::Failed(curs.last().fail(ExpectedView::Str("To Consume some Data"@))),
            Outcome::Failed(e) => o == Outcome::<(Vec<A::Out>, B::Out)>::Failed(
                if vals.len() >= min {
                    e.join(ob->Failed_0)
                } else {
                    e
                },
            ),
        }
    }
}

/// `o` is an outcome of repeating `a` from `it`, at least `min` times, until
/// `b` matches.
pub open spec fn repeat_until_yields<'a, A: Parser<'a>, B: Parser<'a>>(
    a: &A,
    b: &B,
    it: Cursor,
    min: usize,
    o: Outcome<(Vec<A::Out>, B::Out)>,
) -> bool {
    exists|curs: Seq<Cursor>, vals: Seq<A::Out>, ob: Outcome<B::Out>, oa: Outcome<A::Out>|
        repeat_until_via(a, b, it, min, curs, vals, ob, oa, o)
}

/// Repeats `a` from `it`, at least `min` times, until `b` matches.
pub fn do_repeat_until<'a, A: Parser<'a>, B: Parser<'a>>(
    it: &PIter<'a>,
    min: usize,
    a: &A,
    b: &B,
) -> (r: ParseRes<'a, (Vec<A::Out>, B::Out)>)
    requires
        a.ready(),
        b.ready(),
    ensures
        repeat_until_yields(a, b, it@, min, outcome(r)),
        r matches Ok(t) ==> it@.reaches(t.0@),
{
    let mut ri = *it;
    let mut res: Vec<A::Out> = Vec::new();
    let ghost mut curs: Seq<Cursor> = seq![it@];
    proof {
        lemma_chain_start::<A::Out>(rep_step(a, true), it@);
        lemma_reaches_self(it@);
    }
    loop
        invariant
            a.ready(),
            b.ready(),
            chain(rep_step(a, true), it@, curs, res@),
            forall|i: int| min <= i < res@.len() ==> fails(b, #[trigger] curs[i]),
            curs.last() == ri@,
            it@.reaches(ri@),
        decreases ri@.rest.len(),
    {
        let tried = res.len() >= min;
        let ghost mut ob: Outcome<B::Out> = Outcome::Failed(arbitrary());
        let mut b_err = None;
        if tried {
            let rb = b.parse(&ri);
            proof {
                ob = outcome(rb);
            }
            match rb {
                Ok((r, v, _)) => {
                    proof {
                        lemma_reaches_trans(it@, ri@, r@);
                    }
                    let out: ParseRes<'a, (Vec<A::Out>, B::Out)> = Ok((r, (res, v), None));
                    proof {
                        assert(repeat_until_via(
                            a,
                            b,
                            it@,
                            min,
                            curs,
                            res@,
                            ob,
                            Outcome::Failed(arbitrary()),
                            outcome(out),
                        ));
                    }
                    return out;
                },
                Err(e) => {
                    proof {
                        assert(b.yields(ri@, Outcome::Failed(e@)));
                    }
                    b_err = Some(e);
                },
            }
        }
        let ra = a.parse(&ri);
        let ghost oa = outcome(ra);
        match ra {
            Ok((r, v, _)) => {
                let (l1, c1) = r.lc();
                let (l2, c2) = ri.lc();
                proof {
                    lemma_reaches_same_place(ri@, r@);
                    lemma_reaches_trans(it@, ri@, r@);
                }
                if l1 == l2 && c1 == c2 {
                    let out: ParseRes<'a, (Vec<A::Out>, B::Out)> = Err(
                        r.err_s("To Consume some Data"),
                    );
                    proof {
                        assert(repeat_until_via(a, b, it@, min, curs, res@, ob, oa, outcome(out)));
                    }
                    return out;
                }
                proof {
                    assert(hit(a, ri@, r@, v));
                    lemma_chain_push(rep_step(a, true), it@, curs, res@, r@, v);
                    let ghost curs2 = curs.push(r@);
                    assert forall|i: int| min <= i < res@.len() + 1 implies fails(
                        b,
                        #[trigger] curs2[i],
                    ) by {
                        if i < res@.len() {
                            assert(curs2[i] == curs[i]);
                        }
                    }
                    curs = curs2;
                }
                res.push(v);
                ri = r;
            },
            Err(e) => {
                let out: ParseRes<'a, (Vec<A::Out>, B::Out)> = match b_err {
                    Some(be) => Err(e.join(be)),
                    None => Err(e),
                };
                proof {
                    assert(repeat_until_via(a, b, it@, min, curs, res@, ob, oa, outcome(out)));
                }
                return out;
            },
        }
    }
}

/// The matcher of any number of matches of `a`, up to a match of `b`.
pub struct StarUntil<A, B> {
    pub a: A,
    pub b: B,
}

impl<'a, A: Parser<'a>, B: Parser<'a>> Parser<'a> for StarUntil<A, B> {
    type Out = (Vec<A::Out>, B::Out);

    open spec fn ready(&self) -> bool {
        self.a.ready() && self.b.ready()
    }

    open spec fn yields(&self, it: Cursor, o: Outcome<(Vec<A::Out>, B::Out)>) -> bool {
        repeat_until_yields(&self.a, &self.b, it, 0, o)
    }

    fn parse(&self, i: &PIter<'a>) -> (r: ParseRes<'a, (Vec<A::Out>, B::Out)>) {
        do_repeat_until(i, 0, &self.a, &self.b)
    }
}

/// The matcher of one or more matches of `a`, up to a match of `b`.
pub struct PlusUntil<A, B> {
    pub a: A,
    pub b: B,
}

impl<'a, A: Parser<'a>, B: Parser<'a>> Parser<'a> for PlusUntil<A, B> {
    type Out = (Vec<A::Out>, B::Out);

    open spec fn ready(&self) -> bool {
        self.a.ready() && self.b.ready()
    }

    open spec fn yields(&self, it: Cursor, o: Outcome<(Vec<A::Out>, B::Out)>) -> bool {
        repeat_until_yields(&self.a, &self.b, it, 1, o)
    }

    fn parse(&self, i: &PIter<'a>) -> (r: ParseRes<'a, (Vec<A::Out>, B::Out)>) {
        do_repeat_until(i, 1, &self.a, &self.b)
    }
}

/// The matcher of any number of matches of `a`, up to a match of `b`.
pub fn star_until<'a, A: Parser<'a>, B: Parser<'a>>(a: A, b: B) -> (r: StarUntil<A, B>)
    ensures
        r.a == a,
        r.b == b,
{
    StarUntil { a, b }
}

/// The matcher of one or more matches of `a`, up to a match of `b`.
pub fn plus_until<'a, A: Parser<'a>, B: Parser<'a>>(a: A, b: B) -> (r: PlusUntil<A, B>)
    ensures
        r.a == a,
        r.b == b,
{
    PlusUntil { a, b }
}

/// As `star_until`, handing back the values of `a` alone.
pub fn star_until_ig<'a, A: Parser<'a>, B: Parser<'a>>(a: A, b: B) -> (r: FirstRes<StarUntil<A, B>>)
    ensures
        r.a.a == a,
        r.a.b == b,
{
    first_res(star_until(a, b))
}

/// As `plus_until`, handing back the values of `a` alone.
pub fn plus_until_ig<'a, A: Parser<'a>, B: Parser<'a>>(a: A, b: B) -> (r: FirstRes<PlusUntil<A, B>>)
    ensures
        r.a.a == a,
        r.a.b == b,
{
    first_res(plus_until(a, b))
}

/// `o` is the outcome of repeating `a` with `b` between the matches, from
/// `it`, until `c` matches, where `oc0` is the outcome of `c` at `it`, `curs`
/// and `vals` are the cursors and values of the rounds made (a match of `a`,
/// a failure of `c`, a match of `b`), and `oa`, `oc` and `ob` are the
/// outcomes of `a` after them, of `c` after it, and of `b` after that.
///
/// Where `c` matches at once, or after a match of `a`, the repetition
/// succeeds with the values and the value of `c`, without a soft record. A
/// failure of `a` is the failure of the repetition; so is one of `b`, joined
/// with that of `c`. A round that leaves the cursor where it was makes the
/// repetition fail at that cursor.
pub open spec fn sep_until_via<'a, A: Parser<'a>, B: Parser<'a>, C: Parser<'a>>(
    a: &A,
    b: &B,
    c: &C,
    it: Cursor,
    oc0: Outcome<C::Out>,
    curs: Seq<Cursor>,
    vals: Seq<A::Out>,
    oa: Outcome<A::Out>,
    oc: Outcome<C::Out>,
    ob: Outcome<B::Out>,
    o: Outcome<(Vec<A::Out>, C::Out)>,
) -> bool {
    &&& c.yields(it, oc0)
    &&& match oc0 {
        Outcome::Done(t, cv, _) => o matches Outcome::Done(t2, r, s) && t2 == t && r.0@
            == Seq::<A::Out>::empty() && r.1 == cv && s is None,
        Outcome::Failed(_) => {
            &&& chain(sep_until_step(a, b, c), it, curs, vals)
            &&& a.yields(curs.last(), oa)
            &&& match oa {
                Outcome::Failed(e) => o == Outcome::<(Vec<A::Out>, C::Out)>::Failed(e),
                Outcome::Done(mid, v, _) => {
                    &&& c.yields(mid, oc)
                    &&& match oc {
                        Outcome::Done(t, cv, _) => o matches Outcome::Done(t2, r, s) && t2 == t
                            && r.0@ == vals.push(v) && r.1 == cv && s is None,
                        Outcome::Failed(ce) => {
                            &&& b.yields(mid, ob)
                            &&& match ob {
                                Outcome::Failed(e) => o == Outcome::<
                                    (Vec<A::Out>, C::Out),
                                >::Failed(e.join(ce)),
                                Outcome::Done(t, _, _) => t == curs.last() && o == Outcome::<
                                    (Vec<A::Out>, C::Out),
                                >::Failed(
                                    curs.last().fail(ExpectedView::Str("To Consume some data"@)),
                                ),
                            }
                        },
                    }
                },
            }
        },
    }
}

/// The matcher of matches of `a` with `b` between them, up to a match of `c`.
pub struct SepUntil<A, B, C> {
    pub a: A,
    pub b: B,
    pub c: C,
}

impl<'a, A, B, C> Parser<'a> for SepUntil<A, B, C> where
    A: Parser<'a>,
    B: Parser<'a>,
    C: Parser<'a>,
 {
    type Out = (Vec<A::Out>, C::Out);

    open spec fn ready(&self) -> bool {
        self.a.ready() && self.b.ready() && self.c.ready()
    }

    open spec fn yields(&self, it: Cursor, o: Outcome<(Vec<A::Out>, C::Out)>) -> bool {
        exists|
            oc0: Outcome<C::Out>,
            curs: Seq<Cursor>,
            vals: Seq<A::Out>,
            oa: Outcome<A::Out>,
            oc: Outcome<C::Out>,
            ob: Outcome<B::Out>,
        |
            sep_until_via(&self.a, &self.b, &self.c, it, oc0, curs, vals, oa, oc, ob, o)
    }

    fn parse(&self, i: &PIter<'a>) -> (r: ParseRes<'a, (Vec<A::Out>, C::Out)>) {
        let mut ri = *i;
        let mut res: Vec<A::Out> = Vec::new();
        let ghost none_a: Outcome<A::Out> = Outcome::Failed(arbitrary());
        let ghost none_b: Outcome<B::Out> = Outcome::Failed(arbitrary());
        let ghost none_c: Outcome<C::Out> = Outcome::Failed(arbitrary());
        let r0 = self.c.parse(&ri);
        let ghost oc0 = outcome(r0);
        match r0 {
            Ok((r, v, _)) => {
                let out: ParseRes<'a, (Vec<A::Out>, C::Out)> = Ok((r, (res, v), None));
                proof {
                    assert(sep_until_via(
                        &self.a,
                        &self.b,
                        &self.c,
                        i@,
                        oc0,
                        Seq::empty(),
                        Seq::empty(),
                        none_a,
                        none_c,
                        none_b,
                        outcome(out),
                    ));
                }
                return out;
            },
            Err(_) => {},
        }
        let ghost mut curs: Seq<Cursor> = seq![i@];
        proof {
            lemma_chain_start::<A::Out>(sep_until_step(&self.a, &self.b, &self.c), i@);
            lemma_reaches_self(i@);
        }
        loop
            invariant
                self.a.ready(),
                self.b.ready(),
                self.c.ready(),
                self.c.yields(i@, oc0),
                oc0 is Failed,
                chain(sep_until_step(&self.a, &self.b, &self.c), i@, curs, res@),
                curs.last() == ri@,
                i@.reaches(ri@),
            decreases ri@.rest.len(),
        {
            let ghost vals = res@;
            let ra = self.a.parse(&ri);
            let ghost oa = outcome(ra);
            let mid = match ra {
                Ok((r, v, _)) => {
                    proof {
                        assert(hit(&self.a, ri@, r@, v));
                    }
                    res.push(v);
                    r
                },
                Err(e) => {
                    let out: ParseRes<'a, (Vec<A::Out>, C::Out)> = Err(e);
                    proof {
                        assert(sep_until_via(
                            &self.a,
                            &self.b,
                            &self.c,
                            i@,
                            oc0,
                            curs,
                            vals,
                            oa,
                            none_c,
                            none_b,
                            outcome(out),
                        ));
                    }
                    return out;
                },
            };
            proof {
                lemma_reaches_trans(i@, ri@, mid@);
            }
            let rc = self.c.parse(&mid);
            let ghost oc = outcome(rc);
            let c_err = match rc {
                Ok((r, v, _)) => {
                    proof {
                        lemma_reaches_trans(i@, mid@, r@);
                    }
                    let out: ParseRes<'a, (Vec<A::Out>, C::Out)> = Ok((r, (res, v), None));
                    proof {
                        assert(sep_until_via(
                            &self.a,
                            &self.b,
                            &self.c,
                            i@,
                            oc0,
                            curs,
                            vals,
                            oa,
                            oc,
                            none_b,
                            outcome(out),
                        ));
                    }
                    return out;
                },
                Err(e) => e,
            };
            let rb = self.b.parse(&mid);
            let ghost ob = outcome(rb);
            match rb {
                Ok((r, _, _)) => {
                    let (l1, c1) = r.lc();
                    let (l2, c2) = ri.lc();
                    proof {
                        lemma_reaches_trans(ri@, mid@, r@);
                        lemma_reaches_same_place(ri@, r@);
                        lemma_reaches_trans(i@, ri@, r@);
                    }
                    if l1 == l2 && c1 == c2 {
                        let out: ParseRes<'a, (Vec<A::Out>, C::Out)> = Err(
                            ri.err_s("To Consume some data"),
                        );
                        proof {
                            assert(sep_until_via(
                                &self.a,
                                &self.b,
                                &self.c,
                                i@,
                                oc0,
                                curs,
                                vals,
                                oa,
                                oc,
                                ob,
                                outcome(out),
                            ));
                        }
                        return out;
                    }
                    proof {
                        let v = res@.last();
                        assert(fails(&self.c, mid@)) by {
                            assert(self.c.yields(mid@, Outcome::Failed(c_err@)));
                        }
                        assert(passes(&self.b, mid@, r@));
                        assert(sep_until_step(&self.a, &self.b, &self.c)(ri@, r@, v));
                        lemma_chain_push(
                            sep_until_step(&self.a, &self.b, &self.c),
                            i@,
                            curs,
                            vals,
                            r@,
                            v,
                        );
                        assert(res@ =~= vals.push(v));
                        curs = curs.push(r@);
                    }
                    ri = r;
                },
                Err(e) => {
                    let out: ParseRes<'a, (Vec<A::Out>, C::Out)> = Err(e.join(c_err));
                    proof {
                        assert(sep_until_via(
                            &self.a,
                            &self.b,
                            &self.c,
                            i@,
                            oc0,
                            curs,
                            vals,
                            oa,
                            oc,
                            ob,
                            outcome(out),
                        ));
                    }
                    return out;
                },
            }
        }
    }
}

/// The matcher of matches of `a` with `b` between them, up to a match of
/// `c`, which is handed back with the values of `a`.
pub fn sep_until<'a, A, B, C>(a: A, b: B, c: C) -> (r: SepUntil<A, B, C>) where
    A: Parser<'a>,
    B: Parser<'a>,
    C: Parser<'a>,

    ensures
        r.a == a,
        r.b == b,
        r.c == c,
{
    SepUntil { a, b, c }
}

/// As `sep_until`, handing back the values of `a` alone.
pub fn sep_until_ig<'a, A, B, C>(a: A, b: B, c: C) -> (r: FirstRes<SepUntil<A, B, C>>) where
    A: Parser<'a>,
    B: Parser<'a>,
    C: Parser<'a>,

    ensures
        r.a.a == a,
        r.a.b == b,
        r.a.c == c,
{
    first_res(sep_until(a, b, c))
}

/// `o` is the outcome of matching `a` one or more times up to a match of
/// `b`, with the outcome `o1`, and then `c` exactly as often as `a`, with the
/// outcome `o2`. The soft records are dropped.
pub open spec fn reflect_via<'a, A: Parser<'a>, B: Parser<'a>, C: Parser<'a>>(
    a: &A,
    b: &B,
    c: &C,
    it: Cursor,
    o1: Outcome<(Vec<A::Out>, B::Out)>,
    o2: Outcome<Vec<C::Out>>,
    o: Outcome<(Vec<A::Out>, B::Out, Vec<C::Out>)>,
) -> bool {
    &&& repeat_until_yields(a, b, it, 1, o1)
    &&& match o1 {
        Outcome::Failed(e) => o == Outcome::<(Vec<A::Out>, B::Out, Vec<C::Out>)>::Failed(e),
        Outcome::Done(ni, ab, _) => {
            &&& rep_yields(c, ni, ab.0.len(), true, o2)
            &&& match o2 {
                Outcome::Failed(e) => o == Outcome::<
                    (Vec<A::Out>, B::Out, Vec<C::Out>),
                >::Failed(e),
                Outcome::Done(fi, vc, _) => o == Outcome::Done(fi, (ab.0, ab.1, vc), None),
            }
        },
    }
}

/// The matcher of `a` some times, `b`, and `c` as many times as `a`.
pub struct Reflect<A, B, C> {
    pub a: A,
    pub b: B,
    pub c: C,
}

impl<'a, A, B, C> Parser<'a> for Reflect<A, B, C> where
    A: Parser<'a>,
    B: Parser<'a>,
    C: Parser<'a>,
 {
    type Out = (Vec<A::Out>, B::Out, Vec<C::Out>);

    open spec fn ready(&self) -> bool {
        self.a.ready() && self.b.ready() && self.c.ready()
    }

    open spec fn yields(&self, it: Cursor, o: Outcome<(Vec<A::Out>, B::Out, Vec<C::Out>)>) -> bool {
        exists|o1: Outcome<(Vec<A::Out>, B::Out)>, o2: Outcome<Vec<C::Out>>|
            reflect_via(&self.a, &self.b, &self.c, it, o1, o2, o)
    }

    fn parse(&self, it: &PIter<'a>) -> (r: ParseRes<'a, (Vec<A::Out>, B::Out, Vec<C::Out>)>) {
        let r1 = do_repeat_until(it, 1, &self.a, &self.b);
        let ghost o1 = outcome(r1);
        match r1 {
            Err(e) => {
                let out: ParseRes<'a, (Vec<A::Out>, B::Out, Vec<C::Out>)> = Err(e);
                proof {
                    assert(reflect_via(
                        &self.a,
                        &self.b,
                        &self.c,
                        it@,
                        o1,
                        Outcome::Failed(arbitrary()),
                        outcome(out),
                    ));
                }
                out
            },
            Ok((ni, (va, b), _)) => {
                let r2 = do_rep(&ni, &self.c, va.len(), true);
                let ghost o2 = outcome(r2);
                let out: ParseRes<'a, (Vec<A::Out>, B::Out, Vec<C::Out>)> = match r2 {
                    Err(e) => Err(e),
                    Ok((fi, vc, _)) => {
                        proof {
                            lemma_reaches_trans(it@, ni@, fi@);
                        }
                        Ok((fi, (va, b, vc), None))
                    },
                };
                proof {
                    assert(reflect_via(&self.a, &self.b, &self.c, it@, o1, o2, outcome(out)));
                }
                out
            },
        }
    }
}

/// The matcher of `a` some times, `b`, and `c` as many times as `a`: for
/// brackets that have to balance.
pub fn reflect<'a, A, B, C>(a: A, b: B, c: C) -> (r: Reflect<A, B, C>) where
    A: Parser<'a>,
    B: Parser<'a>,
    C: Parser<'a>,

    ensures
        r.a == a,
        r.b == b,
        r.c == c,
{
    Reflect { a, b, c }
}

/// A repetition without an exact count fails where it stands if the matcher
/// it repeats can only succeed without moving the cursor: it does not go
/// round for ever.
pub proof fn lemma_standstill_fails<'a, A: Parser<'a>>(
    a: &A,
    it: Cursor,
    min: usize,
    o: Outcome<Vec<A::Out>>,
)
    requires
        rep_yields(a, it, min, false, o),
        forall|c: Cursor, oa: Outcome<A::Out>| #[trigger]
            a.yields(c, oa) ==> oa is Done && oa->Done_0 == c,
    ensures
        o == Outcome::<Vec<A::Out>>::Failed(it.fail(ExpectedView::Str("To Consume some data"@))),
{
    let (curs, vals, ol) = choose|curs: Seq<Cursor>, vals: Seq<A::Out>, ol: Outcome<A::Out>|
        rep_via(a, it, min, false, curs, vals, ol, o);
    if vals.len() > 0 {
        assert(crate::trace::link(rep_step(a, moving(min, false)), curs, vals, 0));
        assert(hit(a, curs[0], curs[1], vals[0]));
        let s = choose|s: Option<PErrView>| #[trigger]
            a.yields(curs[0], Outcome::Done(curs[1], vals[0], s));
        assert(a.yields(curs[0], Outcome::Done(curs[1], vals[0], s)));
    }
}

} // verus!
