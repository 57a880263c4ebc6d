//! Matchers that gather the texts of repeated matches into one `String`.

use vstd::prelude::*;
use vstd::string::StringExecFns;
use crate::err::ExpectedView;
use crate::iter::{lemma_reaches_same_place, lemma_reaches_self, lemma_reaches_trans, Cursor, PIter};
use crate::parser::{outcome, Outcome, ParseRes, Parser};
use crate::text::{concat, lemma_concat_push, AsText};
use crate::trace::{chain, fails, hit, lemma_chain_push, lemma_chain_start, rep_step};

verus! {

/// The matcher of one or more texts that `a` matches, up to a match of `b`.
pub fn strings_plus_until<'a, A: Parser<'a>, B: Parser<'a>>(a: A, b: B) -> (r: StringsPlusUntil<
    A,
    B,
>)
    ensures
        r.a == a,
        r.b == b,
{
    StringsPlusUntil { a, b }
}

/// The matcher of one or more texts that `a` matches, up to a match of `b`.
pub struct StringsPlusUntil<A, B> {
    pub a: A,
    pub b: B,
}

impl<'a, A: Parser<'a, Out = String>, B: Parser<'a>> Parser<'a> for StringsPlusUntil<A, B> {
    type Out = (String, B::Out);

    open spec fn ready(&self) -> bool {
        self.a.ready() && self.b.ready()
    }

    open spec fn yields(&self, it: Cursor, o: Outcome<(String, B::Out)>) -> bool {
        strings_until_yields(&self.a, &self.b, it, 1, o)
    }

    fn parse(&self, it: &PIter<'a>) -> (r: ParseRes<'a, (String, B::Out)>) {
        do_strings_until(it, &self.a, &self.b, 1)
    }
}

/// The matcher of one or more texts that `a` matches, up to a match of `b`:
/// the same matcher as `strings_plus_until` makes.
pub fn strings_star_until<'a, A: Parser<'a>, B: Parser<'a>>(a: A, b: B) -> (r: StringsPlusUntil<
    A,
    B,
>)
    ensures
        r.a == a,
        r.b == b,
{
    StringsPlusUntil { a, b }
}

/// The matcher of any number of texts that `a` matches, up to a match of `b`.
pub struct StringsStarUntil<A, B> {
    pub a: A,
    pub b: B,
}

impl<'a, A: Parser<'a, Out = String>, B: Parser<'a>> Parser<'a> for StringsStarUntil<A, B> {
    type Out = (String, B::Out);

    open spec fn ready(&self) -> bool {
        self.a.ready() && self.b.ready()
    }

    open spec fn yields(&self, it: Cursor, o: Outcome<(String, B::Out)>) -> bool {
        strings_until_yields(&self.a, &self.b, it, 0, o)
    }

    fn parse(&self, it: &PIter<'a>) -> (r: ParseRes<'a, (String, B::Out)>) {
        do_strings_until(it, &self.a, &self.b, 0)
    }
}

/// `o` is the outcome of gathering the texts that `a` matches, from `it`,
/// until `b` matches, where `curs` and `vals` are the cursors and values of
/// the matches of `a` made, `ob` is the outcome of `b` after them, and `oa`
/// that of `a` after them.
///
/// `b` is tried once `min` values are there, and has failed wherever it was
/// tried before the last cursor. Where it matches, the result is the texts
/// one after the other with the value of `b`, and the soft record of `b`.
/// Otherwise `a` has to match and to move the cursor: where it leaves the
/// cursor in place the whole fails there, and where it fails the whole fails
/// with its failure, joined with that of `b` if `b` was tried.
pub open spec fn strings_until_via<'a, A: Parser<'a>, B: Parser<'a>>(
    a: &A,
    b: &B,
    it: Cursor,
    min: usize,
    curs: Seq<Cursor>,
    vals: Seq<A::Out>,
    ob: Outcome<B::Out>,
    oa: Outcome<A::Out>,
    o: Outcome<(String, B::Out)>,
) -> bool where A::Out: AsText {
    &&& chain(rep_step(a, true), it, curs, vals)
    &&& forall|i: int| min <= i < vals.len() ==> fails(b, #[trigger] curs[i])
    &&& vals.len() >= min ==> b.yields(curs.last(), ob)
    &&& if vals.len() >= min && ob is Done {
        o matches Outcome::Done(c, r, s) && c == ob->Done_0 && r.0@ == concat(vals) && r.1
            == ob->Done_1 && s == ob->Done_2
    } else {
        &&& a.yields(curs.last(), oa)
        &&& match oa {
            Outcome::Done(c2, _, _) => c2 == curs.last() && o == Outcome::<
                (String, B::Out),
            >::Failed(curs.last().fail(ExpectedView::Str("To Consume some data"@))),
            Outcome::Failed(e) => o == Outcome::<(String, B::Out)>::Failed(
                if vals.len() >= min {
                    e.join(ob->Failed_0)
                } else {
                    e
                },
            ),
        }
    }
}

/// `o` is an outcome of gathering the texts that `a` matches, from `it`, at
/// least `min` of them, until `b` matches.
pub open spec fn strings_until_yields<'a, A: Parser<'a>, B: Parser<'a>>(
    a: &A,
    b: &B,
    it: Cursor,
    min: usize,
    o: Outcome<(String, B::Out)>,
) -> bool where A::Out: AsText {
    exists|curs: Seq<Cursor>, vals: Seq<A::Out>, ob: Outcome<B::Out>, oa: Outcome<A::Out>|
        strings_until_via(a, b, it, min, curs, vals, ob, oa, o)
}

/// Gathers the texts that `a` matches, at least `min` of them, until `b` matches.
pub fn do_strings_until<'a, A: Parser<'a, Out = C>, B: Parser<'a>, C: AsText>(
    it: &PIter<'a>,
    a: &A,
    b: &B,
    min: usize,
) -> (r: ParseRes<'a, (String, B::Out)>)
    requires
        a.ready(),
        b.ready(),
    ensures
        strings_until_yields(a, b, it@, min, outcome(r)),
        r matches Ok(t) ==> it@.reaches(t.0@),
{
    let mut res = String::new();
    let mut ri = *it;
    let mut done: usize = 0;
    let ghost mut curs: Seq<Cursor> = seq![it@];
    let ghost mut vals: Seq<C> = Seq::empty();
    proof {
        lemma_chain_start::<C>(rep_step(a, true), it@);
        lemma_reaches_self(it@);
    }
    loop
        invariant
            a.ready(),
            b.ready(),
            chain(rep_step(a, true), it@, curs, vals),
            forall|i: int| min <= i < vals.len() ==> fails(b, #[trigger] curs[i]),
            curs.last() == ri@,
            it@.reaches(ri@),
            res@ == concat(vals),
            done == vals.len(),
            done + ri@.rest.len() <= it@.rest.len(),
        decreases ri@.rest.len(),
    {
        let tried = done >= min;
        let ghost mut ob: Outcome<B::Out> = Outcome::Failed(arbitrary());
        let mut b_err = None;
        if tried {
            let rb = b.parse(&ri);
            proof {
                ob = outcome(rb);
            }
            match rb {
                Ok((nit, v, e)) => {
                    proof {
                        lemma_reaches_trans(it@, ri@, nit@);
                    }
                    let out: ParseRes<'a, (String, B::Out)> = Ok((nit, (res, v), e));
                    proof {
                        assert(strings_until_via(
                            a,
                            b,
                            it@,
                            min,
                            curs,
                            vals,
                            ob,
                            Outcome::Failed(arbitrary()),
                            outcome(out),
                        ));
                    }
                    return out;
                },
                Err(e) => {
                    proof {
                        assert(b.yields(ri@, Outcome::Failed(e@)));
                    }
                    b_err = Some(e);
                },
            }
        }
        let ra = a.parse(&ri);
        let ghost oa = outcome(ra);
        match ra {
            Ok((nit, v, _)) => {
                let (l1, c1) = nit.lc();
                let (l2, c2) = ri.lc();
                let _ = it.lc();
                proof {
                    lemma_reaches_same_place(ri@, nit@);
                    lemma_reaches_trans(it@, ri@, nit@);
                    crate::text::lemma_len_le_byte_len(it@.rest);
                }
                if l1 == l2 && c1 == c2 {
                    let out: ParseRes<'a, (String, B::Out)> = Err(ri.err_s("To Consume some data"));
                    proof {
                        assert(strings_until_via(a, b, it@, min, curs, vals, ob, oa, outcome(out)));
                    }
                    return out;
                }
                proof {
                    assert(hit(a, ri@, nit@, v));
                    lemma_chain_push(rep_step(a, true), it@, curs, vals, nit@, v);
                    lemma_concat_push(vals, v);
                    let ghost curs2 = curs.push(nit@);
                    assert forall|i: int| min <= i < vals.len() + 1 implies fails(
                        b,
                        #[trigger] curs2[i],
                    ) by {
                        if i < vals.len() {
                            assert(curs2[i] == curs[i]);
                        }
                    }
                    curs = curs2;
                    vals = vals.push(v);
                }
                res.append(v.as_text());
                ri = nit;
                done += 1;
            },
            Err(e) => {
                let out: ParseRes<'a, (String, B::Out)> = match b_err {
                    Some(berr) => Err(e.join(berr)),
                    None => Err(e),
                };
                proof {
                    assert(strings_until_via(a, b, it@, min, curs, vals, ob, oa, outcome(out)));
                }
                return out;
            },
        }
    }
}

/// The matcher of the texts that `a` matches, one after the other.
pub fn strings_plus<'a, A: Parser<'a>>(a: A) -> (r: StringsPlus<A>)
    ensures
        r.a == a,
{
    StringsPlus { a }
}

/// The matcher of the texts that `a` matches, one after the other.
pub struct StringsPlus<A> {
    pub a: A,
}

/// `o` is the outcome of gathering the texts of repeated matches of `a`,
/// from `it`, where `curs` and `vals` are the cursors and values of the
/// matches made and `ol` is the outcome of `a` after them.
///
/// Each match has moved the cursor: one that does not is a failure at that
/// cursor. Where `a` fails, the result is the texts one after the other,
/// with the failure for a soft record, if that text is not empty; else that
/// failure.
pub open spec fn strings_plus_via<'a, A: Parser<'a>>(
    a: &A,
    it: Cursor,
    curs: Seq<Cursor>,
    vals: Seq<A::Out>,
    ol: Outcome<A::Out>,
    o: Outcome<String>,
) -> bool where A::Out: AsText {
    &&& chain(rep_step(a, true), it, curs, vals)
    &&& a.yields(curs.last(), ol)
    &&& match ol {
        Outcome::Failed(e) => if concat(vals).len() > 0 {
            o matches Outcome::Done(c, r, s) && c == curs.last() && r@ == concat(vals) && s
                == Some(e)
        } else {
            o == Outcome::<String>::Failed(e)
        },
        Outcome::Done(c2, _, _) => c2 == curs.last() && o == Outcome::<String>::Failed(
            curs.last().fail(ExpectedView::Str("To Consume some data"@)),
        ),
    }
}

impl<'a, A: Parser<'a>> Parser<'a> for StringsPlus<A> where A::Out: AsText {
    type Out = String;

    open spec fn ready(&self) -> bool {
        self.a.ready()
    }

    open spec fn yields(&self, it: Cursor, o: Outcome<String>) -> bool {
        exists|curs: Seq<Cursor>, vals: Seq<A::Out>, ol: Outcome<A::Out>|
            strings_plus_via(&self.a, it, curs, vals, ol, o)
    }

    fn parse(&self, i: &PIter<'a>) -> (r: ParseRes<'a, String>) {
        let mut res = String::new();
        let mut it = *i;
        let ghost mut curs: Seq<Cursor> = seq![i@];
        let ghost mut vals: Seq<A::Out> = Seq::empty();
        proof {
            lemma_chain_start::<A::Out>(rep_step(&self.a, true), i@);
            lemma_reaches_self(i@);
        }
        loop
            invariant
                self.a.ready(),
                chain(rep_step(&self.a, true), i@, curs, vals),
                curs.last() == it@,
                i@.reaches(it@),
                res@ == concat(vals),
            decreases it@.rest.len(),
        {
            let ra = self.a.parse(&it);
            let ghost ol = outcome(ra);
            match ra {
                Ok((i2, v, _)) => {
                    let (l1, c1) = it.lc();
                    let (l2, c2) = i2.lc();
                    proof {
                        lemma_reaches_same_place(it@, i2@);
                        lemma_reaches_trans(i@, it@, i2@);
                    }
                    if l1 == l2 && c1 == c2 {
                        let out: ParseRes<'a, String> = Err(it.err_s("To Consume some data"));
                        proof {
                            assert(strings_plus_via(&self.a, i@, curs, vals, ol, outcome(out)));
                        }
                        return out;
                    }
                    proof {
                        assert(hit(&self.a, it@, i2@, v));
                        lemma_chain_push(rep_step(&self.a, true), i@, curs, vals, i2@, v);
                        lemma_concat_push(vals, v);
                        curs = curs.push(i2@);
                        vals = vals.push(v);
                    }
                    res.append(v.as_text());
                    it = i2;
                },
                Err(e) => {
                    let out: ParseRes<'a, String> = if !res.as_str().is_empty() {
                        Ok((it, res, Some(e)))
                    } else {
                        Err(e)
                    };
                    proof {
                        assert(strings_plus_via(&self.a, i@, curs, vals, ol, outcome(out)));
                    }
                    return out;
                },
            }
        }
    }
}

} // verus!
