//! Matchers for text that may end too early: a literal that the end of the
//! input may cut short, and the skipping of characters up to a match.

use vstd::prelude::*;
use crate::charbool::CharBool;
use crate::err::ExpectedView;
use crate::iter::{lemma_advance_twice, lemma_reaches_self, lemma_reaches_trans, Cursor, PIter};
use crate::parser::{outcome, Outcome, ParseRes, Parser};
use crate::partial::{is_leaf, PosTree};
use crate::text::{agree, lemma_agree};
use crate::trace::fails;

verus! {

/// The outcome of matching the literal `name` at `it`, where the end of the
/// input may cut the literal short: a success after the characters that
/// agree, if the literal or the input ends there; else a failure after the
/// first character that differs.
pub open spec fn part_outcome(name: &'static str, it: Cursor) -> Outcome<&'static str> {
    let n = agree(name@, it.rest);
    if n == name@.len() || n == it.rest.len() {
        Outcome::Done(it.advance(n), name, None)
    } else {
        Outcome::Failed(it.advance(n + 1).fail(ExpectedView::Str(name@)))
    }
}

/// The matcher of a literal that the end of the input may cut short.
pub struct S(pub &'static str);

impl<'a> Parser<'a> for S {
    type Out = &'static str;

    open spec fn ready(&self) -> bool {
        true
    }

    open spec fn yields(&self, it: Cursor, o: Outcome<&'static str>) -> bool {
        o == part_outcome(self.0, it)
    }

    fn parse(&self, it: &PIter<'a>) -> (r: ParseRes<'a, &'static str>) {
        let mut i2 = *it;
        let mut lit = PIter::new(self.0);
        let ghost mut k: nat = 0;
        proof {
            lemma_reaches_self(it@);
        }
        loop
            invariant
                k <= self.0@.len(),
                k <= it@.rest.len(),
                lit@.rest == self.0@.skip(k as int),
                i2@ == it@.advance(k),
                it@.reaches(i2@),
                i2@.rest == it@.rest.skip(k as int),
                forall|j: int| 0 <= j < k ==> self.0@[j] == it@.rest[j],
            decreases lit@.rest.len(),
        {
            match lit.next() {
                None => {
                    proof {
                        lemma_agree(self.0@, it@.rest, k);
                    }
                    return Ok((i2, self.0, None));
                },
                Some(c) => {
                    let ghost prev = i2@;
                    match i2.next() {
                        None => {
                            proof {
                                lemma_agree(self.0@, it@.rest, k);
                            }
                            return Ok((i2, self.0, None));
                        },
                        Some(nc) => {
                            proof {
                                assert(nc == it@.rest[k as int]);
                                assert(c == self.0@[k as int]);
                                lemma_reaches_trans(it@, prev, i2@);
                                lemma_advance_twice(it@, k, 1);
                                assert(prev.advance(1) == prev.step(prev.rest[0]).advance(0));
                            }
                            if nc == c {
                                proof {
                                    assert(lit@.rest =~= self.0@.skip(k as int + 1));
                                    assert(i2@.rest =~= it@.rest.skip(k as int + 1));
                                    k = k + 1;
                                }
                            } else {
                                proof {
                                    lemma_agree(self.0@, it@.rest, k);
                                }
                                return Err(i2.err_s(self.0));
                            }
                        },
                    }
                },
            }
        }
    }
}

/// `o` is the outcome of skipping characters that qualify under `c`, from
/// `it`, until `p` matches, where `p` failed at each of the first `k`
/// positions, the characters there qualified, and `p` had the outcome `op`
/// after them.
///
/// Where `p` matches, the result is a leaf labelled `item` from `it` to the
/// end of the match, with the node of `p` beside it, and the soft record of
/// `p`. Where `p` fails at the end of the input, its failure is the failure
/// of the whole; where it fails before a character that does not qualify,
/// the whole fails behind that character with the description of `c`.
pub open spec fn p_until_via<'a, C: CharBool, P: Parser<'a, Out = PosTree<I>>, I: Clone>(
    c: &C,
    p: &P,
    item: I,
    it: Cursor,
    k: nat,
    op: Outcome<PosTree<I>>,
    o: Outcome<(PosTree<I>, PosTree<I>)>,
) -> bool {
    &&& k <= it.rest.len()
    &&& forall|j: int| 0 <= j < k ==> c.holds(#[trigger] it.rest[j])
    &&& forall|j: nat| j < k ==> #[trigger] fails(p, it.advance(j))
    &&& p.yields(it.advance(k), op)
    &&& match op {
        Outcome::Done(i3, r2, e) => o matches Outcome::Done(c3, pr, s) && c3 == i3 && s == e
            && pr.1 == r2 && is_leaf(pr.0@, it.index(), i3.index(), item),
        Outcome::Failed(pe) => if k == it.rest.len() {
            o == Outcome::<(PosTree<I>, PosTree<I>)>::Failed(pe)
        } else {
            !c.holds(it.rest[k as int]) && o == Outcome::<(PosTree<I>, PosTree<I>)>::Failed(
                it.advance(k + 1).fail(c.describes()),
            )
        },
    }
}

/// Predicates on characters, as the text to skip before a match.
pub trait PartCharBool: CharBool + Sized {
    /// The matcher that skips characters that qualify until `p` matches,
    /// and labels what it covers `i`.
    fn p_until<'a, P: Parser<'a, Out = PosTree<I>>, I: Clone>(self, p: P, i: I) -> (r: PCUntil<
        Self,
        P,
        I,
    >)
        ensures
            r.c == self,
            r.p == p,
            r.i == i,
    ;
}

impl<C: CharBool> PartCharBool for C {
    fn p_until<'a, P: Parser<'a, Out = PosTree<I>>, I: Clone>(self, p: P, i: I) -> (r: PCUntil<
        Self,
        P,
        I,
    >) {
        PCUntil { c: self, p, i }
    }
}

/// The matcher that skips characters that qualify under `c` until `p` matches.
pub struct PCUntil<C, P, I> {
    pub c: C,
    pub p: P,
    pub i: I,
}

impl<'a, C: CharBool, P: Parser<'a, Out = PosTree<I>>, I: Clone> Parser<'a> for PCUntil<C, P, I> {
    type Out = (PosTree<I>, P::Out);

    open spec fn ready(&self) -> bool {
        self.p.ready()
    }

    open spec fn yields(&self, it: Cursor, o: Outcome<(PosTree<I>, PosTree<I>)>) -> bool {
        exists|k: nat, op: Outcome<PosTree<I>>| p_until_via(&self.c, &self.p, self.i, it, k, op, o)
    }

    fn parse(&self, it: &PIter<'a>) -> (r: ParseRes<'a, (PosTree<I>, PosTree<I>)>) {
        let mut i2 = *it;
        let ghost mut k: nat = 0;
        proof {
            lemma_reaches_self(it@);
        }
        loop
            invariant
                self.p.ready(),
                k <= it@.rest.len(),
                i2@ == it@.advance(k),
                it@.reaches(i2@),
                i2@.rest == it@.rest.skip(k as int),
                forall|j: int| 0 <= j < k ==> self.c.holds(#[trigger] it@.rest[j]),
                forall|j: nat| j < k ==> #[trigger] fails(&self.p, it@.advance(j)),
            decreases i2@.rest.len(),
        {
            let rp = self.p.parse(&i2);
            let ghost op = outcome(rp);
            let p_err = match rp {
                Ok((i3, r2, e_op)) => {
                    let fin = i3.index();
                    proof {
                        lemma_reaches_trans(it@, i2@, i3@);
                    }
                    let out: ParseRes<'a, (PosTree<I>, PosTree<I>)> = Ok(
                        (i3, (PosTree::new(it.index(), fin, self.i.clone()), r2), e_op),
                    );
                    proof {
                        assert(p_until_via(&self.c, &self.p, self.i, it@, k, op, outcome(out)));
                    }
                    return out;
                },
                Err(e) => e,
            };
            let ghost prev = i2@;
            proof {
                if prev.rest.len() > 0 {
                    assert(prev.rest[0] == it@.rest[k as int]);
                }
            }
            match i2.next() {
                Some(c) => {
                    proof {
                        lemma_advance_twice(it@, k, 1);
                        assert(prev.advance(1) == prev.step(prev.rest[0]).advance(0));
                        lemma_reaches_trans(it@, prev, i2@);
                    }
                    if self.c.char_bool(c) {
                        proof {
                            assert(self.p.yields(prev, Outcome::Failed(p_err@)));
                            assert(fails(&self.p, it@.advance(k)));
                            assert(i2@.rest =~= it@.rest.skip(k as int + 1));
                            k = k + 1;
                        }
                    } else {
                        let out: ParseRes<'a, (PosTree<I>, PosTree<I>)> = Err(
                            i2.err(self.c.expected()),
                        );
                        proof {
                            assert(p_until_via(&self.c, &self.p, self.i, it@, k, op, outcome(out)));
                        }
                        return out;
                    }
                },
                None => {
                    let out: ParseRes<'a, (PosTree<I>, PosTree<I>)> = Err(p_err);
                    proof {
                        assert(p_until_via(&self.c, &self.p, self.i, it@, k, op, outcome(out)));
                    }
                    return out;
                },
            }
        }
    }
}

} // verus!
