//! Chains of steps: how a repetition gets from one cursor to another.

use vstd::prelude::*;
use crate::err::PErrView;
use crate::iter::Cursor;
use crate::parser::{Outcome, Parser};

verus! {

/// Among the outcomes of `a` at `from` is a success that stops at `to` with the value `v`.
pub open spec fn hit<'a, A: Parser<'a>>(a: &A, from: Cursor, to: Cursor, v: A::Out) -> bool {
    exists|s: Option<PErrView>| #[trigger] a.yields(from, Outcome::Done(to, v, s))
}

/// Among the outcomes of `a` at `from` is a success that stops at `to`.
pub open spec fn passes<'a, A: Parser<'a>>(a: &A, from: Cursor, to: Cursor) -> bool {
    exists|v: A::Out, s: Option<PErrView>| #[trigger] a.yields(from, Outcome::Done(to, v, s))
}

/// Among the outcomes of `a` at `it` is a failure.
pub open spec fn fails<'a, A: Parser<'a>>(a: &A, it: Cursor) -> bool {
    exists|e: PErrView| #[trigger] a.yields(it, Outcome::Failed(e))
}

/// The step number `i` of a chain leads from its cursor to the next and
/// gives its value.
pub open spec fn link<V>(
    step: spec_fn(Cursor, Cursor, V) -> bool,
    curs: Seq<Cursor>,
    vals: Seq<V>,
    i: int,
) -> bool {
    step(curs[i], curs[i + 1], vals[i])
}

/// `curs` and `vals` are the cursors and values of a chain of steps that
/// starts at `it`: one cursor more than values, and each step leads from a
/// cursor to the next.
pub open spec fn chain<V>(
    step: spec_fn(Cursor, Cursor, V) -> bool,
    it: Cursor,
    curs: Seq<Cursor>,
    vals: Seq<V>,
) -> bool {
    &&& curs.len() == vals.len() + 1
    &&& curs[0] == it
    &&& forall|i: int| 0 <= i < vals.len() ==> #[trigger] link(step, curs, vals, i)
}

/// The chain without steps.
pub proof fn lemma_chain_start<V>(step: spec_fn(Cursor, Cursor, V) -> bool, it: Cursor)
    ensures
        chain(step, it, seq![it], Seq::<V>::empty()),
{
}

/// A chain with one step more.
pub proof fn lemma_chain_push<V>(
    step: spec_fn(Cursor, Cursor, V) -> bool,
    it: Cursor,
    curs: Seq<Cursor>,
    vals: Seq<V>,
    c: Cursor,
    v: V,
)
    requires
        chain(step, it, curs, vals),
        step(curs.last(), c, v),
    ensures
        chain(step, it, curs.push(c), vals.push(v)),
{
    let curs2 = curs.push(c);
    let vals2 = vals.push(v);
    assert forall|i: int| 0 <= i < vals2.len() implies #[trigger] link(step, curs2, vals2, i) by {
        if i < vals.len() {
            assert(link(step, curs, vals, i));
        }
    }
}

/// The step of a repetition of `a`: one match of `a`. Where `strict`, the
/// match has moved the cursor.
pub open spec fn rep_step<'a, A: Parser<'a>>(a: &A, strict: bool) -> spec_fn(
    Cursor,
    Cursor,
    A::Out,
) -> bool {
    |f: Cursor, t: Cursor, v: A::Out| hit(a, f, t, v) && (strict ==> f != t)
}

/// The step of a separated repetition: one match of `a`, then one of `b`,
/// which together have moved the cursor.
pub open spec fn sep_step<'a, A: Parser<'a>, B: Parser<'a>>(a: &A, b: &B) -> spec_fn(
    Cursor,
    Cursor,
    A::Out,
) -> bool {
    |f: Cursor, t: Cursor, v: A::Out|
        f != t && exists|mid: Cursor| #[trigger] hit(a, f, mid, v) && passes(b, mid, t)
}

/// The step of a separated repetition up to a closing matcher: one match of
/// `a`, a failure of `c`, then one match of `b`, which together have moved
/// the cursor.
pub open spec fn sep_until_step<'a, A: Parser<'a>, B: Parser<'a>, C: Parser<'a>>(
    a: &A,
    b: &B,
    c: &C,
) -> spec_fn(Cursor, Cursor, A::Out) -> bool {
    |f: Cursor, t: Cursor, v: A::Out|
        f != t && exists|mid: Cursor| #[trigger]
            hit(a, f, mid, v) && fails(c, mid) && passes(b, mid, t)
}

} // verus!
