//! Matchers under a name: a failure at the very start is reported under the
//! name alone.

use vstd::prelude::*;
use crate::err::ExpectedView;
use crate::iter::{Cursor, PIter};
use crate::parser::{outcome, Outcome, ParseRes, Parser};

verus! {

/// The outcome `oa`, reached from `it`, under the name `name`: a failure at
/// the offset of `it` is replaced by the failure of the name there, and any
/// other failure is joined with it.
pub open spec fn named_outcome<V>(it: Cursor, name: Seq<char>, oa: Outcome<V>) -> Outcome<V> {
    match oa {
        Outcome::Done(..) => oa,
        Outcome::Failed(e) => if e.index is Some && e.index == it.index() {
            Outcome::Failed(it.fail(ExpectedView::Str(name)))
        } else {
            Outcome::Failed(e.join(it.fail(ExpectedView::Str(name))))
        },
    }
}

/// Matches `p` at `it` under the name `name`.
pub fn do_named<'a, P: Parser<'a>>(it: &PIter<'a>, p: &P, name: &'static str) -> (r: ParseRes<
    'a,
    P::Out,
>)
    requires
        p.ready(),
    ensures
        exists|oa: Outcome<P::Out>| #[trigger]
            p.yields(it@, oa) && outcome(r) == named_outcome(it@, name@, oa),
        r matches Ok(t) ==> it@.reaches(t.0@),
{
    let name_e = it.err_s(name);
    let res = p.parse(it);
    let ghost oa = outcome(res);
    let r = match res {
        Ok(v) => Ok(v),
        Err(e) => {
            let same = match (e.index, name_e.index) {
                (Some(ei), Some(ii)) => ii == ei,
                _ => false,
            };
            if same {
                Err(name_e)
            } else {
                Err(e.join(name_e))
            }
        },
    };
    proof {
        assert(p.yields(it@, oa) && outcome(r) == named_outcome(it@, name@, oa));
    }
    r
}

/// The matcher `p` under the name `name`.
#[derive(Copy, Clone)]
pub struct Named<P> {
    pub p: P,
    pub name: &'static str,
}

impl<'a, P: Parser<'a>> Parser<'a> for Named<P> {
    type Out = P::Out;

    open spec fn ready(&self) -> bool {
        self.p.ready()
    }

    open spec fn yields(&self, it: Cursor, o: Outcome<P::Out>) -> bool {
        exists|oa: Outcome<P::Out>| #[trigger]
            self.p.yields(it, oa) && o == named_outcome(it, self.name@, oa)
    }

    fn parse(&self, it: &PIter<'a>) -> (r: ParseRes<'a, P::Out>) {
        do_named(it, &self.p, self.name)
    }
}

} // verus!
