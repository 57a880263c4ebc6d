//! Matchers that hand back the text they matched.

use vstd::prelude::*;
use crate::iter::{lemma_reaches_span, Cursor, PIter};
use crate::parser::{outcome, Outcome, ParseRes, Parser};

verus! {

/// `o` is the outcome `oa`, reached from `it`, with the text between `it` and
/// the cursor after the match for its value.
pub open spec fn ranged<'a, V>(it: Cursor, oa: Outcome<V>, o: Outcome<&'a str>) -> bool {
    match oa {
        Outcome::Done(c, _, s) => o matches Outcome::Done(c2, t, s2) && c2 == c && s2 == s && t@
            == it.consumed_to(c),
        Outcome::Failed(e) => o == Outcome::<&'a str>::Failed(e),
    }
}

/// The result `res` of a match from `start`, with the text matched for its value.
pub fn span_res<'a, V>(res: ParseRes<'a, V>, start: &PIter<'a>) -> (r: ParseRes<'a, &'a str>)
    requires
        res matches Ok(t) ==> start@.reaches(t.0@),
    ensures
        ranged(start@, outcome(res), outcome(r)),
        r matches Ok(t) ==> start@.reaches(t.0@),
{
    match res {
        Ok((i2, _, e)) => {
            let id = i2.index();
            proof {
                lemma_reaches_span(start@, i2@);
            }
            let s = start.str_to(id);
            Ok((i2, s, e))
        },
        Err(e) => Err(e),
    }
}

/// The matcher that matches as `p` does and hands back the text matched.
pub fn str_range<'a, P: Parser<'a>>(p: P) -> (r: StrRange<P>)
    ensures
        r.p == p,
{
    StrRange { p }
}

/// The matcher that matches as `p` does and hands back the text matched.
pub struct StrRange<P> {
    pub p: P,
}

impl<'a, P: Parser<'a>> Parser<'a> for StrRange<P> {
    type Out = &'a str;

    open spec fn ready(&self) -> bool {
        self.p.ready()
    }

    open spec fn yields(&self, it: Cursor, o: Outcome<&'a str>) -> bool {
        exists|oa: Outcome<P::Out>| #[trigger] self.p.yields(it, oa) && ranged(it, oa, o)
    }

    fn parse(&self, i: &PIter<'a>) -> (r: ParseRes<'a, &'a str>) {
        let res = self.p.parse(i);
        let ghost oa = outcome(res);
        let r = span_res(res, i);
        proof {
            assert(self.p.yields(i@, oa) && ranged(i@, oa, outcome(r)));
        }
        r
    }
}

/// `o` is the outcome `oa`, reached from `it`, with the text between `it` and
/// the cursor after the match, as a `String`, for its value.
pub open spec fn ranged_owned<V>(it: Cursor, oa: Outcome<V>, o: Outcome<String>) -> bool {
    match oa {
        Outcome::Done(c, _, s) => o matches Outcome::Done(c2, t, s2) && c2 == c && s2 == s && t@
            == it.consumed_to(c),
        Outcome::Failed(e) => o == Outcome::<String>::Failed(e),
    }
}

/// The result `res` of a match from `start`, with the text matched, as a
/// `String`, for its value.
pub fn span_res_owned<'a, V>(res: ParseRes<'a, V>, start: &PIter<'a>) -> (r: ParseRes<'a, String>)
    requires
        res matches Ok(t) ==> start@.reaches(t.0@),
    ensures
        ranged_owned(start@, outcome(res), outcome(r)),
        r matches Ok(t) ==> start@.reaches(t.0@),
{
    match span_res(res, start) {
        Ok((i, v, e)) => Ok((i, v.to_owned(), e)),
        Err(e) => Err(e),
    }
}

/// The matcher that matches as `p` does and hands back the text matched, as
/// a `String`.
pub fn string<'a, P: Parser<'a>>(p: P) -> (r: StringRange<P>)
    ensures
        r.p == p,
{
    StringRange { p }
}

/// The matcher that matches as `p` does and hands back the text matched, as
/// a `String`.
pub struct StringRange<P> {
    pub p: P,
}

impl<'a, P: Parser<'a>> Parser<'a> for StringRange<P> {
    type Out = String;

    open spec fn ready(&self) -> bool {
        self.p.ready()
    }

    open spec fn yields(&self, it: Cursor, o: Outcome<String>) -> bool {
        exists|oa: Outcome<P::Out>| #[trigger] self.p.yields(it, oa) && ranged_owned(it, oa, o)
    }

    fn parse(&self, i: &PIter<'a>) -> (r: ParseRes<'a, String>) {
        let res = self.p.parse(i);
        let ghost oa = outcome(res);
        let r = span_res_owned(res, i);
        proof {
            assert(self.p.yields(i@, oa) && ranged_owned(i@, oa, outcome(r)));
        }
        r
    }
}

} // verus!
