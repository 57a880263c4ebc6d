//! Predicates on single characters, their combinations, and the matchers
//! that consume runs of qualifying characters.

use vstd::prelude::*;
use crate::err::{lemma_one_of_view, views_of, Expected, ExpectedView};
use crate::iter::{
    lemma_advance, lemma_advance_clamped, lemma_advance_twice, lemma_reaches_self,
    lemma_reaches_span, lemma_reaches_trans, Cursor, PIter,
};
use crate::parser::{outcome, Outcome, ParseRes, Parser};
use crate::text::lemma_len_le_byte_len;
use crate::trace::fails;

verus! {

/// A predicate on single characters that can say what it looks for.
pub trait CharBool: Sized {
    /// Whether `c` qualifies. An implementation that does not say it leaves
    /// the question open.
    open spec fn holds(&self, c: char) -> bool {
        arbitrary()
    }

    /// The description of the characters that qualify. An implementation
    /// that does not say it leaves the description open.
    open spec fn describes(&self) -> ExpectedView {
        arbitrary()
    }

    /// Decides whether `c` qualifies.
    fn char_bool(&self, c: char) -> (b: bool)
        ensures
            b == self.holds(c),
    ;

    /// Describes the characters that qualify.
    fn expected(&self) -> (e: Expected)
        ensures
            e@ == self.describes(),
    ;

    /// The matcher of one qualifying character.
    fn one(self) -> (r: OneChar<Self>)
        ensures
            r.cb == self,
    {
        OneChar { cb: self }
    }

    /// The matcher of any number of qualifying characters.
    fn star(self) -> (r: CharStar<Self>)
        ensures
            r.cb == self,
    {
        CharStar { cb: self }
    }

    /// The matcher of at least `min` qualifying characters.
    fn min_n(self, min: usize) -> (r: CharMin<Self>)
        ensures
            r.cb == self,
            r.min == min,
    {
        CharMin { cb: self, min }
    }

    /// The matcher of one or more qualifying characters.
    fn plus(self) -> (r: CharPlus<Self>)
        ensures
            r.cb == self,
    {
        CharPlus { cb: self }
    }

    /// The matcher of any number of qualifying characters, the text ignored.
    fn istar(self) -> (r: ICharStar<Self>)
        ensures
            r.cb == self,
    {
        ICharStar { cb: self }
    }

    /// The matcher of one or more qualifying characters, the text ignored.
    fn iplus(self) -> (r: ICharPlus<Self>)
        ensures
            r.cb == self,
    {
        ICharPlus { cb: self }
    }

    /// The matcher of exactly `n` qualifying characters, the text ignored.
    fn iexact(self, n: usize) -> (r: ICharExact<Self>)
        ensures
            r.cb == self,
            r.n == n,
    {
        ICharExact { cb: self, n }
    }

    /// The matcher of exactly `n` qualifying characters.
    fn exact(self, n: usize) -> (r: CharExact<Self>)
        ensures
            r.cb == self,
            r.n == n,
    {
        CharExact { cb: self, n }
    }
}

/// The combinations of a predicate with another predicate or a matcher.
pub trait CharBoolExt: CharBool {
    /// The predicate that holds where this one does and `e` does not.
    fn except<E: CharBool>(self, e: E) -> (r: CharsExcept<Self, E>)
        ensures
            r.a == self,
            r.e == e,
    ;

    /// The matcher of a run of qualifying characters that ends where `end` matches.
    fn until<'a, P: Parser<'a>>(self, end: P) -> (r: CharUntil<Self, P>)
        ensures
            r.a == self,
            r.end == end,
    ;
}

impl<C: CharBool> CharBoolExt for C {
    fn except<E: CharBool>(self, e: E) -> (r: CharsExcept<Self, E>) {
        CharsExcept { a: self, e }
    }

    fn until<'a, P: Parser<'a>>(self, end: P) -> (r: CharUntil<Self, P>) {
        CharUntil { a: self, end }
    }
}

/// The predicate that holds of the characters of which `c` does not.
pub struct CharNot<C: CharBool> {
    pub c: C,
}

/// The predicate that holds of the characters of which `c` does not.
pub fn not<C: CharBool>(c: C) -> (r: CharNot<C>)
    ensures
        r.c == c,
{
    CharNot { c }
}

impl<C: CharBool> CharBool for CharNot<C> {
    open spec fn holds(&self, c: char) -> bool {
        !self.c.holds(c)
    }

    open spec fn describes(&self) -> ExpectedView {
        ExpectedView::Not(Box::new(self.c.describes()))
    }

    fn char_bool(&self, c: char) -> (b: bool) {
        !self.c.char_bool(c)
    }

    fn expected(&self) -> (e: Expected) {
        Expected::Not(Box::new(self.c.expected()))
    }
}

/// `c` is a letter of the basic Latin alphabet.
pub open spec fn alpha(c: char) -> bool {
    ('A' <= c && c <= 'Z') || ('a' <= c && c <= 'z')
}

/// `c` is a decimal digit.
pub open spec fn digit(c: char) -> bool {
    '0' <= c && c <= '9'
}

/// `c` is a hexadecimal digit.
pub open spec fn hex(c: char) -> bool {
    digit(c) || ('a' <= c && c <= 'f') || ('A' <= c && c <= 'F')
}

/// Whether `c` is a letter of the basic Latin alphabet.
pub fn is_alpha(c: char) -> (r: bool)
    ensures
        r == alpha(c),
{
    (c >= 'A' && c <= 'Z') || (c >= 'a' && c <= 'z')
}

/// Whether `c` is a decimal digit.
pub fn is_num(c: char) -> (r: bool)
    ensures
        r == digit(c),
{
    c >= '0' && c <= '9'
}

/// Whether `c` is a hexadecimal digit.
pub fn is_hex(c: char) -> (r: bool)
    ensures
        r == hex(c),
{
    is_num(c) || (c >= 'a' && c <= 'f') || (c >= 'A' && c <= 'F')
}

/// The letters of the basic Latin alphabet.
#[derive(Copy, Clone)]
pub struct Alpha;

impl CharBool for Alpha {
    open spec fn holds(&self, c: char) -> bool {
        alpha(c)
    }

    open spec fn describes(&self) -> ExpectedView {
        ExpectedView::CharIn("Alpha"@)
    }

    fn char_bool(&self, c: char) -> (b: bool) {
        is_alpha(c)
    }

    fn expected(&self) -> (e: Expected) {
        Expected::CharIn("Alpha")
    }
}

/// The decimal digits.
#[derive(Copy, Clone)]
pub struct NumDigit;

impl CharBool for NumDigit {
    open spec fn holds(&self, c: char) -> bool {
        digit(c)
    }

    open spec fn describes(&self) -> ExpectedView {
        ExpectedView::CharIn("NumDigit"@)
    }

    fn char_bool(&self, c: char) -> (b: bool) {
        is_num(c)
    }

    fn expected(&self) -> (e: Expected) {
        Expected::CharIn("NumDigit")
    }
}

/// Every character.
#[derive(Copy, Clone)]
pub struct Any;

impl CharBool for Any {
    open spec fn holds(&self, c: char) -> bool {
        true
    }

    open spec fn describes(&self) -> ExpectedView {
        ExpectedView::CharIn("Any"@)
    }

    fn char_bool(&self, c: char) -> (b: bool) {
        true
    }

    fn expected(&self) -> (e: Expected) {
        Expected::CharIn("Any")
    }
}

/// The hexadecimal digits.
#[derive(Copy, Clone)]
pub struct HexDigit;

impl CharBool for HexDigit {
    open spec fn holds(&self, c: char) -> bool {
        hex(c)
    }

    open spec fn describes(&self) -> ExpectedView {
        ExpectedView::CharIn("HexDigit"@)
    }

    fn char_bool(&self, c: char) -> (b: bool) {
        is_hex(c)
    }

    fn expected(&self) -> (e: Expected) {
        Expected::CharIn("HexDigit")
    }
}

/// Tab and space.
#[derive(Copy, Clone)]
pub struct WS;

impl CharBool for WS {
    open spec fn holds(&self, c: char) -> bool {
        c == '\t' || c == ' '
    }

    open spec fn describes(&self) -> ExpectedView {
        ExpectedView::CharIn("WS"@)
    }

    fn char_bool(&self, c: char) -> (b: bool) {
        c == '\t' || c == ' '
    }

    fn expected(&self) -> (e: Expected) {
        Expected::CharIn("WS")
    }
}

/// Space, tab, line feed and carriage return.
#[derive(Copy, Clone)]
pub struct WSL;

impl CharBool for WSL {
    open spec fn holds(&self, c: char) -> bool {
        c == ' ' || c == '\t' || c == '\n' || c == '\r'
    }

    open spec fn describes(&self) -> ExpectedView {
        ExpectedView::CharIn("WSL"@)
    }

    fn char_bool(&self, c: char) -> (b: bool) {
        c == ' ' || c == '\t' || c == '\n' || c == '\r'
    }

    fn expected(&self) -> (e: Expected) {
        Expected::CharIn("WSL")
    }
}

/// The description of the one character `c`.
pub fn char_expected(c: char) -> (e: Expected)
    ensures
        e@ == ExpectedView::Char(c),
{
    Expected::Char(c)
}

impl CharBool for char {
    open spec fn holds(&self, c: char) -> bool {
        *self == c
    }

    open spec fn describes(&self) -> ExpectedView {
        ExpectedView::Char(*self)
    }

    fn char_bool(&self, c: char) -> (b: bool) {
        *self == c
    }

    fn expected(&self) -> (e: Expected) {
        char_expected(*self)
    }
}

/// Whether `c` is one of the characters of `set`.
pub fn str_has(set: &str, c: char) -> (b: bool)
    ensures
        b == set@.contains(c),
{
    let mut it = PIter::new(set);
    let ghost mut k: int = 0;
    loop
        invariant
            0 <= k <= set@.len(),
            it@.rest == set@.skip(k),
            forall|j: int| 0 <= j < k ==> set@[j] != c,
        decreases it@.rest.len(),
    {
        match it.next() {
            None => {
                return false;
            },
            Some(x) => {
                if x == c {
                    proof {
                        assert(set@[k] == c);
                    }
                    return true;
                }
                proof {
                    assert(it@.rest =~= set@.skip(k + 1));
                    k = k + 1;
                }
            },
        }
    }
}

impl CharBool for &'static str {
    open spec fn holds(&self, c: char) -> bool {
        self@.contains(c)
    }

    open spec fn describes(&self) -> ExpectedView {
        ExpectedView::CharIn(self@)
    }

    fn char_bool(&self, c: char) -> (b: bool) {
        str_has(*self, c)
    }

    fn expected(&self) -> (e: Expected) {
        Expected::CharIn(*self)
    }
}

impl<A: CharBool, B: CharBool> CharBool for (A, B) {
    open spec fn holds(&self, c: char) -> bool {
        self.0.holds(c) || self.1.holds(c)
    }

    open spec fn describes(&self) -> ExpectedView {
        ExpectedView::OneOf(seq![self.0.describes(), self.1.describes()])
    }

    fn char_bool(&self, c: char) -> (b: bool) {
        self.0.char_bool(c) || self.1.char_bool(c)
    }

    fn expected(&self) -> (e: Expected) {
        let mut v: Vec<Expected> = Vec::new();
        v.push(self.0.expected());
        v.push(self.1.expected());
        proof {
            lemma_one_of_view(v);
            assert(views_of(v@) =~= seq![self.0.describes(), self.1.describes()]);
        }
        Expected::OneOf(v)
    }
}

impl<A: CharBool, B: CharBool, C: CharBool> CharBool for (A, B, C) {
    open spec fn holds(&self, c: char) -> bool {
        self.0.holds(c)
            || self.1.holds(c)
            || self.2.holds(c)
    }

    open spec fn describes(&self) -> ExpectedView {
        ExpectedView::OneOf(
            seq![
                self.0.describes(),
                self.1.describes(),
                self.2.describes(),
            ],
        )
    }

    fn char_bool(&self, c: char) -> (b: bool) {
        self.0.char_bool(c)
            || self.1.char_bool(c)
            || self.2.char_bool(c)
    }

    fn expected(&self) -> (e: Expected) {
        let mut v: Vec<Expected> = Vec::new();
        v.push(self.0.expected());
        v.push(self.1.expected());
        v.push(self.2.expected());
        proof {
            lemma_one_of_view(v);
            assert(views_of(v@) =~= seq![
                self.0.describes(),
                self.1.describes(),
                self.2.describes(),
            ]);
        }
        Expected::OneOf(v)
    }
}

impl<A, B, C, D> CharBool for (A, B, C, D) where
    A: CharBool,
    B: CharBool,
    C: CharBool,
    D: CharBool,
 {
    open spec fn holds(&self, c: char) -> bool {
        self.0.holds(c)
            || self.1.holds(c)
            || self.2.holds(c)
            || self.3.holds(c)
    }

    open spec fn describes(&self) -> ExpectedView {
        ExpectedView::OneOf(
            seq![
                self.0.describes(),
                self.1.describes(),
                self.2.describes(),
                self.3.describes(),
            ],
        )
    }

    fn char_bool(&self, c: char) -> (b: bool) {
        self.0.char_bool(c)
            || self.1.char_bool(c)
            || self.2.char_bool(c)
            || self.3.char_bool(c)
    }

    fn expected(&self) -> (e: Expected) {
        let mut v: Vec<Expected> = Vec::new();
        v.push(self.0.expected());
        v.push(self.1.expected());
        v.push(self.2.expected());
        v.push(self.3.expected());
        proof {
            lemma_one_of_view(v);
            assert(views_of(v@) =~= seq![
                self.0.describes(),
                self.1.describes(),
                self.2.describes(),
                self.3.describes(),
            ]);
        }
        Expected::OneOf(v)
    }
}

impl<A, B, C, D, E> CharBool for (A, B, C, D, E) where
    A: CharBool,
    B: CharBool,
    C: CharBool,
    D: CharBool,
    E: CharBool,
 {
    open spec fn holds(&self, c: char) -> bool {
        self.0.holds(c)
            || self.1.holds(c)
            || self.2.holds(c)
            || self.3.holds(c)
            || self.4.holds(c)
    }

    open spec fn describes(&self) -> ExpectedView {
        ExpectedView::OneOf(
            seq![
                self.0.describes(),
                self.1.describes(),
                self.2.describes(),
                self.3.describes(),
                self.4.describes(),
            ],
        )
    }

    fn char_bool(&self, c: char) -> (b: bool) {
        self.0.char_bool(c)
            || self.1.char_bool(c)
            || self.2.char_bool(c)
            || self.3.char_bool(c)
            || self.4.char_bool(c)
    }

    fn expected(&self) -> (e: Expected) {
        let mut v: Vec<Expected> = Vec::new();
        v.push(self.0.expected());
        v.push(self.1.expected());
        v.push(self.2.expected());
        v.push(self.3.expected());
        v.push(self.4.expected());
        proof {
            lemma_one_of_view(v);
            assert(views_of(v@) =~= seq![
                self.0.describes(),
                self.1.describes(),
                self.2.describes(),
                self.3.describes(),
                self.4.describes(),
            ]);
        }
        Expected::OneOf(v)
    }
}

impl<A, B, C, D, E, F> CharBool for (A, B, C, D, E, F) where
    A: CharBool,
    B: CharBool,
    C: CharBool,
    D: CharBool,
    E: CharBool,
    F: CharBool,
 {
    open spec fn holds(&self, c: char) -> bool {
        self.0.holds(c)
            || self.1.holds(c)
            || self.2.holds(c)
            || self.3.holds(c)
            || self.4.holds(c)
            || self.5.holds(c)
    }

    open spec fn describes(&self) -> ExpectedView {
        ExpectedView::OneOf(
            seq![
                self.0.describes(),
                self.1.describes(),
                self.2.describes(),
                self.3.describes(),
                self.4.describes(),
                self.5.describes(),
            ],
        )
    }

    fn char_bool(&self, c: char) -> (b: bool) {
        self.0.char_bool(c)
            || self.1.char_bool(c)
            || self.2.char_bool(c)
            || self.3.char_bool(c)
            || self.4.char_bool(c)
            || self.5.char_bool(c)
    }

    fn expected(&self) -> (e: Expected) {
        let mut v: Vec<Expected> = Vec::new();
        v.push(self.0.expected());
        v.push(self.1.expected());
        v.push(self.2.expected());
        v.push(self.3.expected());
        v.push(self.4.expected());
        v.push(self.5.expected());
        proof {
            lemma_one_of_view(v);
            assert(views_of(v@) =~= seq![
                self.0.describes(),
                self.1.describes(),
                self.2.describes(),
                self.3.describes(),
                self.4.describes(),
                self.5.describes(),
            ]);
        }
        Expected::OneOf(v)
    }
}

/// The predicate that holds of the characters of which `a` holds and `e` does not.
pub struct CharsExcept<A: CharBool, E: CharBool> {
    pub a: A,
    pub e: E,
}

impl<A: CharBool, E: CharBool> CharBool for CharsExcept<A, E> {
    open spec fn holds(&self, c: char) -> bool {
        self.a.holds(c) && !self.e.holds(c)
    }

    open spec fn describes(&self) -> ExpectedView {
        self.a.describes().join(ExpectedView::Not(Box::new(self.e.describes())))
    }

    fn char_bool(&self, c: char) -> (b: bool) {
        self.a.char_bool(c) && !self.e.char_bool(c)
    }

    fn expected(&self) -> (e: Expected) {
        self.a.expected().join(Expected::Not(Box::new(self.e.expected())))
    }
}

/// The outcome of matching one character that qualifies under `cb`.
pub open spec fn one_char_outcome<CB: CharBool>(cb: &CB, it: Cursor) -> Outcome<char> {
    if it.rest.len() > 0 && cb.holds(it.rest[0]) {
        Outcome::Done(it.step(it.rest[0]), it.rest[0], None)
    } else {
        Outcome::Failed(it.fail(cb.describes()))
    }
}

/// Matches one character that qualifies under `cb`.
pub fn do_one_char<'a, CB: CharBool>(i: &PIter<'a>, cb: &CB) -> (r: ParseRes<'a, char>)
    ensures
        outcome(r) == one_char_outcome(cb, i@),
        r matches Ok(t) ==> i@.reaches(t.0@),
{
    let mut i2 = *i;
    match i2.next() {
        Some(ic) => {
            if cb.char_bool(ic) {
                Ok((i2, ic, None))
            } else {
                i.err_r(cb.expected())
            }
        },
        None => i.err_r(cb.expected()),
    }
}

/// The matcher of one character that qualifies under `cb`.
pub struct OneChar<CB: CharBool> {
    pub cb: CB,
}

impl<'a, CB: CharBool> Parser<'a> for OneChar<CB> {
    type Out = char;

    open spec fn ready(&self) -> bool {
        true
    }

    open spec fn yields(&self, it: Cursor, o: Outcome<char>) -> bool {
        o == one_char_outcome(&self.cb, it)
    }

    fn parse(&self, it: &PIter<'a>) -> (r: ParseRes<'a, char>) {
        do_one_char(it, &self.cb)
    }
}

/// The matcher of one character that qualifies under `cb`.
pub fn one_char<C: CharBool>(cb: C) -> (r: OneChar<C>)
    ensures
        r.cb == cb,
{
    OneChar { cb }
}

/// The number of characters at the start of `s` that qualify under `cb`.
pub open spec fn run<CB: CharBool>(cb: &CB, s: Seq<char>) -> nat
    decreases s.len(),
{
    if s.len() > 0 && cb.holds(s[0]) {
        1 + run(cb, s.drop_first())
    } else {
        0
    }
}

/// Where the first `k` characters qualify, the run has at least `k`; where
/// the text ends there or the next character does not qualify, exactly `k`.
pub proof fn lemma_run<CB: CharBool>(cb: &CB, s: Seq<char>, k: nat)
    requires
        k <= s.len(),
        forall|j: int| 0 <= j < k ==> cb.holds(#[trigger] s[j]),
    ensures
        run(cb, s) >= k,
        run(cb, s) <= s.len(),
        k == s.len() || !cb.holds(s[k as int]) ==> run(cb, s) == k,
    decreases s.len(),
{
    if s.len() > 0 && cb.holds(s[0]) {
        let t = s.drop_first();
        if k > 0 {
            assert forall|j: int| 0 <= j < k - 1 implies cb.holds(#[trigger] t[j]) by {
                assert(t[j] == s[j + 1]);
            }
            lemma_run(cb, t, (k - 1) as nat);
        } else {
            lemma_run(cb, t, 0);
        }
    }
}

/// The outcome of matching a run of characters that qualify under `cb`: at
/// least `min` of them, and with `exact` no more than `min`. A run that a
/// character cut short, not the end of the input, leaves a soft record at
/// that character, unless the count is exact.
pub open spec fn chars_outcome<CB: CharBool>(cb: &CB, it: Cursor, min: usize, exact: bool) -> Outcome<
    (),
> {
    let n = run(cb, it.rest);
    let stop = it.advance(n);
    if n < min {
        Outcome::Failed(stop.fail(cb.describes()))
    } else if exact {
        Outcome::Done(it.advance(min as nat), (), None)
    } else if stop.rest.len() > 0 {
        Outcome::Done(stop, (), Some(stop.fail(cb.describes())))
    } else {
        Outcome::Done(stop, (), None)
    }
}

/// Matches a run of characters that qualify under `cb`: at least `min` of
/// them, and with `exact` no more than `min`.
pub fn do_chars<'a, CB: CharBool>(i: &PIter<'a>, cb: &CB, min: usize, exact: bool) -> (r: ParseRes<
    'a,
    (),
>)
    ensures
        outcome(r) == chars_outcome(cb, i@, min, exact),
        r matches Ok(t) ==> i@.reaches(t.0@),
{
    let mut it = *i;
    let mut done: usize = 0;
    proof {
        lemma_reaches_self(i@);
    }
    loop
        invariant
            done <= i@.rest.len(),
            it@ == i@.advance(done as nat),
            i@.reaches(it@),
            it@.rest == i@.rest.skip(done as int),
            forall|j: int| 0 <= j < done ==> cb.holds(#[trigger] i@.rest[j]),
            exact ==> done <= min,
        decreases it@.rest.len(),
    {
        if exact && done == min {
            proof {
                lemma_run(cb, i@.rest, done as nat);
            }
            return Ok((it, (), None));
        }
        let it2 = it;
        match it.next() {
            Some(c) => {
                if cb.char_bool(c) {
                    proof {
                        lemma_reaches_trans(i@, it2@, it@);
                        lemma_advance_twice(i@, done as nat, 1);
                        assert(it2@.advance(1) == it2@.step(it2@.rest[0]).advance(0));
                        assert(it@.rest =~= i@.rest.skip(done + 1));
                        lemma_advance(i@, done as nat);
                        lemma_len_le_byte_len(i@.rest.take(done as int));
                        lemma_len_le_byte_len(it2@.rest);
                    }
                    done += 1;
                } else {
                    proof {
                        lemma_run(cb, i@.rest, done as nat);
                    }
                    if done >= min {
                        let eo = Some(it2.err(cb.expected()));
                        return Ok((it2, (), eo));
                    } else {
                        return it2.err_r(cb.expected());
                    }
                }
            },
            None => {
                proof {
                    lemma_run(cb, i@.rest, done as nat);
                }
                if done >= min {
                    return Ok((it2, (), None));
                } else {
                    return it2.err_r(cb.expected());
                }
            },
        }
    }
}

/// `o` is the outcome of a run as `chars_outcome` gives it, with the text of
/// the run for its value.
pub open spec fn str_run<'a, CB: CharBool>(
    cb: &CB,
    it: Cursor,
    min: usize,
    exact: bool,
    o: Outcome<&'a str>,
) -> bool {
    &&& o.with(()) == chars_outcome(cb, it, min, exact)
    &&& o matches Outcome::Done(c, s, _) ==> s@ == it.consumed_to(c)
}

/// Matches a run as `do_chars` does and hands back its text.
pub fn do_str_run<'a, CB: CharBool>(i: &PIter<'a>, cb: &CB, min: usize, exact: bool) -> (r: ParseRes<
    'a,
    &'a str,
>)
    ensures
        str_run(cb, i@, min, exact, outcome(r)),
        r matches Ok(t) ==> i@.reaches(t.0@),
{
    match do_chars(i, cb, min, exact) {
        Ok((i2, _, e)) => {
            let id = i2.index();
            proof {
                lemma_reaches_span(i@, i2@);
            }
            let s = i.str_to(id);
            Ok((i2, s, e))
        },
        Err(e) => Err(e),
    }
}

/// Any number of qualifying characters, the text ignored.
pub struct ICharStar<C: CharBool> {
    pub cb: C,
}

impl<'a, CB: CharBool> Parser<'a> for ICharStar<CB> {
    type Out = ();

    open spec fn ready(&self) -> bool {
        true
    }

    open spec fn yields(&self, it: Cursor, o: Outcome<()>) -> bool {
        o == chars_outcome(&self.cb, it, 0, false)
    }

    fn parse(&self, i: &PIter<'a>) -> (r: ParseRes<'a, ()>) {
        do_chars(i, &self.cb, 0, false)
    }
}

/// One or more qualifying characters, the text ignored.
pub struct ICharPlus<C: CharBool> {
    pub cb: C,
}

impl<'a, CB: CharBool> Parser<'a> for ICharPlus<CB> {
    type Out = ();

    open spec fn ready(&self) -> bool {
        true
    }

    open spec fn yields(&self, it: Cursor, o: Outcome<()>) -> bool {
        o == chars_outcome(&self.cb, it, 1, false)
    }

    fn parse(&self, i: &PIter<'a>) -> (r: ParseRes<'a, ()>) {
        do_chars(i, &self.cb, 1, false)
    }
}

/// Exactly `n` qualifying characters, the text ignored.
pub struct ICharExact<C: CharBool> {
    pub cb: C,
    pub n: usize,
}

impl<'a, CB: CharBool> Parser<'a> for ICharExact<CB> {
    type Out = ();

    open spec fn ready(&self) -> bool {
        true
    }

    open spec fn yields(&self, it: Cursor, o: Outcome<()>) -> bool {
        o == chars_outcome(&self.cb, it, self.n, true)
    }

    fn parse(&self, i: &PIter<'a>) -> (r: ParseRes<'a, ()>) {
        do_chars(i, &self.cb, self.n, true)
    }
}

/// Any number of qualifying characters.
#[derive(Clone)]
pub struct CharStar<C: CharBool> {
    pub cb: C,
}

impl<'a, CB: CharBool> Parser<'a> for CharStar<CB> {
    type Out = &'a str;

    open spec fn ready(&self) -> bool {
        true
    }

    open spec fn yields(&self, it: Cursor, o: Outcome<&'a str>) -> bool {
        str_run(&self.cb, it, 0, false, o)
    }

    fn parse(&self, i: &PIter<'a>) -> (r: ParseRes<'a, &'a str>) {
        do_str_run(i, &self.cb, 0, false)
    }
}

/// One or more qualifying characters.
#[derive(Clone)]
pub struct CharPlus<C: CharBool> {
    pub cb: C,
}

impl<'a, CB: CharBool> Parser<'a> for CharPlus<CB> {
    type Out = &'a str;

    open spec fn ready(&self) -> bool {
        true
    }

    open spec fn yields(&self, it: Cursor, o: Outcome<&'a str>) -> bool {
        str_run(&self.cb, it, 1, false, o)
    }

    fn parse(&self, i: &PIter<'a>) -> (r: ParseRes<'a, &'a str>) {
        do_str_run(i, &self.cb, 1, false)
    }
}

/// Exactly `n` qualifying characters.
#[derive(Clone)]
pub struct CharExact<C: CharBool> {
    pub cb: C,
    pub n: usize,
}

impl<'a, CB: CharBool> Parser<'a> for CharExact<CB> {
    type Out = &'a str;

    open spec fn ready(&self) -> bool {
        true
    }

    open spec fn yields(&self, it: Cursor, o: Outcome<&'a str>) -> bool {
        str_run(&self.cb, it, self.n, true, o)
    }

    fn parse(&self, i: &PIter<'a>) -> (r: ParseRes<'a, &'a str>) {
        do_str_run(i, &self.cb, self.n, true)
    }
}

/// At least `min` qualifying characters.
#[derive(Clone)]
pub struct CharMin<C: CharBool> {
    pub cb: C,
    pub min: usize,
}

impl<'a, CB: CharBool> Parser<'a> for CharMin<CB> {
    type Out = &'a str;

    open spec fn ready(&self) -> bool {
        true
    }

    open spec fn yields(&self, it: Cursor, o: Outcome<&'a str>) -> bool {
        str_run(&self.cb, it, self.min, false, o)
    }

    fn parse(&self, i: &PIter<'a>) -> (r: ParseRes<'a, &'a str>) {
        do_str_run(i, &self.cb, self.min, false)
    }
}

/// `o` is the outcome of consuming characters that qualify under `a` until
/// `end` matches, where `end` failed at each of the first `k` positions, the
/// characters there qualified, and `end` had the outcome `oe` after them.
/// If `end` matched, the value is the text before it and its own value. If
/// it failed, and the text ends or the next character does not qualify, the
/// failure joins that of `end` with that of the predicate, made after the
/// character that did not qualify.
pub open spec fn until_via<'a, A: CharBool, E: Parser<'a>>(
    a: &A,
    end: &E,
    it: Cursor,
    k: nat,
    oe: Outcome<E::Out>,
    o: Outcome<(&'a str, E::Out)>,
) -> bool {
    &&& k <= it.rest.len()
    &&& forall|j: int| 0 <= j < k ==> a.holds(#[trigger] it.rest[j])
    &&& forall|j: nat| j < k ==> #[trigger] fails(end, it.advance(j))
    &&& end.yields(it.advance(k), oe)
    &&& match oe {
        Outcome::Done(i2, v, soft) => o matches Outcome::Done(c, pv, s) && c == i2 && pv.0@
            == it.rest.take(k as int) && pv.1 == v && s == soft,
        Outcome::Failed(e1) => (k == it.rest.len() || !a.holds(it.rest[k as int])) && o
            == Outcome::<(&'a str, E::Out)>::Failed(
            e1.join(it.advance(k + 1).fail(a.describes())),
        ),
    }
}

/// The matcher of a run of qualifying characters that ends where `end` matches.
#[derive(Clone)]
pub struct CharUntil<A: CharBool, E> {
    pub a: A,
    pub end: E,
}

impl<'a, A: CharBool, E: Parser<'a>> Parser<'a> for CharUntil<A, E> {
    type Out = (&'a str, E::Out);

    open spec fn ready(&self) -> bool {
        self.end.ready()
    }

    open spec fn yields(&self, it: Cursor, o: Outcome<(&'a str, E::Out)>) -> bool {
        exists|k: nat, oe: Outcome<E::Out>| until_via(&self.a, &self.end, it, k, oe, o)
    }

    fn parse(&self, i_start: &PIter<'a>) -> (r: ParseRes<'a, (&'a str, E::Out)>) {
        let mut it = *i_start;
        let mut a_stop = it.index();
        let ghost mut k: nat = 0;
        proof {
            lemma_reaches_self(i_start@);
        }
        loop
            invariant
                self.end.ready(),
                k <= i_start@.rest.len(),
                it@ == i_start@.advance(k),
                i_start@.reaches(it@),
                it@.wf(),
                it@.rest == i_start@.rest.skip(k as int),
                a_stop == it@.index(),
                forall|j: int| 0 <= j < k ==> self.a.holds(#[trigger] i_start@.rest[j]),
                forall|j: nat| j < k ==> #[trigger] fails(&self.end, i_start@.advance(j)),
            decreases it@.rest.len(),
        {
            let re = self.end.parse(&it);
            let ghost oe = outcome(re);
            match re {
                Ok((i, v, e)) => {
                    proof {
                        lemma_reaches_span(i_start@, it@);
                        lemma_reaches_trans(i_start@, it@, i@);
                    }
                    let s = i_start.str_to(a_stop);
                    let r: ParseRes<'a, (&'a str, E::Out)> = Ok((i, (s, v), e));
                    proof {
                        assert(i_start@.consumed_to(it@) =~= i_start@.rest.take(k as int));
                        assert(until_via(&self.a, &self.end, i_start@, k, oe, outcome(r)));
                    }
                    return r;
                },
                Err(e1) => {
                    let ghost prev = it@;
                    proof {
                        if prev.rest.len() > 0 {
                            assert(prev.rest[0] == i_start@.rest[k as int]);
                        }
                    }
                    let qualifies = match it.next() {
                        Some(c) => self.a.char_bool(c),
                        None => false,
                    };
                    proof {
                        if prev.rest.len() > 0 {
                            lemma_advance_twice(i_start@, k, 1);
                            assert(prev.advance(1) == prev.step(prev.rest[0]).advance(0));
                        }
                        if prev.rest.len() == 0 {
                            assert(k == i_start@.rest.len());
                            lemma_advance_clamped(i_start@, k + 1);
                        }
                        assert(it@ == i_start@.advance(k + 1));
                    }
                    if qualifies {
                        a_stop = it.index();
                        proof {
                            assert(self.end.yields(prev, Outcome::Failed(e1@)));
                            assert(fails(&self.end, i_start@.advance(k)));
                            lemma_reaches_trans(i_start@, prev, it@);
                            assert(it@.rest =~= i_start@.rest.skip(k as int + 1));
                            k = k + 1;
                        }
                    } else {
                        let r: ParseRes<'a, (&'a str, E::Out)> = Err(
                            e1.join(it.err(self.a.expected())),
                        );
                        proof {
                            assert(until_via(&self.a, &self.end, i_start@, k, oe, outcome(r)));
                        }
                        return r;
                    }
                },
            }
        }
    }
}

} // verus!
