//! The input cursor: a position in a text, with its byte offset, line and column.

use vstd::prelude::*;
use vstd::string::StringSliceAdditionalSpecFns;
use vstd::utf8::encode_utf8;
use crate::err::{Expected, ExpectedView, PErr, PErrView};
use crate::text::{
    byte_len, char_width, lemma_byte_len_concat, lemma_byte_len_is_encoded_len,
    lemma_encode_concat, lemma_encode_injective, lemma_len_le_byte_len, lemma_prefix_is_boundary,
    width,
};

verus! {

/// What a cursor stands for: the text not yet consumed, the number of bytes
/// consumed so far, and the line and column reached.
pub struct Cursor {
    pub rest: Seq<char>,
    pub at: nat,
    pub line: nat,
    pub col: nat,
}

impl Cursor {
    /// The offsets fit the machine, and no more lines and columns were counted
    /// than bytes consumed.
    pub open spec fn wf(self) -> bool {
        &&& self.at + byte_len(self.rest) <= usize::MAX
        &&& self.line + self.col <= self.at
    }

    /// The byte offset of the next character, or `None` at the end of the input.
    pub open spec fn index(self) -> Option<usize> {
        if self.rest.len() == 0 {
            None
        } else {
            Some(self.at as usize)
        }
    }

    /// The cursor after one character `ch` has been consumed.
    pub open spec fn step(self, ch: char) -> Cursor {
        Cursor {
            rest: self.rest.drop_first(),
            at: self.at + width(ch),
            line: if ch == '\n' {
                self.line + 1
            } else {
                self.line
            },
            col: if ch == '\n' {
                0
            } else {
                self.col + 1
            },
        }
    }

    /// The cursor after `k` characters have been consumed, or as many as there are.
    pub open spec fn advance(self, k: nat) -> Cursor
        decreases k,
    {
        if k == 0 || self.rest.len() == 0 {
            self
        } else {
            self.step(self.rest[0]).advance((k - 1) as nat)
        }
    }

    /// `later` is this cursor after some of its characters have been consumed.
    pub open spec fn reaches(self, later: Cursor) -> bool {
        &&& later.rest.len() <= self.rest.len()
        &&& self.advance((self.rest.len() - later.rest.len()) as nat) == later
    }

    /// The characters between this cursor and a `later` one.
    pub open spec fn consumed_to(self, later: Cursor) -> Seq<char> {
        self.rest.take(self.rest.len() - later.rest.len())
    }

    /// The number of leading characters of `s` that end within the first `n` bytes.
    pub open spec fn chars_within(s: Seq<char>, n: int) -> nat
        decreases s.len(),
    {
        if s.len() == 0 || n < width(s[0]) {
            0
        } else {
            1 + Self::chars_within(s.drop_first(), n - width(s[0]))
        }
    }

    /// The byte offset `f` lies at or after this cursor, within the text and
    /// between two characters.
    pub open spec fn is_boundary(self, f: usize) -> bool {
        &&& self.at <= f
        &&& f - self.at == byte_len(self.rest.take(Self::chars_within(self.rest, f - self.at) as int))
    }

    /// The text from this cursor up to the byte offset `id`, or all that is
    /// left where there is no such offset.
    pub open spec fn span_to(self, id: Option<usize>) -> Seq<char> {
        match (self.index(), id) {
            (Some(_), Some(f)) => self.rest.take(Self::chars_within(self.rest, f - self.at) as int),
            _ => self.rest,
        }
    }

    /// The failure record made at this cursor for the description `exp`.
    pub open spec fn err(self, found: Seq<char>, exp: ExpectedView) -> PErrView {
        PErrView {
            exp,
            found,
            line: self.line as usize,
            col: self.col as usize,
            index: self.index(),
            is_break: false,
            child: None,
        }
    }

    /// The failure record made at this cursor for the description `exp`.
    pub open spec fn fail(self, exp: ExpectedView) -> PErrView {
        self.err(self.rest, exp)
    }
}

/// Advancing by at most the number of characters left drops that many.
pub proof fn lemma_advance(c: Cursor, k: nat)
    requires
        k <= c.rest.len(),
    ensures
        c.advance(k).rest == c.rest.skip(k as int),
        c.advance(k).at == c.at + byte_len(c.rest.take(k as int)),
        c.advance(k).line >= c.line,
        c.advance(k).line + c.advance(k).col <= c.line + c.col + k,
        k > 0 ==> c.advance(k).line > c.line || c.advance(k).col > c.col,
        c.advance(k).line == c.line ==> c.advance(k).col == c.col + k,
    decreases k,
{
    if k == 0 {
        assert(c.rest.skip(0) =~= c.rest);
        assert(c.rest.take(0) =~= Seq::<char>::empty());
    } else {
        let n = c.step(c.rest[0]);
        lemma_advance(n, (k - 1) as nat);
        assert(n.rest.skip(k - 1) =~= c.rest.skip(k as int));
        assert(c.rest.take(k as int).drop_first() =~= n.rest.take(k - 1));
        assert(c.rest.take(k as int)[0] == c.rest[0]);
    }
}

/// Advancing twice is advancing once by the sum.
pub proof fn lemma_advance_twice(c: Cursor, j: nat, k: nat)
    requires
        j + k <= c.rest.len(),
    ensures
        c.advance(j).advance(k) == c.advance(j + k),
    decreases j,
{
    if j > 0 {
        lemma_advance_twice(c.step(c.rest[0]), (j - 1) as nat, k);
    }
}

/// Advancing past the end stops at the end.
pub proof fn lemma_advance_clamped(c: Cursor, k: nat)
    requires
        k >= c.rest.len(),
    ensures
        c.advance(k) == c.advance(c.rest.len()),
    decreases c.rest.len(),
{
    if c.rest.len() > 0 {
        lemma_advance_clamped(c.step(c.rest[0]), (k - 1) as nat);
    }
}

/// Every cursor reaches itself.
pub proof fn lemma_reaches_self(c: Cursor)
    ensures
        c.reaches(c),
{
}

/// A cursor with text left reaches the cursor one character on.
pub proof fn lemma_reaches_step(c: Cursor)
    requires
        c.rest.len() > 0,
    ensures
        c.reaches(c.step(c.rest[0])),
{
    assert(c.advance(1) == c.step(c.rest[0]).advance(0));
}

/// What a reached cursor reaches, the first cursor reaches too.
pub proof fn lemma_reaches_trans(a: Cursor, b: Cursor, c: Cursor)
    requires
        a.reaches(b),
        b.reaches(c),
    ensures
        a.reaches(c),
        a.consumed_to(c) == a.consumed_to(b) + b.consumed_to(c),
{
    let j = (a.rest.len() - b.rest.len()) as nat;
    let k = (b.rest.len() - c.rest.len()) as nat;
    lemma_advance_twice(a, j, k);
    lemma_advance(a, j);
    assert(a.consumed_to(c) =~= a.consumed_to(b) + b.consumed_to(c));
}

/// A reached cursor with the same line and column is the same cursor: whoever
/// consumes a character moves on in line or column.
pub proof fn lemma_reaches_same_place(a: Cursor, b: Cursor)
    requires
        a.reaches(b),
    ensures
        (a.line == b.line && a.col == b.col) <==> a == b,
        a.rest.len() == b.rest.len() <==> a == b,
        b.rest == a.rest.skip(a.rest.len() - b.rest.len()),
        b.at == a.at + byte_len(a.consumed_to(b)),
{
    lemma_advance(a, (a.rest.len() - b.rest.len()) as nat);
}

/// The offset of a reached cursor is a boundary for the first one, and the
/// text up to it is what lies between the two.
pub proof fn lemma_reaches_span(a: Cursor, b: Cursor)
    requires
        a.reaches(b),
        b.wf(),
    ensures
        b.index() matches Some(f) ==> a.is_boundary(f),
        a.span_to(b.index()) == a.consumed_to(b),
{
    lemma_reaches_same_place(a, b);
    let k = a.rest.len() - b.rest.len();
    if b.rest.len() > 0 {
        lemma_chars_within(a.rest, k);
    } else {
        assert(a.rest.take(k) =~= a.rest);
    }
}

/// The span between a cursor and one that it reaches runs forward: its start
/// is not behind its end, and behind the end of the input nothing starts.
pub proof fn lemma_span_runs_forward(a: Cursor, b: Cursor)
    requires
        a.reaches(b),
        a.wf(),
        b.wf(),
    ensures
        match (a.index(), b.index()) {
            (Some(s), Some(f)) => s <= f,
            (None, Some(_)) => false,
            _ => true,
        },
        a.index() == b.index() <==> a == b || a.rest.len() == 0,
{
    lemma_reaches_same_place(a, b);
    crate::text::lemma_len_le_byte_len(a.consumed_to(b));
    lemma_byte_len_concat(a.consumed_to(b), b.rest);
    assert(a.rest =~= a.consumed_to(b) + b.rest);
}

/// Counting the characters within the bytes of the first `k` characters
/// gives `k`, where a character follows them.
pub proof fn lemma_chars_within(s: Seq<char>, k: int)
    requires
        0 <= k < s.len(),
    ensures
        Cursor::chars_within(s, byte_len(s.take(k)) as int) == k,
    decreases k,
{
    if k == 0 {
        assert(s.take(0) =~= Seq::<char>::empty());
    } else {
        assert(s.take(k).drop_first() =~= s.drop_first().take(k - 1));
        assert(s.take(k)[0] == s[0]);
        lemma_chars_within(s.drop_first(), k - 1);
    }
}

/// No more characters are counted than there are.
pub proof fn lemma_chars_within_bound(s: Seq<char>, n: int)
    ensures
        Cursor::chars_within(s, n) <= s.len(),
    decreases s.len(),
{
    if !(s.len() == 0 || n < width(s[0])) {
        lemma_chars_within_bound(s.drop_first(), n - width(s[0]));
    }
}

/// The first character of `s` and the text behind it, or `None` where `s` is
/// empty.
fn split_first<'a>(s: &'a str) -> (r: Option<(char, &'a str)>)
    ensures
        s@.len() == 0 ==> r is None,
        s@.len() > 0 ==> (r matches Some(p) && p.0 == s@[0] && p.1@ == s@.drop_first()),
{
    let mut it = s.chars();
    match it.next() {
        None => None,
        Some(ch) => {
            let w = char_width(ch);
            proof {
                let head = s@.take(1);
                let tail = s@.drop_first();
                assert(head[0] == ch);
                assert(head.drop_first() =~= Seq::<char>::empty());
                assert(byte_len(head.drop_first()) == 0);
                assert(byte_len(head) == width(ch));
                lemma_prefix_is_boundary(s@, 1);
                lemma_byte_len_is_encoded_len(s@);
            }
            let (_, rest) = s.split_at(w);
            proof {
                let head = s@.take(1);
                let tail = s@.drop_first();
                assert(s@ =~= head + tail);
                lemma_encode_concat(head, tail);
                lemma_byte_len_is_encoded_len(head);
                assert(encode_utf8(s@).subrange(w as int, encode_utf8(s@).len() as int)
                    =~= encode_utf8(tail));
                lemma_encode_injective(rest@, tail);
            }
            Some((ch, rest))
        },
    }
}

/// A position in a text. Cheap to duplicate; advancing a duplicate leaves the
/// original where it was.
#[derive(Debug, Clone, Copy)]
pub struct PIter<'a> {
    rest: &'a str,
    at: usize,
    l: usize,
    c: usize,
}

impl<'a> View for PIter<'a> {
    type V = Cursor;

    closed spec fn view(&self) -> Cursor {
        Cursor { rest: self.rest@, at: self.at as nat, line: self.l as nat, col: self.c as nat }
    }
}

impl<'a> PIter<'a> {
    #[verifier::type_invariant]
    spec fn inv(self) -> bool {
        &&& self.l + self.c <= self.at
        &&& self.at + byte_len(self.rest@) <= usize::MAX
    }

    /// A cursor at the start of `s`.
    pub fn new(s: &'a str) -> (r: Self)
        ensures
            r@ == (Cursor { rest: s@, at: 0, line: 0, col: 0 }),
            r@.wf(),
    {
        let n = s.as_bytes().len();
        proof {
            lemma_byte_len_is_encoded_len(s@);
        }
        PIter { rest: s, at: 0, l: 0, c: 0 }
    }

    /// The text not yet consumed.
    pub fn as_str(&self) -> (r: &'a str)
        ensures
            r@ == self@.rest,
    {
        self.rest
    }

    /// Whether no text is left.
    pub fn eoi(&self) -> (r: bool)
        ensures
            r == (self@.rest.len() == 0),
    {
        self.rest.is_empty()
    }

    /// The text from this cursor up to the byte offset `id`, or all that is
    /// left where `id` is `None` or the cursor is at the end.
    pub fn str_to(&self, id: Option<usize>) -> (r: &'a str)
        requires
            id matches Some(f) ==> self@.is_boundary(f),
        ensures
            r@ == self@.span_to(id),
    {
        proof {
            use_type_invariant(self);
        }
        match (self.index(), id) {
            (Some(s), Some(f)) => {
                let ghost k = Cursor::chars_within(self.rest@, f - s) as int;
                proof {
                    lemma_chars_within_bound(self.rest@, f - s);
                    lemma_prefix_is_boundary(self.rest@, k);
                    lemma_byte_len_is_encoded_len(self.rest@);
                }
                let (head, _) = self.rest.split_at(f - s);
                proof {
                    let t = self.rest@;
                    assert(t =~= t.take(k) + t.skip(k));
                    lemma_encode_concat(t.take(k), t.skip(k));
                    lemma_byte_len_is_encoded_len(t.take(k));
                    assert(encode_utf8(t).subrange(0, f - s) =~= encode_utf8(t.take(k)));
                    lemma_encode_injective(head@, t.take(k));
                }
                head
            },
            _ => self.rest,
        }
    }

    /// The failure record for `exp` at this cursor.
    pub fn err(&self, exp: Expected) -> (r: PErr<'a>)
        ensures
            r@ == self@.fail(exp@),
    {
        let index = self.index();
        PErr { exp, found: self.rest, index, line: self.l, col: self.c, is_break: false, child: None }
    }

    /// The failure record at this cursor for a matcher known by the name `s`.
    pub fn err_s(&self, s: &'static str) -> (r: PErr<'a>)
        ensures
            r@ == self@.fail(ExpectedView::Str(s@)),
    {
        self.err(Expected::Str(s))
    }

    /// The failure at this cursor for a matcher known by the name `s`.
    pub fn err_rs<V>(&self, s: &'static str) -> (r: Result<V, PErr<'a>>)
        ensures
            r matches Err(e) && e@ == self@.fail(ExpectedView::Str(s@)),
    {
        Err(self.err_s(s))
    }

    /// The failure for `e` at this cursor.
    pub fn err_r<V>(&self, e: Expected) -> (r: Result<V, PErr<'a>>)
        ensures
            r matches Err(x) && x@ == self@.fail(e@),
    {
        Err(self.err(e))
    }

    /// The line and column reached.
    pub fn lc(&self) -> (r: (usize, usize))
        ensures
            r.0 == self@.line,
            r.1 == self@.col,
            self@.wf(),
    {
        proof {
            use_type_invariant(self);
        }
        (self.l, self.c)
    }

    /// The byte offset of the next character, or `None` at the end of the input.
    pub fn index(&self) -> (r: Option<usize>)
        ensures
            r == self@.index(),
            self@.wf(),
    {
        proof {
            use_type_invariant(self);
        }
        if self.rest.is_empty() {
            None
        } else {
            Some(self.at)
        }
    }

    /// Consumes one character and returns it with its byte offset, without
    /// counting lines and columns. At the end of the input, returns `None` and
    /// leaves the cursor as it is.
    pub fn next_i(&mut self) -> (r: Option<(usize, char)>)
        ensures
            old(self)@.rest.len() == 0 ==> r.is_none() && final(self)@ == old(self)@,
            old(self)@.rest.len() > 0 ==> r == Some((old(self)@.at as usize, old(self)@.rest[0]))
                && final(self)@ == (Cursor {
                rest: old(self)@.rest.drop_first(),
                at: old(self)@.at + width(old(self)@.rest[0]),
                ..old(self)@
            }),
    {
        proof {
            use_type_invariant(&*self);
        }
        match split_first(self.rest) {
            None => None,
            Some((ch, tail)) => {
                let w = char_width(ch);
                let at = self.at;
                *self = PIter { rest: tail, at: at + w, l: self.l, c: self.c };
                Some((at, ch))
            },
        }
    }

    /// Consumes one character and returns it, counting lines and columns: a
    /// newline starts a new line at column zero, any other character moves
    /// one column on. At the end of the input, returns `None` and leaves the
    /// cursor as it is.
    pub fn next(&mut self) -> (r: Option<char>)
        ensures
            old(self)@.rest.len() == 0 ==> r.is_none() && final(self)@ == old(self)@,
            old(self)@.rest.len() > 0 ==> r == Some(old(self)@.rest[0]) && final(self)@ == old(
                self,
            )@.step(old(self)@.rest[0]),
            old(self)@.reaches(final(self)@),
            old(self)@.wf(),
            final(self)@.wf(),
    {
        proof {
            use_type_invariant(&*self);
            lemma_reaches_self(self@);
            if self@.rest.len() > 0 {
                lemma_reaches_step(self@);
            }
        }
        match split_first(self.rest) {
            None => None,
            Some((ch, tail)) => {
                let w = char_width(ch);
                proof {
                    lemma_len_le_byte_len(tail@);
                }
                if ch == '\n' {
                    *self = PIter { rest: tail, at: self.at + w, l: self.l + 1, c: 0 };
                } else {
                    *self = PIter { rest: tail, at: self.at + w, l: self.l, c: self.c + 1 };
                }
                Some(ch)
            },
        }
    }
}

impl<'a> PIter<'a> {
    /// A second cursor at the same place. Advancing either leaves the other
    /// where it is.
    pub fn duplicate(&self) -> (r: Self)
        ensures
            r@ == self@,
    {
        *self
    }

    /// The next character, which stays unconsumed: the cursor is left as it is.
    pub fn peek_char(&mut self) -> (r: Option<char>)
        ensures
            final(self)@ == old(self)@,
            r == (if old(self)@.rest.len() > 0 {
                Some(old(self)@.rest[0])
            } else {
                None
            }),
    {
        let mut ahead = self.duplicate();
        ahead.next()
    }
}

/// Matches nothing and hands back the byte offset of the cursor.
pub fn index<'a>(it: &PIter<'a>) -> (r: Result<(PIter<'a>, Option<usize>, Option<PErr<'a>>), PErr<'a>>)
    ensures
        r matches Ok(t) && t.0@ == it@ && t.1 == it@.index() && t.2 is None,
{
    return Ok((*it, it.index(), None));
}

/// Matches nothing and hands back the line and column of the cursor.
pub fn line_col<'a>(it: &PIter<'a>) -> (r: Result<
    (PIter<'a>, (usize, usize), Option<PErr<'a>>),
    PErr<'a>,
>)
    ensures
        r matches Ok(t) && t.0@ == it@ && t.1.0 == it@.line && t.1.1 == it@.col && t.2 is None,
{
    return Ok((*it, it.lc(), None));
}

} // verus!
