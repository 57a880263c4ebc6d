//! What a matcher was looking for, and the record of a failed match.

use std::cmp::Ordering;
use vstd::prelude::*;
use vstd::string::StringExecFns;
use crate::iter::{lemma_reaches_self, lemma_reaches_span, lemma_reaches_trans, PIter};
use crate::text::push_char;

verus! {

/// A description of what a matcher was looking for.
#[derive(Hash, Debug, PartialEq, Eq)]
pub enum Expected {
    /// Nothing: the identity of `join`.
    Nil,
    /// The end of the input.
    EOI,
    /// Anything but what is described.
    Not(Box<Expected>),
    /// The one character.
    Char(char),
    /// A character of the set of this name.
    CharIn(&'static str),
    /// What goes by this name.
    Str(&'static str),
    /// One of the things described, in their order.
    OneOf(Vec<Expected>),
    /// A keyword: no character of the kind described may follow it.
    Keyword(Box<Expected>),
}

/// The mathematical value of an [`Expected`].
pub enum ExpectedView {
    Nil,
    EOI,
    Not(Box<ExpectedView>),
    Char(char),
    CharIn(Seq<char>),
    Str(Seq<char>),
    OneOf(Seq<ExpectedView>),
    Keyword(Box<ExpectedView>),
}

impl ExpectedView {
    /// The alternatives that this description lists: none for `Nil`, the
    /// members of a `OneOf`, and otherwise the description itself.
    pub open spec fn members(self) -> Seq<ExpectedView> {
        match self {
            ExpectedView::Nil => Seq::empty(),
            ExpectedView::OneOf(v) => v,
            e => seq![e],
        }
    }

    /// The combination of two descriptions. `Nil` is the identity; two lists
    /// are concatenated; a single description is appended to a list; two
    /// single descriptions make a list of two.
    pub open spec fn join(self, b: ExpectedView) -> ExpectedView {
        match (self, b) {
            (ExpectedView::OneOf(ae), ExpectedView::OneOf(be)) => ExpectedView::OneOf(ae + be),
            (ExpectedView::OneOf(ae), ExpectedView::Nil) => ExpectedView::OneOf(ae),
            (ExpectedView::OneOf(ae), x) => ExpectedView::OneOf(ae.push(x)),
            (ExpectedView::Nil, ExpectedView::OneOf(ae)) => ExpectedView::OneOf(ae),
            (x, ExpectedView::OneOf(ae)) => ExpectedView::OneOf(ae.push(x)),
            (ExpectedView::Nil, x) => x,
            (x, ExpectedView::Nil) => x,
            (x, y) => ExpectedView::OneOf(seq![x, y]),
        }
    }

    /// `b` where `a` says nothing, else `a`.
    pub open spec fn first(a: ExpectedView, b: ExpectedView) -> ExpectedView {
        if a is Nil {
            b
        } else {
            a
        }
    }

    /// No member of this description is itself a list.
    pub open spec fn is_flat(self) -> bool {
        forall|i: int| 0 <= i < self.members().len() ==> !(#[trigger] self.members()[i] is OneOf)
    }
}

impl Expected {
    /// The mathematical value of this description.
    pub open spec fn value(&self) -> ExpectedView
        decreases self,
    {
        match self {
            Expected::Nil => ExpectedView::Nil,
            Expected::EOI => ExpectedView::EOI,
            Expected::Not(e) => ExpectedView::Not(Box::new(e.value())),
            Expected::Char(c) => ExpectedView::Char(*c),
            Expected::CharIn(s) => ExpectedView::CharIn(s@),
            Expected::Str(s) => ExpectedView::Str(s@),
            Expected::OneOf(v) => ExpectedView::OneOf(
                Seq::new(
                    v@.len(),
                    |i: int|
                        if 0 <= i < v@.len() {
                            v@[i].value()
                        } else {
                            ExpectedView::Nil
                        },
                ),
            ),
            Expected::Keyword(e) => ExpectedView::Keyword(Box::new(e.value())),
        }
    }
}

impl View for Expected {
    type V = ExpectedView;

    open spec fn view(&self) -> ExpectedView {
        self.value()
    }
}

/// The values of the items of `v`, in order.
pub open spec fn views_of(v: Seq<Expected>) -> Seq<ExpectedView> {
    Seq::new(v.len(), |i: int| v[i]@)
}

/// The value of a list is the list of its items' values.
pub proof fn lemma_one_of_view(v: Vec<Expected>)
    ensures
        Expected::OneOf(v)@ == ExpectedView::OneOf(views_of(v@)),
{
    assert(Expected::OneOf(v)@->OneOf_0 =~= views_of(v@));
}

impl Clone for Expected {
    fn clone(&self) -> (r: Self)
        ensures
            r@ == self@,
    {
        self.duplicate()
    }
}

impl Expected {
    /// A copy of this description.
    pub fn duplicate(&self) -> (r: Self)
        ensures
            r@ == self@,
        decreases self,
    {
        match self {
            Expected::Nil => Expected::Nil,
            Expected::EOI => Expected::EOI,
            Expected::Not(e) => Expected::Not(Box::new(e.duplicate())),
            Expected::Char(c) => Expected::Char(*c),
            Expected::CharIn(s) => Expected::CharIn(*s),
            Expected::Str(s) => Expected::Str(*s),
            Expected::OneOf(v) => {
                let mut out: Vec<Expected> = Vec::new();
                let mut i: usize = 0;
                while i < v.len()
                    invariant
                        i <= v.len(),
                        out@.len() == i,
                        self is OneOf,
                        self->OneOf_0 == *v,
                        forall|j: int| 0 <= j < i ==> out@[j]@ == v@[j]@,
                    decreases v.len() - i,
                {
                    proof {
                        vstd::std_specs::vec::axiom_vec_index_decreases(*v, i as int);
                        assert(decreases_to!(*self => self->OneOf_0));
                    }
                    out.push(v[i].duplicate());
                    i += 1;
                }
                proof {
                    lemma_one_of_view(out);
                    lemma_one_of_view(*v);
                    assert(views_of(out@) =~= views_of(v@));
                }
                Expected::OneOf(out)
            },
            Expected::Keyword(e) => Expected::Keyword(Box::new(e.duplicate())),
        }
    }

    /// Whether this description says nothing.
    pub fn is_nil(&self) -> (r: bool)
        ensures
            r == (self@ is Nil),
    {
        match self {
            Expected::Nil => true,
            _ => false,
        }
    }

    /// Combines two descriptions into one that lists the alternatives of both.
    pub fn join(self, b: Self) -> (r: Self)
        ensures
            r@ == self@.join(b@),
    {
        match self {
            Expected::OneOf(mut ae) => {
                proof {
                    lemma_one_of_view(ae);
                }
                let ghost ae0 = ae@;
                match b {
                    Expected::OneOf(mut be) => {
                        proof {
                            lemma_one_of_view(be);
                        }
                        let ghost be0 = be@;
                        ae.append(&mut be);
                        proof {
                            lemma_one_of_view(ae);
                            assert(views_of(ae@) =~= views_of(ae0) + views_of(be0));
                        }
                        Expected::OneOf(ae)
                    },
                    Expected::Nil => Expected::OneOf(ae),
                    x => {
                        ae.push(x);
                        proof {
                            lemma_one_of_view(ae);
                            assert(views_of(ae@) =~= views_of(ae0).push(x@));
                        }
                        Expected::OneOf(ae)
                    },
                }
            },
            Expected::Nil => b,
            a => match b {
                Expected::OneOf(mut ae) => {
                    proof {
                        lemma_one_of_view(ae);
                    }
                    let ghost ae0 = ae@;
                    ae.push(a);
                    proof {
                        lemma_one_of_view(ae);
                        assert(views_of(ae@) =~= views_of(ae0).push(a@));
                    }
                    Expected::OneOf(ae)
                },
                Expected::Nil => a,
                y => {
                    let ghost av = a@;
                    let ghost yv = y@;
                    let mut v: Vec<Expected> = Vec::new();
                    v.push(a);
                    v.push(y);
                    proof {
                        lemma_one_of_view(v);
                        assert(views_of(v@) =~= seq![av, yv]);
                    }
                    Expected::OneOf(v)
                },
            },
        }
    }

    /// `b` where `a` says nothing, else `a`.
    pub fn first(a: Self, b: Self) -> (r: Self)
        ensures
            r@ == ExpectedView::first(a@, b@),
            r == (if a@ is Nil { b } else { a }),
    {
        if a.is_nil() {
            b
        } else {
            a
        }
    }
}

/// `Nil` is the identity of `join`, on both sides.
pub proof fn lemma_join_identity(e: ExpectedView)
    ensures
        ExpectedView::Nil.join(e) == e,
        e.join(ExpectedView::Nil) == e,
{
}

/// The members of a combination are the members of its two sides: `join`
/// flattens, so that the way three descriptions are grouped changes neither
/// which members the result lists nor how often, and no list comes to stand
/// inside a list.
pub proof fn lemma_join_members(a: ExpectedView, b: ExpectedView)
    ensures
        a.join(b).members().to_multiset() == a.members().to_multiset().add(
            b.members().to_multiset(),
        ),
        a.is_flat() && b.is_flat() ==> a.join(b).is_flat(),
{
    vstd::seq_lib::lemma_multiset_commutative(a.members(), b.members());
    vstd::seq_lib::lemma_multiset_commutative(b.members(), a.members());
    assert(a.members() + Seq::<ExpectedView>::empty() =~= a.members());
    assert(Seq::<ExpectedView>::empty() + b.members() =~= b.members());
    match (a, b) {
        (ExpectedView::OneOf(ae), ExpectedView::OneOf(be)) => {},
        (ExpectedView::OneOf(ae), ExpectedView::Nil) => {},
        (ExpectedView::OneOf(ae), x) => {
            assert(ae.push(x) =~= ae + seq![x]);
        },
        (ExpectedView::Nil, ExpectedView::OneOf(ae)) => {},
        (x, ExpectedView::OneOf(ae)) => {
            assert(ae.push(x) =~= ae + seq![x]);
        },
        (ExpectedView::Nil, x) => {},
        (x, ExpectedView::Nil) => {},
        (x, y) => {
            assert(seq![x, y] =~= seq![x] + seq![y]);
        },
    }
}

/// Grouping to the left or to the right gives the same members, each as often.
pub proof fn lemma_join_associative(a: ExpectedView, b: ExpectedView, c: ExpectedView)
    ensures
        a.join(b).join(c).members().to_multiset() == a.join(b.join(c)).members().to_multiset(),
        a.is_flat() && b.is_flat() && c.is_flat() ==> a.join(b).join(c).is_flat() && a.join(
            b.join(c),
        ).is_flat(),
{
    lemma_join_members(a, b);
    lemma_join_members(a.join(b), c);
    lemma_join_members(b, c);
    lemma_join_members(a, b.join(c));
    let ma = a.members().to_multiset();
    let mb = b.members().to_multiset();
    let mc = c.members().to_multiset();
    assert(ma.add(mb).add(mc) =~= ma.add(mb.add(mc)));
}

/// The record of a failed match: what was looked for, the text found, the
/// place, whether alternatives may still be tried, and a nested cause.
#[derive(Debug, PartialEq)]
pub struct PErr<'a> {
    /// What was looked for.
    pub exp: Expected,
    /// The input from the place of the failure on.
    pub found: &'a str,
    /// The line of the failure, counted from zero.
    pub line: usize,
    /// The column of the failure, counted from zero.
    pub col: usize,
    /// The byte offset of the failure, or `None` at the end of the input.
    pub index: Option<usize>,
    /// Whether the failure stops the alternations it passes through.
    pub is_break: bool,
    /// The failure that this one took in as its cause.
    pub child: Option<Box<Self>>,
}

/// The mathematical value of a [`PErr`] or a [`StrungError`].
pub struct PErrView {
    pub exp: ExpectedView,
    pub found: Seq<char>,
    pub line: usize,
    pub col: usize,
    pub index: Option<usize>,
    pub is_break: bool,
    pub child: Option<Box<PErrView>>,
}

/// `a` lies further into the input than `b`. The end of the input, `None`,
/// lies further than any offset.
pub open spec fn further(a: Option<usize>, b: Option<usize>) -> bool {
    match (a, b) {
        (Some(x), Some(y)) => x > y,
        (None, Some(_)) => true,
        _ => false,
    }
}

/// The number of records in the chain of causes that starts at `e`.
pub open spec fn chain_len(e: Option<Box<PErrView>>) -> nat
    decreases e,
{
    match e {
        None => 0,
        Some(x) => 1 + chain_len(x.child),
    }
}

impl PErrView {
    /// The number of records in this record's chain of causes, itself included.
    pub open spec fn links(self) -> nat {
        1 + chain_len(self.child)
    }

    /// The record that lies further into the input; where both lie at the same
    /// place, the first with the descriptions joined and the causes chained.
    pub open spec fn longer(self, b: PErrView) -> PErrView {
        if further(self.index, b.index) {
            self
        } else if further(b.index, self.index) {
            b
        } else {
            PErrView { exp: self.exp.join(b.exp), child: chained(self.child, b.child), ..self }
        }
    }

    /// As `longer`, but the record that lies less far is kept, in the chain of
    /// causes of the other.
    pub open spec fn join(self, b: PErrView) -> PErrView
        decreases self.links() + b.links(), 0nat,
    {
        if further(self.index, b.index) {
            PErrView { child: chained(self.child, Some(Box::new(b))), ..self }
        } else if further(b.index, self.index) {
            PErrView { child: chained(b.child, Some(Box::new(self))), ..b }
        } else {
            PErrView { exp: self.exp.join(b.exp), child: chained(self.child, b.child), ..self }
        }
    }

    /// The same record, marked so that no alternative is tried after it.
    pub open spec fn brk(self) -> PErrView {
        PErrView { is_break: true, ..self }
    }
}

/// The chain of causes made of two: the one that is there, or both joined.
pub open spec fn chained(a: Option<Box<PErrView>>, b: Option<Box<PErrView>>) -> Option<
    Box<PErrView>,
>
    decreases chain_len(a) + chain_len(b), 1nat,
{
    match (a, b) {
        (Some(ac), Some(bc)) => Some(Box::new((*ac).join(*bc))),
        (None, b) => b,
        (a, None) => a,
    }
}

impl<'a> PErr<'a> {
    /// The mathematical value of this record.
    pub open spec fn value(&self) -> PErrView
        decreases self,
    {
        PErrView {
            exp: self.exp@,
            found: self.found@,
            line: self.line,
            col: self.col,
            index: self.index,
            is_break: self.is_break,
            child: match self.child {
                None => None,
                Some(c) => Some(Box::new(c.value())),
            },
        }
    }
}

impl<'a> View for PErr<'a> {
    type V = PErrView;

    open spec fn view(&self) -> PErrView {
        self.value()
    }
}

/// The value of an optional cause.
pub open spec fn child_view<'a>(c: Option<Box<PErr<'a>>>) -> Option<Box<PErrView>> {
    match c {
        None => None,
        Some(x) => Some(Box::new(x@)),
    }
}

/// The value of an optional record.
pub open spec fn opt_view<'a>(c: Option<PErr<'a>>) -> Option<PErrView> {
    match c {
        None => None,
        Some(x) => Some(x@),
    }
}

fn compare_index(a: &Option<usize>, b: &Option<usize>) -> (r: Ordering)
    ensures
        (r is Greater) == further(*a, *b),
        (r is Less) == further(*b, *a),
{
    match (a, b) {
        (Some(x), Some(y)) => {
            if *x < *y {
                Ordering::Less
            } else if *x > *y {
                Ordering::Greater
            } else {
                Ordering::Equal
            }
        },
        (Some(_), None) => Ordering::Less,
        (None, Some(_)) => Ordering::Greater,
        _ => Ordering::Equal,
    }
}

fn join_children<'a>(a: Option<Box<PErr<'a>>>, b: Option<Box<PErr<'a>>>) -> (r: Option<
    Box<PErr<'a>>,
>)
    ensures
        child_view(r) == chained(child_view(a), child_view(b)),
    decreases chain_len(child_view(a)) + chain_len(child_view(b)), 1nat,
{
    match a {
        None => b,
        Some(ac) => match b {
            None => Some(ac),
            Some(bc) => Some(Box::new((*ac).join(*bc))),
        },
    }
}

impl<'a> PErr<'a> {
    /// Keeps the record that lies further into the input. Where both lie at
    /// the same place, joins their descriptions and chains their causes.
    pub fn longer(self, b: Self) -> (r: Self)
        ensures
            r@ == self@.longer(b@),
    {
        match compare_index(&self.index, &b.index) {
            Ordering::Greater => self,
            Ordering::Less => b,
            _ => {
                let PErr { exp, found, line, col, index, is_break, child } = self;
                let PErr { exp: b_exp, child: b_child, .. } = b;
                PErr {
                    exp: exp.join(b_exp),
                    found,
                    line,
                    col,
                    index,
                    is_break,
                    child: join_children(child, b_child),
                }
            },
        }
    }

    /// Marks the record so that no alternative is tried after it.
    pub fn brk(self) -> (r: Self)
        ensures
            r@ == self@.brk(),
    {
        let PErr { exp, found, line, col, index, is_break: _, child } = self;
        PErr { exp, found, line, col, index, is_break: true, child }
    }

    /// Keeps both records: the one that lies further into the input takes the
    /// other into its chain of causes. Where both lie at the same place, joins
    /// their descriptions and chains their causes.
    pub fn join(self, b: Self) -> (r: Self)
        ensures
            r@ == self@.join(b@),
        decreases self@.links() + b@.links(), 0nat,
    {
        match compare_index(&self.index, &b.index) {
            Ordering::Greater => {
                let PErr { exp, found, line, col, index, is_break, child } = self;
                PErr {
                    exp,
                    found,
                    line,
                    col,
                    index,
                    is_break,
                    child: join_children(child, Some(Box::new(b))),
                }
            },
            Ordering::Less => {
                let PErr { exp, found, line, col, index, is_break, child } = b;
                PErr {
                    exp,
                    found,
                    line,
                    col,
                    index,
                    is_break,
                    child: join_children(child, Some(Box::new(self))),
                }
            },
            _ => {
                let PErr { exp, found, line, col, index, is_break, child } = self;
                let PErr { exp: b_exp, child: b_child, .. } = b;
                PErr {
                    exp: exp.join(b_exp),
                    found,
                    line,
                    col,
                    index,
                    is_break,
                    child: join_children(child, b_child),
                }
            },
        }
    }
}

/// `longer` keeps the record that lies further into the input, the end of the
/// input lying furthest; of two records at the same place it keeps the place
/// and describes what either looked for.
pub proof fn lemma_longer_keeps_further(a: PErrView, b: PErrView)
    ensures
        further(a.index, b.index) ==> a.longer(b) == a,
        further(b.index, a.index) ==> a.longer(b) == b,
        a.index == b.index ==> a.longer(b).index == a.index && a.longer(b).exp == a.exp.join(b.exp),
        a.longer(b).index == a.index || a.longer(b).index == b.index,
        !further(a.index, a.longer(b).index),
        !further(b.index, a.longer(b).index),
        a.longer(b).index == b.longer(a).index,
{
}

/// `join` reports the place that `longer` reports, and the same description.
pub proof fn lemma_join_agrees_with_longer(a: PErrView, b: PErrView)
    ensures
        a.join(b).index == a.longer(b).index,
        a.join(b).exp == a.longer(b).exp,
        a.join(b).is_break == a.longer(b).is_break,
{
}

/// The start of `s` that a failure record shows: all but the last of its
/// first ten characters, or the word `EOI` where `s` is empty.
pub open spec fn shown_start(s: Seq<char>) -> Seq<char> {
    if s.len() == 0 {
        "EOI"@
    } else if s.len() < 10 {
        s.take(s.len() - 1)
    } else {
        s.take(9)
    }
}

/// The start of `s` that a failure record shows.
pub fn read_10<'a>(s: &'a str) -> (r: &'a str)
    ensures
        r@ == shown_start(s@),
{
    let start = PIter::new(s);
    let mut it = start;
    let mut n: Option<usize> = None;
    let mut count: usize = 0;
    let mut ended = false;
    proof {
        lemma_reaches_self(start@);
    }
    while count < 10 && !ended
        invariant
            count <= 10,
            ended ==> it@.rest.len() == 0,
            count <= s@.len(),
            start@.rest == s@,
            start@.reaches(it@),
            it@ == start@.advance(count as nat),
            it@.rest == s@.skip(count as int),
            count == 0 ==> n is None,
            count > 0 ==> n is Some && start@.is_boundary(n->0) && start@.span_to(n) == s@.take(
                count - 1,
            ),
        decreases 10 - count + (if ended { 0int } else { 1int }),
    {
        let before = it;
        let idx = it.index();
        match it.next() {
            Some(_) => {
                proof {
                    lemma_reaches_span(start@, before@);
                    lemma_reaches_trans(start@, before@, it@);
                    crate::iter::lemma_advance_twice(start@, count as nat, 1);
                    assert(before@.advance(1) == before@.step(before@.rest[0]).advance(0));
                    assert(it@.rest =~= s@.skip(count + 1));
                    assert(start@.consumed_to(before@) =~= s@.take(count as int));
                }
                n = idx;
                count += 1;
            },
            None => {
                ended = true;
            },
        }
    }
    match n {
        Some(_) => start.str_to(n),
        None => "EOI",
    }
}

/// The decimal digits of `n`.
pub open spec fn decimal(n: nat) -> Seq<char>
    decreases n,
{
    if n < 10 {
        seq![digit_of(n)]
    } else {
        decimal(n / 10).push(digit_of(n % 10))
    }
}

/// The character of the digit `d`.
pub open spec fn digit_of(d: nat) -> char {
    if d == 0 {
        '0'
    } else if d == 1 {
        '1'
    } else if d == 2 {
        '2'
    } else if d == 3 {
        '3'
    } else if d == 4 {
        '4'
    } else if d == 5 {
        '5'
    } else if d == 6 {
        '6'
    } else if d == 7 {
        '7'
    } else if d == 8 {
        '8'
    } else {
        '9'
    }
}

/// The character of the digit `d`.
fn digit_char(d: usize) -> (c: char)
    requires
        d < 10,
    ensures
        c == digit_of(d as nat),
{
    if d == 0 {
        '0'
    } else if d == 1 {
        '1'
    } else if d == 2 {
        '2'
    } else if d == 3 {
        '3'
    } else if d == 4 {
        '4'
    } else if d == 5 {
        '5'
    } else if d == 6 {
        '6'
    } else if d == 7 {
        '7'
    } else if d == 8 {
        '8'
    } else {
        '9'
    }
}

/// Appends the decimal digits of `n` to `out`.
pub fn push_decimal(out: &mut String, n: usize)
    ensures
        final(out)@ == old(out)@ + decimal(n as nat),
    decreases n,
{
    if n >= 10 {
        push_decimal(out, n / 10);
    }
    push_char(out, digit_char(n % 10));
    proof {
        if n >= 10 {
            assert(final(out)@ =~= old(out)@ + decimal(n as nat));
        } else {
            assert(final(out)@ =~= old(out)@ + decimal(n as nat));
        }
    }
}

/// The text of an offset: its digits, or the word `EOI` for the end of the input.
pub open spec fn shown_index(index: Option<usize>) -> Seq<char> {
    match index {
        Some(n) => decimal(n as nat),
        None => "EOI"@,
    }
}

/// Appends the text of an offset to `out`.
fn push_index(out: &mut String, index: Option<usize>)
    ensures
        final(out)@ == old(out)@ + shown_index(index),
{
    match index {
        Some(n) => push_decimal(out, n),
        None => out.append("EOI"),
    }
}

impl ExpectedView {
    /// The text of a description.
    pub open spec fn shown(self) -> Seq<char>
        decreases self,
    {
        match self {
            ExpectedView::Nil => "NIL"@,
            ExpectedView::EOI => "EOI"@,
            ExpectedView::Not(b) => "Not("@ + b.shown() + ")"@,
            ExpectedView::Char(c) => seq![c],
            ExpectedView::CharIn(s) => "Char In '"@ + s + "'"@,
            ExpectedView::Str(s) => s,
            ExpectedView::Keyword(s) => "keyword "@ + s.shown(),
            ExpectedView::OneOf(v) => "One of ["@ + Self::shown_list(v, v.len()) + "]"@,
        }
    }

    /// The texts of the first `n` descriptions of `v`, with ` , ` between them.
    pub open spec fn shown_list(v: Seq<ExpectedView>, n: nat) -> Seq<char>
        decreases v, n,
    {
        if n == 0 || n > v.len() {
            Seq::empty()
        } else if n == 1 {
            v[0].shown()
        } else {
            Self::shown_list(v, (n - 1) as nat) + " , "@ + v[n - 1].shown()
        }
    }
}

impl Expected {
    /// Appends the text of this description to `out`.
    pub fn write_to(&self, out: &mut String)
        ensures
            final(out)@ == old(out)@ + self@.shown(),
        decreases self,
    {
        let ghost start = out@;
        match self {
            Expected::Nil => out.append("NIL"),
            Expected::EOI => out.append("EOI"),
            Expected::Not(b) => {
                out.append("Not(");
                b.write_to(out);
                out.append(")");
                proof {
                    assert(out@ =~= start + ("Not("@ + b@.shown() + ")"@));
                }
            },
            Expected::Char(c) => {
                push_char(out, *c);
                proof {
                    assert(out@ =~= start + seq![*c]);
                }
            },
            Expected::CharIn(s) => {
                out.append("Char In '");
                out.append(s);
                out.append("'");
                proof {
                    assert(out@ =~= start + ("Char In '"@ + s@ + "'"@));
                }
            },
            Expected::Str(s) => out.append(s),
            Expected::Keyword(s) => {
                out.append("keyword ");
                s.write_to(out);
                proof {
                    assert(out@ =~= start + ("keyword "@ + s@.shown()));
                }
            },
            Expected::OneOf(v) => {
                out.append("One of [");
                let ghost vs = views_of(v@);
                proof {
                    lemma_one_of_view(*v);
                }
                let mut i: usize = 0;
                while i < v.len()
                    invariant
                        i <= v.len(),
                        vs == views_of(v@),
                        self is OneOf,
                        self->OneOf_0 == *v,
                        out@ == start + "One of ["@ + ExpectedView::shown_list(vs, i as nat),
                    decreases v.len() - i,
                {
                    let ghost before = out@;
                    if i > 0 {
                        out.append(" , ");
                    }
                    proof {
                        assert(decreases_to!(*self => self->OneOf_0));
                        vstd::std_specs::vec::axiom_vec_index_decreases(*v, i as int);
                    }
                    v[i].write_to(out);
                    proof {
                        assert(vs[i as int] == v@[i as int]@);
                        if i == 0 {
                            assert(out@ =~= start + "One of ["@ + ExpectedView::shown_list(vs, 1));
                        } else {
                            assert(out@ =~= start + "One of ["@ + ExpectedView::shown_list(
                                vs,
                                (i + 1) as nat,
                            ));
                        }
                    }
                    i += 1;
                }
                out.append("]");
                proof {
                    assert(out@ =~= start + ("One of ["@ + ExpectedView::shown_list(vs, vs.len())
                        + "]"@));
                }
            },
        }
    }

    /// The text of this description.
    pub fn to_string(&self) -> (r: String)
        ensures
            r@ == self@.shown(),
    {
        let mut out = String::new();
        self.write_to(&mut out);
        proof {
            assert(Seq::<char>::empty() + self@.shown() =~= self@.shown());
        }
        out
    }
}

impl PErrView {
    /// The line that reports one record, where `found` is the text shown as
    /// found and `sep` stands between a name and a number.
    pub open spec fn shown_line(self, found: Seq<char>, sep: Seq<char>) -> Seq<char> {
        "Expected '"@ + self.exp.shown() + "', Found '"@ + found + "', at (i"@ + sep + shown_index(
            self.index,
        ) + ",l"@ + sep + decimal(self.line as nat) + ",c"@ + sep + decimal(self.col as nat) + ")"@
    }

    /// The text of a failure record: its own line, and on a new line behind
    /// a tab the text of its cause.
    pub open spec fn shown(self) -> Seq<char>
        decreases self,
    {
        self.shown_line(shown_start(self.found), ":"@) + match self.child {
            Some(c) => "\n\t"@ + c.shown(),
            None => Seq::empty(),
        }
    }

    /// The text of a failure record that holds its own text: its own line
    /// with a line end, and behind a tab the text of its cause.
    pub open spec fn shown_strung(self) -> Seq<char>
        decreases self,
    {
        self.shown_line(self.found, "="@) + "\n"@ + match self.child {
            Some(c) => "\t"@ + c.shown_strung(),
            None => Seq::empty(),
        }
    }

    /// The record with the start of its text for what was found, and its
    /// causes likewise.
    pub open spec fn strung(self) -> PErrView
        decreases self,
    {
        PErrView {
            found: shown_start(self.found),
            child: match self.child {
                Some(c) => Some(Box::new(c.strung())),
                None => None,
            },
            ..self
        }
    }
}

/// Appends the line that reports one record to `out`.
fn write_line(
    out: &mut String,
    exp: &Expected,
    found: &str,
    index: Option<usize>,
    line: usize,
    col: usize,
    sep: &str,
    Ghost(e): Ghost<PErrView>,
)
    requires
        e.exp == exp@,
        e.index == index,
        e.line == line,
        e.col == col,
    ensures
        final(out)@ == old(out)@ + e.shown_line(found@, sep@),
{
    let ghost start = out@;
    out.append("Expected '");
    exp.write_to(out);
    out.append("', Found '");
    out.append(found);
    out.append("', at (i");
    out.append(sep);
    push_index(out, index);
    out.append(",l");
    out.append(sep);
    push_decimal(out, line);
    out.append(",c");
    out.append(sep);
    push_decimal(out, col);
    out.append(")");
    proof {
        assert(out@ =~= start + e.shown_line(found@, sep@));
    }
}

impl<'a> PErr<'a> {
    /// Appends the text of this record to `out`.
    pub fn write_to(&self, out: &mut String)
        ensures
            final(out)@ == old(out)@ + self@.shown(),
        decreases self,
    {
        let ghost start = out@;
        write_line(
            out,
            &self.exp,
            read_10(self.found),
            self.index,
            self.line,
            self.col,
            ":",
            Ghost(self@),
        );
        match &self.child {
            Some(c) => {
                out.append("\n\t");
                c.write_to(out);
                proof {
                    assert(out@ =~= start + self@.shown());
                }
            },
            None => {
                proof {
                    assert(out@ =~= start + self@.shown());
                }
            },
        }
    }

    /// The text of this record.
    pub fn to_string(&self) -> (r: String)
        ensures
            r@ == self@.shown(),
    {
        let mut out = String::new();
        self.write_to(&mut out);
        proof {
            assert(Seq::<char>::empty() + self@.shown() =~= self@.shown());
        }
        out
    }

    /// The record with its own copy of the start of the text found.
    pub fn strung(self) -> (r: StrungError)
        ensures
            r@ == self@.strung(),
        decreases self,
    {
        let PErr { exp, found, line, col, index, is_break, child } = self;
        let child = match child {
            Some(v) => Some(Box::new((*v).strung())),
            None => None,
        };
        StrungError { exp, found: read_10(found).to_owned(), line, col, index, is_break, child }
    }
}

/// A failure record that holds the text it shows.
#[derive(PartialEq, Eq, Hash, Debug)]
pub struct StrungError {
    pub exp: Expected,
    pub found: String,
    pub index: Option<usize>,
    pub line: usize,
    pub col: usize,
    pub is_break: bool,
    pub child: Option<Box<StrungError>>,
}

impl StrungError {
    /// The mathematical value of this record.
    pub open spec fn value(&self) -> PErrView
        decreases self,
    {
        PErrView {
            exp: self.exp@,
            found: self.found@,
            line: self.line,
            col: self.col,
            index: self.index,
            is_break: self.is_break,
            child: match self.child {
                None => None,
                Some(c) => Some(Box::new(c.value())),
            },
        }
    }

    /// A copy of this record.
    pub fn duplicate(&self) -> (r: Self)
        ensures
            r@ == self@,
        decreases self,
    {
        StrungError {
            exp: self.exp.duplicate(),
            found: self.found.clone(),
            index: self.index,
            line: self.line,
            col: self.col,
            is_break: self.is_break,
            child: match &self.child {
                Some(c) => Some(Box::new(c.duplicate())),
                None => None,
            },
        }
    }

    /// Appends the text of this record to `out`.
    pub fn write_to(&self, out: &mut String)
        ensures
            final(out)@ == old(out)@ + self@.shown_strung(),
        decreases self,
    {
        let ghost start = out@;
        write_line(
            out,
            &self.exp,
            self.found.as_str(),
            self.index,
            self.line,
            self.col,
            "=",
            Ghost(self@),
        );
        out.append("\n");
        match &self.child {
            Some(c) => {
                out.append("\t");
                c.write_to(out);
                proof {
                    assert(out@ =~= start + self@.shown_strung());
                }
            },
            None => {
                proof {
                    assert(out@ =~= start + self@.shown_strung());
                }
            },
        }
    }

    /// The text of this record.
    pub fn to_string(&self) -> (r: String)
        ensures
            r@ == self@.shown_strung(),
    {
        let mut out = String::new();
        self.write_to(&mut out);
        proof {
            assert(Seq::<char>::empty() + self@.shown_strung() =~= self@.shown_strung());
        }
        out
    }
}

impl View for StrungError {
    type V = PErrView;

    open spec fn view(&self) -> PErrView {
        self.value()
    }
}

impl Clone for StrungError {
    fn clone(&self) -> (r: Self)
        ensures
            r@ == self@,
    {
        self.duplicate()
    }
}

} // verus!
