//! Span trees: a tree of labelled spans of the input, built by matchers that
//! put up with input that ends too early.

use vstd::prelude::*;
use vstd::pervasive::cloned;
use crate::err::further;
use crate::iter::{
    lemma_reaches_self, lemma_reaches_trans, lemma_span_runs_forward, Cursor, PIter,
};
use crate::parser::{outcome, Outcome, ParseRes, Parser};
use crate::reader::{span_fits, span_of, span_text};
use crate::text::{byte_len, lemma_byte_len_is_encoded_len};

pub mod charbool;
pub mod mark_list;
pub mod p_repeat;
pub mod ranger;

verus! {

/// A labelled span of the input with the spans inside it.
#[derive(Debug)]
pub struct PosTree<I> {
    /// The byte offset where the span starts, or `None` at the end of the input.
    pub start: Option<usize>,
    /// The byte offset where the span ends, or `None` at the end of the input.
    pub fin: Option<usize>,
    /// Whether the span was matched to its end: `false` where the input ran
    /// out first.
    pub complete: bool,
    /// The label of the span.
    pub item: I,
    /// The spans inside this one, in their order.
    pub children: Vec<PosTree<I>>,
}

/// The mathematical value of a [`PosTree`].
pub struct PosTreeView<I> {
    pub start: Option<usize>,
    pub fin: Option<usize>,
    pub complete: bool,
    pub item: I,
    pub children: Seq<PosTreeView<I>>,
}

impl<I> PosTreeView<I> {
    /// The node without children from `start` to `fin`, labelled `item`.
    pub open spec fn leaf(start: Option<usize>, fin: Option<usize>, item: I) -> Self {
        PosTreeView { start, fin, complete: true, item, children: Seq::empty() }
    }

    /// The span covers no text.
    pub open spec fn is_empty(self) -> bool {
        self.fin == self.start
    }

    /// The node labelled `item` over this node and `b`: it starts where this
    /// node starts and ends where `b` ends, is complete where both are, and
    /// has both for children, or this node alone where `b` is empty.
    pub open spec fn merge(self, item: I, b: Self) -> Self {
        PosTreeView {
            start: self.start,
            fin: b.fin,
            complete: self.complete && b.complete,
            item,
            children: if b.is_empty() {
                seq![self]
            } else {
                seq![self, b]
            },
        }
    }

    /// The node labelled `item` with the span of this node, and this node for
    /// its only child.
    pub open spec fn as_child(self, item: I) -> Self {
        PosTreeView {
            start: self.start,
            fin: self.fin,
            complete: self.complete,
            item,
            children: seq![self],
        }
    }

    /// This node marked as cut short by the end of the input.
    pub open spec fn incomplete(self) -> Self {
        PosTreeView { complete: false, ..self }
    }

    /// This node with `b` for one more child, ending where `b` ends; or this
    /// node as it is where `b` is empty.
    pub open spec fn push(self, b: Self) -> Self {
        if b.is_empty() {
            self
        } else {
            PosTreeView { fin: b.fin, children: self.children.push(b), ..self }
        }
    }
}

impl<I> PosTreeView<I> {
    /// The spans of this tree run forward and lie inside one another: no
    /// node starts behind its end, and no child ends behind its parent. The
    /// end of the input, `None`, lies behind every offset.
    pub open spec fn ordered(self) -> bool
        decreases self,
    {
        &&& !further(self.start, self.fin)
        &&& forall|i: int|
            0 <= i < self.children.len() ==> (#[trigger] self.children[i]).ordered() && !further(
                self.children[i].fin,
                self.fin,
            )
    }
}

/// A merge of two trees is ordered where both are and the second does not
/// end before the first; so is a tree as the only child of a new node, and a
/// tree marked incomplete.
pub proof fn lemma_merge_ordered<I>(a: PosTreeView<I>, item: I, b: PosTreeView<I>)
    requires
        a.ordered(),
        b.ordered(),
        !further(a.fin, b.fin),
    ensures
        a.merge(item, b).ordered(),
        a.as_child(item).ordered(),
        a.incomplete().ordered(),
{
    let m = a.merge(item, b);
    assert forall|i: int| 0 <= i < m.children.len() implies (#[trigger] m.children[i]).ordered()
        && !further(m.children[i].fin, m.fin) by {}
    let c = a.as_child(item);
    assert forall|i: int| 0 <= i < c.children.len() implies (#[trigger] c.children[i]).ordered()
        && !further(c.children[i].fin, c.fin) by {}
    let n = a.incomplete();
    assert forall|i: int| 0 <= i < n.children.len() implies (#[trigger] n.children[i]).ordered()
        && !further(n.children[i].fin, n.fin) by {
        assert(a.children[i].ordered());
    }
}

/// A tree with one more child is ordered where both are and the child does
/// not end before the tree: the end of the tree is then the furthest end
/// among its own and those of its children.
pub proof fn lemma_push_ordered<I>(a: PosTreeView<I>, b: PosTreeView<I>)
    requires
        a.ordered(),
        b.ordered(),
        !further(a.fin, b.fin),
    ensures
        a.push(b).ordered(),
        !further(a.fin, a.push(b).fin),
        forall|i: int|
            0 <= i < a.push(b).children.len() ==> !further(
                (#[trigger] a.push(b).children[i]).fin,
                a.push(b).fin,
            ),
{
    let p = a.push(b);
    assert forall|i: int| 0 <= i < p.children.len() implies (#[trigger] p.children[i]).ordered()
        && !further(p.children[i].fin, p.fin) by {
        if i < a.children.len() {
            assert(a.children[i].ordered());
        }
    }
}

impl<I> PosTree<I> {
    /// The mathematical value of this tree.
    pub open spec fn value(&self) -> PosTreeView<I>
        decreases self,
    {
        PosTreeView {
            start: self.start,
            fin: self.fin,
            complete: self.complete,
            item: self.item,
            children: Seq::new(
                self.children@.len(),
                |i: int|
                    if 0 <= i < self.children@.len() {
                        self.children@[i].value()
                    } else {
                        arbitrary()
                    },
            ),
        }
    }
}

impl<I> View for PosTree<I> {
    type V = PosTreeView<I>;

    open spec fn view(&self) -> PosTreeView<I> {
        self.value()
    }
}

/// The values of the trees of `v`, in order.
pub open spec fn trees_of<I>(v: Seq<PosTree<I>>) -> Seq<PosTreeView<I>> {
    Seq::new(v.len(), |i: int| v[i]@)
}

/// The children of a tree's value are the values of its children.
pub proof fn lemma_tree_view<I>(t: PosTree<I>)
    ensures
        t@.children == trees_of(t.children@),
        t@.start == t.start,
        t@.fin == t.fin,
        t@.complete == t.complete,
        t@.item == t.item,
{
    assert(t@.children =~= trees_of(t.children@));
}

impl<I> PosTree<I> {
    /// The node without children from `start` to `fin`, labelled `item`.
    pub fn new(start: Option<usize>, fin: Option<usize>, item: I) -> (r: Self)
        ensures
            r@ == PosTreeView::leaf(start, fin, item),
    {
        let r = PosTree { start, fin, item, complete: true, children: Vec::new() };
        proof {
            lemma_tree_view(r);
            assert(trees_of(r.children@) =~= Seq::empty());
        }
        r
    }

    /// Whether the span covers no text.
    pub fn is_empty(&self) -> (r: bool)
        ensures
            r == self@.is_empty(),
    {
        match (self.fin, self.start) {
            (Some(a), Some(b)) => a == b,
            (None, None) => true,
            _ => false,
        }
    }

    /// The node labelled `item` over this node and `b`.
    pub fn merge(self, item: I, b: Self) -> (r: Self)
        ensures
            r@ == self@.merge(item, b@),
    {
        let start = self.start;
        let fin = b.fin;
        let complete = self.complete && b.complete;
        let ghost sv = self@;
        let ghost bv = b@;
        let mut children: Vec<PosTree<I>> = Vec::new();
        if b.is_empty() {
            children.push(self);
        } else {
            children.push(self);
            children.push(b);
        }
        let r = PosTree { start, fin, complete, item, children };
        proof {
            lemma_tree_view(r);
            if bv.is_empty() {
                assert(trees_of(r.children@) =~= seq![sv]);
            } else {
                assert(trees_of(r.children@) =~= seq![sv, bv]);
            }
        }
        r
    }

    /// The node labelled `item` with this node for its only child.
    pub fn as_child(self, item: I) -> (r: Self)
        ensures
            r@ == self@.as_child(item),
    {
        let start = self.start;
        let fin = self.fin;
        let complete = self.complete;
        let ghost sv = self@;
        let mut children: Vec<PosTree<I>> = Vec::new();
        children.push(self);
        let r = PosTree { start, fin, complete, item, children };
        proof {
            lemma_tree_view(r);
            assert(trees_of(r.children@) =~= seq![sv]);
        }
        r
    }

    /// This node marked as cut short by the end of the input.
    pub fn incomplete(self) -> (r: Self)
        ensures
            r@ == self@.incomplete(),
    {
        proof {
            lemma_tree_view(self);
        }
        let PosTree { start, fin, complete: _, item, children } = self;
        let r = PosTree { start, fin, complete: false, item, children };
        proof {
            lemma_tree_view(r);
        }
        r
    }

    /// This node with `b` for one more child, unless `b` is empty.
    pub fn push(self, b: Self) -> (r: Self)
        ensures
            r@ == self@.push(b@),
    {
        if !b.is_empty() {
            proof {
                lemma_tree_view(self);
            }
            let ghost bv = b@;
            let PosTree { start, fin: _, complete, item, mut children } = self;
            let ghost before = children@;
            let fin = b.fin;
            children.push(b);
            let r = PosTree { start, fin, complete, item, children };
            proof {
                lemma_tree_view(r);
                assert(trees_of(r.children@) =~= trees_of(before).push(bv));
            }
            r
        } else {
            self
        }
    }

    /// The text of this node in `s`, the text it was matched in.
    pub fn on_str<'a>(&self, s: &'a str) -> (r: &'a str)
        requires
            span_fits(self.start, self.fin, s@),
        ensures
            r@ == span_text(self.start, self.fin, s@),
    {
        span_of(self.start, self.fin, s)
    }

    /// The number of bytes of this node's text in `s`.
    pub fn str_len(&self, s: &str) -> (r: usize)
        requires
            span_fits(self.start, self.fin, s@),
        ensures
            r == byte_len(span_text(self.start, self.fin, s@)),
    {
        let t = self.on_str(s);
        proof {
            lemma_byte_len_is_encoded_len(t@);
        }
        t.as_bytes().len()
    }

    /// The range of byte offsets of this node: from zero where it has no
    /// start, and without an end where it has none.
    pub fn range(&self) -> (r: ranger::Ranger)
        ensures
            r == (match (self.start, self.fin) {
                (Some(s), Some(e)) => ranger::Ranger::InEx(s, e),
                (Some(s), None) => ranger::Ranger::InOpen(s),
                (None, Some(e)) => ranger::Ranger::InEx(0, e),
                _ => ranger::Ranger::InOpen(0),
            }),
    {
        match (&self.start, &self.fin) {
            (Some(s), Some(e)) => ranger::Ranger::InEx(*s, *e),
            (Some(s), None) => ranger::Ranger::InOpen(*s),
            (None, Some(e)) => ranger::Ranger::InEx(0, *e),
            _ => ranger::Ranger::InOpen(0),
        }
    }
}

/// `t` is the node without children from `start` to `fin`, labelled with a
/// copy of `item`.
pub open spec fn is_leaf<I: Clone>(
    t: PosTreeView<I>,
    start: Option<usize>,
    fin: Option<usize>,
    item: I,
) -> bool {
    t == PosTreeView::leaf(start, fin, t.item) && cloned(item, t.item)
}

/// The leaf over what lies between a cursor and one that it reaches is ordered.
pub proof fn lemma_leaf_ordered<I: Clone>(t: PosTreeView<I>, it: Cursor, c: Cursor, item: I)
    requires
        it.reaches(c),
        it.wf(),
        c.wf(),
        is_leaf(t, it.index(), c.index(), item),
    ensures
        t.ordered(),
        t.is_empty() <==> it == c || it.rest.len() == 0,
{
    lemma_span_runs_forward(it, c);
}

/// `o` is the outcome `oa`, reached from `it`, with the leaf labelled `item`
/// over the text matched for its value.
pub open spec fn leaf_via<I: Clone, V>(
    item: I,
    it: Cursor,
    oa: Outcome<V>,
    o: Outcome<PosTree<I>>,
) -> bool {
    match oa {
        Outcome::Done(c, _, s) => o matches Outcome::Done(c2, t, s2) && c2 == c && s2 == s
            && is_leaf(t@, it.index(), c.index(), item),
        Outcome::Failed(e) => o == Outcome::<PosTree<I>>::Failed(e),
    }
}

/// The matcher that matches as `p` does and hands back a leaf labelled `item`.
pub struct PosTreeParse<P, I> {
    pub p: P,
    pub item: I,
}

/// The matcher that matches as `p` does and hands back a leaf labelled
/// `item` over the text matched.
pub fn tpos<'a, P: Parser<'a>, I>(p: P, item: I) -> (r: PosTreeParse<P, I>)
    ensures
        r.p == p,
        r.item == item,
{
    PosTreeParse { p, item }
}

impl<'a, P: Parser<'a>, I: Clone> Parser<'a> for PosTreeParse<P, I> {
    type Out = PosTree<I>;

    open spec fn ready(&self) -> bool {
        self.p.ready()
    }

    open spec fn yields(&self, it: Cursor, o: Outcome<PosTree<I>>) -> bool {
        exists|oa: Outcome<P::Out>| #[trigger] self.p.yields(it, oa) && leaf_via(self.item, it, oa, o)
    }

    fn parse(&self, it: &PIter<'a>) -> (r: ParseRes<'a, PosTree<I>>) {
        let res = self.p.parse(it);
        let ghost oa = outcome(res);
        let r = match res {
            Ok((i2, _, e)) => {
                let fin = i2.index();
                let start = it.index();
                Ok((i2, PosTree::new(start, fin, self.item.clone()), e))
            },
            Err(e) => Err(e),
        };
        proof {
            assert(self.p.yields(it@, oa) && leaf_via(self.item, it@, oa, outcome(r)));
        }
        r
    }
}

/// `o` is the outcome of merging `a` and `b` under the label `item`, at `it`,
/// where `a` had the outcome `oa` and `b`, started where `a` stopped, the
/// outcome `ob`.
///
/// At the end of the input nothing is tried: the result is an empty leaf.
/// A failure of `a` is the failure of the whole. Where `b` matches, the
/// result is the node over both, with the soft record of `b`. Where `b`
/// fails and `a` has consumed all the input, the result is the node of `a`
/// under the label, marked incomplete, without a soft record; where `b`
/// fails with input left, its failure is the failure of the whole.
pub open spec fn merge_via<'a, I: Clone, A: Parser<'a, Out = PosTree<I>>, B: Parser<'a, Out = PosTree<I>>>(
    a: &A,
    b: &B,
    item: I,
    it: Cursor,
    oa: Outcome<PosTree<I>>,
    ob: Outcome<PosTree<I>>,
    o: Outcome<PosTree<I>>,
) -> bool {
    if it.rest.len() == 0 {
        o matches Outcome::Done(c, t, s) && c == it && s is None && is_leaf(
            t@,
            it.index(),
            it.index(),
            item,
        )
    } else {
        &&& a.yields(it, oa)
        &&& match oa {
            Outcome::Failed(e) => o == Outcome::<PosTree<I>>::Failed(e),
            Outcome::Done(i1, na, _) => {
                &&& b.yields(i1, ob)
                &&& match ob {
                    Outcome::Done(i2, nb, e2) => o matches Outcome::Done(c, t, s) && c == i2 && s
                        == e2 && t@ == na@.merge(t@.item, nb@) && cloned(item, t@.item),
                    Outcome::Failed(e2) => if i1.rest.len() == 0 {
                        o matches Outcome::Done(c, t, s) && c == i1 && s is None && t@
                            == na@.as_child(t@.item).incomplete() && cloned(item, t@.item)
                    } else {
                        o == Outcome::<PosTree<I>>::Failed(e2)
                    },
                }
            },
        }
    }
}

/// The matcher of `a` followed by `b`, both under the label `i`.
pub struct Merger<A, B, I> {
    pub a: A,
    pub b: B,
    pub i: I,
}

impl<'a, A, B, I> Parser<'a> for Merger<A, B, I> where
    A: Parser<'a, Out = PosTree<I>>,
    B: Parser<'a, Out = PosTree<I>>,
    I: Clone,
 {
    type Out = PosTree<I>;

    open spec fn ready(&self) -> bool {
        self.a.ready() && self.b.ready()
    }

    open spec fn yields(&self, it: Cursor, o: Outcome<PosTree<I>>) -> bool {
        exists|oa: Outcome<PosTree<I>>, ob: Outcome<PosTree<I>>|
            merge_via(&self.a, &self.b, self.i, it, oa, ob, o)
    }

    fn parse(&self, it: &PIter<'a>) -> (r: ParseRes<'a, PosTree<I>>) {
        let ghost none: Outcome<PosTree<I>> = Outcome::Failed(arbitrary());
        if it.eoi() {
            let r: ParseRes<'a, PosTree<I>> = Ok(
                (*it, PosTree::new(it.index(), it.index(), self.i.clone()), None),
            );
            proof {
                lemma_reaches_self(it@);
                assert(merge_via(&self.a, &self.b, self.i, it@, none, none, outcome(r)));
            }
            return r;
        }
        let ra = self.a.parse(it);
        let ghost oa = outcome(ra);
        match ra {
            Err(e) => {
                let r: ParseRes<'a, PosTree<I>> = Err(e);
                proof {
                    assert(merge_via(&self.a, &self.b, self.i, it@, oa, none, outcome(r)));
                }
                r
            },
            Ok((i1, na, _)) => {
                let rb = self.b.parse(&i1);
                let ghost ob = outcome(rb);
                let r: ParseRes<'a, PosTree<I>> = match rb {
                    Ok((i2, nb, e2)) => {
                        proof {
                            lemma_reaches_trans(it@, i1@, i2@);
                        }
                        Ok((i2, na.merge(self.i.clone(), nb), e2))
                    },
                    Err(e2) => {
                        if i1.eoi() {
                            Ok((i1, na.as_child(self.i.clone()).incomplete(), None))
                        } else {
                            Err(e2)
                        }
                    },
                };
                proof {
                    assert(merge_via(&self.a, &self.b, self.i, it@, oa, ob, outcome(r)));
                }
                r
            },
        }
    }
}

/// Matchers of span trees, which can be merged with another under a label.
pub trait Mergable<I>: Sized {
    /// The matcher of this one followed by `b`, both under the label `i`.
    fn merge<'a, B: Parser<'a, Out = PosTree<I>>>(self, i: I, b: B) -> (r: Merger<Self, B, I>)
        ensures
            r.a == self,
            r.b == b,
            r.i == i,
    ;
}

impl<'b, A: Parser<'b, Out = PosTree<I>>, I: Clone> Mergable<I> for A {
    fn merge<'a, B: Parser<'a, Out = PosTree<I>>>(self, i: I, b: B) -> (r: Merger<Self, B, I>) {
        Merger { a: self, i, b }
    }
}

/// `o` is the outcome of appending the node of `b` to that of `a`, at `it`,
/// where `a` had the outcome `oa` and `b`, started where `a` stopped, the
/// outcome `ob`.
///
/// A failure of `a` is the failure of the whole. Where `b` matches, its node
/// becomes the last child of the node of `a`, with the soft record of `b`.
/// Where `b` fails and `a` has consumed all the input, the result is the
/// node of `a`, marked incomplete, without a soft record; where `b` fails
/// with input left, its failure is the failure of the whole.
pub open spec fn push_via<'a, I, A: Parser<'a, Out = PosTree<I>>, B: Parser<'a, Out = PosTree<I>>>(
    a: &A,
    b: &B,
    it: Cursor,
    oa: Outcome<PosTree<I>>,
    ob: Outcome<PosTree<I>>,
    o: Outcome<PosTree<I>>,
) -> bool {
    &&& a.yields(it, oa)
    &&& match oa {
        Outcome::Failed(e) => o == Outcome::<PosTree<I>>::Failed(e),
        Outcome::Done(i1, na, _) => {
            &&& b.yields(i1, ob)
            &&& match ob {
                Outcome::Done(i2, nb, e2) => o matches Outcome::Done(c, t, s) && c == i2 && s == e2
                    && t@ == na@.push(nb@),
                Outcome::Failed(e2) => if i1.rest.len() == 0 {
                    o matches Outcome::Done(c, t, s) && c == i1 && s is None && t@
                        == na@.incomplete()
                } else {
                    o == Outcome::<PosTree<I>>::Failed(e2)
                },
            }
        },
    }
}

/// The matcher of `a` followed by `b`, the node of `b` a child of that of `a`.
pub struct Pusher<A, B> {
    pub a: A,
    pub b: B,
}

impl<'a, A, B, I> Parser<'a> for Pusher<A, B> where
    A: Parser<'a, Out = PosTree<I>>,
    B: Parser<'a, Out = PosTree<I>>,
    I: Clone,
 {
    type Out = PosTree<I>;

    open spec fn ready(&self) -> bool {
        self.a.ready() && self.b.ready()
    }

    open spec fn yields(&self, it: Cursor, o: Outcome<PosTree<I>>) -> bool {
        exists|oa: Outcome<PosTree<I>>, ob: Outcome<PosTree<I>>|
            push_via(&self.a, &self.b, it, oa, ob, o)
    }

    fn parse(&self, it: &PIter<'a>) -> (r: ParseRes<'a, PosTree<I>>) {
        let ghost none: Outcome<PosTree<I>> = Outcome::Failed(arbitrary());
        let ra = self.a.parse(it);
        let ghost oa = outcome(ra);
        match ra {
            Err(e) => {
                let r: ParseRes<'a, PosTree<I>> = Err(e);
                proof {
                    assert(push_via(&self.a, &self.b, it@, oa, none, outcome(r)));
                }
                r
            },
            Ok((i1, na, _)) => {
                let rb = self.b.parse(&i1);
                let ghost ob = outcome(rb);
                let r: ParseRes<'a, PosTree<I>> = match rb {
                    Ok((i2, nb, e2)) => {
                        proof {
                            lemma_reaches_trans(it@, i1@, i2@);
                        }
                        Ok((i2, na.push(nb), e2))
                    },
                    Err(e2) => {
                        if i1.eoi() {
                            Ok((i1, na.incomplete(), None))
                        } else {
                            Err(e2)
                        }
                    },
                };
                proof {
                    assert(push_via(&self.a, &self.b, it@, oa, ob, outcome(r)));
                }
                r
            },
        }
    }
}

/// Matchers of span trees, whose node can take that of another for a child.
pub trait Pushable<I>: Sized {
    /// The matcher of this one followed by `b`, the node of `b` a child of
    /// this one's node.
    fn push<'a, B: Parser<'a, Out = PosTree<I>>>(self, b: B) -> (r: Pusher<Self, B>)
        ensures
            r.a == self,
            r.b == b,
    ;
}

impl<'b, A: Parser<'b, Out = PosTree<I>>, I: Clone> Pushable<I> for A {
    fn push<'a, B: Parser<'a, Out = PosTree<I>>>(self, b: B) -> (r: Pusher<Self, B>) {
        Pusher { a: self, b }
    }
}

/// As `push_via`, where `b` may match without handing back a node: the node
/// of `a` then stands as it is.
pub open spec fn opush_via<
    'a,
    I,
    A: Parser<'a, Out = PosTree<I>>,
    B: Parser<'a, Out = Option<PosTree<I>>>,
>(
    a: &A,
    b: &B,
    it: Cursor,
    oa: Outcome<PosTree<I>>,
    ob: Outcome<Option<PosTree<I>>>,
    o: Outcome<PosTree<I>>,
) -> bool {
    &&& a.yields(it, oa)
    &&& match oa {
        Outcome::Failed(e) => o == Outcome::<PosTree<I>>::Failed(e),
        Outcome::Done(i1, na, _) => {
            &&& b.yields(i1, ob)
            &&& match ob {
                Outcome::Done(i2, Some(nb), e2) => o matches Outcome::Done(c, t, s) && c == i2 && s
                    == e2 && t@ == na@.push(nb@),
                Outcome::Done(i2, None, e2) => o matches Outcome::Done(c, t, s) && c == i2 && s
                    == e2 && t@ == na@,
                Outcome::Failed(e2) => if i1.rest.len() == 0 {
                    o matches Outcome::Done(c, t, s) && c == i1 && s is None && t@
                        == na@.incomplete()
                } else {
                    o == Outcome::<PosTree<I>>::Failed(e2)
                },
            }
        },
    }
}

/// The matcher of `a` followed by `b`, the node of `b`, where it hands one
/// back, a child of that of `a`.
pub struct OPusher<A, B> {
    pub a: A,
    pub b: B,
}

/// Matchers of span trees, whose node can take an optional node for a child.
pub trait OPushable<I>: Sized {
    /// The matcher of this one followed by `b`, the node of `b`, where it
    /// hands one back, a child of this one's node.
    fn opush<'a, B: Parser<'a, Out = Option<PosTree<I>>>>(self, b: B) -> (r: OPusher<Self, B>)
        ensures
            r.a == self,
            r.b == b,
    ;
}

impl<'b, A: Parser<'b, Out = PosTree<I>>, I: Clone> OPushable<I> for A {
    fn opush<'a, B: Parser<'a, Out = Option<PosTree<I>>>>(self, b: B) -> (r: OPusher<Self, B>) {
        OPusher { a: self, b }
    }
}

impl<'a, A, B, I> Parser<'a> for OPusher<A, B> where
    A: Parser<'a, Out = PosTree<I>>,
    B: Parser<'a, Out = Option<PosTree<I>>>,
    I: Clone,
 {
    type Out = PosTree<I>;

    open spec fn ready(&self) -> bool {
        self.a.ready() && self.b.ready()
    }

    open spec fn yields(&self, it: Cursor, o: Outcome<PosTree<I>>) -> bool {
        exists|oa: Outcome<PosTree<I>>, ob: Outcome<Option<PosTree<I>>>|
            opush_via(&self.a, &self.b, it, oa, ob, o)
    }

    fn parse(&self, it: &PIter<'a>) -> (r: ParseRes<'a, PosTree<I>>) {
        let ghost none: Outcome<Option<PosTree<I>>> = Outcome::Failed(arbitrary());
        let ra = self.a.parse(it);
        let ghost oa = outcome(ra);
        match ra {
            Err(e) => {
                let r: ParseRes<'a, PosTree<I>> = Err(e);
                proof {
                    assert(opush_via(&self.a, &self.b, it@, oa, none, outcome(r)));
                }
                r
            },
            Ok((i1, na, _)) => {
                let rb = self.b.parse(&i1);
                let ghost ob = outcome(rb);
                let r: ParseRes<'a, PosTree<I>> = match rb {
                    Ok((i2, Some(nb), e2)) => {
                        proof {
                            lemma_reaches_trans(it@, i1@, i2@);
                        }
                        Ok((i2, na.push(nb), e2))
                    },
                    Ok((i2, None, e2)) => {
                        proof {
                            lemma_reaches_trans(it@, i1@, i2@);
                        }
                        Ok((i2, na, e2))
                    },
                    Err(e2) => {
                        if i1.eoi() {
                            Ok((i1, na.incomplete(), None))
                        } else {
                            Err(e2)
                        }
                    },
                };
                proof {
                    assert(opush_via(&self.a, &self.b, it@, oa, ob, outcome(r)));
                }
                r
            },
        }
    }
}

/// `o` is the outcome `oa` where it is a success; where it is a failure, a
/// success at `it` with an empty leaf labelled `item`, and the failure for a
/// soft record.
pub open spec fn pmaybe_via<I: Clone>(
    item: I,
    it: Cursor,
    oa: Outcome<PosTree<I>>,
    o: Outcome<PosTree<I>>,
) -> bool {
    match oa {
        Outcome::Done(..) => o == oa,
        Outcome::Failed(e) => o matches Outcome::Done(c, t, s) && c == it && s == Some(e)
            && is_leaf(t@, it.index(), it.index(), item),
    }
}

/// The matcher that hands back an empty leaf labelled `i` where `p` fails.
pub struct PMaybe<P, I> {
    pub p: P,
    pub i: I,
}

impl<'a, I: Clone, P: Parser<'a, Out = PosTree<I>>> Parser<'a> for PMaybe<P, I> {
    type Out = PosTree<I>;

    open spec fn ready(&self) -> bool {
        self.p.ready()
    }

    open spec fn yields(&self, it: Cursor, o: Outcome<PosTree<I>>) -> bool {
        exists|oa: Outcome<PosTree<I>>| #[trigger]
            self.p.yields(it, oa) && pmaybe_via(self.i, it, oa, o)
    }

    fn parse(&self, it: &PIter<'a>) -> (r: ParseRes<'a, PosTree<I>>) {
        let res = self.p.parse(it);
        let ghost oa = outcome(res);
        let r = match res {
            Ok(v) => Ok(v),
            Err(e) => Ok((*it, PosTree::new(it.index(), it.index(), self.i.clone()), Some(e))),
        };
        proof {
            lemma_reaches_self(it@);
            assert(self.p.yields(it@, oa) && pmaybe_via(self.i, it@, oa, outcome(r)));
        }
        r
    }
}

/// The matcher that hands back an empty leaf labelled `i` where `p` fails.
pub fn pmaybe<'a, P: Parser<'a, Out = PosTree<I>>, I: Clone>(p: P, i: I) -> (r: PMaybe<P, I>)
    ensures
        r.p == p,
        r.i == i,
{
    PMaybe { p, i }
}

/// `o` is the outcome `oa`, reached from `it`, with the nodes in its value
/// for the children of one node labelled `item`: a node over the text
/// matched, complete where there is a last child and it is complete. Where
/// `oa` is a failure at the end of the input, the result is an empty leaf
/// marked incomplete; a failure with input left stands.
pub open spec fn vpos_via<I: Clone>(
    item: I,
    it: Cursor,
    oa: Outcome<Vec<PosTree<I>>>,
    o: Outcome<PosTree<I>>,
) -> bool {
    match oa {
        Outcome::Done(i2, vc, e) => o matches Outcome::Done(c, t, s) && c == i2 && s == e
            && cloned(item, t@.item) && t@ == (PosTreeView {
            start: it.index(),
            fin: i2.index(),
            complete: vc@.len() > 0 && vc@.last().complete,
            item: t@.item,
            children: trees_of(vc@),
        }),
        Outcome::Failed(e) => if it.rest.len() == 0 {
            o matches Outcome::Done(c, t, s) && c == it && s is None && cloned(item, t@.item) && t@
                == PosTreeView::leaf(it.index(), it.index(), t@.item).incomplete()
        } else {
            o == Outcome::<PosTree<I>>::Failed(e)
        },
    }
}

/// The matcher that puts the nodes that `p` hands back under one node
/// labelled `i`.
pub struct PosVecParse<P, I> {
    pub p: P,
    pub i: I,
}

/// The matcher that puts the nodes that `p` hands back under one node
/// labelled `i`.
pub fn vpos<'a, P: Parser<'a, Out = Vec<PosTree<I>>>, I: Clone>(p: P, i: I) -> (r: PosVecParse<P, I>)
    ensures
        r.p == p,
        r.i == i,
{
    PosVecParse { p, i }
}

impl<'a, P: Parser<'a, Out = Vec<PosTree<I>>>, I: Clone> Parser<'a> for PosVecParse<P, I> {
    type Out = PosTree<I>;

    open spec fn ready(&self) -> bool {
        self.p.ready()
    }

    open spec fn yields(&self, it: Cursor, o: Outcome<PosTree<I>>) -> bool {
        exists|oa: Outcome<Vec<PosTree<I>>>| #[trigger]
            self.p.yields(it, oa) && vpos_via(self.i, it, oa, o)
    }

    fn parse(&self, it: &PIter<'a>) -> (r: ParseRes<'a, PosTree<I>>) {
        let res = self.p.parse(it);
        let ghost oa = outcome(res);
        let r = match res {
            Ok((i2, vc, e)) => {
                let n = vc.len();
                let complete = if n == 0 {
                    false
                } else {
                    vc[n - 1].complete
                };
                let t = PosTree {
                    start: it.index(),
                    fin: i2.index(),
                    item: self.i.clone(),
                    complete,
                    children: vc,
                };
                proof {
                    lemma_tree_view(t);
                }
                Ok((i2, t, e))
            },
            Err(e) => {
                if it.eoi() {
                    proof {
                        lemma_reaches_self(it@);
                    }
                    Ok(
                        (
                            *it,
                            PosTree::new(it.index(), it.index(), self.i.clone()).incomplete(),
                            None,
                        ),
                    )
                } else {
                    Err(e)
                }
            },
        };
        proof {
            assert(self.p.yields(it@, oa) && vpos_via(self.i, it@, oa, outcome(r)));
        }
        r
    }
}

/// Where the second matcher of a merge fails, the result turns on the input
/// alone: if the first has consumed all of it, the result is a success
/// without a soft record, with a node marked incomplete with the node of
/// the first for its only child; if input is left, the failure of the second
/// is the failure of the merge.
pub proof fn lemma_merge_incomplete_or_error<
    'a,
    I: Clone,
    A: Parser<'a, Out = PosTree<I>>,
    B: Parser<'a, Out = PosTree<I>>,
>(
    a: &A,
    b: &B,
    item: I,
    it: Cursor,
    oa: Outcome<PosTree<I>>,
    ob: Outcome<PosTree<I>>,
    o: Outcome<PosTree<I>>,
)
    requires
        merge_via(a, b, item, it, oa, ob, o),
        it.rest.len() > 0,
        oa is Done,
        ob is Failed,
    ensures
        oa->Done_0.rest.len() == 0 ==> (o matches Outcome::Done(c, t, s) && c == oa->Done_0
            && s is None && !t@.complete && t@.children == seq![oa->Done_1@]),
        oa->Done_0.rest.len() > 0 ==> o == Outcome::<PosTree<I>>::Failed(ob->Failed_0),
{
}

/// Where the second matcher of an append fails, the result turns on the
/// input alone: if the first has consumed all of it, the result is a
/// success without a soft record, with the node of the first marked
/// incomplete; if input is left, the failure of the second is the failure of
/// the append.
pub proof fn lemma_push_incomplete_or_error<
    'a,
    I,
    A: Parser<'a, Out = PosTree<I>>,
    B: Parser<'a, Out = PosTree<I>>,
>(
    a: &A,
    b: &B,
    it: Cursor,
    oa: Outcome<PosTree<I>>,
    ob: Outcome<PosTree<I>>,
    o: Outcome<PosTree<I>>,
)
    requires
        push_via(a, b, it, oa, ob, o),
        oa is Done,
        ob is Failed,
    ensures
        oa->Done_0.rest.len() == 0 ==> (o matches Outcome::Done(c, t, s) && c == oa->Done_0
            && s is None && t@ == oa->Done_1@.incomplete()),
        oa->Done_0.rest.len() > 0 ==> o == Outcome::<PosTree<I>>::Failed(ob->Failed_0),
{
}

/// The number of the last of the first `n` trees of `ch` that is complete
/// and has a start, if there is one.
pub open spec fn last_live<I>(ch: Seq<PosTree<I>>, n: nat) -> Option<int>
    decreases n,
{
    if n == 0 || n > ch.len() {
        None
    } else if ch[n - 1].complete && ch[n - 1].start is Some {
        Some(n - 1)
    } else {
        last_live(ch, (n - 1) as nat)
    }
}

/// `r` is what a search by `f` finds in `t`: the tree `t` itself where `f`
/// says yes to its label; else what the search finds in the last child of
/// `t` that is complete and has a start; else nothing.
pub open spec fn found_at_end<I, F: Fn(&I) -> bool>(t: &PosTree<I>, f: F, r: Option<&PosTree<I>>) -> bool
    decreases t,
{
    exists|b: bool| #[trigger]
        call_ensures(f, (&t.item,), b) && if b {
            r == Some(t)
        } else {
            match last_live(t.children@, t.children@.len()) {
                None => r is None,
                Some(k) => 0 <= k < t.children@.len() && found_at_end(&t.children@[k], f, r),
            }
        }
}

impl<I> PosTree<I> {
    /// Looks down the last complete children for a tree to whose label `f`
    /// says yes.
    pub fn find_at_end<F: Fn(&I) -> bool>(&self, s: &str, f: F) -> (r: Option<&Self>)
        requires
            forall|x: &I| call_requires(f, (x,)),
        ensures
            found_at_end(self, f, r),
        decreases self,
    {
        let b = f(&self.item);
        if b {
            return Some(self);
        }
        let mut res: Option<usize> = None;
        let mut n: usize = 0;
        while n < self.children.len()
            invariant
                n <= self.children.len(),
                (match res {
                    Some(k) => Some(k as int),
                    None => None,
                }) == last_live(self.children@, n as nat),
                res matches Some(k) ==> k < n,
            decreases self.children.len() - n,
        {
            let x = &self.children[n];
            if x.complete && x.start.is_some() {
                res = Some(n);
            }
            n += 1;
        }
        match res {
            Some(k) => {
                proof {
                    assert(decreases_to!(self => self.children));
                    vstd::std_specs::vec::axiom_vec_index_decreases(self.children, k as int);
                }
                self.children[k].find_at_end(s, f)
            },
            None => None,
        }
    }
}

/// `b` is a copy of `a`: the same spans, with copies of the labels.
pub open spec fn tree_copy<I: Clone>(a: PosTreeView<I>, b: PosTreeView<I>) -> bool
    decreases a,
{
    &&& b.start == a.start
    &&& b.fin == a.fin
    &&& b.complete == a.complete
    &&& cloned(a.item, b.item)
    &&& b.children.len() == a.children.len()
    &&& forall|i: int|
        0 <= i < a.children.len() ==> tree_copy(#[trigger] a.children[i], b.children[i])
}

impl<I: Clone> Clone for PosTree<I> {
    fn clone(&self) -> (r: Self)
        ensures
            tree_copy(self@, r@),
    {
        self.duplicate()
    }
}

impl<I: Clone> PosTree<I> {
    /// A copy of this tree.
    pub fn duplicate(&self) -> (r: Self)
        ensures
            tree_copy(self@, r@),
        decreases self,
    {
        proof {
            lemma_tree_view(*self);
        }
        let mut children: Vec<PosTree<I>> = Vec::new();
        let mut n: usize = 0;
        while n < self.children.len()
            invariant
                n <= self.children.len(),
                children@.len() == n,
                forall|i: int|
                    0 <= i < n ==> tree_copy((#[trigger] self.children@[i])@, children@[i]@),
            decreases self.children.len() - n,
        {
            proof {
                assert(decreases_to!(self => self.children));
                vstd::std_specs::vec::axiom_vec_index_decreases(self.children, n as int);
            }
            let c = self.children[n].duplicate();
            children.push(c);
            n += 1;
        }
        let r = PosTree {
            start: self.start,
            fin: self.fin,
            complete: self.complete,
            item: self.item.clone(),
            children,
        };
        proof {
            lemma_tree_view(r);
            assert forall|i: int| 0 <= i < self@.children.len() implies tree_copy(
                #[trigger] self@.children[i],
                r@.children[i],
            ) by {
                assert(tree_copy(self.children@[i]@, r.children@[i]@));
            }
        }
        r
    }
}

/// A merge of a matcher that always reaches the end of the input with one
/// that cannot match there hands back a node marked incomplete, and no
/// failure.
pub proof fn lemma_merge_at_end_is_incomplete<
    'a,
    I: Clone,
    A: Parser<'a, Out = PosTree<I>>,
    B: Parser<'a, Out = PosTree<I>>,
>(m: &Merger<A, B, I>, it: Cursor, o: Outcome<PosTree<I>>)
    requires
        m.yields(it, o),
        it.rest.len() > 0,
        forall|oa: Outcome<PosTree<I>>| #[trigger]
            m.a.yields(it, oa) ==> oa is Done && oa->Done_0.rest.len() == 0,
        forall|c: Cursor, ob: Outcome<PosTree<I>>| #[trigger]
            m.b.yields(c, ob) && c.rest.len() == 0 ==> ob is Failed,
    ensures
        o matches Outcome::Done(c, t, s) && c.rest.len() == 0 && s is None && !t@.complete,
{
    let (oa, ob) = choose|oa: Outcome<PosTree<I>>, ob: Outcome<PosTree<I>>|
        merge_via(&m.a, &m.b, m.i, it, oa, ob, o);
    lemma_merge_incomplete_or_error(&m.a, &m.b, m.i, it, oa, ob, o);
}

/// A merge fails where its first matcher stops before the end of the input
/// and its second cannot match there: the failure is that of the second.
pub proof fn lemma_merge_with_input_left_fails<
    'a,
    I: Clone,
    A: Parser<'a, Out = PosTree<I>>,
    B: Parser<'a, Out = PosTree<I>>,
>(m: &Merger<A, B, I>, it: Cursor, o: Outcome<PosTree<I>>)
    requires
        m.yields(it, o),
        it.rest.len() > 0,
        forall|oa: Outcome<PosTree<I>>| #[trigger]
            m.a.yields(it, oa) ==> oa is Done && oa->Done_0.rest.len() > 0,
        forall|c: Cursor, ob: Outcome<PosTree<I>>| #[trigger]
            m.b.yields(c, ob) && c.rest.len() > 0 ==> ob is Failed,
    ensures
        o is Failed,
        exists|c: Cursor| #[trigger] m.b.yields(c, Outcome::Failed(o->Failed_0)),
{
    let (oa, ob) = choose|oa: Outcome<PosTree<I>>, ob: Outcome<PosTree<I>>|
        merge_via(&m.a, &m.b, m.i, it, oa, ob, o);
    lemma_merge_incomplete_or_error(&m.a, &m.b, m.i, it, oa, ob, o);
    assert(m.b.yields(oa->Done_0, Outcome::Failed(o->Failed_0)));
}

/// An append of a matcher that always reaches the end of the input with one
/// that cannot match there hands back the node of the first, marked
/// incomplete, and no failure.
pub proof fn lemma_push_at_end_is_incomplete<
    'a,
    I: Clone,
    A: Parser<'a, Out = PosTree<I>>,
    B: Parser<'a, Out = PosTree<I>>,
>(m: &Pusher<A, B>, it: Cursor, o: Outcome<PosTree<I>>)
    requires
        m.yields(it, o),
        forall|oa: Outcome<PosTree<I>>| #[trigger]
            m.a.yields(it, oa) ==> oa is Done && oa->Done_0.rest.len() == 0,
        forall|c: Cursor, ob: Outcome<PosTree<I>>| #[trigger]
            m.b.yields(c, ob) && c.rest.len() == 0 ==> ob is Failed,
    ensures
        o matches Outcome::Done(c, t, s) && c.rest.len() == 0 && s is None && !t@.complete,
{
    let (oa, ob) = choose|oa: Outcome<PosTree<I>>, ob: Outcome<PosTree<I>>|
        push_via(&m.a, &m.b, it, oa, ob, o);
    lemma_push_incomplete_or_error(&m.a, &m.b, it, oa, ob, o);
}

/// An append fails where its first matcher stops before the end of the
/// input and its second cannot match there: the failure is that of the
/// second.
pub proof fn lemma_push_with_input_left_fails<
    'a,
    I: Clone,
    A: Parser<'a, Out = PosTree<I>>,
    B: Parser<'a, Out = PosTree<I>>,
>(m: &Pusher<A, B>, it: Cursor, o: Outcome<PosTree<I>>)
    requires
        m.yields(it, o),
        forall|oa: Outcome<PosTree<I>>| #[trigger]
            m.a.yields(it, oa) ==> oa is Done && oa->Done_0.rest.len() > 0,
        forall|c: Cursor, ob: Outcome<PosTree<I>>| #[trigger]
            m.b.yields(c, ob) && c.rest.len() > 0 ==> ob is Failed,
    ensures
        o is Failed,
        exists|c: Cursor| #[trigger] m.b.yields(c, Outcome::Failed(o->Failed_0)),
{
    let (oa, ob) = choose|oa: Outcome<PosTree<I>>, ob: Outcome<PosTree<I>>|
        push_via(&m.a, &m.b, it, oa, ob, o);
    lemma_push_incomplete_or_error(&m.a, &m.b, it, oa, ob, o);
    assert(m.b.yields(oa->Done_0, Outcome::Failed(o->Failed_0)));
}

} // verus!
