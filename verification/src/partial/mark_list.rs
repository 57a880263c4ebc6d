//! Writing a text out again with the labels of a span tree put in at the
//! offsets where its spans start and end.

use std::collections::BTreeMap;
use vstd::prelude::*;
use vstd::std_specs::btree::increasing_seq;
use vstd::std_specs::cmp::OrdSpec;
use vstd::std_specs::iter::IteratorSpec;
use vstd::string::StringExecFns;
use vstd::utf8::{encode_utf8, is_char_boundary};
use crate::partial::{lemma_tree_view, PosTree, PosTreeView};
use crate::text::{between, slice, slice_from, AsText};

verus! {

/// What can go wrong when a text is written out with labels.
#[derive(Clone, PartialEq, Debug)]
pub enum MarkErr {
    /// An offset of the tree lies outside the text, or inside a character.
    OutOfBounds,
}

impl MarkErr {
    /// The text of this error.
    pub fn to_string(&self) -> (r: String)
        ensures
            r@ == "Index Outside of working String"@,
    {
        "Index Outside of working String".to_owned()
    }
}

/// The labels of the tree `t` by the offsets at which they are written,
/// added to `m`: the label of `t` at its start; then the labels of its
/// children, in order, each with the label of `t` for the label that ends
/// it; then the label `end`, where there is one, at the end of `t`. A later
/// label at an offset takes the place of an earlier one.
pub open spec fn marks<I>(t: PosTreeView<I>, end: Option<I>, m: Map<usize, I>) -> Map<usize, I>
    decreases t, t.children.len() + 1,
{
    let inner = marks_upto(
        t,
        t.children.len(),
        match t.start {
            Some(s) => m.insert(s, t.item),
            None => m,
        },
    );
    match (t.fin, end) {
        (Some(s), Some(e)) => inner.insert(s, e),
        _ => inner,
    }
}

/// The labels of the first `n` children of `t`, added to `m`.
pub open spec fn marks_upto<I>(t: PosTreeView<I>, n: nat, m: Map<usize, I>) -> Map<usize, I>
    decreases t, n,
{
    if n == 0 || n > t.children.len() {
        m
    } else {
        marks(t.children[n - 1], Some(t.item), marks_upto(t, (n - 1) as nat, m))
    }
}

/// `entries` lists the map `m` by increasing offsets.
pub open spec fn listing<I>(entries: Seq<(usize, I)>, m: Map<usize, I>) -> bool {
    &&& entries.len() == m.dom().len()
    &&& forall|i: int, j: int| 0 <= i < j < entries.len() ==> entries[i].0 < entries[j].0
    &&& forall|i: int|
        0 <= i < entries.len() ==> m.contains_key((#[trigger] entries[i]).0) && m[entries[i].0]
            == entries[i].1
}

/// The text `s` from the byte offset `last` on, with the labels of `entries`
/// from number `i` on written in at their offsets; `None` where one of
/// these offsets lies outside `s` or inside a character.
pub open spec fn render<I: AsText>(entries: Seq<(usize, I)>, s: Seq<char>, i: int, last: int) -> Option<
    Seq<char>,
>
    decreases entries.len() - i,
{
    if i < 0 || i >= entries.len() {
        Some(between(s, last, encode_utf8(s).len() as int))
    } else if !is_char_boundary(encode_utf8(s), entries[i].0 as int) {
        None
    } else {
        match render(entries, s, i + 1, entries[i].0 as int) {
            None => None,
            Some(rest) => Some(between(s, last, entries[i].0 as int) + entries[i].1.text() + rest),
        }
    }
}

/// `r` is the text `s` with the labels of the map `m` written in at their
/// offsets, in the order of the offsets; or the error, where an offset lies
/// outside `s` or inside a character.
pub open spec fn marked<I: AsText>(m: Map<usize, I>, s: Seq<char>, r: Result<String, MarkErr>) -> bool {
    exists|entries: Seq<(usize, I)>| #[trigger]
        listing(entries, m) && match render(entries, s, 0, 0) {
            Some(x) => r matches Ok(y) && y@ == x,
            None => r == Err::<String, MarkErr>(MarkErr::OutOfBounds),
        }
}

/// Writes `s` out with the labels of `t` put in where its spans start and end.
pub fn mark_str<I: AsText>(t: &PosTree<I>, s: &str) -> (r: Result<String, MarkErr>)
    ensures
        marked(marks(t@, None, Map::empty()), s@, r),
{
    let ml = MarkList::new(t, None);
    ml.mark_str(s)
}

/// The labels of a span tree by the offsets at which they are written.
pub struct MarkList<'t, I>(pub BTreeMap<usize, &'t I>);

impl<'t, I> View for MarkList<'t, I> {
    type V = Map<usize, I>;

    open spec fn view(&self) -> Map<usize, I> {
        Map::new(|k: usize| self.0@.contains_key(k), |k: usize| *self.0@[k])
    }
}

impl<'t, I: AsText> MarkList<'t, I> {
    /// The labels of `t`, with `end` for the label that ends it.
    pub fn new(t: &'t PosTree<I>, end: Option<&'t I>) -> (r: Self)
        ensures
            r@ == marks(
                t@,
                match end {
                    Some(e) => Some(*e),
                    None => None,
                },
                Map::empty(),
            ),
    {
        let mut res = MarkList(BTreeMap::new());
        proof {
            assert(res@ =~= Map::<usize, I>::empty());
        }
        res.set_marks(t, end);
        res
    }

    /// Puts the label `v` at the offset `k`.
    fn put(&mut self, k: usize, v: &'t I)
        ensures
            final(self)@ == old(self)@.insert(k, *v),
    {
        broadcast use vstd::laws_cmp::group_laws_cmp;

        self.0.insert(k, v);
        proof {
            assert(final(self)@ =~= old(self)@.insert(k, *v));
        }
    }

    /// Adds the labels of `t`, with `end` for the label that ends it.
    pub fn set_marks(&mut self, t: &'t PosTree<I>, end: Option<&'t I>)
        ensures
            final(self)@ == marks(
                t@,
                match end {
                    Some(e) => Some(*e),
                    None => None,
                },
                old(self)@,
            ),
        decreases t,
    {
        proof {
            lemma_tree_view(*t);
        }
        if let Some(s) = t.start {
            self.put(s, &t.item);
        }
        let ghost base = self@;
        let mut n: usize = 0;
        while n < t.children.len()
            invariant
                n <= t.children.len(),
                t@.children.len() == t.children.len(),
                self@ == marks_upto(t@, n as nat, base),
                forall|j: int| 0 <= j < t.children.len() ==> t@.children[j] == t.children@[j]@,
            decreases t.children.len() - n,
        {
            proof {
                assert(decreases_to!(t => t.children));
                vstd::std_specs::vec::axiom_vec_index_decreases(t.children, n as int);
            }
            self.set_marks(&t.children[n], Some(&t.item));
            n += 1;
        }
        if let (Some(s), Some(e)) = (t.fin, end) {
            self.put(s, e);
        }
    }

    /// Writes `s` out with the labels put in at their offsets.
    pub fn mark_str(&self, s: &str) -> (r: Result<String, MarkErr>)
        ensures
            marked(self@, s@, r),
    {
        let mut res = String::new();
        let mut last_i: usize = 0;
        let it0 = self.0.iter();
        let ghost raw = it0.remaining();
        let ghost entries: Seq<(usize, I)> = Seq::new(raw.len(), |i: int| (*raw[i].0, **raw[i].1));
        proof {
            lemma_listing(self, it0, entries);
            vstd::utf8::encode_utf8_valid_utf8(s@);
            vstd::utf8::is_char_boundary_start_end_of_seq(encode_utf8(s@));
            assert(res@ + render(entries, s@, 0, 0)->0 =~= render(entries, s@, 0, 0)->0);
        }
        for kv in it: it0
            invariant
                it.seq() == raw,
                entries.len() == raw.len(),
                listing(entries, self@),
                vstd::utf8::valid_utf8(encode_utf8(s@)),
                forall|i: int|
                    0 <= i < raw.len() ==> (#[trigger] entries[i]).0 == *raw[i].0 && entries[i].1
                        == **raw[i].1,
                forall|i: int, j: int| 0 <= i < j < entries.len() ==> entries[i].0 < entries[j].0,
                is_char_boundary(encode_utf8(s@), last_i as int),
                it.index() < entries.len() ==> last_i <= entries[it.index()].0,
                render(entries, s@, 0, 0) == (match render(entries, s@, it.index(), last_i as int) {
                    None => None,
                    Some(x) => Some(res@ + x),
                }),
        {
            let (k, m) = kv;
            let ghost i = it.index();
            if !s.is_char_boundary(*k) {
                let r: Result<String, MarkErr> = Err(MarkErr::OutOfBounds);
                assert(listing(entries, self@) && render(entries, s@, 0, 0) is None);
                return r;
            }
            let piece = slice(s, last_i, *k);
            let ghost before = res@;
            res.append(piece);
            res.append(m.as_text());
            assert(render(entries, s@, i + 1, *k as int) is Some ==> before + (piece@ + m.text()
                + render(entries, s@, i + 1, *k as int)->0) =~= res@ + render(
                entries,
                s@,
                i + 1,
                *k as int,
            )->0);
            last_i = *k;
        }
        let tail = slice_from(s, last_i);
        let ghost before = res@;
        res.append(tail);
        assert(listing(entries, self@) && render(entries, s@, 0, 0) == Some(res@));
        Ok(res)
    }
}

/// The entries that the iterator over the labels hands out list the labels
/// by increasing offsets.
proof fn lemma_listing<'t, I>(
    ml: &MarkList<'t, I>,
    it: std::collections::btree_map::Iter<'_, usize, &'t I>,
    entries: Seq<(usize, I)>,
)
    requires
        it == vstd::std_specs::btree::spec_btree_map_iter(&ml.0),
        increasing_seq(it.remaining().map_values(|kv: (&usize, &&'t I)| *kv.0)),
        entries.len() == it.remaining().len(),
        forall|i: int|
            0 <= i < entries.len() ==> (#[trigger] entries[i]).0 == *it.remaining()[i].0
                && entries[i].1 == **it.remaining()[i].1,
    ensures
        listing(entries, ml@),
{
    broadcast use vstd::std_specs::btree::group_btree_axioms;
    broadcast use vstd::laws_cmp::group_laws_cmp;

    let raw = it.remaining();
    let ks = raw.map_values(|kv: (&usize, &&'t I)| *kv.0);
    vstd::std_specs::btree::axiom_increasing_seq_meaning(ks);
    assert(ml@.dom() =~= ml.0@.dom());
    assert forall|i: int, j: int| 0 <= i < j < entries.len() implies entries[i].0 < entries[j].0 by {
        assert(ks[i].cmp_spec(&ks[j]) is Less);
    }
    assert forall|i: int| 0 <= i < entries.len() implies ml@.contains_key((#[trigger] entries[i]).0)
        && ml@[entries[i].0] == entries[i].1 by {
        assert(ml.0@.contains_key(*raw[i].0));
    }
}

} // verus!
