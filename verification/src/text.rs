//! Byte widths and byte offsets of text held as UTF-8.

use vstd::prelude::*;
use vstd::string::StringSliceAdditionalSpecFns;
use vstd::utf8::*;

verus! {

/// The number of bytes that `c` takes in UTF-8.
pub open spec fn width(c: char) -> nat {
    if (c as u32) < 0x80 {
        1
    } else if (c as u32) < 0x800 {
        2
    } else if (c as u32) < 0x10000 {
        3
    } else {
        4
    }
}

/// The number of bytes that `s` takes in UTF-8.
pub open spec fn byte_len(s: Seq<char>) -> nat
    decreases s.len(),
{
    if s.len() == 0 {
        0
    } else {
        width(s[0]) + byte_len(s.drop_first())
    }
}

/// Computes the number of bytes that `c` takes in UTF-8.
pub fn char_width(c: char) -> (w: usize)
    ensures
        w == width(c),
        1 <= w <= 4,
{
    let v: u32 = c as u32;
    if v < 0x80 {
        1
    } else if v < 0x800 {
        2
    } else if v < 0x10000 {
        3
    } else {
        4
    }
}

/// The encoding of one character has as many bytes as its width.
pub proof fn lemma_width_is_encoded_len(c: char)
    ensures
        encode_scalar(c as u32).len() == width(c),
{
    char_is_scalar(c);
}

/// The encoding of a text has as many bytes as the widths of its characters together.
pub proof fn lemma_byte_len_is_encoded_len(s: Seq<char>)
    ensures
        encode_utf8(s).len() == byte_len(s),
    decreases s.len(),
{
    if s.len() > 0 {
        lemma_width_is_encoded_len(s[0]);
        lemma_byte_len_is_encoded_len(s.drop_first());
    }
}

/// Encoding distributes over concatenation.
pub proof fn lemma_encode_concat(a: Seq<char>, b: Seq<char>)
    ensures
        encode_utf8(a + b) =~= encode_utf8(a) + encode_utf8(b),
    decreases a.len(),
{
    if a.len() == 0 {
        assert(a + b =~= b);
    } else {
        assert((a + b).drop_first() =~= a.drop_first() + b);
        lemma_encode_concat(a.drop_first(), b);
    }
}

/// Byte length distributes over concatenation.
pub proof fn lemma_byte_len_concat(a: Seq<char>, b: Seq<char>)
    ensures
        byte_len(a + b) == byte_len(a) + byte_len(b),
{
    lemma_encode_concat(a, b);
    lemma_byte_len_is_encoded_len(a + b);
    lemma_byte_len_is_encoded_len(a);
    lemma_byte_len_is_encoded_len(b);
}

/// A text has at most as many characters as bytes.
pub proof fn lemma_len_le_byte_len(s: Seq<char>)
    ensures
        s.len() <= byte_len(s),
    decreases s.len(),
{
    if s.len() > 0 {
        lemma_len_le_byte_len(s.drop_first());
    }
}

/// The end of the encoding of a prefix of `s` is a character boundary in the
/// encoding of `s`.
pub proof fn lemma_prefix_is_boundary(s: Seq<char>, k: int)
    requires
        0 <= k <= s.len(),
    ensures
        is_char_boundary(encode_utf8(s), byte_len(s.take(k)) as int),
        byte_len(s.take(k)) <= byte_len(s),
    decreases k,
{
    let bytes = encode_utf8(s);
    encode_utf8_valid_utf8(s);
    assert(s =~= s.take(k) + s.skip(k));
    lemma_byte_len_concat(s.take(k), s.skip(k));
    if k == 0 {
        assert(byte_len(s.take(0)) == 0);
    } else {
        encode_utf8_first_scalar(s);
        lemma_width_is_encoded_len(s[0]);
        assert(pop_first_scalar(bytes) =~= encode_utf8(s.drop_first()));
        lemma_prefix_is_boundary(s.drop_first(), k - 1);
        assert(s.take(k).drop_first() =~= s.drop_first().take(k - 1));
        assert(s.take(k)[0] == s[0]);
        assert(byte_len(s.take(k)) == width(s[0]) + byte_len(s.drop_first().take(k - 1)));
        lemma_byte_len_is_encoded_len(s);
    }
}

/// A text is determined by its encoding.
pub proof fn lemma_encode_injective(a: Seq<char>, b: Seq<char>)
    requires
        encode_utf8(a) == encode_utf8(b),
    ensures
        a == b,
{
    encode_utf8_decode_utf8(a);
    encode_utf8_decode_utf8(b);
}

/// The byte offsets `from` and `to` cut the encoding of `s` between characters,
/// in this order.
pub open spec fn cuts(s: Seq<char>, from: int, to: int) -> bool {
    &&& from <= to
    &&& is_char_boundary(encode_utf8(s), from)
    &&& is_char_boundary(encode_utf8(s), to)
}

/// The text between the byte offsets `from` and `to` of `s`.
pub open spec fn between(s: Seq<char>, from: int, to: int) -> Seq<char> {
    decode_utf8(encode_utf8(s).subrange(from, to))
}

/// A boundary lies within the bytes.
pub proof fn lemma_boundary_in_range(bytes: Seq<u8>, index: int)
    requires
        valid_utf8(bytes),
        is_char_boundary(bytes, index),
    ensures
        0 <= index <= bytes.len(),
    decreases bytes.len(),
{
    if index != 0 {
        if bytes.len() > 0 {
            lemma_boundary_in_range(pop_first_scalar(bytes), index - length_of_first_scalar(bytes));
        }
    }
}

/// A boundary of the whole that lies behind another boundary is a boundary
/// of what follows that one.
pub proof fn lemma_boundary_of_tail(bytes: Seq<u8>, from: int, to: int)
    requires
        valid_utf8(bytes),
        from <= to,
        is_char_boundary(bytes, from),
        is_char_boundary(bytes, to),
    ensures
        0 <= from <= to <= bytes.len(),
        valid_utf8(bytes.subrange(from, bytes.len() as int)),
        is_char_boundary(bytes.subrange(from, bytes.len() as int), to - from),
{
    lemma_boundary_in_range(bytes, from);
    lemma_boundary_in_range(bytes, to);
    let tail = bytes.subrange(from, bytes.len() as int);
    valid_utf8_split(bytes, from);
    is_char_boundary_start_end_of_seq(tail);
    if from < to && to < bytes.len() {
        is_char_boundary_iff_not_is_continuation_byte(bytes, to);
        is_char_boundary_iff_not_is_continuation_byte(tail, to - from);
    }
}

/// The text between two byte offsets of `s`.
pub fn slice<'a>(s: &'a str, from: usize, to: usize) -> (r: &'a str)
    requires
        cuts(s@, from as int, to as int),
    ensures
        r@ == between(s@, from as int, to as int),
{
    proof {
        encode_utf8_valid_utf8(s@);
        lemma_boundary_of_tail(encode_utf8(s@), from as int, to as int);
    }
    let (_, tail) = s.split_at(from);
    let (mid, _) = tail.split_at(to - from);
    proof {
        let bytes = encode_utf8(s@);
        assert(mid.spec_bytes() =~= bytes.subrange(from as int, to as int));
        encode_utf8_decode_utf8(mid@);
    }
    mid
}

/// The text from a byte offset of `s` to its end.
pub fn slice_from<'a>(s: &'a str, from: usize) -> (r: &'a str)
    requires
        is_char_boundary(encode_utf8(s@), from as int),
    ensures
        r@ == between(s@, from as int, encode_utf8(s@).len() as int),
{
    let (_, tail) = s.split_at(from);
    proof {
        encode_utf8_decode_utf8(tail@);
    }
    tail
}

/// The text without characters.
pub fn empty_str() -> (r: &'static str)
    ensures
        r@ == Seq::<char>::empty(),
{
    proof {
        reveal_strlit("");
    }
    ""
}

/// Appends the character `ch` to `s`, by `String::push`: the text of `s` is
/// afterwards what it was, with `ch` behind it.
#[verifier::external_body]
pub(crate) fn push_char(s: &mut String, ch: char)
    ensures
        final(s)@ == old(s)@.push(ch),
{
    s.push(ch)
}

/// A value that can be read as text.
pub trait AsText {
    /// The text of this value. An implementation that does not say it leaves
    /// the text open.
    open spec fn text(&self) -> Seq<char> {
        arbitrary()
    }

    /// Reads this value as text.
    fn as_text(&self) -> (r: &str)
        ensures
            r@ == self.text(),
    ;
}

impl<'a> AsText for &'a str {
    open spec fn text(&self) -> Seq<char> {
        self@
    }

    fn as_text(&self) -> (r: &str) {
        *self
    }
}

impl AsText for String {
    open spec fn text(&self) -> Seq<char> {
        self@
    }

    fn as_text(&self) -> (r: &str) {
        self.as_str()
    }
}

/// The texts of `parts`, one after the other.
pub open spec fn concat<T: AsText>(parts: Seq<T>) -> Seq<char>
    decreases parts.len(),
{
    if parts.len() == 0 {
        Seq::empty()
    } else {
        concat(parts.drop_last()) + parts.last().text()
    }
}

/// The text of a sequence with one part more.
pub proof fn lemma_concat_push<T: AsText>(parts: Seq<T>, x: T)
    ensures
        concat(parts.push(x)) == concat(parts) + x.text(),
{
    assert(parts.push(x).drop_last() =~= parts);
}

/// The number of characters at the start of `a` and `b` that agree.
pub open spec fn agree(a: Seq<char>, b: Seq<char>) -> nat
    decreases a.len(),
{
    if a.len() > 0 && b.len() > 0 && a[0] == b[0] {
        1 + agree(a.drop_first(), b.drop_first())
    } else {
        0
    }
}

/// Where the first `k` characters agree, at least `k` do; exactly `k` where
/// one of the texts ends there or the next characters differ.
pub proof fn lemma_agree(a: Seq<char>, b: Seq<char>, k: nat)
    requires
        k <= a.len(),
        k <= b.len(),
        forall|j: int| 0 <= j < k ==> a[j] == b[j],
    ensures
        agree(a, b) >= k,
        (k == a.len() || k == b.len() || a[k as int] != b[k as int]) ==> agree(a, b) == k,
    decreases a.len(),
{
    if a.len() > 0 && b.len() > 0 && a[0] == b[0] {
        if k > 0 {
            let a2 = a.drop_first();
            let b2 = b.drop_first();
            assert forall|j: int| 0 <= j < k - 1 implies a2[j] == b2[j] by {
                assert(a2[j] == a[j + 1]);
                assert(b2[j] == b[j + 1]);
            }
            lemma_agree(a2, b2, (k - 1) as nat);
        }
    } else {
        if k > 0 {
            assert(a[0] == b[0]);
        }
    }
}

} // verus!
