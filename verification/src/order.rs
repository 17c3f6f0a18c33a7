//! Lexicographic order between `GString`s, and with `str` and `String`.
use core::cmp::Ordering;
use vstd::prelude::*;
use vstd::std_specs::cmp::PartialOrdSpecImpl;
use vstd::string::StringSliceAdditionalSpecFns;
use vstd::utf8::*;

use crate::encoding::{lemma_encode_concat, lemma_encode_single, lemma_scalar_shape};
use crate::gstring::GString;
use crate::validator::Validator;

verus! {

/// Lexicographic order of two byte sequences; a proper prefix comes first.
pub open spec fn byte_order(a: Seq<u8>, b: Seq<u8>) -> Ordering
    decreases a.len(),
{
    if a.len() == 0 {
        if b.len() == 0 {
            Ordering::Equal
        } else {
            Ordering::Less
        }
    } else if b.len() == 0 {
        Ordering::Greater
    } else if a[0] < b[0] {
        Ordering::Less
    } else if a[0] > b[0] {
        Ordering::Greater
    } else {
        byte_order(a.drop_first(), b.drop_first())
    }
}

/// Order of two strings: that of their UTF-8 encodings, which is also the
/// order of their characters by code point.
pub open spec fn text_order(a: Seq<char>, b: Seq<char>) -> Ordering {
    byte_order(encode_utf8(a), encode_utf8(b))
}

/// `o` seen from the other side.
pub open spec fn reversed(o: Ordering) -> Ordering {
    match o {
        Ordering::Less => Ordering::Greater,
        Ordering::Equal => Ordering::Equal,
        Ordering::Greater => Ordering::Less,
    }
}

/// Byte order is a total order: equal exactly for equal sequences,
/// reversed when the sides swap, and transitive.
pub proof fn lemma_byte_order(a: Seq<u8>, b: Seq<u8>, c: Seq<u8>)
    ensures
        (byte_order(a, b) == Ordering::Equal) <==> a == b,
        byte_order(b, a) == reversed(byte_order(a, b)),
        byte_order(a, b) == Ordering::Less && byte_order(b, c) == Ordering::Less ==> byte_order(a, c)
            == Ordering::Less,
    decreases a.len(),
{
    if a.len() > 0 && b.len() > 0 && c.len() > 0 {
        lemma_byte_order(a.drop_first(), b.drop_first(), c.drop_first());
        if a[0] == b[0] && a.drop_first() == b.drop_first() {
            assert(a =~= seq![a[0]] + a.drop_first());
            assert(b =~= seq![b[0]] + b.drop_first());
        }
    } else if a.len() > 0 && b.len() > 0 {
        lemma_byte_order(a.drop_first(), b.drop_first(), c);
        if a[0] == b[0] && a.drop_first() == b.drop_first() {
            assert(a =~= seq![a[0]] + a.drop_first());
            assert(b =~= seq![b[0]] + b.drop_first());
        }
    } else if a.len() == 0 && b.len() == 0 {
        assert(a =~= b);
    }
}

/// The order of strings is a total order that agrees with equality: two
/// strings compare `Equal` exactly when they are equal, swapping them
/// reverses the result, and `Less` chains.
pub proof fn law_text_order(a: Seq<char>, b: Seq<char>, c: Seq<char>)
    ensures
        (text_order(a, b) == Ordering::Equal) <==> a == b,
        text_order(b, a) == reversed(text_order(a, b)),
        text_order(a, b) == Ordering::Less && text_order(b, c) == Ordering::Less ==> text_order(a, c)
            == Ordering::Less,
{
    lemma_byte_order(encode_utf8(a), encode_utf8(b), encode_utf8(c));
    encode_utf8_decode_utf8(a);
    encode_utf8_decode_utf8(b);
}

/// Byte order is lexicographic under the numeric order of bytes: where `a`
/// and `b` agree on their first `i` bytes, and `i` is the first index where
/// they differ, the one with the smaller byte there comes first; when one
/// ends at `i`, it comes first, and when both do, they are equal.
pub proof fn law_byte_order_lexicographic(a: Seq<u8>, b: Seq<u8>, i: int)
    requires
        0 <= i <= a.len(),
        i <= b.len(),
        a.subrange(0, i) == b.subrange(0, i),
    ensures
        i < a.len() && i < b.len() && a[i] < b[i] ==> byte_order(a, b) == Ordering::Less,
        i < a.len() && i < b.len() && a[i] > b[i] ==> byte_order(a, b) == Ordering::Greater,
        i == a.len() && i < b.len() ==> byte_order(a, b) == Ordering::Less,
        i < a.len() && i == b.len() ==> byte_order(a, b) == Ordering::Greater,
        i == a.len() && i == b.len() ==> byte_order(a, b) == Ordering::Equal,
    decreases i,
{
    if i > 0 {
        assert(a[0] == a.subrange(0, i)[0]);
        assert(b[0] == b.subrange(0, i)[0]);
        assert(a.drop_first().subrange(0, i - 1) =~= a.subrange(0, i).drop_first());
        assert(b.drop_first().subrange(0, i - 1) =~= b.subrange(0, i).drop_first());
        law_byte_order_lexicographic(a.drop_first(), b.drop_first(), i - 1);
    }
}

/// The encodings of `p + x` and `p + y` agree up to the end `i` of that of
/// `p`, where those of `x` and `y` begin.
proof fn lemma_shared_prefix(p: Seq<char>, x: Seq<char>, y: Seq<char>) -> (i: int)
    ensures
        i == encode_utf8(p).len(),
        0 <= i <= encode_utf8(p + x).len(),
        i <= encode_utf8(p + y).len(),
        encode_utf8(p + x).subrange(0, i) == encode_utf8(p + y).subrange(0, i),
        encode_utf8(p + x).len() == i + encode_utf8(x).len(),
        encode_utf8(p + y).len() == i + encode_utf8(y).len(),
        encode_utf8(x).len() > 0 ==> encode_utf8(p + x)[i] == encode_utf8(x)[0],
        encode_utf8(y).len() > 0 ==> encode_utf8(p + y)[i] == encode_utf8(y)[0],
        x.len() == 0 ==> encode_utf8(x).len() == 0,
        y.len() > 0 ==> encode_utf8(y).len() > 0,
{
    let e = encode_utf8(p);
    lemma_encode_concat(p, x);
    lemma_encode_concat(p, y);
    let ex = encode_utf8(p + x);
    let ey = encode_utf8(p + y);
    let i = e.len() as int;
    assert(ex.subrange(0, i) =~= e);
    assert(ey.subrange(0, i) =~= e);
    if x.len() == 0 {
        assert(encode_utf8(x) =~= Seq::<u8>::empty());
    }
    if y.len() > 0 {
        lemma_encode_concat(seq![y[0]], y.drop_first());
        assert(seq![y[0]] + y.drop_first() =~= y);
        lemma_encode_single(y[0]);
        lemma_scalar_shape(y[0]);
    }
    i
}

/// Strings are ordered by the lexicographic order of their UTF-8 bytes:
/// after a common beginning `p`, the string whose next byte is smaller
/// comes first, and a string comes after its proper beginnings.
pub proof fn law_text_order_bytes(p: Seq<char>, x: Seq<char>, y: Seq<char>)
    ensures
        encode_utf8(x).len() > 0 && encode_utf8(y).len() > 0 && encode_utf8(x)[0] < encode_utf8(
            y,
        )[0] ==> text_order(p + x, p + y) == Ordering::Less,
        x.len() == 0 && y.len() > 0 ==> text_order(p + x, p + y) == Ordering::Less,
{
    let i = lemma_shared_prefix(p, x, y);
    law_byte_order_lexicographic(encode_utf8(p + x), encode_utf8(p + y), i);
}

/// The bytes of `a` from index `i` on.
pub open spec fn tail(a: Seq<u8>, i: usize) -> Seq<u8> {
    a.skip(i as int)
}

/// Dropping the first byte of a tail gives the next tail.
proof fn lemma_tail_step(a: Seq<u8>, i: usize)
    requires
        i < a.len() <= usize::MAX,
    ensures
        tail(a, i).drop_first() == tail(a, (i + 1) as usize),
        tail(a, i)[0] == a[i as int],
        tail(a, i).len() == a.len() - i,
{
    assert(tail(a, i).drop_first() =~= tail(a, (i + 1) as usize));
}

/// Every sequence is its own tail from zero.
proof fn lemma_tail_zero(a: Seq<u8>)
    ensures
        tail(a, 0) == a,
{
    assert(tail(a, 0) =~= a);
}

/// Compares two byte slices lexicographically.
pub(crate) fn bytes_order(a: &[u8], b: &[u8]) -> (r: Ordering)
    ensures
        r == byte_order(a@, b@),
{
    let mut i: usize = 0;
    proof {
        lemma_tail_zero(a@);
        lemma_tail_zero(b@);
    }
    while i < a.len() && i < b.len() && a[i] == b[i]
        invariant
            i <= a@.len(),
            i <= b@.len(),
            byte_order(a@, b@) == byte_order(tail(a@, i), tail(b@, i)),
        decreases a@.len() - i,
    {
        proof {
            lemma_tail_step(a@, i);
            lemma_tail_step(b@, i);
        }
        i += 1;
    }
    let a_len = a.len();
    let b_len = b.len();
    proof {
        if i < a@.len() {
            lemma_tail_step(a@, i);
        }
        if i < b@.len() {
            lemma_tail_step(b@, i);
        }
    }
    if i == a.len() {
        if i == b.len() {
            Ordering::Equal
        } else {
            Ordering::Less
        }
    } else if i == b.len() {
        Ordering::Greater
    } else if a[i] < b[i] {
        Ordering::Less
    } else {
        Ordering::Greater
    }
}

impl<
    LV: Validator,
    RV: Validator,
    const LMIN: usize,
    const LMAX: usize,
    const LASCII: bool,
    const RMIN: usize,
    const RMAX: usize,
    const RASCII: bool,
> PartialOrd<GString<RV, RMIN, RMAX, RASCII>> for GString<LV, LMIN, LMAX, LASCII> {
    fn partial_cmp(&self, other: &GString<RV, RMIN, RMAX, RASCII>) -> (r: Option<Ordering>) {
        Some(bytes_order(self.as_bytes(), other.as_bytes()))
    }
}

impl<
    LV: Validator,
    RV: Validator,
    const LMIN: usize,
    const LMAX: usize,
    const LASCII: bool,
    const RMIN: usize,
    const RMAX: usize,
    const RASCII: bool,
> PartialOrdSpecImpl<GString<RV, RMIN, RMAX, RASCII>> for GString<LV, LMIN, LMAX, LASCII> {
    open spec fn obeys_partial_cmp_spec() -> bool {
        true
    }

    open spec fn partial_cmp_spec(&self, other: &GString<RV, RMIN, RMAX, RASCII>) -> Option<
        Ordering,
    > {
        Some(text_order(self@, other@))
    }
}

impl<V: Validator, const MIN: usize, const MAX: usize, const ASCII_ONLY: bool> PartialOrd<str> for GString<
    V,
    MIN,
    MAX,
    ASCII_ONLY,
> {
    fn partial_cmp(&self, other: &str) -> (r: Option<Ordering>) {
        Some(bytes_order(self.as_bytes(), other.as_bytes()))
    }
}

impl<V: Validator, const MIN: usize, const MAX: usize, const ASCII_ONLY: bool> PartialOrdSpecImpl<str> for GString<
    V,
    MIN,
    MAX,
    ASCII_ONLY,
> {
    open spec fn obeys_partial_cmp_spec() -> bool {
        true
    }

    open spec fn partial_cmp_spec(&self, other: &str) -> Option<Ordering> {
        Some(text_order(self@, other@))
    }
}

impl<'a, V: Validator, const MIN: usize, const MAX: usize, const ASCII_ONLY: bool> PartialOrd<&'a str> for GString<
    V,
    MIN,
    MAX,
    ASCII_ONLY,
> {
    fn partial_cmp(&self, other: &&'a str) -> (r: Option<Ordering>) {
        Some(bytes_order(self.as_bytes(), other.as_bytes()))
    }
}

impl<'a, V: Validator, const MIN: usize, const MAX: usize, const ASCII_ONLY: bool> PartialOrdSpecImpl<&'a str> for GString<
    V,
    MIN,
    MAX,
    ASCII_ONLY,
> {
    open spec fn obeys_partial_cmp_spec() -> bool {
        true
    }

    open spec fn partial_cmp_spec(&self, other: &&'a str) -> Option<Ordering> {
        Some(text_order(self@, (*other)@))
    }
}

impl<V: Validator, const MIN: usize, const MAX: usize, const ASCII_ONLY: bool> PartialOrd<
    GString<V, MIN, MAX, ASCII_ONLY>,
> for str {
    fn partial_cmp(&self, other: &GString<V, MIN, MAX, ASCII_ONLY>) -> (r: Option<Ordering>) {
        Some(bytes_order(self.as_bytes(), other.as_bytes()))
    }
}

impl<V: Validator, const MIN: usize, const MAX: usize, const ASCII_ONLY: bool> PartialOrdSpecImpl<
    GString<V, MIN, MAX, ASCII_ONLY>,
> for str {
    open spec fn obeys_partial_cmp_spec() -> bool {
        true
    }

    open spec fn partial_cmp_spec(&self, other: &GString<V, MIN, MAX, ASCII_ONLY>) -> Option<
        Ordering,
    > {
        Some(text_order(self@, other@))
    }
}

impl<'a, V: Validator, const MIN: usize, const MAX: usize, const ASCII_ONLY: bool> PartialOrd<
    GString<V, MIN, MAX, ASCII_ONLY>,
> for &'a str {
    fn partial_cmp(&self, other: &GString<V, MIN, MAX, ASCII_ONLY>) -> (r: Option<Ordering>) {
        Some(bytes_order(self.as_bytes(), other.as_bytes()))
    }
}

impl<'a, V: Validator, const MIN: usize, const MAX: usize, const ASCII_ONLY: bool> PartialOrdSpecImpl<
    GString<V, MIN, MAX, ASCII_ONLY>,
> for &'a str {
    open spec fn obeys_partial_cmp_spec() -> bool {
        true
    }

    open spec fn partial_cmp_spec(&self, other: &GString<V, MIN, MAX, ASCII_ONLY>) -> Option<
        Ordering,
    > {
        Some(text_order((*self)@, other@))
    }
}

impl<V: Validator, const MIN: usize, const MAX: usize, const ASCII_ONLY: bool> PartialOrd<String> for GString<V, MIN, MAX, ASCII_ONLY> {
    fn partial_cmp(&self, other: &String) -> (r: Option<Ordering>) {
        Some(bytes_order(self.as_bytes(), other.as_str().as_bytes()))
    }
}

impl<V: Validator, const MIN: usize, const MAX: usize, const ASCII_ONLY: bool> PartialOrdSpecImpl<String> for GString<V, MIN, MAX, ASCII_ONLY> {
    open spec fn obeys_partial_cmp_spec() -> bool {
        true
    }

    open spec fn partial_cmp_spec(&self, other: &String) -> Option<Ordering> {
        Some(text_order(self@, other@))
    }
}

impl<V: Validator, const MIN: usize, const MAX: usize, const ASCII_ONLY: bool> PartialOrd<GString<V, MIN, MAX, ASCII_ONLY>> for String {
    fn partial_cmp(&self, other: &GString<V, MIN, MAX, ASCII_ONLY>) -> (r: Option<Ordering>) {
        Some(bytes_order(self.as_str().as_bytes(), other.as_bytes()))
    }
}

impl<V: Validator, const MIN: usize, const MAX: usize, const ASCII_ONLY: bool> PartialOrdSpecImpl<GString<V, MIN, MAX, ASCII_ONLY>> for String {
    open spec fn obeys_partial_cmp_spec() -> bool {
        true
    }

    open spec fn partial_cmp_spec(&self, other: &GString<V, MIN, MAX, ASCII_ONLY>) -> Option<Ordering> {
        Some(text_order(self@, other@))
    }
}

} // verus!
