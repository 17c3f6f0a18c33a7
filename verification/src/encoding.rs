//! UTF-8 facts and the encoding of single characters.
use vstd::prelude::*;
use vstd::utf8::*;

verus! {

/// Encoding a concatenation encodes each part in turn.
pub proof fn lemma_encode_concat(a: Seq<char>, b: Seq<char>)
    ensures
        encode_utf8(a + b) == encode_utf8(a) + encode_utf8(b),
    decreases a.len(),
{
    if a.len() == 0 {
        assert(a + b =~= b);
        assert(encode_utf8(a) =~= Seq::<u8>::empty());
        assert(encode_utf8(a) + encode_utf8(b) =~= encode_utf8(b));
    } else {
        lemma_encode_concat(a.drop_first(), b);
        assert((a + b).drop_first() =~= a.drop_first() + b);
        assert((a + b)[0] == a[0]);
        assert(encode_utf8(a + b) =~= encode_scalar(a[0] as u32) + encode_utf8(
            a.drop_first() + b,
        ));
    }
}

/// Encoding one character is encoding its scalar.
pub proof fn lemma_encode_single(c: char)
    ensures
        encode_utf8(seq![c]) == encode_scalar(c as u32),
{
    assert(seq![c].drop_first() =~= Seq::<char>::empty());
    assert(encode_utf8(Seq::<char>::empty()) =~= Seq::<u8>::empty());
    assert(encode_scalar(c as u32) + Seq::<u8>::empty() =~= encode_scalar(c as u32));
}

/// The encoding of a character: 1 to 4 bytes, a leading byte then continuation bytes.
pub proof fn lemma_scalar_shape(c: char)
    ensures
        1 <= encode_scalar(c as u32).len() <= 4,
        !is_continuation_byte(encode_scalar(c as u32)[0]),
        forall|i: int|
            1 <= i < encode_scalar(c as u32).len() ==> is_continuation_byte(
                #[trigger] encode_scalar(c as u32)[i],
            ),
{
    let v = c as u32;
    char_is_scalar(c);
    assert(has_width_1_encoding(v) ==> !is_continuation_byte(leading_byte_width_1(v)))
        by (bit_vector);
    assert(has_width_2_encoding(v) ==> !is_continuation_byte(leading_byte_width_2(v)))
        by (bit_vector);
    assert(has_width_3_encoding(v) ==> !is_continuation_byte(leading_byte_width_3(v)))
        by (bit_vector);
    assert(has_width_4_encoding(v) ==> !is_continuation_byte(leading_byte_width_4(v)))
        by (bit_vector);
    assert(is_continuation_byte(last_continuation_byte(v))) by (bit_vector);
    assert(is_continuation_byte(second_last_continuation_byte(v))) by (bit_vector);
    assert(is_continuation_byte(third_last_continuation_byte(v))) by (bit_vector);
}

/// The UTF-8 encoding of `c`: the bytes in front of the returned length.
pub(crate) fn encode_char(c: char) -> (r: ([u8; 4], usize))
    ensures
        r.1 == encode_scalar(c as u32).len(),
        r.0@.subrange(0, r.1 as int) == encode_scalar(c as u32),
{
    proof {
        char_is_scalar(c);
    }
    let v = c as u32;
    if v <= 0x7f {
        let b = [(v & 0x7F) as u8, 0, 0, 0];
        assert(b@.subrange(0, 1) =~= encode_scalar(v));
        (b, 1)
    } else if v <= 0x7ff {
        let b = [0xC0 | ((v >> 6) & 0x1F) as u8, 0x80 | (v & 0x3F) as u8, 0, 0];
        assert(b@.subrange(0, 2) =~= encode_scalar(v));
        (b, 2)
    } else if v <= 0xffff {
        let b = [
            0xE0 | ((v >> 12) & 0x0F) as u8,
            0x80 | ((v >> 6) & 0x3F) as u8,
            0x80 | (v & 0x3F) as u8,
            0,
        ];
        assert(b@.subrange(0, 3) =~= encode_scalar(v));
        (b, 3)
    } else {
        let b = [
            0xF0 | ((v >> 18) & 0x7) as u8,
            0x80 | ((v >> 12) & 0x3F) as u8,
            0x80 | ((v >> 6) & 0x3F) as u8,
            0x80 | (v & 0x3F) as u8,
        ];
        assert(b@.subrange(0, 4) =~= encode_scalar(v));
        (b, 4)
    }
}

/// `idx` falls between two characters of `s` (or at either end) in its UTF-8 encoding.
pub open spec fn is_boundary(s: Seq<char>, idx: int) -> bool {
    is_char_boundary(encode_utf8(s), idx)
}

/// The characters of `s` encoded before byte `idx`.
pub open spec fn chars_before(s: Seq<char>, idx: int) -> Seq<char> {
    decode_utf8(encode_utf8(s).subrange(0, idx))
}

/// The characters of `s` encoded from byte `idx` on.
pub open spec fn chars_from(s: Seq<char>, idx: int) -> Seq<char> {
    decode_utf8(encode_utf8(s).subrange(idx, encode_utf8(s).len() as int))
}

/// A character boundary splits `s` into the characters before and after it.
pub proof fn lemma_split_at_boundary(s: Seq<char>, idx: int)
    requires
        is_boundary(s, idx),
    ensures
        0 <= idx <= encode_utf8(s).len(),
        s == chars_before(s, idx) + chars_from(s, idx),
        valid_utf8(encode_utf8(s).subrange(0, idx)),
        valid_utf8(encode_utf8(s).subrange(idx, encode_utf8(s).len() as int)),
        encode_utf8(chars_before(s, idx)) == encode_utf8(s).subrange(0, idx),
        encode_utf8(chars_from(s, idx)) == encode_utf8(s).subrange(idx, encode_utf8(s).len() as int),
{
    let b = encode_utf8(s);
    encode_utf8_valid_utf8(s);
    encode_utf8_decode_utf8(s);
    if idx != 0 {
        assert(!(idx < 0 || b.len() < idx));
    }
    valid_utf8_split(b, idx);
    decode_utf8_split(b, idx);
    decode_utf8_encode_utf8(b.subrange(0, idx));
    decode_utf8_encode_utf8(b.subrange(idx, b.len() as int));
}

/// Three valid encodings one after the other decode to the three decodings in turn.
pub proof fn lemma_decode_join3(x: Seq<u8>, y: Seq<u8>, z: Seq<u8>)
    requires
        valid_utf8(x),
        valid_utf8(y),
        valid_utf8(z),
    ensures
        valid_utf8(x + y + z),
        decode_utf8(x + y + z) == decode_utf8(x) + decode_utf8(y) + decode_utf8(z),
{
    let (a, b, c) = (decode_utf8(x), decode_utf8(y), decode_utf8(z));
    decode_utf8_encode_utf8(x);
    decode_utf8_encode_utf8(y);
    decode_utf8_encode_utf8(z);
    lemma_encode_concat(a, b);
    lemma_encode_concat(a + b, c);
    encode_utf8_decode_utf8(a + b + c);
    encode_utf8_valid_utf8(a + b + c);
}

/// The width in bytes of the character whose encoding starts with `lead`.
pub(crate) fn scalar_width(lead: u8) -> (w: usize)
    ensures
        forall|x: Seq<u8>|
            valid_first_scalar(x) && x[0] == lead ==> w == #[trigger] length_of_first_scalar(x),
{
    if lead < 0x80 {
        1
    } else if lead < 0xe0 {
        2
    } else if lead < 0xf0 {
        3
    } else {
        4
    }
}

/// Facts on the first character of a valid, non-empty encoding.
pub proof fn lemma_first_scalar(x: Seq<u8>)
    requires
        valid_utf8(x),
        x.len() > 0,
    ensures
        valid_first_scalar(x),
        1 <= length_of_first_scalar(x) <= x.len(),
        decode_utf8(x) == seq![decode_first_scalar(x) as char] + decode_utf8(pop_first_scalar(x)),
        valid_utf8(pop_first_scalar(x)),
        pop_first_scalar(x) == x.subrange(length_of_first_scalar(x), x.len() as int),
{
}

/// The bytes between two character boundaries of a valid encoding are
/// valid, and a boundary inside them splits their decoding.
pub proof fn lemma_valid_between(b: Seq<u8>, i: int, j: int)
    requires
        valid_utf8(b),
        is_char_boundary(b, i),
        is_char_boundary(b, j),
        i <= j,
    ensures
        0 <= i <= j <= b.len(),
        valid_utf8(b.subrange(i, j)),
{
    if j != 0 {
        assert(!(j < 0 || b.len() < j));
    }
    if i != 0 {
        assert(!(i < 0 || b.len() < i));
    }
    valid_utf8_split(b, j);
    let p = b.subrange(0, j);
    if i < j {
        is_char_boundary_iff_not_is_continuation_byte(b, i);
        is_char_boundary_iff_not_is_continuation_byte(p, i);
    } else {
        is_char_boundary_start_end_of_seq(p);
    }
    valid_utf8_split(p, i);
    assert(p.subrange(i, p.len() as int) =~= b.subrange(i, j));
}

/// Inside a valid encoding, an index is a character boundary exactly when
/// it is an end or its byte is not a continuation byte.
pub proof fn lemma_boundary_local(b: Seq<u8>, i: int)
    requires
        valid_utf8(b),
        0 <= i <= b.len(),
    ensures
        is_char_boundary(b, i) <==> (i == b.len() || !is_continuation_byte(b[i])),
{
    is_char_boundary_start_end_of_seq(b);
    if i < b.len() {
        is_char_boundary_iff_not_is_continuation_byte(b, i);
    }
}

/// Every byte of a UTF-8 encoding is below 128 exactly when every character is ASCII.
pub proof fn lemma_ascii_bytes(s: Seq<char>)
    ensures
        is_ascii_chars(s) <==> (forall|i: int|
            0 <= i < encode_utf8(s).len() ==> #[trigger] encode_utf8(s)[i] < 128),
    decreases s.len(),
{
    if s.len() > 0 {
        let rest = s.drop_first();
        lemma_ascii_bytes(rest);
        let c = s[0] as u32;
        char_is_scalar(s[0]);
        char_u32_cast(s[0], c);
        let e = encode_scalar(c);
        let t = encode_utf8(rest);
        assert(encode_utf8(s) == e + t);
        if c <= 0x7f {
            assert(leading_byte_width_1(c) < 128) by (bit_vector)
                requires
                    c <= 0x7f,
            ;
            assert(e.len() == 1);
            if is_ascii_chars(s) {
                assert(is_ascii_chars(rest)) by {
                    assert forall|i: int| 0 <= i < rest.len() implies '\0' <= #[trigger] rest[i]
                        <= '\u{7f}' by {
                        assert(rest[i] == s[i + 1]);
                    }
                }
                assert forall|i: int|
                    0 <= i < encode_utf8(s).len() implies #[trigger] encode_utf8(s)[i] < 128 by {
                    if i >= 1 {
                        assert(encode_utf8(s)[i] == t[i - 1]);
                    }
                }
            }
            let small = forall|i: int|
                0 <= i < encode_utf8(s).len() ==> #[trigger] encode_utf8(s)[i] < 128;
            if small {
                assert forall|i: int|
                    0 <= i < t.len() implies #[trigger] t[i] < 128 by {
                    assert(encode_utf8(s)[i + 1] == t[i]);
                }
                assert(is_ascii_chars(rest));
                assert(s[0] <= '\u{7f}');
                assert forall|i: int| 0 <= i < s.len() implies '\0' <= #[trigger] s[i]
                    <= '\u{7f}' by {
                    if i >= 1 {
                        assert(s[i] == rest[i - 1]);
                    }
                }
            }
        } else {
            assert(has_width_2_encoding(c) ==> leading_byte_width_2(c) >= 128) by (bit_vector);
            assert(has_width_3_encoding(c) ==> leading_byte_width_3(c) >= 128) by (bit_vector);
            assert(has_width_4_encoding(c) ==> leading_byte_width_4(c) >= 128) by (bit_vector);
            assert(e[0] >= 128);
            assert(encode_utf8(s)[0] == e[0]);
            assert(!('\0' <= s[0] <= '\u{7f}'));
        }
    }
}

/// `p` occurs in `h` at byte index `i`.
pub open spec fn matches_at(h: Seq<u8>, p: Seq<u8>, i: int) -> bool {
    0 <= i && i + p.len() <= h.len() && h.subrange(i, i + p.len()) == p
}

/// After a character boundary of a valid encoding, the next boundary is
/// one character further.
pub proof fn lemma_next_boundary(h: Seq<u8>, i: int)
    requires
        valid_utf8(h),
        is_char_boundary(h, i),
        i < h.len(),
    ensures
        0 <= i,
        valid_first_scalar(h.subrange(i, h.len() as int)),
        is_char_boundary(h, i + length_of_first_scalar(h.subrange(i, h.len() as int))),
{
    if i != 0 {
        assert(!(i < 0 || h.len() < i));
    }
    valid_utf8_split(h, i);
    let x = h.subrange(i, h.len() as int);
    lemma_first_scalar(x);
    let w = length_of_first_scalar(x);
    let rest = pop_first_scalar(x);
    lemma_boundary_local(h, i + w);
    if rest.len() > 0 {
        lemma_first_scalar(rest);
        assert(rest[0] == h[i + w]);
    }
}

/// A match of a non-empty valid encoding inside a valid encoding starts and
/// ends on character boundaries.
pub proof fn lemma_match_boundaries(h: Seq<u8>, p: Seq<u8>, i: int)
    requires
        valid_utf8(h),
        valid_utf8(p),
        p.len() > 0,
        matches_at(h, p, i),
    ensures
        is_char_boundary(h, i),
        is_char_boundary(h, i + p.len()),
    decreases p.len(),
{
    lemma_first_scalar(p);
    assert(h[i] == p[0]);
    lemma_boundary_local(h, i);
    lemma_next_boundary(h, i);
    let x = h.subrange(i, h.len() as int);
    let w = length_of_first_scalar(p);
    assert(x[0] == p[0]);
    assert(length_of_first_scalar(x) == w);
    let rest = pop_first_scalar(p);
    if rest.len() > 0 {
        assert(h.subrange(i + w, i + w + rest.len()) =~= rest);
        lemma_match_boundaries(h, rest, i + w);
    }
}

} // verus!
