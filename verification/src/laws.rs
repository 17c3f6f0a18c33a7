//! Laws that tie the operations of `GString` together.
use vstd::prelude::*;
use vstd::utf8::*;

use crate::encoding::{
    chars_before,
    lemma_valid_between,
    chars_from,
    is_boundary,
    lemma_encode_concat,
    lemma_encode_single,
    lemma_match_boundaries,
    lemma_scalar_shape,
    lemma_split_at_boundary,
    matches_at,
};
use crate::error::{lift_error, ConstraintError, GStringError};
use crate::gstring::{check_constraints, lemma_gstring_bounds, GString};
use crate::gsecret::GSecret;
use crate::mutation::RangeBound;
use crate::trim::{is_whitespace, trim_chars, trim_end_chars, trim_start_chars};
use crate::iterator::step_outcome;
use crate::matching::{
    advance,
    forward_starts,
    found_at,
    lemma_match_starts,
    piece_end,
    piece_start,
    split_pieces,
};
use crate::range::slice_chars;
use crate::search::{is_first_match, is_last_match, occurs};
use crate::text::utf8_len;
use crate::validator::{validator_answer, Validator};

verus! {

/// A construction that succeeds gives back exactly the text it was given,
/// and that text meets every constraint of the type.
pub proof fn law_construction_success<
    V: Validator,
    const MIN: usize,
    const MAX: usize,
    const ASCII_ONLY: bool,
>(s: Seq<char>, r: Result<GString<V, MIN, MAX, ASCII_ONLY>, GStringError<V::Error>>)
    requires
        GString::<V, MIN, MAX, ASCII_ONLY>::construction_outcome(s, r),
        r is Ok,
    ensures
        r matches Ok(g) && g@ == s && g.meets_constraints(),
        check_constraints(s, MIN, MAX, ASCII_ONLY) is None,
        validator_answer::<V>(s, Ok(())),
{
}

/// All constructors agree: two constructions from the same text (by
/// `try_new`, `from_str`, `try_from`, `try_from_chars` or `try_from_iter`)
/// fail with the same error when a length or ASCII check fails; when both
/// succeed they hold the same text; and with a validator whose verdict is
/// stated, both succeed or both fail.
pub proof fn law_constructors_agree<
    V: Validator,
    const MIN: usize,
    const MAX: usize,
    const ASCII_ONLY: bool,
>(
    s: Seq<char>,
    r1: Result<GString<V, MIN, MAX, ASCII_ONLY>, GStringError<V::Error>>,
    r2: Result<GString<V, MIN, MAX, ASCII_ONLY>, GStringError<V::Error>>,
)
    requires
        GString::<V, MIN, MAX, ASCII_ONLY>::construction_outcome(s, r1),
        GString::<V, MIN, MAX, ASCII_ONLY>::construction_outcome(s, r2),
    ensures
        V::obeys_valid() ==> (r1 is Ok <==> r2 is Ok),
        r1 matches Ok(a) ==> r2 matches Ok(b) ==> a@ == b@,
        check_constraints(s, MIN, MAX, ASCII_ONLY) is None ==> (r1 is Ok || r1 matches Err(
            GStringError::Validation(_),
        )),
        r1 matches Err(GStringError::Validation(e)) ==> validator_answer::<V>(s, Err(e)),
        check_constraints(s, MIN, MAX, ASCII_ONLY) is Some ==> r1 == r2,
{
}

/// A secret is built as a `GString` is: from the same text, `GSecret`'s
/// constructors and `GString`'s fail with the same error when a length or
/// ASCII check fails; when both succeed they hold the same text; a refusal
/// by the validator carries an answer it gave for that text; and with a
/// validator whose verdict is stated, both succeed or both fail.
pub proof fn law_secret_as_string<
    V: Validator,
    const MIN: usize,
    const MAX: usize,
    const ASCII_ONLY: bool,
>(
    s: Seq<char>,
    plain: Result<GString<V, MIN, MAX, ASCII_ONLY>, GStringError<V::Error>>,
    secret: Result<GSecret<V, MIN, MAX, ASCII_ONLY>, GStringError<V::Error>>,
)
    requires
        GString::<V, MIN, MAX, ASCII_ONLY>::construction_outcome(s, plain),
        GSecret::<V, MIN, MAX, ASCII_ONLY>::construction_outcome(s, secret),
    ensures
        V::obeys_valid() ==> (plain is Ok <==> secret is Ok),
        plain matches Ok(a) ==> secret matches Ok(b) ==> a@ == b@,
        check_constraints(s, MIN, MAX, ASCII_ONLY) matches Some(c) ==> plain == Err::<
            GString<V, MIN, MAX, ASCII_ONLY>,
            GStringError<V::Error>,
        >(lift_error(c)) && secret == Err::<
            GSecret<V, MIN, MAX, ASCII_ONLY>,
            GStringError<V::Error>,
        >(lift_error(c)),
        secret matches Err(GStringError::Validation(e)) ==> validator_answer::<V>(s, Err(e)),
        secret matches Ok(b) ==> b@ == s,
{
}

/// Building a string again from the text of a string that meets every
/// length and ASCII constraint (through `as_str` and `try_new`, or
/// `String::from` and `try_from`) gives the same text or a validation
/// error, and succeeds when the validator is stated to accept that text.
pub proof fn law_rebuild<V: Validator, const MIN: usize, const MAX: usize, const ASCII_ONLY: bool>(
    g: GString<V, MIN, MAX, ASCII_ONLY>,
    r: Result<GString<V, MIN, MAX, ASCII_ONLY>, GStringError<V::Error>>,
)
    requires
        check_constraints(g@, MIN, MAX, ASCII_ONLY) is None,
        GString::<V, MIN, MAX, ASCII_ONLY>::construction_outcome(g@, r),
    ensures
        r matches Ok(h) ==> h@ == g@,
        r is Err ==> r matches Err(GStringError::Validation(_)),
        V::obeys_valid() && V::valid(g@) ==> (r matches Ok(h) && h@ == g@),
{
}

/// A mutation that succeeds leaves a string that meets every constraint of
/// the type; one that fails leaves the string as it was.
pub proof fn law_mutation<V: Validator, const MIN: usize, const MAX: usize, const ASCII_ONLY: bool>(
    old: GString<V, MIN, MAX, ASCII_ONLY>,
    cand: Seq<char>,
    r: Result<(), GStringError<V::Error>>,
    new: GString<V, MIN, MAX, ASCII_ONLY>,
)
    requires
        GString::<V, MIN, MAX, ASCII_ONLY>::mutation_outcome(old, cand, r, new),
    ensures
        r is Ok ==> new@ == cand && check_constraints(new@, MIN, MAX, ASCII_ONLY) is None
            && validator_answer::<V>(new@, Ok(())),
        r matches Err(GStringError::Validation(e)) ==> validator_answer::<V>(cand, Err(e)),
        r is Err ==> new == old,
{
}

/// Every mutation keeps the constraints: from a string that meets them,
/// whatever `push`, `push_str`, `insert`, `insert_str`, `pop`, `remove`,
/// `truncate`, `clear`, `replace`, `replace_range`, `try_extend` or
/// `try_extend_chars` returns, the string after it meets them too.
pub proof fn law_constraints_kept<
    V: Validator,
    const MIN: usize,
    const MAX: usize,
    const ASCII_ONLY: bool,
>(old: GString<V, MIN, MAX, ASCII_ONLY>)
    requires
        old.meets_constraints(),
    ensures
        forall|cand: Seq<char>, r: Result<(), GStringError<V::Error>>, new: GString<V, MIN, MAX, ASCII_ONLY>|
            #[trigger] GString::<V, MIN, MAX, ASCII_ONLY>::mutation_outcome(old, cand, r, new)
                ==> new.meets_constraints(),
        forall|idx: int, ins: Seq<char>, r: Result<(), GStringError<V::Error>>, new: GString<V, MIN, MAX, ASCII_ONLY>|
            #[trigger] GString::<V, MIN, MAX, ASCII_ONLY>::insert_outcome(old, idx, ins, r, new)
                ==> new.meets_constraints(),
        forall|r: Result<Option<char>, GStringError<V::Error>>, new: GString<V, MIN, MAX, ASCII_ONLY>|
            #[trigger] GString::<V, MIN, MAX, ASCII_ONLY>::pop_outcome(old, r, new)
                ==> new.meets_constraints(),
        forall|idx: int, r: Result<char, GStringError<V::Error>>, new: GString<V, MIN, MAX, ASCII_ONLY>|
            #[trigger] GString::<V, MIN, MAX, ASCII_ONLY>::remove_outcome(old, idx, r, new)
                ==> new.meets_constraints(),
        forall|a: RangeBound, z: RangeBound, with: Seq<char>, r: Result<(), GStringError<V::Error>>, new: GString<V, MIN, MAX, ASCII_ONLY>|
            #[trigger] GString::<V, MIN, MAX, ASCII_ONLY>::range_replacement_outcome(old, a, z, with, r, new)
                ==> new.meets_constraints(),
{
}

/// Pushing a character onto a string that meets every length and ASCII
/// constraint and then popping gives the character back and restores the
/// text, unless the validator refuses what is left; a validator stated to
/// accept the original text does not.
pub proof fn law_push_pop<V: Validator, const MIN: usize, const MAX: usize, const ASCII_ONLY: bool>(
    g0: GString<V, MIN, MAX, ASCII_ONLY>,
    c: char,
    r1: Result<(), GStringError<V::Error>>,
    g1: GString<V, MIN, MAX, ASCII_ONLY>,
    r2: Result<Option<char>, GStringError<V::Error>>,
    g2: GString<V, MIN, MAX, ASCII_ONLY>,
)
    requires
        check_constraints(g0@, MIN, MAX, ASCII_ONLY) is None,
        GString::<V, MIN, MAX, ASCII_ONLY>::mutation_outcome(g0, g0@.push(c), r1, g1),
        r1 is Ok,
        GString::<V, MIN, MAX, ASCII_ONLY>::pop_outcome(g1, r2, g2),
    ensures
        r2 is Ok ==> r2 == Ok::<Option<char>, GStringError<V::Error>>(Some(c)) && g2@ == g0@,
        r2 is Err ==> (r2 matches Err(GStringError::Validation(_)) && g2 == g1),
        V::obeys_valid() && V::valid(g0@) ==> r2 is Ok,
{
    assert(g1@.drop_last() =~= g0@);
}

/// The text before a boundary and the text from it, for a boundary between
/// two concatenated texts.
proof fn lemma_concat_boundary(x: Seq<char>, y: Seq<char>)
    ensures
        is_boundary(x + y, utf8_len(x) as int),
        chars_before(x + y, utf8_len(x) as int) == x,
        chars_from(x + y, utf8_len(x) as int) == y,
{
    let ex = encode_utf8(x);
    let ey = encode_utf8(y);
    let e = encode_utf8(x + y);
    lemma_encode_concat(x, y);
    encode_utf8_valid_utf8(x + y);
    encode_utf8_decode_utf8(x);
    encode_utf8_decode_utf8(y);
    assert(e.subrange(0, ex.len() as int) =~= ex);
    assert(e.subrange(ex.len() as int, e.len() as int) =~= ey);
    is_char_boundary_start_end_of_seq(e);
    if y.len() > 0 {
        lemma_encode_concat(seq![y[0]], y.drop_first());
        assert(seq![y[0]] + y.drop_first() =~= y);
        lemma_encode_single(y[0]);
        lemma_scalar_shape(y[0]);
        assert(e[ex.len() as int] == ey[0]);
        is_char_boundary_iff_not_is_continuation_byte(e, ex.len() as int);
    } else {
        assert(ey =~= Seq::<u8>::empty());
    }
}

/// Inserting a character into a string that meets every length and ASCII
/// constraint and then removing at the same byte index gives the character
/// back and restores the text, unless the validator refuses what is left; a
/// validator stated to accept the original text does not.
pub proof fn law_insert_remove<
    V: Validator,
    const MIN: usize,
    const MAX: usize,
    const ASCII_ONLY: bool,
>(
    g0: GString<V, MIN, MAX, ASCII_ONLY>,
    idx: int,
    c: char,
    r1: Result<(), GStringError<V::Error>>,
    g1: GString<V, MIN, MAX, ASCII_ONLY>,
    r2: Result<char, GStringError<V::Error>>,
    g2: GString<V, MIN, MAX, ASCII_ONLY>,
)
    requires
        check_constraints(g0@, MIN, MAX, ASCII_ONLY) is None,
        GString::<V, MIN, MAX, ASCII_ONLY>::insert_outcome(g0, idx, seq![c], r1, g1),
        r1 is Ok,
        GString::<V, MIN, MAX, ASCII_ONLY>::remove_outcome(g1, idx, r2, g2),
    ensures
        r2 is Ok ==> r2 == Ok::<char, GStringError<V::Error>>(c) && g2@ == g0@,
        r2 is Err ==> (r2 matches Err(GStringError::Validation(_)) && g2 == g1),
        V::obeys_valid() && V::valid(g0@) ==> r2 is Ok,
{
    let before = chars_before(g0@, idx);
    let after = chars_from(g0@, idx);
    lemma_split_at_boundary(g0@, idx);
    assert(utf8_len(before) == idx);
    assert(g1@ == before + seq![c] + after);
    assert(before + seq![c] + after =~= before + (seq![c] + after));
    lemma_concat_boundary(before, seq![c] + after);
    lemma_encode_concat(seq![c], after);
    lemma_encode_single(c);
    lemma_scalar_shape(c);
    lemma_encode_concat(before, seq![c] + after);
    assert((seq![c] + after).drop_first() =~= after);
    assert((seq![c] + after)[0] == c);
}

/// Each character takes one to four bytes of UTF-8, so the byte length
/// bounds the character count both ways (the bounds `size_hint` reports).
pub proof fn law_length_bounds(s: Seq<char>)
    ensures
        s.len() <= utf8_len(s) <= 4 * s.len(),
        (utf8_len(s) + 3) / 4 <= s.len(),
    decreases s.len(),
{
    if s.len() > 0 {
        law_length_bounds(s.drop_first());
        lemma_encode_concat(seq![s[0]], s.drop_first());
        assert(seq![s[0]] + s.drop_first() =~= s);
        lemma_encode_single(s[0]);
        lemma_scalar_shape(s[0]);
    } else {
        assert(encode_utf8(s) =~= Seq::<u8>::empty());
    }
}

/// When `p` occurs at `i`, it has a first occurrence at or before `i`.
proof fn lemma_first_exists(h: Seq<u8>, p: Seq<u8>, i: int)
    requires
        matches_at(h, p, i),
    ensures
        exists|j: int| is_first_match(h, p, j),
    decreases i,
{
    if exists|j: int| 0 <= j < i && #[trigger] matches_at(h, p, j) {
        let j = choose|j: int| 0 <= j < i && #[trigger] matches_at(h, p, j);
        lemma_first_exists(h, p, j);
    } else {
        assert(is_first_match(h, p, i));
    }
}

/// When `p` occurs at `i`, it has a last occurrence at or after `i`.
proof fn lemma_last_exists(h: Seq<u8>, p: Seq<u8>, i: int)
    requires
        matches_at(h, p, i),
    ensures
        exists|j: int| is_last_match(h, p, j),
    decreases h.len() - i,
{
    if exists|j: int| i < j && #[trigger] matches_at(h, p, j) {
        let j = choose|j: int| i < j && #[trigger] matches_at(h, p, j);
        lemma_last_exists(h, p, j);
    } else {
        assert(is_last_match(h, p, i));
    }
}

/// `contains`, `find` and `rfind` agree: a pattern occurs exactly when it
/// has a first occurrence, and exactly when it has a last one.
pub proof fn law_occurs_first_last(h: Seq<u8>, p: Seq<u8>)
    ensures
        occurs(h, p) <==> exists|i: int| is_first_match(h, p, i),
        occurs(h, p) <==> exists|i: int| is_last_match(h, p, i),
{
    if occurs(h, p) {
        let i = choose|i: int| matches_at(h, p, i);
        lemma_first_exists(h, p, i);
        lemma_last_exists(h, p, i);
    }
    if exists|i: int| is_first_match(h, p, i) {
        let i = choose|i: int| is_first_match(h, p, i);
        assert(matches_at(h, p, i));
    }
    if exists|i: int| is_last_match(h, p, i) {
        let i = choose|i: int| is_last_match(h, p, i);
        assert(matches_at(h, p, i));
    }
}

/// Where the encoding of `p` sits between two character boundaries of
/// that of `s`, `s` is what comes before it, `p`, and what comes after it.
proof fn lemma_pieces_around(s: Seq<char>, p: Seq<char>, i: int)
    requires
        matches_at(encode_utf8(s), encode_utf8(p), i),
        is_boundary(s, i),
        is_boundary(s, i + utf8_len(p)),
    ensures
        chars_before(s, i) + p + chars_from(s, i + utf8_len(p)) == s,
{
    let h = encode_utf8(s);
    let e = encode_utf8(p);
    let j = i + e.len();
    lemma_split_at_boundary(s, i);
    lemma_split_at_boundary(s, j);
    let bi = chars_before(s, i);
    let bj = chars_before(s, j);
    lemma_encode_concat(bi, p);
    assert(h.subrange(0, j) =~= h.subrange(0, i) + h.subrange(i, j));
    assert(encode_utf8(bj) == encode_utf8(bi + p));
    encode_utf8_decode_utf8(bj);
    encode_utf8_decode_utf8(bi + p);
    assert(bj == bi + p);
}

/// Splitting once at a first or last occurrence of a pattern loses
/// nothing: the part before, the pattern and the part after spell the
/// string.
pub proof fn law_split_once(s: Seq<char>, p: Seq<char>, i: int)
    requires
        is_first_match(encode_utf8(s), encode_utf8(p), i) || is_last_match(
            encode_utf8(s),
            encode_utf8(p),
            i,
        ),
    ensures
        chars_before(s, i) + p + chars_from(s, i + utf8_len(p)) == s,
{
    let h = encode_utf8(s);
    let e = encode_utf8(p);
    encode_utf8_valid_utf8(s);
    encode_utf8_valid_utf8(p);
    is_char_boundary_start_end_of_seq(h);
    if e.len() > 0 {
        lemma_match_boundaries(h, e, i);
    } else {
        assert(h.subrange(0, 0) =~= e);
        assert(h.subrange(h.len() as int, h.len() as int) =~= e);
        assert(matches_at(h, e, 0));
        assert(matches_at(h, e, h.len() as int));
        assert(i == 0 || i == h.len());
    }
    lemma_pieces_around(s, p, i);
}

/// Stripping a prefix loses nothing: the prefix followed by what is left is
/// the string.
pub proof fn law_strip_prefix(s: Seq<char>, p: Seq<char>)
    requires
        matches_at(encode_utf8(s), encode_utf8(p), 0),
    ensures
        p + chars_from(s, utf8_len(p) as int) == s,
{
    encode_utf8_valid_utf8(s);
    encode_utf8_valid_utf8(p);
    is_char_boundary_start_end_of_seq(encode_utf8(s));
    if utf8_len(p) > 0 {
        lemma_match_boundaries(encode_utf8(s), encode_utf8(p), 0);
    }
    lemma_pieces_around(s, p, 0);
    lemma_split_at_boundary(s, 0);
    assert(encode_utf8(chars_before(s, 0)) =~= Seq::<u8>::empty());
    encode_utf8_decode_utf8(chars_before(s, 0));
    assert(chars_before(s, 0) =~= Seq::<char>::empty());
    assert(chars_before(s, 0) + p =~= p);
}

/// Stripping a suffix loses nothing: what is left followed by the suffix is
/// the string.
pub proof fn law_strip_suffix(s: Seq<char>, p: Seq<char>)
    requires
        matches_at(encode_utf8(s), encode_utf8(p), utf8_len(s) - utf8_len(p)),
    ensures
        chars_before(s, utf8_len(s) - utf8_len(p)) + p == s,
{
    let h = encode_utf8(s);
    let e = encode_utf8(p);
    let i = utf8_len(s) - utf8_len(p);
    encode_utf8_valid_utf8(s);
    encode_utf8_valid_utf8(p);
    is_char_boundary_start_end_of_seq(h);
    if e.len() > 0 {
        lemma_match_boundaries(h, e, i);
    }
    lemma_pieces_around(s, p, i);
    lemma_split_at_boundary(s, h.len() as int);
    assert(h.subrange(h.len() as int, h.len() as int) =~= Seq::<u8>::empty());
    assert(encode_utf8(chars_from(s, h.len() as int)) =~= Seq::<u8>::empty());
    encode_utf8_decode_utf8(chars_from(s, h.len() as int));
    assert(chars_from(s, h.len() as int) =~= Seq::<char>::empty());
    assert(chars_before(s, i) + p + Seq::<char>::empty() =~= chars_before(s, i) + p);
}

/// The pieces joined together with `sep` between each two.
pub open spec fn joined(pieces: Seq<Seq<char>>, sep: Seq<char>) -> Seq<char>
    decreases pieces.len(),
{
    if pieces.len() == 0 {
        Seq::empty()
    } else if pieces.len() == 1 {
        pieces[0]
    } else {
        joined(pieces.drop_last(), sep) + sep + pieces.last()
    }
}

/// Each piece between forward matches lies between two character
/// boundaries, in order.
proof fn lemma_piece_bounds(s: Seq<char>, p: Seq<char>, i: int)
    requires
        0 <= i <= forward_starts(s, p).len(),
    ensures
        ({
            let h = encode_utf8(s);
            let ms = forward_starts(s, p);
            let a = piece_start(ms, utf8_len(p) as int, i);
            let b = piece_end(ms, utf8_len(s) as int, i);
            &&& 0 <= a <= b <= h.len()
            &&& is_char_boundary(h, a)
            &&& is_char_boundary(h, b)
            &&& encode_utf8(slice_chars(s, a, b)) == h.subrange(a, b)
        }),
{
    let h = encode_utf8(s);
    let e = encode_utf8(p);
    let ms = forward_starts(s, p);
    let a = piece_start(ms, e.len() as int, i);
    let b = piece_end(ms, h.len() as int, i);
    encode_utf8_valid_utf8(s);
    encode_utf8_valid_utf8(p);
    is_char_boundary_start_end_of_seq(h);
    lemma_match_starts(h, e, 0);
    if i > 0 {
        assert(found_at(h, e, ms[i - 1]));
        lemma_found_end_at(h, e, ms[i - 1]);
    }
    if i < ms.len() {
        assert(found_at(h, e, ms[i]));
        if i > 0 {
            assert(ms[i - 1] + advance(e) <= ms[(i - 1) + 1]);
        }
    }
    lemma_valid_between(h, a, b);
    decode_utf8_encode_utf8(h.subrange(a, b));
}

/// A match found in a valid encoding ends on a character boundary.
proof fn lemma_found_end_at(h: Seq<u8>, p: Seq<u8>, i: int)
    requires
        valid_utf8(h),
        valid_utf8(p),
        found_at(h, p, i),
    ensures
        is_char_boundary(h, i + p.len()),
{
    if p.len() > 0 {
        lemma_match_boundaries(h, p, i);
    }
}

/// The first `j + 1` pieces joined with the pattern encode the bytes up to
/// the end of piece `j`.
proof fn lemma_join_prefix(s: Seq<char>, p: Seq<char>, j: int)
    requires
        0 <= j <= forward_starts(s, p).len(),
    ensures
        encode_utf8(joined(split_pieces(s, p).subrange(0, j + 1), p)) == encode_utf8(s).subrange(
            0,
            piece_end(forward_starts(s, p), utf8_len(s) as int, j),
        ),
    decreases j,
{
    let h = encode_utf8(s);
    let e = encode_utf8(p);
    let ms = forward_starts(s, p);
    let pieces = split_pieces(s, p);
    lemma_piece_bounds(s, p, j);
    if j == 0 {
        assert(pieces.subrange(0, 1) =~= seq![pieces[0]]);
    } else {
        lemma_join_prefix(s, p, j - 1);
        lemma_piece_bounds(s, p, j - 1);
        let front = pieces.subrange(0, j);
        assert(pieces.subrange(0, j + 1).drop_last() =~= front);
        assert(pieces.subrange(0, j + 1).last() == pieces[j]);
        let m = ms[j - 1];
        lemma_match_starts(h, e, 0);
        assert(found_at(h, e, m));
        assert(h.subrange(m, m + e.len()) == e);
        lemma_encode_concat(joined(front, p), p);
        lemma_encode_concat(joined(front, p) + p, pieces[j]);
        let b = piece_end(ms, h.len() as int, j);
        assert(h.subrange(0, b) =~= h.subrange(0, m) + h.subrange(m, m + e.len()) + h.subrange(
            m + e.len(),
            b,
        ));
    }
}

/// Splitting at the matches of a pattern loses nothing: the pieces joined
/// with the pattern between them spell the string.
pub proof fn law_split_join(s: Seq<char>, p: Seq<char>)
    ensures
        joined(split_pieces(s, p), p) == s,
{
    let h = encode_utf8(s);
    let ms = forward_starts(s, p);
    let pieces = split_pieces(s, p);
    lemma_join_prefix(s, p, ms.len() as int);
    assert(pieces.subrange(0, ms.len() as int + 1) =~= pieces);
    assert(h.subrange(0, h.len() as int) =~= h);
    encode_utf8_decode_utf8(s);
    encode_utf8_decode_utf8(joined(pieces, p));
}

/// How many of the first `k` calls in `ops` are calls of `next` (`true`);
/// the others are calls of `next_back`.
pub open spec fn fronts_taken(ops: Seq<bool>, k: int) -> int
    decreases k,
{
    if k <= 0 {
        0
    } else {
        fronts_taken(ops, k - 1) + if ops[k - 1] {
            1int
        } else {
            0int
        }
    }
}

/// What call `k` of `ops` yields on an iterator over `s`: while characters
/// are left, `next` yields the one after those taken from the front and
/// `next_back` the one before those taken from the back; then `None`.
pub open spec fn expected_yield(s: Seq<char>, ops: Seq<bool>, k: int) -> Option<char> {
    if k < s.len() {
        if ops[k] {
            Some(s[fronts_taken(ops, k)])
        } else {
            Some(s[s.len() - 1 - (k - fronts_taken(ops, k))])
        }
    } else {
        None
    }
}

/// The characters left after the first `k` calls of `ops` on `s`.
pub open spec fn expected_left(s: Seq<char>, ops: Seq<bool>, k: int) -> Seq<char> {
    if k < s.len() {
        s.subrange(fronts_taken(ops, k), s.len() - (k - fronts_taken(ops, k)))
    } else {
        Seq::empty()
    }
}

proof fn lemma_fronts_bounds(ops: Seq<bool>, k: int)
    requires
        0 <= k <= ops.len(),
    ensures
        0 <= fronts_taken(ops, k) <= k,
    decreases k,
{
    if k > 0 {
        lemma_fronts_bounds(ops, k - 1);
    }
}

proof fn lemma_drain_prefix(
    s: Seq<char>,
    ops: Seq<bool>,
    views: Seq<Seq<char>>,
    results: Seq<Option<char>>,
    k: int,
)
    requires
        views.len() == ops.len() + 1,
        results.len() == ops.len(),
        views[0] == s,
        forall|j: int|
            0 <= j < ops.len() ==> #[trigger] step_outcome(views[j], ops[j], results[j], views[j + 1]),
        0 <= k <= ops.len(),
    ensures
        views[k] == expected_left(s, ops, k),
        forall|j: int| 0 <= j < k ==> results[j] == #[trigger] expected_yield(s, ops, j),
    decreases k,
{
    if k == 0 {
        assert(s.subrange(0, s.len() as int) =~= s);
        if s.len() == 0 {
            assert(s =~= Seq::<char>::empty());
        }
    } else {
        let j = k - 1;
        lemma_drain_prefix(s, ops, views, results, j);
        lemma_fronts_bounds(ops, j);
        assert(step_outcome(views[j], ops[j], results[j], views[j + 1]));
        let f = fronts_taken(ops, j);
        if j < s.len() {
            assert(views[j].len() == s.len() - j);
            if ops[j] {
                assert(views[j][0] == s[f]);
                assert(views[j].drop_first() =~= expected_left(s, ops, k));
            } else {
                assert(views[j].last() == s[s.len() - 1 - (j - f)]);
                assert(views[j].drop_last() =~= expected_left(s, ops, k));
            }
        }
    }
}

/// Any interleaving of calls of `next` (`true` in `ops`) and `next_back`
/// (`false`) on an iterator over the characters `s` yields each character
/// exactly once: the `i`-th call of `next` yields `s[i]` and the `j`-th call
/// of `next_back` yields `s[len - 1 - j]` until all are yielded; every later
/// call yields `None`. `views` are the characters left before and after
/// each call, `results` what each call returned.
pub proof fn law_interleaving(
    s: Seq<char>,
    ops: Seq<bool>,
    views: Seq<Seq<char>>,
    results: Seq<Option<char>>,
)
    requires
        views.len() == ops.len() + 1,
        results.len() == ops.len(),
        views[0] == s,
        forall|j: int|
            0 <= j < ops.len() ==> #[trigger] step_outcome(views[j], ops[j], results[j], views[j + 1]),
    ensures
        forall|j: int| 0 <= j < ops.len() ==> results[j] == #[trigger] expected_yield(s, ops, j),
        views.last() == expected_left(s, ops, ops.len() as int),
        ops.len() >= s.len() ==> views.last().len() == 0,
{
    lemma_drain_prefix(s, ops, views, results, ops.len() as int);
}

proof fn lemma_fronts_uniform(ops: Seq<bool>, k: int, front: bool)
    requires
        0 <= k <= ops.len(),
        forall|i: int| 0 <= i < ops.len() ==> ops[i] == front,
    ensures
        fronts_taken(ops, k) == if front {
            k
        } else {
            0
        },
    decreases k,
{
    if k > 0 {
        lemma_fronts_uniform(ops, k - 1, front);
    }
}

/// Calling only `next` on an iterator over `s` yields its characters in
/// order, and then `None` on that and every later call; calling only
/// `next_back` yields them in reverse order, then `None` likewise.
pub proof fn law_one_end(
    s: Seq<char>,
    front: bool,
    views: Seq<Seq<char>>,
    results: Seq<Option<char>>,
)
    requires
        views.len() == results.len() + 1,
        views[0] == s,
        forall|j: int|
            0 <= j < results.len() ==> #[trigger] step_outcome(views[j], front, results[j], views[j + 1]),
    ensures
        forall|j: int|
            0 <= j < results.len() ==> #[trigger] results[j] == if j < s.len() {
                Some(
                    if front {
                        s[j]
                    } else {
                        s[s.len() - 1 - j]
                    },
                )
            } else {
                None
            },
{
    let ops = Seq::new(results.len(), |i: int| front);
    assert forall|j: int| 0 <= j < ops.len() implies #[trigger] step_outcome(
        views[j],
        ops[j],
        results[j],
        views[j + 1],
    ) by {
        assert(step_outcome(views[j], front, results[j], views[j + 1]));
    }
    law_interleaving(s, ops, views, results);
    assert forall|j: int| 0 <= j < results.len() implies #[trigger] results[j] == if j < s.len() {
        Some(
            if front {
                s[j]
            } else {
                s[s.len() - 1 - j]
            },
        )
    } else {
        None
    } by {
        lemma_fronts_uniform(ops, j, front);
        assert(results[j] == expected_yield(s, ops, j));
    }
}

/// Leading whitespace is dropped from the front only.
proof fn lemma_trim_start_suffix(s: Seq<char>) -> (a: int)
    ensures
        0 <= a <= s.len(),
        trim_start_chars(s) == s.subrange(a, s.len() as int),
    decreases s.len(),
{
    if s.len() > 0 && is_whitespace(s[0]) {
        let a = lemma_trim_start_suffix(s.drop_first());
        assert(s.drop_first().subrange(a, s.len() - 1) =~= s.subrange(a + 1, s.len() as int));
        a + 1
    } else {
        assert(s.subrange(0, s.len() as int) =~= s);
        0
    }
}

/// Trailing whitespace is dropped from the back only.
proof fn lemma_trim_end_prefix(s: Seq<char>) -> (b: int)
    ensures
        0 <= b <= s.len(),
        trim_end_chars(s) == s.subrange(0, b),
    decreases s.len(),
{
    if s.len() > 0 && is_whitespace(s.last()) {
        let b = lemma_trim_end_prefix(s.drop_last());
        assert(s.drop_last().subrange(0, b) =~= s.subrange(0, b));
        b
    } else {
        assert(s.subrange(0, s.len() as int) =~= s);
        s.len() as int
    }
}

/// A run of characters of `s` takes no more bytes than `s`, and is ASCII
/// when `s` is.
proof fn lemma_piece_fits(s: Seq<char>, a: int, b: int)
    requires
        0 <= a <= b <= s.len(),
    ensures
        utf8_len(s.subrange(a, b)) <= utf8_len(s),
        is_ascii_chars(s) ==> is_ascii_chars(s.subrange(a, b)),
{
    let x = s.subrange(0, a);
    let y = s.subrange(a, b);
    let z = s.subrange(b, s.len() as int);
    assert(s =~= x + y + z);
    lemma_encode_concat(x + y, z);
    lemma_encode_concat(x, y);
    if is_ascii_chars(s) {
        assert forall|i: int| 0 <= i < y.len() implies '\0' <= #[trigger] y[i] <= '\u{7f}' by {
            assert(y[i] == s[a + i]);
        }
    }
}

/// The text a trim leaves of a string of the type fails no length or ASCII
/// check but the lower bound.
proof fn lemma_trimmed_checks<
    V: Validator,
    const MIN: usize,
    const MAX: usize,
    const ASCII_ONLY: bool,
>(g: GString<V, MIN, MAX, ASCII_ONLY>, t: Seq<char>, a: int, b: int)
    requires
        0 <= a <= b <= g@.len(),
        t == g@.subrange(a, b),
    ensures
        check_constraints(t, MIN, MAX, ASCII_ONLY) is None || check_constraints(
            t,
            MIN,
            MAX,
            ASCII_ONLY,
        ) == Some(ConstraintError::TooShort(MIN)),
{
    lemma_gstring_bounds(g);
    lemma_piece_fits(g@, a, b);
}

/// Trimming only removes characters, so the result of `try_trim`,
/// `try_trim_start` or `try_trim_end` is never too long and never
/// non-ASCII: each fails only with `TooShort(MIN)` or a validation error.
pub proof fn law_trim_errors<V: Validator, const MIN: usize, const MAX: usize, const ASCII_ONLY: bool>(
    g: GString<V, MIN, MAX, ASCII_ONLY>,
    both: Result<GString<V, MIN, MAX, ASCII_ONLY>, GStringError<V::Error>>,
    start: Result<GString<V, MIN, MAX, ASCII_ONLY>, GStringError<V::Error>>,
    end: Result<GString<V, MIN, MAX, ASCII_ONLY>, GStringError<V::Error>>,
)
    requires
        GString::<V, MIN, MAX, ASCII_ONLY>::construction_outcome(trim_chars(g@), both),
        GString::<V, MIN, MAX, ASCII_ONLY>::construction_outcome(trim_start_chars(g@), start),
        GString::<V, MIN, MAX, ASCII_ONLY>::construction_outcome(trim_end_chars(g@), end),
    ensures
        both is Err ==> both == Err::<GString<V, MIN, MAX, ASCII_ONLY>, GStringError<V::Error>>(
            GStringError::TooShort(MIN),
        ) || both matches Err(GStringError::Validation(_)),
        start is Err ==> start == Err::<GString<V, MIN, MAX, ASCII_ONLY>, GStringError<V::Error>>(
            GStringError::TooShort(MIN),
        ) || start matches Err(GStringError::Validation(_)),
        end is Err ==> end == Err::<GString<V, MIN, MAX, ASCII_ONLY>, GStringError<V::Error>>(
            GStringError::TooShort(MIN),
        ) || end matches Err(GStringError::Validation(_)),
{
    let s = g@;
    let a = lemma_trim_start_suffix(s);
    lemma_trimmed_checks(g, trim_start_chars(s), a, s.len() as int);
    let b = lemma_trim_end_prefix(s);
    lemma_trimmed_checks(g, trim_end_chars(s), 0, b);
    let rest = s.subrange(a, s.len() as int);
    let c = lemma_trim_end_prefix(rest);
    assert(rest.subrange(0, c) =~= s.subrange(a, a + c));
    lemma_trimmed_checks(g, trim_chars(s), a, a + c);
}

} // verus!
