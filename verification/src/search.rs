//! Searching for characters and substrings.
use vstd::prelude::*;
use vstd::slice::{slice_subrange, slice_to_vec};
use vstd::string::StringSliceAdditionalSpecFns;
use vstd::utf8::*;

use crate::encoding::{chars_before, chars_from, encode_char, lemma_encode_single, lemma_match_boundaries, matches_at};
use crate::gstring::{lemma_gstring_bounds, GString};
use crate::validator::Validator;

verus! {

/// What a string can be searched for: a character or a string slice.
pub trait Pattern {
    /// The characters the pattern stands for.
    spec fn pattern_chars(&self) -> Seq<char>;

    /// The UTF-8 encoding of the pattern.
    fn pattern_bytes(&self) -> (r: Vec<u8>)
        ensures
            r@ == encode_utf8(self.pattern_chars()),
    ;
}

impl Pattern for char {
    open spec fn pattern_chars(&self) -> Seq<char> {
        seq![*self]
    }

    fn pattern_bytes(&self) -> (r: Vec<u8>) {
        let (buf, n) = encode_char(*self);
        proof {
            lemma_encode_single(*self);
        }
        slice_to_vec(slice_subrange(buf.as_slice(), 0, n))
    }
}

impl<'p> Pattern for &'p str {
    open spec fn pattern_chars(&self) -> Seq<char> {
        (*self)@
    }

    fn pattern_bytes(&self) -> (r: Vec<u8>) {
        slice_to_vec(self.as_bytes())
    }
}

/// `i` is where `p` first occurs in `h`.
pub open spec fn is_first_match(h: Seq<u8>, p: Seq<u8>, i: int) -> bool {
    matches_at(h, p, i) && forall|j: int| 0 <= j < i ==> !#[trigger] matches_at(h, p, j)
}

/// `i` is where `p` last occurs in `h`.
pub open spec fn is_last_match(h: Seq<u8>, p: Seq<u8>, i: int) -> bool {
    matches_at(h, p, i) && forall|j: int| i < j ==> !#[trigger] matches_at(h, p, j)
}

/// `p` occurs somewhere in `h`.
pub open spec fn occurs(h: Seq<u8>, p: Seq<u8>) -> bool {
    exists|i: int| matches_at(h, p, i)
}

/// Whether `p` occurs in `h` at byte index `i`.
pub(crate) fn match_at(h: &[u8], p: &[u8], i: usize) -> (r: bool)
    ensures
        r == matches_at(h@, p@, i as int),
{
    if i > h.len() || p.len() > h.len() - i {
        return false;
    }
    let mut k: usize = 0;
    while k < p.len()
        invariant
            i + p@.len() <= h@.len() <= usize::MAX,
            k <= p@.len(),
            forall|j: int| 0 <= j < k ==> h@[i + j] == p@[j],
        decreases p@.len() - k,
    {
        if h[i + k] != p[k] {
            assert(h@.subrange(i as int, i + p@.len())[k as int] != p@[k as int]);
            return false;
        }
        k += 1;
    }
    assert(h@.subrange(i as int, i + p@.len()) =~= p@);
    true
}

/// Where `p` first occurs in `h`.
fn find_first(h: &[u8], p: &[u8]) -> (r: Option<usize>)
    ensures
        match r {
            Some(i) => is_first_match(h@, p@, i as int),
            None => !occurs(h@, p@),
        },
{
    let mut i: usize = 0;
    while i < h.len()
        invariant
            i <= h@.len(),
            forall|j: int| 0 <= j < i ==> !#[trigger] matches_at(h@, p@, j),
        decreases h@.len() - i,
    {
        if match_at(h, p, i) {
            return Some(i);
        }
        i += 1;
    }
    if match_at(h, p, i) {
        return Some(i);
    }
    None
}

/// Where `p` last occurs in `h`.
fn find_last(h: &[u8], p: &[u8]) -> (r: Option<usize>)
    ensures
        match r {
            Some(i) => is_last_match(h@, p@, i as int),
            None => !occurs(h@, p@),
        },
{
    let mut i: usize = h.len();
    loop
        invariant
            i <= h@.len(),
            forall|j: int| i < j ==> !#[trigger] matches_at(h@, p@, j),
        decreases i,
    {
        if match_at(h, p, i) {
            return Some(i);
        }
        if i == 0 {
            return None;
        }
        i -= 1;
    }
}

impl<V: Validator, const MIN: usize, const MAX: usize, const ASCII_ONLY: bool> GString<
    V,
    MIN,
    MAX,
    ASCII_ONLY,
> {
    /// Whether the pattern occurs in the string.
    pub fn contains<P: Pattern>(&self, pat: P) -> (r: bool)
        ensures
            r == occurs(encode_utf8(self@), encode_utf8(pat.pattern_chars())),
    {
        let p = pat.pattern_bytes();
        find_first(self.as_bytes(), p.as_slice()).is_some()
    }

    /// Whether the string starts with the pattern.
    pub fn starts_with<P: Pattern>(&self, pat: P) -> (r: bool)
        ensures
            r == matches_at(encode_utf8(self@), encode_utf8(pat.pattern_chars()), 0),
    {
        let p = pat.pattern_bytes();
        match_at(self.as_bytes(), p.as_slice(), 0)
    }

    /// Whether the string ends with the pattern.
    pub fn ends_with<P: Pattern>(&self, pat: P) -> (r: bool)
        ensures
            r == matches_at(
                encode_utf8(self@),
                encode_utf8(pat.pattern_chars()),
                encode_utf8(self@).len() - encode_utf8(pat.pattern_chars()).len(),
            ),
    {
        let p = pat.pattern_bytes();
        let h = self.as_bytes();
        if p.len() > h.len() {
            return false;
        }
        match_at(h, p.as_slice(), h.len() - p.len())
    }

    /// Byte index of the first occurrence of the pattern.
    pub fn find<P: Pattern>(&self, pat: P) -> (r: Option<usize>)
        ensures
            match r {
                Some(i) => is_first_match(encode_utf8(self@), encode_utf8(pat.pattern_chars()), i as int),
                None => !occurs(encode_utf8(self@), encode_utf8(pat.pattern_chars())),
            },
    {
        let p = pat.pattern_bytes();
        find_first(self.as_bytes(), p.as_slice())
    }

    /// Byte index of the last occurrence of the pattern.
    pub fn rfind<P: Pattern>(&self, pat: P) -> (r: Option<usize>)
        ensures
            match r {
                Some(i) => is_last_match(encode_utf8(self@), encode_utf8(pat.pattern_chars()), i as int),
                None => !occurs(encode_utf8(self@), encode_utf8(pat.pattern_chars())),
            },
    {
        let p = pat.pattern_bytes();
        find_last(self.as_bytes(), p.as_slice())
    }

    /// Splits around the first occurrence of the pattern.
    pub fn split_once<P: Pattern>(&self, delimiter: P) -> (r: Option<(&str, &str)>)
        ensures
            match r {
                None => !occurs(encode_utf8(self@), encode_utf8(delimiter.pattern_chars())),
                Some((a, b)) => exists|i: int|
                    is_first_match(encode_utf8(self@), encode_utf8(delimiter.pattern_chars()), i)
                        && a@ == chars_before(self@, i) && b@ == chars_from(
                        self@,
                        i + encode_utf8(delimiter.pattern_chars()).len(),
                    ),
            },
    {
        let p = delimiter.pattern_bytes();
        let h = self.as_bytes();
        proof {
            encode_utf8_valid_utf8(self@);
            encode_utf8_valid_utf8(delimiter.pattern_chars());
            lemma_gstring_bounds(*self);
        }
        match find_first(h, p.as_slice()) {
            None => None,
            Some(i) => {
                let s = self.as_str();
                proof {
                    if p@.len() == 0 {
                        assert(h@.subrange(0, 0) =~= p@);
                        assert(matches_at(h@, p@, 0));
                    }
                    lemma_piece_boundaries(h@, p@, i as int);
                }
                let (a, _) = s.split_at(i);
                let (_, b) = s.split_at(i + p.len());
                proof {
                    encode_utf8_decode_utf8(a@);
                    encode_utf8_decode_utf8(b@);
                    assert(a@ == chars_before(self@, i as int));
                    assert(b@ == chars_from(self@, i + p@.len()));
                }
                Some((a, b))
            },
        }
    }

    /// Splits around the last occurrence of the pattern.
    pub fn rsplit_once<P: Pattern>(&self, delimiter: P) -> (r: Option<(&str, &str)>)
        ensures
            match r {
                None => !occurs(encode_utf8(self@), encode_utf8(delimiter.pattern_chars())),
                Some((a, b)) => exists|i: int|
                    is_last_match(encode_utf8(self@), encode_utf8(delimiter.pattern_chars()), i)
                        && a@ == chars_before(self@, i) && b@ == chars_from(
                        self@,
                        i + encode_utf8(delimiter.pattern_chars()).len(),
                    ),
            },
    {
        let p = delimiter.pattern_bytes();
        let h = self.as_bytes();
        proof {
            encode_utf8_valid_utf8(self@);
            encode_utf8_valid_utf8(delimiter.pattern_chars());
            lemma_gstring_bounds(*self);
        }
        match find_last(h, p.as_slice()) {
            None => None,
            Some(i) => {
                let s = self.as_str();
                proof {
                    if p@.len() == 0 {
                        assert(h@.subrange(h@.len() as int, h@.len() as int) =~= p@);
                        assert(matches_at(h@, p@, h@.len() as int));
                    }
                    lemma_piece_boundaries(h@, p@, i as int);
                }
                let (a, _) = s.split_at(i);
                let (_, b) = s.split_at(i + p.len());
                proof {
                    encode_utf8_decode_utf8(a@);
                    encode_utf8_decode_utf8(b@);
                    assert(a@ == chars_before(self@, i as int));
                    assert(b@ == chars_from(self@, i + p@.len()));
                }
                Some((a, b))
            },
        }
    }

    /// The rest of the string after the pattern, when it starts with it.
    pub fn strip_prefix<P: Pattern>(&self, prefix: P) -> (r: Option<&str>)
        ensures
            match r {
                Some(x) => matches_at(encode_utf8(self@), encode_utf8(prefix.pattern_chars()), 0)
                    && x@ == chars_from(self@, encode_utf8(prefix.pattern_chars()).len() as int),
                None => !matches_at(encode_utf8(self@), encode_utf8(prefix.pattern_chars()), 0),
            },
    {
        let p = prefix.pattern_bytes();
        let h = self.as_bytes();
        proof {
            encode_utf8_valid_utf8(self@);
            encode_utf8_valid_utf8(prefix.pattern_chars());
        }
        if !match_at(h, p.as_slice(), 0) {
            return None;
        }
        let s = self.as_str();
        proof {
            lemma_piece_boundaries(h@, p@, 0);
        }
        let (_, b) = s.split_at(p.len());
        proof {
            encode_utf8_decode_utf8(b@);
        }
        Some(b)
    }

    /// The string before the pattern, when it ends with it.
    pub fn strip_suffix<P: Pattern>(&self, suffix: P) -> (r: Option<&str>)
        ensures
            match r {
                Some(x) => matches_at(
                    encode_utf8(self@),
                    encode_utf8(suffix.pattern_chars()),
                    encode_utf8(self@).len() - encode_utf8(suffix.pattern_chars()).len(),
                ) && x@ == chars_before(
                    self@,
                    encode_utf8(self@).len() - encode_utf8(suffix.pattern_chars()).len(),
                ),
                None => !matches_at(
                    encode_utf8(self@),
                    encode_utf8(suffix.pattern_chars()),
                    encode_utf8(self@).len() - encode_utf8(suffix.pattern_chars()).len(),
                ),
            },
    {
        let p = suffix.pattern_bytes();
        let h = self.as_bytes();
        proof {
            encode_utf8_valid_utf8(self@);
            encode_utf8_valid_utf8(suffix.pattern_chars());
        }
        if p.len() > h.len() || !match_at(h, p.as_slice(), h.len() - p.len()) {
            return None;
        }
        let s = self.as_str();
        let i = h.len() - p.len();
        proof {
            lemma_piece_boundaries(h@, p@, i as int);
        }
        let (a, _) = s.split_at(i);
        proof {
            encode_utf8_decode_utf8(a@);
        }
        Some(a)
    }
}

/// A match of an encoded pattern in an encoded string starts and ends on
/// character boundaries (an empty pattern matches only on boundaries here
/// because it is only ever taken at the ends or at its first or last place).
proof fn lemma_piece_boundaries(h: Seq<u8>, p: Seq<u8>, i: int)
    requires
        valid_utf8(h),
        valid_utf8(p),
        matches_at(h, p, i),
        p.len() == 0 ==> (i == 0 || i == h.len()),
    ensures
        is_char_boundary(h, i),
        is_char_boundary(h, i + p.len()),
{
    is_char_boundary_start_end_of_seq(h);
    if p.len() > 0 {
        lemma_match_boundaries(h, p, i);
    }
}

} // verus!
