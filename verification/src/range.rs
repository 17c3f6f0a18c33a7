//! Byte-range slicing: `get` and indexing by ranges.
use std::ops::Index;
use std::ops::Range;
use std::ops::RangeFrom;
use std::ops::RangeFull;
use std::ops::RangeInclusive;
use std::ops::RangeTo;
use std::ops::RangeToInclusive;
use vstd::prelude::*;
use vstd::slice::slice_subrange;
use vstd::string::StringSliceAdditionalSpecFns;
use vstd::utf8::*;

use crate::encoding::{is_boundary, lemma_valid_between};
use crate::gstring::GString;
use crate::text::{str_from_utf8, utf8_len};
use crate::validator::Validator;

verus! {

#[verifier::external_type_specification]
#[verifier::reject_recursive_types(Idx)]
pub struct ExRangeFrom<Idx>(RangeFrom<Idx>);

#[verifier::external_type_specification]
#[verifier::reject_recursive_types(Idx)]
pub struct ExRangeTo<Idx>(RangeTo<Idx>);

#[verifier::external_type_specification]
#[verifier::reject_recursive_types(Idx)]
pub struct ExRangeToInclusive<Idx>(RangeToInclusive<Idx>);

#[verifier::external_type_specification]
#[verifier::external_body]
pub struct ExRangeFull(RangeFull);

/// The lower bound of an inclusive range.
///
/// `RangeInclusive::start` returns a reference to the start it was built with.
pub assume_specification<Idx>[ RangeInclusive::<Idx>::start ](r: &RangeInclusive<Idx>) -> (s:
    &Idx)
    ensures
        *s == r@.start,
;

/// The upper bound of an inclusive range.
///
/// `RangeInclusive::end` returns a reference to the end it was built with.
pub assume_specification<Idx>[ RangeInclusive::<Idx>::end ](r: &RangeInclusive<Idx>) -> (e: &Idx)
    ensures
        *e == r@.end,
;

/// Byte indices `start..end` delimit a piece of `s`: in order, and both on
/// character boundaries of its encoding.
pub open spec fn is_slice_range(s: Seq<char>, start: int, end: int) -> bool {
    start <= end && is_boundary(s, start) && is_boundary(s, end)
}

/// The characters encoded in bytes `start..end` of `s`.
pub open spec fn slice_chars(s: Seq<char>, start: int, end: int) -> Seq<char> {
    decode_utf8(encode_utf8(s).subrange(start, end))
}

/// The piece of `s` that a span of byte indices names, when the span is in
/// order and on character boundaries.
pub open spec fn range_slice(s: Seq<char>, span: Option<(int, int)>) -> Option<Seq<char>> {
    match span {
        Some((start, end)) => if is_slice_range(s, start, end) {
            Some(slice_chars(s, start, end))
        } else {
            None
        },
        None => None,
    }
}

/// A range of byte indices into a string.
pub trait ByteRange {
    /// The half-open span `start..end` of byte indices that the range names in
    /// a string of `len` bytes, or `None` where its exclusive end would not
    /// fit in a `usize`.
    spec fn span(&self, len: int) -> Option<(int, int)>;

    /// The span, computed.
    fn bounds(&self, len: usize) -> (r: Option<(usize, usize)>)
        ensures
            match r {
                Some((start, end)) => self.span(len as int) == Some((start as int, end as int)),
                None => self.span(len as int) is None,
            },
    ;
}

impl ByteRange for Range<usize> {
    open spec fn span(&self, len: int) -> Option<(int, int)> {
        Some((self.start as int, self.end as int))
    }

    fn bounds(&self, len: usize) -> (r: Option<(usize, usize)>) {
        Some((self.start, self.end))
    }
}

impl ByteRange for RangeFrom<usize> {
    open spec fn span(&self, len: int) -> Option<(int, int)> {
        Some((self.start as int, len))
    }

    fn bounds(&self, len: usize) -> (r: Option<(usize, usize)>) {
        Some((self.start, len))
    }
}

impl ByteRange for RangeTo<usize> {
    open spec fn span(&self, len: int) -> Option<(int, int)> {
        Some((0, self.end as int))
    }

    fn bounds(&self, len: usize) -> (r: Option<(usize, usize)>) {
        Some((0, self.end))
    }
}

impl ByteRange for RangeFull {
    open spec fn span(&self, len: int) -> Option<(int, int)> {
        Some((0, len))
    }

    fn bounds(&self, len: usize) -> (r: Option<(usize, usize)>) {
        Some((0, len))
    }
}

impl ByteRange for RangeToInclusive<usize> {
    open spec fn span(&self, len: int) -> Option<(int, int)> {
        if self.end == usize::MAX {
            None
        } else {
            Some((0, self.end + 1))
        }
    }

    fn bounds(&self, len: usize) -> (r: Option<(usize, usize)>) {
        if self.end == usize::MAX {
            None
        } else {
            Some((0, self.end + 1))
        }
    }
}

/// `start..=end` names `start..end + 1`. Once iteration has used it up, std
/// marks it exhausted (which it does only when `start == end`), and it then
/// names the empty span at `end + 1`.
impl ByteRange for RangeInclusive<usize> {
    open spec fn span(&self, len: int) -> Option<(int, int)> {
        if self@.end == usize::MAX {
            None
        } else if self@.exhausted && self@.start <= self@.end {
            Some((self@.end + 1, self@.end + 1))
        } else {
            Some((self@.start as int, self@.end + 1))
        }
    }

    fn bounds(&self, len: usize) -> (r: Option<(usize, usize)>) {
        let start = *self.start();
        let end = *self.end();
        if end == usize::MAX {
            None
        } else if start <= end && !self.contains(&end) {
            Some((end + 1, end + 1))
        } else {
            Some((start, end + 1))
        }
    }
}

impl<V: Validator, const MIN: usize, const MAX: usize, const ASCII_ONLY: bool> GString<V, MIN, MAX, ASCII_ONLY> {
    /// The piece of the string in bytes `start..end`.
    pub(crate) fn slice(&self, start: usize, end: usize) -> (r: &str)
        requires
            is_slice_range(self@, start as int, end as int),
        ensures
            r@ == slice_chars(self@, start as int, end as int),
    {
        let b = self.as_bytes();
        proof {
            encode_utf8_valid_utf8(self@);
            lemma_valid_between(b@, start as int, end as int);
        }
        let piece = slice_subrange(b, start, end);
        let r = str_from_utf8(piece);
        proof {
            encode_utf8_decode_utf8(r@);
        }
        r
    }

    /// The piece of the string in byte range `range` (any of `a..b`, `a..`,
    /// `..b`, `a..=b`, `..=b`, `..`), or `None` when the range is out of
    /// order, out of bounds, or not on character boundaries.
    pub fn get<I: ByteRange>(&self, range: I) -> (r: Option<&str>)
        ensures
            match r {
                Some(x) => range_slice(self@, range.span(utf8_len(self@) as int)) == Some(x@),
                None => range_slice(self@, range.span(utf8_len(self@) as int)) is None,
            },
    {
        match range.bounds(self.len()) {
            Some((start, end)) => {
                if start <= end && self.is_char_boundary(start) && self.is_char_boundary(end) {
                    Some(self.slice(start, end))
                } else {
                    None
                }
            },
            None => None,
        }
    }
}

impl<V: Validator, const MIN: usize, const MAX: usize, const ASCII_ONLY: bool> Index<Range<usize>> for GString<V, MIN, MAX, ASCII_ONLY> {
    type Output = str;

    fn index(&self, index: Range<usize>) -> (r: &str)
        ensures
            r@ == slice_chars(self@, index.start as int, index.end as int),
    {
        self.slice(index.start, index.end)
    }
}

impl<V: Validator, const MIN: usize, const MAX: usize, const ASCII_ONLY: bool> vstd::std_specs::core::IndexSpecImpl<Range<usize>> for GString<V, MIN, MAX, ASCII_ONLY> {
    open spec fn index_req(&self, index: &Range<usize>) -> bool {
        is_slice_range(self@, index.start as int, index.end as int)
    }
}

impl<V: Validator, const MIN: usize, const MAX: usize, const ASCII_ONLY: bool> Index<RangeFrom<usize>> for GString<V, MIN, MAX, ASCII_ONLY> {
    type Output = str;

    fn index(&self, index: RangeFrom<usize>) -> (r: &str)
        ensures
            r@ == slice_chars(self@, index.start as int, utf8_len(self@) as int),
    {
        self.slice(index.start, self.len())
    }
}

impl<V: Validator, const MIN: usize, const MAX: usize, const ASCII_ONLY: bool> vstd::std_specs::core::IndexSpecImpl<RangeFrom<usize>> for GString<V, MIN, MAX, ASCII_ONLY> {
    open spec fn index_req(&self, index: &RangeFrom<usize>) -> bool {
        is_slice_range(self@, index.start as int, utf8_len(self@) as int)
    }
}

impl<V: Validator, const MIN: usize, const MAX: usize, const ASCII_ONLY: bool> Index<RangeTo<usize>> for GString<V, MIN, MAX, ASCII_ONLY> {
    type Output = str;

    fn index(&self, index: RangeTo<usize>) -> (r: &str)
        ensures
            r@ == slice_chars(self@, 0, index.end as int),
    {
        self.slice(0, index.end)
    }
}

impl<V: Validator, const MIN: usize, const MAX: usize, const ASCII_ONLY: bool> vstd::std_specs::core::IndexSpecImpl<RangeTo<usize>> for GString<V, MIN, MAX, ASCII_ONLY> {
    open spec fn index_req(&self, index: &RangeTo<usize>) -> bool {
        is_slice_range(self@, 0, index.end as int)
    }
}

impl<V: Validator, const MIN: usize, const MAX: usize, const ASCII_ONLY: bool> Index<RangeFull> for GString<V, MIN, MAX, ASCII_ONLY> {
    type Output = str;

    fn index(&self, index: RangeFull) -> (r: &str)
        ensures
            r@ == self@,
    {
        self.as_str()
    }
}

impl<V: Validator, const MIN: usize, const MAX: usize, const ASCII_ONLY: bool> vstd::std_specs::core::IndexSpecImpl<RangeFull> for GString<V, MIN, MAX, ASCII_ONLY> {
    open spec fn index_req(&self, index: &RangeFull) -> bool {
        true
    }
}

impl<V: Validator, const MIN: usize, const MAX: usize, const ASCII_ONLY: bool> Index<RangeInclusive<usize>> for GString<V, MIN, MAX, ASCII_ONLY> {
    type Output = str;

    fn index(&self, index: RangeInclusive<usize>) -> (r: &str)
        ensures
            range_slice(self@, index.span(utf8_len(self@) as int)) == Some(r@),
    {
        match index.bounds(self.len()) {
            Some((start, end)) => self.slice(start, end),
            None => self.as_str(),
        }
    }
}

impl<V: Validator, const MIN: usize, const MAX: usize, const ASCII_ONLY: bool> vstd::std_specs::core::IndexSpecImpl<RangeInclusive<usize>> for GString<V, MIN, MAX, ASCII_ONLY> {
    open spec fn index_req(&self, index: &RangeInclusive<usize>) -> bool {
        range_slice(self@, index.span(utf8_len(self@) as int)) is Some
    }
}

impl<V: Validator, const MIN: usize, const MAX: usize, const ASCII_ONLY: bool> Index<RangeToInclusive<usize>> for GString<V, MIN, MAX, ASCII_ONLY> {
    type Output = str;

    fn index(&self, index: RangeToInclusive<usize>) -> (r: &str)
        ensures
            r@ == slice_chars(self@, 0, index.end + 1),
    {
        self.slice(0, index.end + 1)
    }
}

impl<V: Validator, const MIN: usize, const MAX: usize, const ASCII_ONLY: bool> vstd::std_specs::core::IndexSpecImpl<RangeToInclusive<usize>> for GString<V, MIN, MAX, ASCII_ONLY> {
    open spec fn index_req(&self, index: &RangeToInclusive<usize>) -> bool {
        index.end < usize::MAX && is_slice_range(self@, 0, index.end + 1)
    }
}

} // verus!
