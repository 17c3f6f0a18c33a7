//! In-place edits. Each edit builds the new contents as a candidate and runs
//! every constraint and the validator on it; a failed edit changes nothing.
use vstd::prelude::*;
use vstd::slice::slice_subrange;
use vstd::string::{StrSliceExecFns, StringSliceAdditionalSpecFns};
use vstd::utf8::*;

use crate::encoding::{
    chars_before, chars_from, encode_char, is_boundary, lemma_decode_join3, lemma_encode_concat,
    lemma_encode_single, lemma_first_scalar, lemma_scalar_shape, lemma_split_at_boundary,
    scalar_width,
};
use crate::conversion::concat_views;
use crate::error::GStringError;
use crate::gstring::{check_constraints, drop_value, lemma_gstring_bounds, GString, RawBuf};
use crate::text::{replaced, str_from_utf8, str_replace, utf8_len};
use crate::validator::{validator_answer, Validator};

verus! {

/// One end of a byte range, as `core::ops::Bound` gives it.
#[derive(Debug, Clone, Copy, PartialEq, Eq)]
pub enum RangeBound {
    Included(usize),
    Excluded(usize),
    Unbounded,
}

/// The first byte index a range start designates; `None` when it overflows.
pub open spec fn start_index(b: RangeBound) -> Option<int> {
    match b {
        RangeBound::Included(n) => Some(n as int),
        RangeBound::Excluded(n) => if n < usize::MAX {
            Some(n + 1)
        } else {
            None
        },
        RangeBound::Unbounded => Some(0),
    }
}

/// The byte index just past a range end; `None` when it overflows.
pub open spec fn end_index(b: RangeBound, len: int) -> Option<int> {
    match b {
        RangeBound::Included(n) => if n < usize::MAX {
            Some(n + 1)
        } else {
            None
        },
        RangeBound::Excluded(n) => Some(n as int),
        RangeBound::Unbounded => Some(len),
    }
}

/// The start bound of `range`.
///
/// Calls `RangeBounds::start_bound` and copies the bound it returns.
#[verifier::external_body]
fn range_start<R: core::ops::RangeBounds<usize>>(range: &R) -> RangeBound {
    match range.start_bound() {
        core::ops::Bound::Included(n) => RangeBound::Included(*n),
        core::ops::Bound::Excluded(n) => RangeBound::Excluded(*n),
        core::ops::Bound::Unbounded => RangeBound::Unbounded,
    }
}

/// The end bound of `range`.
///
/// Calls `RangeBounds::end_bound` and copies the bound it returns.
#[verifier::external_body]
fn range_end<R: core::ops::RangeBounds<usize>>(range: &R) -> RangeBound {
    match range.end_bound() {
        core::ops::Bound::Included(n) => RangeBound::Included(*n),
        core::ops::Bound::Excluded(n) => RangeBound::Excluded(*n),
        core::ops::Bound::Unbounded => RangeBound::Unbounded,
    }
}

impl<V: Validator, const MIN: usize, const MAX: usize, const ASCII_ONLY: bool> GString<
    V,
    MIN,
    MAX,
    ASCII_ONLY,
> {
    /// What inserting `ins` at byte index `idx` does: an index off the
    /// character boundaries is refused and changes nothing; otherwise the
    /// text is rebuilt with `ins` spliced in.
    pub open spec fn insert_outcome(
        old: Self,
        idx: int,
        ins: Seq<char>,
        r: Result<(), GStringError<V::Error>>,
        new: Self,
    ) -> bool {
        if !is_boundary(old@, idx) {
            r == Err::<(), GStringError<V::Error>>(GStringError::Mutation("idx is not a char boundary"))
                && new == old
        } else {
            Self::mutation_outcome(old, chars_before(old@, idx) + ins + chars_from(old@, idx), r, new)
        }
    }

    /// What popping does: nothing on an empty string; otherwise the text
    /// without its last character is checked like any mutation, and the
    /// character comes back when it succeeds.
    pub open spec fn pop_outcome(
        old: Self,
        r: Result<Option<char>, GStringError<V::Error>>,
        new: Self,
    ) -> bool {
        if old@.len() == 0 {
            r == Ok::<Option<char>, GStringError<V::Error>>(None) && new == old
        } else {
            &&& Self::mutation_outcome(old, old@.drop_last(), drop_value(r), new)
            &&& r is Ok ==> r == Ok::<Option<char>, GStringError<V::Error>>(Some(old@.last()))
        }
    }

    /// What removing the character at byte index `idx` does: an index off
    /// the character boundaries, or at the end, is refused and changes
    /// nothing; otherwise the text without that character is checked like
    /// any mutation, and the character comes back when it succeeds.
    pub open spec fn remove_outcome(
        old: Self,
        idx: int,
        r: Result<char, GStringError<V::Error>>,
        new: Self,
    ) -> bool {
        if !is_boundary(old@, idx) {
            r == Err::<char, GStringError<V::Error>>(GStringError::Mutation("idx is not a char boundary"))
                && new == old
        } else if idx == utf8_len(old@) {
            r == Err::<char, GStringError<V::Error>>(
                GStringError::Mutation("cannot remove char from empty index"),
            ) && new == old
        } else {
            &&& Self::mutation_outcome(
                old,
                chars_before(old@, idx) + chars_from(old@, idx).drop_first(),
                drop_value(r),
                new,
            )
            &&& r is Ok ==> r == Ok::<char, GStringError<V::Error>>(chars_from(old@, idx)[0])
        }
    }

    /// Appends `s`.
    pub fn push_str(&mut self, s: &str) -> (r: Result<(), GStringError<V::Error>>)
        ensures
            Self::mutation_outcome(*old(self), old(self)@ + s@, r, *final(self)),
    {
        let b = self.as_bytes();
        let t = s.as_bytes();
        let none = slice_subrange(t, 0, 0);
        proof {
            lemma_encode_concat(self@, s@);
            encode_utf8_valid_utf8(self@);
            encode_utf8_valid_utf8(s@);
            assert(none@ =~= Seq::<u8>::empty());
        }
        match RawBuf::<MAX>::join3(b, t, none) {
            Some(raw) => {
                proof {
                    assert(raw.bytes() =~= encode_utf8(self@) + encode_utf8(s@));
                    lemma_encode_concat(self@, s@);
                    encode_utf8_decode_utf8(self@ + s@);
                    encode_utf8_valid_utf8(self@ + s@);
                }
                self.replace_with(raw)
            },
            None => {
                proof {
                    assert(utf8_len(self@ + s@) > MAX);
                }
                Err(GStringError::TooLong(MAX))
            },
        }
    }

    /// Appends the character `ch`.
    pub fn push(&mut self, ch: char) -> (r: Result<(), GStringError<V::Error>>)
        ensures
            Self::mutation_outcome(*old(self), old(self)@.push(ch), r, *final(self)),
    {
        let (buf, n) = encode_char(ch);
        let bytes = slice_subrange(buf.as_slice(), 0, n);
        proof {
            lemma_encode_single(ch);
            encode_utf8_valid_utf8(seq![ch]);
        }
        let s = str_from_utf8(bytes);
        proof {
            encode_utf8_decode_utf8(seq![ch]);
            encode_utf8_decode_utf8(s@);
            assert(s@ == seq![ch]);
            assert(old(self)@ + seq![ch] =~= old(self)@.push(ch));
        }
        self.push_str(s)
    }

    /// Inserts `string` at byte index `idx`, which must be a character boundary.
    pub fn insert_str(&mut self, idx: usize, string: &str) -> (r: Result<(), GStringError<V::Error>>)
        ensures
            Self::insert_outcome(*old(self), idx as int, string@, r, *final(self)),
    {
        if !self.as_str().is_char_boundary(idx) {
            return Err(GStringError::Mutation("idx is not a char boundary"));
        }
        let b = self.as_bytes();
        let t = string.as_bytes();
        let len = b.len();
        proof {
            lemma_split_at_boundary(self@, idx as int);
            encode_utf8_valid_utf8(string@);
        }
        let before = slice_subrange(b, 0, idx);
        let after = slice_subrange(b, idx, len);
        let ghost cand = chars_before(self@, idx as int) + string@ + chars_from(self@, idx as int);
        proof {
            lemma_decode_join3(before@, t@, after@);
            encode_utf8_decode_utf8(string@);
            assert(decode_utf8(before@ + t@ + after@) == cand);
            lemma_encode_concat(chars_before(self@, idx as int), string@);
            lemma_encode_concat(chars_before(self@, idx as int) + string@, chars_from(self@, idx as int));
            assert(encode_utf8(cand) == before@ + t@ + after@);
        }
        match RawBuf::<MAX>::join3(before, t, after) {
            Some(raw) => self.replace_with(raw),
            None => {
                proof {
                    assert(utf8_len(cand) > MAX);
                }
                Err(GStringError::TooLong(MAX))
            },
        }
    }

    /// Inserts the character `ch` at byte index `idx`, which must be a character boundary.
    pub fn insert(&mut self, idx: usize, ch: char) -> (r: Result<(), GStringError<V::Error>>)
        ensures
            Self::insert_outcome(*old(self), idx as int, seq![ch], r, *final(self)),
    {
        let (buf, n) = encode_char(ch);
        let bytes = slice_subrange(buf.as_slice(), 0, n);
        proof {
            lemma_encode_single(ch);
            encode_utf8_valid_utf8(seq![ch]);
        }
        let s = str_from_utf8(bytes);
        proof {
            encode_utf8_decode_utf8(seq![ch]);
            encode_utf8_decode_utf8(s@);
        }
        self.insert_str(idx, s)
    }

    /// Shortens the string to `new_len` bytes; does nothing when it is not shorter.
    pub fn truncate(&mut self, new_len: usize) -> (r: Result<(), GStringError<V::Error>>)
        ensures
            new_len >= utf8_len(old(self)@) ==> r is Ok && *final(self) == *old(self),
            new_len < utf8_len(old(self)@) && !is_boundary(old(self)@, new_len as int) ==> r
                == Err::<(), GStringError<V::Error>>(
                GStringError::Mutation("new_len is not a char boundary"),
            ) && *final(self) == *old(self),
            new_len < utf8_len(old(self)@) && is_boundary(old(self)@, new_len as int)
                ==> Self::mutation_outcome(
                *old(self),
                chars_before(old(self)@, new_len as int),
                r,
                *final(self),
            ),
    {
        if new_len >= self.len() {
            return Ok(());
        }
        if !self.as_str().is_char_boundary(new_len) {
            return Err(GStringError::Mutation("new_len is not a char boundary"));
        }
        let b = self.as_bytes();
        proof {
            lemma_split_at_boundary(self@, new_len as int);
        }
        let before = slice_subrange(b, 0, new_len);
        let none = slice_subrange(b, 0, 0);
        proof {
            assert(none@ =~= Seq::<u8>::empty());
            assert(before@ + none@ + none@ =~= before@);
        }
        match RawBuf::<MAX>::join3(before, none, none) {
            Some(raw) => self.replace_with(raw),
            None => Err(GStringError::TooLong(MAX)),
        }
    }

    /// Empties the string; refused when `MIN` is not zero.
    pub fn clear(&mut self) -> (r: Result<(), GStringError<V::Error>>)
        ensures
            MIN != 0 ==> r == Err::<(), GStringError<V::Error>>(
                GStringError::Mutation("cannot clear GString if MIN is not zero"),
            ) && *final(self) == *old(self),
            MIN == 0 ==> Self::mutation_outcome(*old(self), Seq::empty(), r, *final(self)),
    {
        if MIN != 0 {
            return Err(GStringError::Mutation("cannot clear GString if MIN is not zero"));
        }
        let b = self.as_bytes();
        let none = slice_subrange(b, 0, 0);
        proof {
            assert(none@ + none@ + none@ =~= Seq::<u8>::empty());
            assert(valid_utf8(Seq::<u8>::empty()));
            assert(decode_utf8(Seq::<u8>::empty()) =~= Seq::<char>::empty());
        }
        match RawBuf::<MAX>::join3(none, none, none) {
            Some(raw) => self.replace_with(raw),
            None => Err(GStringError::TooLong(MAX)),
        }
    }

    /// Removes the last character and returns it; `None` when the string is empty.
    pub fn pop(&mut self) -> (r: Result<Option<char>, GStringError<V::Error>>)
        ensures
            Self::pop_outcome(*old(self), r, *final(self)),
    {
        if self.len() == 0 {
            proof {
                if self@.len() > 0 {
                    lemma_encode_concat(seq![self@[0]], self@.drop_first());
                    assert(seq![self@[0]] + self@.drop_first() =~= self@);
                    lemma_encode_single(self@[0]);
                    lemma_scalar_shape(self@[0]);
                }
            }
            return Ok(None);
        }
        let b = self.as_bytes();
        let len = b.len();
        let ghost p = self@.drop_last();
        let ghost c = self@.last();
        proof {
            if self@.len() == 0 {
                assert(encode_utf8(self@) =~= Seq::<u8>::empty());
            }
            assert(p.push(c) =~= self@);
            assert(p + seq![c] =~= self@);
            lemma_encode_concat(p, seq![c]);
            lemma_encode_single(c);
            lemma_scalar_shape(c);
        }
        let ghost k0 = encode_utf8(p).len() as int;
        let mut k = len - 1;
        while k > 0 && 0x80 <= b[k] && b[k] <= 0xbf
            invariant
                len == b@.len(),
                b@ == encode_utf8(p) + encode_scalar(c as u32),
                k0 == encode_utf8(p).len(),
                k0 <= k < len,
                !is_continuation_byte(encode_scalar(c as u32)[0]),
                forall|i: int|
                    1 <= i < encode_scalar(c as u32).len() ==> is_continuation_byte(
                        #[trigger] encode_scalar(c as u32)[i],
                    ),
            decreases k,
        {
            assert(b@[k as int] == encode_scalar(c as u32)[k - k0]);
            k -= 1;
        }
        proof {
            if k > k0 {
                assert(b@[k as int] == encode_scalar(c as u32)[k - k0]);
            }
            assert(k == k0);
        }
        let last = slice_subrange(b, k, len);
        proof {
            assert(last@ =~= encode_utf8(seq![c]));
            encode_utf8_valid_utf8(seq![c]);
            encode_utf8_decode_utf8(seq![c]);
        }
        let sub = str_from_utf8(last);
        proof {
            encode_utf8_decode_utf8(sub@);
        }
        let ch = sub.get_char(0);
        let before = slice_subrange(b, 0, k);
        let none = slice_subrange(b, 0, 0);
        proof {
            assert(before@ =~= encode_utf8(p));
            assert(none@ =~= Seq::<u8>::empty());
            assert(before@ + none@ + none@ =~= before@);
            encode_utf8_valid_utf8(p);
            encode_utf8_decode_utf8(p);
        }
        match RawBuf::<MAX>::join3(before, none, none) {
            Some(raw) => match self.replace_with(raw) {
                Ok(()) => Ok(Some(ch)),
                Err(e) => Err(e),
            },
            None => Err(GStringError::TooLong(MAX)),
        }
    }

    /// Removes the character that starts at byte index `idx` and returns it.
    pub fn remove(&mut self, idx: usize) -> (r: Result<char, GStringError<V::Error>>)
        ensures
            Self::remove_outcome(*old(self), idx as int, r, *final(self)),
    {
        if !self.as_str().is_char_boundary(idx) {
            return Err(GStringError::Mutation("idx is not a char boundary"));
        }
        let b = self.as_bytes();
        let len = b.len();
        proof {
            lemma_split_at_boundary(self@, idx as int);
        }
        if idx == len {
            return Err(GStringError::Mutation("cannot remove char from empty index"));
        }
        let before = slice_subrange(b, 0, idx);
        let after = slice_subrange(b, idx, len);
        proof {
            lemma_first_scalar(after@);
        }
        let w = scalar_width(after[0]);
        let sub = str_from_utf8(after);
        proof {
            encode_utf8_decode_utf8(sub@);
        }
        let ch = sub.get_char(0);
        let rest = slice_subrange(b, idx + w, len);
        let none = slice_subrange(b, 0, 0);
        let ghost cand = chars_before(self@, idx as int) + chars_from(self@, idx as int).drop_first();
        proof {
            assert(rest@ =~= pop_first_scalar(after@));
            assert(none@ =~= Seq::<u8>::empty());
            assert(before@ + rest@ + none@ =~= before@ + rest@);
            assert(decode_utf8(after@).drop_first() =~= decode_utf8(rest@));
            assert(valid_utf8(none@));
            lemma_decode_join3(before@, rest@, none@);
            assert(decode_utf8(none@) =~= Seq::<char>::empty());
            assert(decode_utf8(before@ + rest@ + none@) =~= cand);
            lemma_gstring_bounds(*self);
        }
        match RawBuf::<MAX>::join3(before, rest, none) {
            Some(raw) => match self.replace_with(raw) {
                Ok(()) => Ok(ch),
                Err(e) => Err(e),
            },
            None => Err(GStringError::TooLong(MAX)),
        }
    }

    /// What `replace_bounds` does with the range `[start, end)`.
    pub open spec fn range_replacement_outcome(
        old: Self,
        start: RangeBound,
        end: RangeBound,
        with: Seq<char>,
        r: Result<(), GStringError<V::Error>>,
        new: Self,
    ) -> bool {
        let unchanged = new == old;
        match (start_index(start), end_index(end, utf8_len(old@) as int)) {
            (Some(a), Some(z)) => if !is_boundary(old@, a) {
                r == Err::<(), GStringError<V::Error>>(
                    GStringError::Mutation("start range is not within boundary"),
                ) && unchanged
            } else if !is_boundary(old@, z) {
                r == Err::<(), GStringError<V::Error>>(
                    GStringError::Mutation("end range is not within boundary"),
                ) && unchanged
            } else if a > z {
                r == Err::<(), GStringError<V::Error>>(
                    GStringError::Mutation("start range cannot be bigger than end"),
                ) && unchanged
            } else {
                Self::mutation_outcome(
                    old,
                    chars_before(old@, a) + with + chars_from(old@, z),
                    r,
                    new,
                )
            },
            _ => r == Err::<(), GStringError<V::Error>>(GStringError::Mutation("range overflow"))
                && unchanged,
        }
    }

    /// Replaces the bytes between the two bounds by `replace_with`.
    pub fn replace_bounds(&mut self, start: RangeBound, end: RangeBound, replace_with: &str) -> (r:
        Result<(), GStringError<V::Error>>)
        ensures
            Self::range_replacement_outcome(
                *old(self),
                start,
                end,
                replace_with@,
                r,
                *final(self),
            ),
    {
        let len = self.len();
        let a = match start {
            RangeBound::Included(n) => n,
            RangeBound::Excluded(n) => match n.checked_add(1) {
                Some(m) => m,
                None => return Err(GStringError::Mutation("range overflow")),
            },
            RangeBound::Unbounded => 0,
        };
        let z = match end {
            RangeBound::Included(n) => match n.checked_add(1) {
                Some(m) => m,
                None => return Err(GStringError::Mutation("range overflow")),
            },
            RangeBound::Excluded(n) => n,
            RangeBound::Unbounded => len,
        };
        let s = self.as_str();
        if !s.is_char_boundary(a) {
            return Err(GStringError::Mutation("start range is not within boundary"));
        }
        if !s.is_char_boundary(z) {
            return Err(GStringError::Mutation("end range is not within boundary"));
        }
        if a > z {
            return Err(GStringError::Mutation("start range cannot be bigger than end"));
        }
        let b = self.as_bytes();
        let middle = replace_with.as_bytes();
        proof {
            lemma_split_at_boundary(self@, a as int);
            lemma_split_at_boundary(self@, z as int);
            encode_utf8_valid_utf8(replace_with@);
            encode_utf8_decode_utf8(replace_with@);
        }
        let before = slice_subrange(b, 0, a);
        let after = slice_subrange(b, z, len);
        let ghost cand = chars_before(self@, a as int) + replace_with@ + chars_from(self@, z as int);
        proof {
            lemma_decode_join3(before@, middle@, after@);
            assert(decode_utf8(before@ + middle@ + after@) == cand);
            lemma_encode_concat(chars_before(self@, a as int), replace_with@);
            lemma_encode_concat(chars_before(self@, a as int) + replace_with@, chars_from(self@, z as int));
            assert(encode_utf8(cand) == before@ + middle@ + after@);
        }
        match RawBuf::<MAX>::join3(before, middle, after) {
            Some(raw) => self.replace_with(raw),
            None => {
                proof {
                    assert(utf8_len(cand) > MAX);
                }
                Err(GStringError::TooLong(MAX))
            },
        }
    }

    /// Replaces the bytes in `range` by `replace_with`.
    pub fn replace_range<R: core::ops::RangeBounds<usize>>(&mut self, range: R, replace_with: &str) -> (r:
        Result<(), GStringError<V::Error>>)
        ensures
            exists|start: RangeBound, end: RangeBound|
                Self::range_replacement_outcome(
                    *old(self),
                    start,
                    end,
                    replace_with@,
                    r,
                    *final(self),
                ),
    {
        let start = range_start(&range);
        let end = range_end(&range);
        self.replace_bounds(start, end, replace_with)
    }

    /// Replaces every match of `from` by `to`.
    pub fn replace(&mut self, from: &str, to: &str) -> (r: Result<(), GStringError<V::Error>>)
        ensures
            Self::mutation_outcome(*old(self), replaced(old(self)@, from@, to@), r, *final(self)),
    {
        let replaced = str_replace(self.as_str(), from, to);
        match Self::stack_allocate(replaced.as_str()) {
            Ok(raw) => self.replace_with(raw),
            Err(e) => Err(GStringError::from(e)),
        }
    }

    /// Appends all of `parts` at once: the string changes only if the whole
    /// result passes every check.
    pub fn try_extend(&mut self, parts: &[&str]) -> (r: Result<(), GStringError<V::Error>>)
        ensures
            Self::mutation_outcome(*old(self), old(self)@ + concat_views(parts@), r, *final(self)),
    {
        let mut all: Vec<&str> = Vec::new();
        all.push(self.as_str());
        let mut i: usize = 0;
        proof {
            assert(all@.drop_last() =~= Seq::<&str>::empty());
            assert(parts@.subrange(0, 0) =~= Seq::<&str>::empty());
            assert(concat_views(all@) =~= self@ + concat_views(parts@.subrange(0, 0)));
        }
        while i < parts.len()
            invariant
                i <= parts@.len(),
                concat_views(all@) == self@ + concat_views(parts@.subrange(0, i as int)),
            decreases parts@.len() - i,
        {
            let ghost before = all@;
            all.push(parts[i]);
            proof {
                assert(all@.drop_last() =~= before);
                assert(parts@.subrange(0, i + 1).drop_last() =~= parts@.subrange(0, i as int));
                assert(self@ + concat_views(parts@.subrange(0, i + 1)) =~= self@ + concat_views(
                    parts@.subrange(0, i as int),
                ) + parts@[i as int]@);
            }
            i += 1;
        }
        proof {
            assert(parts@.subrange(0, parts@.len() as int) =~= parts@);
        }
        match Self::try_from_iter(all.as_slice()) {
            Ok(g) => {
                *self = g;
                Ok(())
            },
            Err(e) => Err(e),
        }
    }

    /// Appends all of `chars` at once: the string changes only if the whole
    /// result passes every check.
    pub fn try_extend_chars(&mut self, chars: &[char]) -> (r: Result<(), GStringError<V::Error>>)
        ensures
            Self::mutation_outcome(*old(self), old(self)@ + chars@, r, *final(self)),
    {
        let s = self.as_str();
        let n = s.unicode_len();
        let mut all: Vec<char> = Vec::new();
        let mut i: usize = 0;
        while i < n
            invariant
                n == s@.len(),
                s@ == self@,
                i <= n,
                all@ == s@.subrange(0, i as int),
            decreases n - i,
        {
            all.push(s.get_char(i));
            proof {
                assert(all@ =~= s@.subrange(0, i + 1));
            }
            i += 1;
        }
        let mut k: usize = 0;
        while k < chars.len()
            invariant
                n == s@.len(),
                s@ == self@,
                k <= chars@.len(),
                all@ == self@ + chars@.subrange(0, k as int),
            decreases chars@.len() - k,
        {
            all.push(chars[k]);
            proof {
                assert(all@ =~= self@ + chars@.subrange(0, k + 1));
            }
            k += 1;
        }
        proof {
            assert(chars@.subrange(0, chars@.len() as int) =~= chars@);
        }
        match Self::try_from_chars(all.as_slice()) {
            Ok(g) => {
                *self = g;
                Ok(())
            },
            Err(e) => Err(e),
        }
    }
}

#[verifier::external_type_specification]
#[verifier::external_body]
pub struct ExFmtError(core::fmt::Error);

/// The error a formatting sink reports.
///
/// Calls `<core::fmt::Error as Default>::default`; the type carries no data.
#[verifier::external_body]
fn fmt_error() -> core::fmt::Error {
    core::fmt::Error::default()
}

impl<V: Validator, const MIN: usize, const MAX: usize, const ASCII_ONLY: bool> core::fmt::Write for GString<
    V,
    MIN,
    MAX,
    ASCII_ONLY,
> {
    fn write_str(&mut self, s: &str) -> (r: core::fmt::Result)
        ensures
            r is Ok ==> check_constraints(old(self)@ + s@, MIN, MAX, ASCII_ONLY) is None
                && validator_answer::<V>(old(self)@ + s@, Ok(())) && final(self)@ == old(self)@
                + s@,
            r is Err ==> *final(self) == *old(self) && (check_constraints(
                old(self)@ + s@,
                MIN,
                MAX,
                ASCII_ONLY,
            ) is Some || exists|e: V::Error| validator_answer::<V>(old(self)@ + s@, Err(e))),
    {
        match self.push_str(s) {
            Ok(()) => Ok(()),
            Err(_) => Err(fmt_error()),
        }
    }
}

} // verus!
