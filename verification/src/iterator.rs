//! Owned, double-ended iteration over the characters of a `GString`.
use std::str::Chars;
use vstd::prelude::*;
use vstd::std_specs::iter::IteratorSpec;
use vstd::slice::slice_subrange;
use vstd::string::{StrSliceExecFns, StringSliceAdditionalSpecFns};
use vstd::utf8::*;

use crate::encoding::{
    lemma_ascii_bytes, lemma_boundary_local, lemma_first_scalar, lemma_valid_between,
    scalar_width,
};
use crate::gstring::{lemma_gstring_bounds, GString};
use crate::laws::law_length_bounds;
use crate::text::{str_from_utf8, utf8_len};
use crate::validator::Validator;

verus! {

/// What one call of `next` (`front`) or `next_back` (not `front`) does to
/// the characters `old` not yet yielded: it yields the first (or last) of
/// them, which leaves `new`; with none left it yields `None` and leaves
/// them as they were.
pub open spec fn step_outcome(old: Seq<char>, front: bool, r: Option<char>, new: Seq<char>) -> bool {
    if old.len() == 0 {
        r is None && new == old
    } else if front {
        r == Some(old[0]) && new == old.drop_first()
    } else {
        r == Some(old.last()) && new == old.drop_last()
    }
}

/// An owning iterator over the characters of a `GString`, from either end.
pub struct IntoChars<V: Validator, const MIN: usize, const MAX: usize, const ASCII_ONLY: bool> {
    inner: GString<V, MIN, MAX, ASCII_ONLY>,
    front: usize,
    back: usize,
}

impl<V: Validator, const MIN: usize, const MAX: usize, const ASCII_ONLY: bool> IntoChars<
    V,
    MIN,
    MAX,
    ASCII_ONLY,
> {
    spec fn bytes(self) -> Seq<u8> {
        encode_utf8(self.inner@)
    }

    #[verifier::type_invariant]
    spec fn inv(self) -> bool {
        &&& self.front <= self.back
        &&& is_char_boundary(self.bytes(), self.front as int)
        &&& is_char_boundary(self.bytes(), self.back as int)
    }
}

impl<V: Validator, const MIN: usize, const MAX: usize, const ASCII_ONLY: bool> View for IntoChars<
    V,
    MIN,
    MAX,
    ASCII_ONLY,
> {
    type V = Seq<char>;

    /// The characters not yet yielded.
    closed spec fn view(&self) -> Seq<char> {
        if self.inv() {
            decode_utf8(self.bytes().subrange(self.front as int, self.back as int))
        } else {
            Seq::empty()
        }
    }
}

impl<V: Validator, const MIN: usize, const MAX: usize, const ASCII_ONLY: bool> IntoIterator for GString<V, MIN, MAX, ASCII_ONLY> {
    type Item = char;

    type IntoIter = IntoChars<V, MIN, MAX, ASCII_ONLY>;

    /// Consumes the string into an iterator over its characters.
    fn into_iter(self) -> (r: IntoChars<V, MIN, MAX, ASCII_ONLY>)
        ensures
            r@ == self@,
    {
        let len = self.len();
        proof {
            encode_utf8_valid_utf8(self@);
            encode_utf8_decode_utf8(self@);
            is_char_boundary_start_end_of_seq(encode_utf8(self@));
            assert(encode_utf8(self@).subrange(0, len as int) =~= encode_utf8(self@));
        }
        IntoChars { inner: self, front: 0, back: len }
    }
}

impl<'a, V: Validator, const MIN: usize, const MAX: usize, const ASCII_ONLY: bool> IntoIterator for &'a GString<V, MIN, MAX, ASCII_ONLY> {
    type Item = char;

    type IntoIter = Chars<'a>;

    /// Iterates over the characters of a borrowed string.
    fn into_iter(self) -> (r: Chars<'a>)
        ensures
            r.remaining() == self@,
    {
        self.chars()
    }
}

impl<'a, V: Validator, const MIN: usize, const MAX: usize, const ASCII_ONLY: bool> IntoIterator for &'a mut GString<V, MIN, MAX, ASCII_ONLY> {
    type Item = char;

    type IntoIter = Chars<'a>;

    /// Iterates over the characters of a mutably borrowed string; the
    /// characters are yielded by value.
    fn into_iter(self) -> (r: Chars<'a>)
        ensures
            r.remaining() == old(self)@,
    {
        self.chars()
    }
}

impl<V: Validator, const MIN: usize, const MAX: usize, const ASCII_ONLY: bool> IntoChars<
    V,
    MIN,
    MAX,
    ASCII_ONLY,
> {
    /// Takes the first character left.
    fn take_front(&mut self) -> (r: Option<char>)
        ensures
            old(self)@.len() == 0 ==> r is None && final(self)@ == old(self)@,
            old(self)@.len() > 0 ==> r == Some(old(self)@[0]) && final(self)@ == old(
                self,
            )@.drop_first(),
    {
        proof {
            use_type_invariant(&*self);
            encode_utf8_valid_utf8(self.inner@);
            lemma_valid_between(self.bytes(), self.front as int, self.back as int);
        }
        if self.front >= self.back {
            proof {
                assert(self.bytes().subrange(self.front as int, self.back as int) =~= Seq::<
                    u8,
                >::empty());
            }
            return None;
        }
        let b = self.inner.as_bytes();
        let front = self.front;
        let back = self.back;
        let ghost x = b@.subrange(front as int, back as int);
        proof {
            encode_utf8_valid_utf8(self.inner@);
            lemma_valid_between(b@, front as int, back as int);
            lemma_first_scalar(x);
            assert(x[0] == b@[front as int]);
        }
        if ASCII_ONLY {
            let byte = b[front];
            proof {
                lemma_gstring_bounds(self.inner);
                lemma_ascii_bytes(self.inner@);
                assert(byte < 128);
                assert(byte & 0x7f == byte) by (bit_vector)
                    requires
                        byte < 128,
                ;
                assert(length_of_first_scalar(x) == 1);
                lemma_boundary_local(b@, front + 1);
                if front + 1 < b@.len() {
                    assert(b@[front + 1] < 128);
                }
                assert(x.subrange(1, x.len() as int) =~= b@.subrange(front + 1, back as int));
            }
            self.front = front + 1;
            return Some(byte as char);
        }
        let sub_bytes = slice_subrange(b, front, back);
        let w = scalar_width(sub_bytes[0]);
        let sub = str_from_utf8(sub_bytes);
        proof {
            encode_utf8_decode_utf8(sub@);
            let rest = pop_first_scalar(x);
            lemma_boundary_local(b@, front + w);
            if front + w < back {
                lemma_first_scalar(rest);
                assert(rest[0] == b@[front + w]);
            }
            assert(rest =~= b@.subrange(front + w, back as int));
        }
        let ch = sub.get_char(0);
        self.front = front + w;
        Some(ch)
    }

    /// Takes the last character left.
    fn take_back(&mut self) -> (r: Option<char>)
        ensures
            old(self)@.len() == 0 ==> r is None && final(self)@ == old(self)@,
            old(self)@.len() > 0 ==> r == Some(old(self)@.last()) && final(self)@ == old(
                self,
            )@.drop_last(),
    {
        proof {
            use_type_invariant(&*self);
            encode_utf8_valid_utf8(self.inner@);
            lemma_valid_between(self.bytes(), self.front as int, self.back as int);
        }
        if self.front >= self.back {
            proof {
                assert(self.bytes().subrange(self.front as int, self.back as int) =~= Seq::<
                    u8,
                >::empty());
            }
            return None;
        }
        let s = self.inner.as_str();
        let b = self.inner.as_bytes();
        let front = self.front;
        let back = self.back;
        let ghost y = b@.subrange(front as int, back as int);
        proof {
            encode_utf8_valid_utf8(self.inner@);
            lemma_valid_between(b@, front as int, back as int);
            lemma_first_scalar(y);
        }
        if ASCII_ONLY {
            let byte = b[back - 1];
            proof {
                lemma_gstring_bounds(self.inner);
                lemma_ascii_bytes(self.inner@);
                assert(byte < 128);
                assert(byte & 0x7f == byte) by (bit_vector)
                    requires
                        byte < 128,
                ;
                let k = back - 1 - front;
                lemma_boundary_local(b@, back - 1);
                lemma_boundary_local(y, k);
                assert(y[k] == b@[back - 1]);
                decode_utf8_split(y, k);
                valid_utf8_split(y, k);
                let x = y.subrange(k, y.len() as int);
                assert(x =~= b@.subrange(back - 1, back as int));
                lemma_first_scalar(x);
                assert(x.subrange(1, 1) =~= Seq::<u8>::empty());
                assert(decode_utf8(Seq::<u8>::empty()) =~= Seq::<char>::empty());
                assert(y.subrange(0, k) =~= b@.subrange(front as int, back - 1));
            }
            self.back = back - 1;
            return Some(byte as char);
        }
        let mut idx = back - 1;
        while idx > front && !s.is_char_boundary(idx)
            invariant
                front <= idx < back,
                back <= b@.len(),
                s.spec_bytes() == b@,
                valid_utf8(b@),
                forall|j: int| idx < j < back ==> !#[trigger] is_char_boundary(b@, j),
            decreases idx,
        {
            idx -= 1;
        }
        let x_bytes = slice_subrange(b, idx, back);
        let ghost x = x_bytes@;
        proof {
            let k = idx - front;
            lemma_boundary_local(b@, idx as int);
            lemma_boundary_local(y, k);
            if k > 0 {
                assert(y[k] == b@[idx as int]);
            }
            decode_utf8_split(y, k);
            assert(y.subrange(k, y.len() as int) =~= x);
            assert(y.subrange(0, k) =~= b@.subrange(front as int, idx as int));
            lemma_valid_between(b@, idx as int, back as int);
            lemma_first_scalar(x);
            let w = length_of_first_scalar(x);
            if w < x.len() {
                let rest = pop_first_scalar(x);
                lemma_first_scalar(rest);
                assert(rest[0] == b@[idx + w]);
                lemma_boundary_local(b@, idx + w);
                assert(is_char_boundary(b@, idx + w));
            }
            assert(pop_first_scalar(x) =~= Seq::<u8>::empty());
            assert(decode_utf8(Seq::<u8>::empty()) =~= Seq::<char>::empty());
        }
        let sub = str_from_utf8(x_bytes);
        proof {
            encode_utf8_decode_utf8(sub@);
        }
        let ch = sub.get_char(0);
        self.back = idx;
        Some(ch)
    }
}

impl<V: Validator, const MIN: usize, const MAX: usize, const ASCII_ONLY: bool> Iterator for IntoChars<V, MIN, MAX, ASCII_ONLY> {
    type Item = char;

    /// Yields the next character from the front.
    fn next(&mut self) -> (r: Option<char>)
        ensures
            old(self)@.len() == 0 ==> r is None && final(self)@ == old(self)@,
            old(self)@.len() > 0 ==> r == Some(old(self)@[0]) && final(self)@ == old(
                self,
            )@.drop_first(),
            step_outcome(old(self)@, true, r, final(self)@),
    {
        self.take_front()
    }

    /// Bounds on the number of characters left: at least a quarter of the
    /// bytes left (exactly the bytes left when `ASCII_ONLY`), at most the
    /// bytes left.
    fn size_hint(&self) -> (r: (usize, Option<usize>))
        ensures
            r.1 matches Some(hi) && hi == utf8_len(self@),
            ASCII_ONLY ==> r.0 == utf8_len(self@),
            !ASCII_ONLY ==> r.0 == (utf8_len(self@) + 3) / 4,
            r.0 <= self@.len() <= utf8_len(self@),
    {
        proof {
            use_type_invariant(self);
            encode_utf8_valid_utf8(self.inner@);
            lemma_valid_between(self.bytes(), self.front as int, self.back as int);
            let rest = self.bytes().subrange(self.front as int, self.back as int);
            decode_utf8_encode_utf8(rest);
            law_length_bounds(self@);
            if ASCII_ONLY {
                lemma_gstring_bounds(self.inner);
                lemma_ascii_bytes(self.inner@);
                assert forall|i: int| 0 <= i < encode_utf8(self@).len() implies #[trigger] encode_utf8(
                    self@,
                )[i] < 128 by {
                    assert(encode_utf8(self@)[i] == self.bytes()[self.front + i]);
                }
                lemma_ascii_bytes(self@);
                is_ascii_chars_encode_utf8(self@);
            }
        }
        let remaining = self.back - self.front;
        if ASCII_ONLY {
            return (remaining, Some(remaining));
        }
        let min = remaining / 4 + if remaining % 4 != 0 {
            1
        } else {
            0
        };
        (min, Some(remaining))
    }
}

impl<V: Validator, const MIN: usize, const MAX: usize, const ASCII_ONLY: bool> vstd::std_specs::iter::IteratorSpecImpl for IntoChars<V, MIN, MAX, ASCII_ONLY> {
    open spec fn obeys_prophetic_iter_laws(&self) -> bool {
        true
    }

    open spec fn remaining(&self) -> Seq<char> {
        self@
    }

    open spec fn will_return_none(&self) -> bool {
        true
    }

    open spec fn decrease(&self) -> Option<nat> {
        Some(self@.len())
    }

    open spec fn initial_value_relation(&self, init: &Self) -> bool {
        self@ == init@
    }

    open spec fn peek(&self, index: int) -> Option<char> {
        if 0 <= index < self@.len() {
            Some(self@[index])
        } else {
            None
        }
    }
}

impl<V: Validator, const MIN: usize, const MAX: usize, const ASCII_ONLY: bool> DoubleEndedIterator for IntoChars<V, MIN, MAX, ASCII_ONLY> {
    /// Yields the next character from the back.
    fn next_back(&mut self) -> (r: Option<char>)
        ensures
            old(self)@.len() == 0 ==> r is None && final(self)@ == old(self)@,
            old(self)@.len() > 0 ==> r == Some(old(self)@.last()) && final(self)@ == old(
                self,
            )@.drop_last(),
            step_outcome(old(self)@, false, r, final(self)@),
    {
        self.take_back()
    }
}

impl<V: Validator, const MIN: usize, const MAX: usize, const ASCII_ONLY: bool> vstd::std_specs::iter::DoubleEndedIteratorSpecImpl for IntoChars<V, MIN, MAX, ASCII_ONLY> {
    open spec fn peek_back(&self, index: int) -> Option<char> {
        if 0 <= index < self@.len() {
            Some(self@[self@.len() - 1 - index])
        } else {
            None
        }
    }
}

impl<V: Validator, const MIN: usize, const MAX: usize, const ASCII_ONLY: bool> core::iter::FusedIterator for IntoChars<
    V,
    MIN,
    MAX,
    ASCII_ONLY,
> {

}

} // verus!
