//! Conversions between `GString` and other string types.
use std::borrow::Cow;
use vstd::prelude::*;
use vstd::slice::slice_subrange;
use vstd::string::{StringSliceAdditionalSpecFns};
use vstd::utf8::*;

use crate::encoding::{encode_char, lemma_encode_concat, lemma_encode_single};
use crate::error::GStringError;
use crate::gstring::{GString, RawBuf};
use crate::text::utf8_len;
use crate::validator::Validator;
use vstd::std_specs::convert::{FromSpecImpl, TryFromSpecImpl};

verus! {

/// The characters of all the parts, one after the other.
pub open spec fn concat_views(parts: Seq<&str>) -> Seq<char>
    decreases parts.len(),
{
    if parts.len() == 0 {
        Seq::empty()
    } else {
        concat_views(parts.drop_last()) + parts.last()@
    }
}

impl<V: Validator, const MIN: usize, const MAX: usize, const ASCII_ONLY: bool> GString<
    V,
    MIN,
    MAX,
    ASCII_ONLY,
> {
    /// Builds a string from the concatenation of `parts`.
    pub fn try_from_iter(parts: &[&str]) -> (r: Result<Self, GStringError<V::Error>>)
        ensures
            Self::construction_outcome(concat_views(parts@), r),
    {
        let mut raw = RawBuf::<MAX> { buf: [0u8; MAX], len: 0 };
        let mut i: usize = 0;
        proof {
            assert(raw.bytes() =~= Seq::<u8>::empty());
            assert(encode_utf8(concat_views(parts@.subrange(0, 0))) =~= Seq::<u8>::empty());
            assert(parts@.subrange(0, 0) =~= Seq::<&str>::empty());
        }
        while i < parts.len()
            invariant
                i <= parts@.len(),
                raw.len <= MAX,
                forall|j: int| raw.len <= j < MAX ==> #[trigger] raw.buf@[j] == 0,
                raw.bytes() == encode_utf8(concat_views(parts@.subrange(0, i as int))),
            decreases parts@.len() - i,
        {
            let bytes = parts[i].as_bytes();
            let ghost before = concat_views(parts@.subrange(0, i as int));
            proof {
                assert(parts@.subrange(0, i + 1).drop_last() =~= parts@.subrange(0, i as int));
                lemma_encode_concat(before, parts@[i as int]@);
            }
            if bytes.len() > MAX - raw.len {
                proof {
                    lemma_concat_views_grows(parts@, (i + 1) as int);
                }
                return Err(GStringError::TooLong(MAX));
            }
            let at = raw.len;
            RawBuf::<MAX>::copy_into(&mut raw.buf, at, bytes);
            raw.len = at + bytes.len();
            proof {
                assert(raw.bytes() =~= encode_utf8(before) + encode_utf8(parts@[i as int]@));
            }
            i += 1;
        }
        proof {
            assert(parts@.subrange(0, parts@.len() as int) =~= parts@);
            encode_utf8_valid_utf8(concat_views(parts@));
            encode_utf8_decode_utf8(concat_views(parts@));
        }
        Self::from_raw(raw)
    }

    /// Builds a string from a sequence of characters.
    pub fn try_from_chars(chars: &[char]) -> (r: Result<Self, GStringError<V::Error>>)
        ensures
            Self::construction_outcome(chars@, r),
    {
        let mut raw = RawBuf::<MAX> { buf: [0u8; MAX], len: 0 };
        let mut i: usize = 0;
        proof {
            assert(raw.bytes() =~= Seq::<u8>::empty());
            assert(encode_utf8(chars@.subrange(0, 0)) =~= Seq::<u8>::empty());
        }
        while i < chars.len()
            invariant
                i <= chars@.len(),
                raw.len <= MAX,
                forall|j: int| raw.len <= j < MAX ==> #[trigger] raw.buf@[j] == 0,
                raw.bytes() == encode_utf8(chars@.subrange(0, i as int)),
            decreases chars@.len() - i,
        {
            let (tmp, n) = encode_char(chars[i]);
            let bytes = slice_subrange(tmp.as_slice(), 0, n);
            let ghost before = chars@.subrange(0, i as int);
            proof {
                assert(chars@.subrange(0, i + 1) =~= before + seq![chars@[i as int]]);
                lemma_encode_concat(before, seq![chars@[i as int]]);
                lemma_encode_single(chars@[i as int]);
            }
            if bytes.len() > MAX - raw.len {
                proof {
                    lemma_encode_concat(chars@.subrange(0, i + 1), chars@.subrange(i + 1, chars@.len() as int));
                    assert(chars@ =~= chars@.subrange(0, i + 1) + chars@.subrange(i + 1, chars@.len() as int));
                }
                return Err(GStringError::TooLong(MAX));
            }
            let at = raw.len;
            RawBuf::<MAX>::copy_into(&mut raw.buf, at, bytes);
            raw.len = at + bytes.len();
            proof {
                assert(raw.bytes() =~= encode_utf8(before) + encode_utf8(seq![chars@[i as int]]));
            }
            i += 1;
        }
        proof {
            assert(chars@.subrange(0, chars@.len() as int) =~= chars@);
            encode_utf8_valid_utf8(chars@);
            encode_utf8_decode_utf8(chars@);
        }
        Self::from_raw(raw)
    }
}

/// The concatenation of a prefix of the parts is no longer than that of all of them.
proof fn lemma_concat_views_grows(parts: Seq<&str>, k: int)
    requires
        0 <= k <= parts.len(),
    ensures
        utf8_len(concat_views(parts.subrange(0, k))) <= utf8_len(concat_views(parts)),
    decreases parts.len() - k,
{
    if k < parts.len() {
        lemma_concat_views_grows(parts, k + 1);
        let p = parts.subrange(0, k + 1);
        assert(p.drop_last() =~= parts.subrange(0, k));
        lemma_encode_concat(concat_views(parts.subrange(0, k)), parts[k]@);
    } else {
        assert(parts.subrange(0, k) =~= parts);
    }
}

impl<V: Validator, const MIN: usize, const MAX: usize, const ASCII_ONLY: bool> core::str::FromStr for GString<
    V,
    MIN,
    MAX,
    ASCII_ONLY,
> {
    type Err = GStringError<V::Error>;

    fn from_str(s: &str) -> (r: Result<Self, Self::Err>)
        ensures
            Self::construction_outcome(s@, r),
    {
        Self::try_new(s)
    }
}

impl<'a, V: Validator, const MIN: usize, const MAX: usize, const ASCII_ONLY: bool> TryFrom<&'a str> for GString<
    V,
    MIN,
    MAX,
    ASCII_ONLY,
> {
    type Error = GStringError<V::Error>;

    fn try_from(value: &'a str) -> (r: Result<Self, Self::Error>)
        ensures
            Self::construction_outcome(value@, r),
    {
        Self::try_new(value)
    }
}

impl<'a, V: Validator, const MIN: usize, const MAX: usize, const ASCII_ONLY: bool> TryFromSpecImpl<&'a str> for GString<
    V,
    MIN,
    MAX,
    ASCII_ONLY,
> {
    open spec fn obeys_try_from_spec() -> bool {
        false
    }

    open spec fn try_from_spec(v: &'a str) -> Result<Self, Self::Error> {
        arbitrary()
    }
}

impl<V: Validator, const MIN: usize, const MAX: usize, const ASCII_ONLY: bool> TryFrom<String> for GString<
    V,
    MIN,
    MAX,
    ASCII_ONLY,
> {
    type Error = GStringError<V::Error>;

    fn try_from(value: String) -> (r: Result<Self, Self::Error>)
        ensures
            Self::construction_outcome(value@, r),
    {
        Self::try_new(value.as_str())
    }
}

impl<V: Validator, const MIN: usize, const MAX: usize, const ASCII_ONLY: bool> TryFromSpecImpl<String> for GString<
    V,
    MIN,
    MAX,
    ASCII_ONLY,
> {
    open spec fn obeys_try_from_spec() -> bool {
        false
    }

    open spec fn try_from_spec(v: String) -> Result<Self, Self::Error> {
        arbitrary()
    }
}

impl<'a, V: Validator, const MIN: usize, const MAX: usize, const ASCII_ONLY: bool> TryFrom<Cow<'a, str>> for GString<
    V,
    MIN,
    MAX,
    ASCII_ONLY,
> {
    type Error = GStringError<V::Error>;

    fn try_from(value: Cow<'a, str>) -> (r: Result<Self, Self::Error>)
        ensures
            Self::construction_outcome(value@, r),
    {
        match &value {
            Cow::Borrowed(b) => Self::try_new(b),
            Cow::Owned(o) => Self::try_new(o.as_str()),
        }
    }
}

impl<'a, V: Validator, const MIN: usize, const MAX: usize, const ASCII_ONLY: bool> TryFromSpecImpl<Cow<'a, str>> for GString<
    V,
    MIN,
    MAX,
    ASCII_ONLY,
> {
    open spec fn obeys_try_from_spec() -> bool {
        false
    }

    open spec fn try_from_spec(v: Cow<'a, str>) -> Result<Self, Self::Error> {
        arbitrary()
    }
}

impl<V: Validator, const MIN: usize, const MAX: usize, const ASCII_ONLY: bool> From<GString<V, MIN, MAX, ASCII_ONLY>> for String {
    fn from(value: GString<V, MIN, MAX, ASCII_ONLY>) -> (r: String)
        ensures
            r@ == value@,
    {
        value.to_string()
    }
}

impl<V: Validator, const MIN: usize, const MAX: usize, const ASCII_ONLY: bool> FromSpecImpl<GString<V, MIN, MAX, ASCII_ONLY>> for String {
    open spec fn obeys_from_spec() -> bool {
        false
    }

    open spec fn from_spec(v: GString<V, MIN, MAX, ASCII_ONLY>) -> String {
        arbitrary()
    }
}

/// `r` holds the text `s`.
pub open spec fn text_is(r: &str, s: Seq<char>) -> bool {
    r@ == s
}

/// `r` holds the bytes `b`.
pub open spec fn bytes_are(r: &[u8], b: Seq<u8>) -> bool {
    r@ == b
}

impl<V: Validator, const MIN: usize, const MAX: usize, const ASCII_ONLY: bool> AsRef<str> for GString<
    V,
    MIN,
    MAX,
    ASCII_ONLY,
> {
    fn as_ref(&self) -> (r: &str)
        ensures
            text_is(r, self@),
    {
        self.as_str()
    }
}

impl<V: Validator, const MIN: usize, const MAX: usize, const ASCII_ONLY: bool> AsRef<[u8]> for GString<
    V,
    MIN,
    MAX,
    ASCII_ONLY,
> {
    fn as_ref(&self) -> (r: &[u8])
        ensures
            bytes_are(r, encode_utf8(self@)),
    {
        self.as_bytes()
    }
}

impl<V: Validator, const MIN: usize, const MAX: usize, const ASCII_ONLY: bool> core::ops::Deref for GString<
    V,
    MIN,
    MAX,
    ASCII_ONLY,
> {
    type Target = str;

    fn deref(&self) -> (r: &str)
        ensures
            r@ == self@,
    {
        self.as_str()
    }
}

impl<V: Validator, const MIN: usize, const MAX: usize, const ASCII_ONLY: bool> core::borrow::Borrow<
    str,
> for GString<V, MIN, MAX, ASCII_ONLY> {
    fn borrow(&self) -> (r: &str)
        ensures
            text_is(r, self@),
    {
        self.as_str()
    }
}

} // verus!
