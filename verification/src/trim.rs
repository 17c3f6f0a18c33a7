//! Removing leading and trailing whitespace.
use vstd::prelude::*;
use vstd::string::StrSliceExecFns;

use crate::error::GStringError;
use crate::gstring::GString;
use crate::validator::Validator;

verus! {

/// The Unicode `White_Space` property, which `char::is_whitespace` tests.
pub open spec fn is_whitespace(c: char) -> bool {
    let v = c as u32;
    ||| 0x9 <= v <= 0xd
    ||| v == 0x20
    ||| v == 0x85
    ||| v == 0xa0
    ||| v == 0x1680
    ||| 0x2000 <= v <= 0x200a
    ||| v == 0x2028
    ||| v == 0x2029
    ||| v == 0x202f
    ||| v == 0x205f
    ||| v == 0x3000
}

/// `s` without its leading whitespace.
pub open spec fn trim_start_chars(s: Seq<char>) -> Seq<char>
    decreases s.len(),
{
    if s.len() > 0 && is_whitespace(s[0]) {
        trim_start_chars(s.drop_first())
    } else {
        s
    }
}

/// `s` without its trailing whitespace.
pub open spec fn trim_end_chars(s: Seq<char>) -> Seq<char>
    decreases s.len(),
{
    if s.len() > 0 && is_whitespace(s.last()) {
        trim_end_chars(s.drop_last())
    } else {
        s
    }
}

/// `s` without its leading and trailing whitespace.
pub open spec fn trim_chars(s: Seq<char>) -> Seq<char> {
    trim_end_chars(trim_start_chars(s))
}

/// Whether `c` is whitespace.
pub(crate) fn char_is_whitespace(c: char) -> (r: bool)
    ensures
        r == is_whitespace(c),
{
    let v = c as u32;
    (0x9 <= v && v <= 0xd) || v == 0x20 || v == 0x85 || v == 0xa0 || v == 0x1680 || (0x2000 <= v
        && v <= 0x200a) || v == 0x2028 || v == 0x2029 || v == 0x202f || v == 0x205f || v == 0x3000
}

/// Number of leading whitespace characters of `s`; what stays is `s` with
/// them dropped.
fn leading_whitespace(s: &str) -> (a: usize)
    ensures
        a <= s@.len(),
        trim_start_chars(s@) == s@.subrange(a as int, s@.len() as int),
{
    let n = s.unicode_len();
    let mut a: usize = 0;
    proof {
        assert(s@.subrange(0, n as int) =~= s@);
    }
    while a < n && char_is_whitespace(s.get_char(a))
        invariant
            n == s@.len(),
            a <= n,
            trim_start_chars(s@) == trim_start_chars(s@.subrange(a as int, n as int)),
        decreases n - a,
    {
        proof {
            let x = s@.subrange(a as int, n as int);
            assert(x[0] == s@[a as int]);
            assert(x.drop_first() =~= s@.subrange(a + 1, n as int));
        }
        a += 1;
    }
    a
}

/// Number of characters of `s` that stay once its trailing whitespace is
/// dropped.
fn kept_before_trailing_whitespace(s: &str) -> (b: usize)
    ensures
        b <= s@.len(),
        trim_end_chars(s@) == s@.subrange(0, b as int),
{
    let n = s.unicode_len();
    let mut b: usize = n;
    proof {
        assert(s@.subrange(0, n as int) =~= s@);
    }
    while b > 0 && char_is_whitespace(s.get_char(b - 1))
        invariant
            n == s@.len(),
            b <= n,
            trim_end_chars(s@) == trim_end_chars(s@.subrange(0, b as int)),
        decreases b,
    {
        proof {
            let x = s@.subrange(0, b as int);
            assert(x.last() == s@[b - 1]);
            assert(x.drop_last() =~= s@.subrange(0, b - 1));
        }
        b -= 1;
    }
    b
}

impl<V: Validator, const MIN: usize, const MAX: usize, const ASCII_ONLY: bool> GString<
    V,
    MIN,
    MAX,
    ASCII_ONLY,
> {
    /// A new string with the leading and trailing whitespace removed; every
    /// constraint of the type is checked on it.
    pub fn try_trim(&self) -> (r: Result<Self, GStringError<V::Error>>)
        ensures
            Self::construction_outcome(trim_chars(self@), r),
    {
        let s = self.as_str();
        let a = leading_whitespace(s);
        let rest = s.substring_char(a, s.unicode_len());
        let b = kept_before_trailing_whitespace(rest);
        Self::try_new(rest.substring_char(0, b))
    }

    /// A new string with the leading whitespace removed; every constraint of
    /// the type is checked on it.
    pub fn try_trim_start(&self) -> (r: Result<Self, GStringError<V::Error>>)
        ensures
            Self::construction_outcome(trim_start_chars(self@), r),
    {
        let s = self.as_str();
        let a = leading_whitespace(s);
        Self::try_new(s.substring_char(a, s.unicode_len()))
    }

    /// A new string with the trailing whitespace removed; every constraint of
    /// the type is checked on it.
    pub fn try_trim_end(&self) -> (r: Result<Self, GStringError<V::Error>>)
        ensures
            Self::construction_outcome(trim_end_chars(self@), r),
    {
        let s = self.as_str();
        let b = kept_before_trailing_whitespace(s);
        Self::try_new(s.substring_char(0, b))
    }
}

} // verus!
