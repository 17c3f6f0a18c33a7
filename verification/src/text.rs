//! Text helpers shared by the library: decimal rendering and byte/str views.
use vstd::prelude::*;
use vstd::string::{StringExecFns, StringSliceAdditionalSpecFns};
use vstd::utf8::*;

verus! {

/// The ASCII digit for a value below ten.
pub open spec fn digit_char(d: nat) -> char {
    (d + 48) as char
}

/// Decimal rendering of a natural number, most significant digit first.
pub open spec fn decimal(n: nat) -> Seq<char>
    decreases n,
{
    if n < 10 {
        seq![digit_char(n)]
    } else {
        decimal(n / 10).push(digit_char(n % 10))
    }
}

/// Number of bytes in the UTF-8 encoding of a character sequence.
pub open spec fn utf8_len(s: Seq<char>) -> nat {
    encode_utf8(s).len()
}

/// Renders `n` in decimal.
///
/// Calls `<usize as ToString>::to_string`; std documents it as the plain
/// decimal representation (no sign, no padding, no separators).
#[verifier::external_body]
pub(crate) fn usize_to_string(n: usize) -> (s: String)
    ensures
        s@ == decimal(n as nat),
{
    n.to_string()
}

/// Views bytes known to be valid UTF-8 as a `str`.
///
/// Calls `core::str::from_utf8`, which std documents to succeed exactly on
/// valid UTF-8 and to borrow the same bytes; on other bytes (which the
/// `requires` rules out) it panics.
#[verifier::external_body]
pub(crate) fn str_from_utf8(bytes: &[u8]) -> (s: &str)
    requires
        valid_utf8(bytes@),
    ensures
        s.spec_bytes() == bytes@,
{
    core::str::from_utf8(bytes).unwrap()
}

/// `prefix` followed by `suffix`, as a new `String`.
pub(crate) fn join(prefix: &str, suffix: &str) -> (r: String)
    ensures
        r@ == prefix@ + suffix@,
{
    let s = String::from_str(prefix);
    s.concat(suffix)
}

/// `s` with `sep` before, between and after its characters.
pub open spec fn interleaved(s: Seq<char>, sep: Seq<char>) -> Seq<char>
    decreases s.len(),
{
    if s.len() == 0 {
        sep
    } else {
        sep + seq![s[0]] + interleaved(s.drop_first(), sep)
    }
}

/// `s` with every match of `from` replaced by `to`, matches taken from the
/// left and not overlapping; an empty `from` matches between all characters
/// and at both ends.
pub open spec fn replaced(s: Seq<char>, from: Seq<char>, to: Seq<char>) -> Seq<char>
    decreases s.len(),
{
    if from.len() == 0 {
        interleaved(s, to)
    } else if s.len() == 0 {
        Seq::empty()
    } else if from.len() <= s.len() && s.subrange(0, from.len() as int) == from {
        to + replaced(s.skip(from.len() as int), from, to)
    } else {
        seq![s[0]] + replaced(s.drop_first(), from, to)
    }
}

/// Replaces every match of `from` in `s` by `to`.
///
/// Calls `str::replace`, which std documents as replacing all matches of the
/// pattern; matches are found from the left without overlap, and an empty
/// pattern matches at every character boundary.
#[verifier::external_body]
pub(crate) fn str_replace(s: &str, from: &str, to: &str) -> (r: String)
    ensures
        r@ == replaced(s@, from@, to@),
{
    s.replace(from, to)
}

/// Whether two byte slices hold the same bytes.
pub(crate) fn bytes_eq(a: &[u8], b: &[u8]) -> (r: bool)
    ensures
        r == (a@ == b@),
{
    if a.len() != b.len() {
        return false;
    }
    let mut i: usize = 0;
    while i < a.len()
        invariant
            a@.len() == b@.len(),
            i <= a@.len(),
            forall|j: int| 0 <= j < i ==> a@[j] == b@[j],
        decreases a@.len() - i,
    {
        if a[i] != b[i] {
            return false;
        }
        i += 1;
    }
    assert(a@ =~= b@);
    true
}

} // verus!
