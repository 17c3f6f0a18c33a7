//! The `GString` type, its invariant, and construction from a `str`.
use core::marker::PhantomData;
use vstd::prelude::*;
use vstd::slice::slice_subrange;
use vstd::string::StringSliceAdditionalSpecFns;
use vstd::utf8::*;

use crate::error::{lift_error, ConstraintError, GStringError};
use crate::encoding::lemma_ascii_bytes;
use crate::text::{str_from_utf8, utf8_len};
use crate::validator::{validator_answer, Validator};

verus! {

/// The first of the length and ASCII checks that a candidate fails, in the
/// order the constructors run them, or `None` when it passes them all.
pub open spec fn check_constraints(s: Seq<char>, min: usize, max: usize, ascii_only: bool) -> Option<
    ConstraintError,
> {
    if utf8_len(s) > max {
        Some(ConstraintError::TooLong(max))
    } else if utf8_len(s) < min {
        Some(ConstraintError::TooShort(min))
    } else if ascii_only && !is_ascii_chars(s) {
        Some(ConstraintError::NotAscii)
    } else {
        None
    }
}

/// Sets every byte of `buf` to zero.
///
/// Calls `zeroize::Zeroize::zeroize` on the array, which writes the zero
/// (default) value to each element with volatile writes.
#[verifier::external_body]
fn zeroize_bytes<const N: usize>(buf: &mut [u8; N])
    ensures
        final(buf)@ == Seq::new(N as nat, |i: int| 0u8),
    opens_invariants none
    no_unwind
{
    zeroize::Zeroize::zeroize(buf)
}

/// Sets `n` to zero.
///
/// Calls `zeroize::Zeroize::zeroize` on the integer, which writes its zero
/// (default) value with a volatile write.
#[verifier::external_body]
fn zeroize_usize(n: &mut usize)
    ensures
        *final(n) == 0,
    opens_invariants none
    no_unwind
{
    zeroize::Zeroize::zeroize(n)
}

/// A run of zero bytes is valid UTF-8.
proof fn lemma_zeros_valid(n: nat)
    ensures
        valid_utf8(Seq::new(n, |i: int| 0u8)),
    decreases n,
{
    if n > 0 {
        lemma_zeros_valid((n - 1) as nat);
        let z = Seq::new(n, |i: int| 0u8);
        assert(pop_first_scalar(z) =~= Seq::new((n - 1) as nat, |i: int| 0u8));
    }
}

/// A prefix of a zero-filled buffer is valid UTF-8 made of ASCII characters.
proof fn lemma_zero_prefix(max: nat, len: nat)
    requires
        len <= max,
    ensures
        valid_utf8(Seq::new(max, |i: int| 0u8).subrange(0, len as int)),
        is_ascii_chars(decode_utf8(Seq::new(max, |i: int| 0u8).subrange(0, len as int))),
{
    let z = Seq::new(max, |i: int| 0u8).subrange(0, len as int);
    assert(z =~= Seq::new(len, |i: int| 0u8));
    lemma_zeros_valid(len);
    decode_utf8_encode_utf8(z);
    lemma_ascii_bytes(decode_utf8(z));
}

/// A stack-allocated, `Copy`, bounded UTF-8 string.
///
/// - `V`: validation run whenever a string is built.
/// - `MIN`, `MAX`: bounds on the length in bytes.
/// - `ASCII_ONLY`: whether only ASCII characters are allowed.
#[derive(Copy, Eq, Ord)]
pub struct GString<V: Validator, const MIN: usize, const MAX: usize, const ASCII_ONLY: bool> {
    buf: [u8; MAX],
    len: usize,
    _validator: PhantomData<V>,
}

/// A byte buffer that holds a candidate string before any check ran.
pub(crate) struct RawBuf<const MAX: usize> {
    pub(crate) buf: [u8; MAX],
    pub(crate) len: usize,
}

impl<const MAX: usize> RawBuf<MAX> {
    /// The candidate's bytes.
    pub(crate) open spec fn bytes(&self) -> Seq<u8> {
        self.buf@.subrange(0, self.len as int)
    }

    /// Holds a UTF-8 string with zeros after it.
    pub(crate) open spec fn wf(&self) -> bool {
        &&& self.len <= MAX
        &&& valid_utf8(self.bytes())
        &&& forall|i: int| self.len <= i < MAX ==> #[trigger] self.buf@[i] == 0
    }

    /// The candidate's characters.
    pub(crate) open spec fn chars(&self) -> Seq<char> {
        decode_utf8(self.bytes())
    }

    /// Copies `src` into `buf` from position `at` on.
    pub(crate) fn copy_into(buf: &mut [u8; MAX], at: usize, src: &[u8])
        requires
            at + src@.len() <= MAX,
        ensures
            final(buf)@ == old(buf)@.subrange(0, at as int) + src@ + old(buf)@.subrange(
                at + src@.len(),
                MAX as int,
            ),
    {
        let ghost start = buf@;
        let n = src.len();
        let mut i: usize = 0;
        while i < n
            invariant
                n == src@.len(),
                at + n <= MAX,
                i <= n,
                buf@.len() == MAX,
                start.len() == MAX,
                forall|j: int| 0 <= j < at ==> #[trigger] buf@[j] == start[j],
                forall|j: int| at <= j < at + i ==> #[trigger] buf@[j] == src@[j - at],
                forall|j: int| at + i <= j < MAX ==> #[trigger] buf@[j] == start[j],
            decreases n - i,
        {
            buf[at + i] = src[i];
            i += 1;
        }
        assert(buf@ =~= start.subrange(0, at as int) + src@ + start.subrange(at + n, MAX as int));
    }

    /// The bytes of `a`, `b` and `c` one after the other, with zeros behind them;
    /// `None` when they do not fit in `MAX` bytes.
    pub(crate) fn join3(a: &[u8], b: &[u8], c: &[u8]) -> (r: Option<RawBuf<MAX>>)
        ensures
            match r {
                Some(raw) => {
                    &&& raw.bytes() == a@ + b@ + c@
                    &&& raw.len <= MAX
                    &&& forall|i: int| raw.len <= i < MAX ==> #[trigger] raw.buf@[i] == 0
                },
                None => a@.len() + b@.len() + c@.len() > MAX,
            },
    {
        if a.len() > MAX || b.len() > MAX - a.len() || c.len() > MAX - a.len() - b.len() {
            return None;
        }
        let len = a.len() + b.len() + c.len();
        let mut buf = [0u8; MAX];
        Self::copy_into(&mut buf, 0, a);
        Self::copy_into(&mut buf, a.len(), b);
        Self::copy_into(&mut buf, a.len() + b.len(), c);
        let raw = RawBuf { buf, len };
        assert(raw.bytes() =~= a@ + b@ + c@);
        Some(raw)
    }
}

impl<V: Validator, const MIN: usize, const MAX: usize, const ASCII_ONLY: bool> GString<
    V,
    MIN,
    MAX,
    ASCII_ONLY,
> {
    /// The whole fixed-size buffer, in use or not.
    pub closed spec fn storage(self) -> Seq<u8> {
        self.buf@
    }

    /// The bytes in use.
    spec fn used(self) -> Seq<u8> {
        self.buf@.subrange(0, self.len as int)
    }

    #[verifier::type_invariant]
    spec fn inv(self) -> bool {
        &&& MIN <= MAX
        &&& self.len <= MAX
        &&& valid_utf8(self.used())
        &&& forall|i: int| self.len <= i < MAX ==> #[trigger] self.buf@[i] == 0
        &&& ASCII_ONLY ==> is_ascii_chars(decode_utf8(self.used()))
    }

    /// The string meets the type's length and ASCII constraints, and its
    /// validator accepts its text: what every constructor establishes and
    /// every mutation keeps (`zeroize` alone empties it regardless).
    pub open spec fn meets_constraints(self) -> bool {
        check_constraints(self@, MIN, MAX, ASCII_ONLY) is None && validator_answer::<V>(
            self@,
            Ok(()),
        )
    }

    /// What the constructors return for a candidate `s`: the first failed
    /// constraint check, else the validator's verdict.
    pub open spec fn construction_outcome(
        s: Seq<char>,
        r: Result<Self, GStringError<V::Error>>,
    ) -> bool {
        match check_constraints(s, MIN, MAX, ASCII_ONLY) {
            Some(e) => r == Err::<Self, GStringError<V::Error>>(lift_error(e)),
            None => {
                ||| (r matches Ok(g) && g@ == s && validator_answer::<V>(s, Ok(())))
                ||| (r matches Err(GStringError::Validation(e)) && validator_answer::<V>(
                    s,
                    Err(e),
                ))
            },
        }
    }
}

impl<V: Validator, const MIN: usize, const MAX: usize, const ASCII_ONLY: bool> Clone for GString<
    V,
    MIN,
    MAX,
    ASCII_ONLY,
> {
    fn clone(&self) -> (r: Self)
        ensures
            r == *self,
    {
        proof {
            use_type_invariant(self);
        }
        GString { buf: self.buf, len: self.len, _validator: PhantomData }
    }
}

/// The `Result` with its success value dropped.
pub open spec fn drop_value<T, E>(r: Result<T, E>) -> Result<(), E> {
    match r {
        Ok(_) => Ok(()),
        Err(e) => Err(e),
    }
}

impl<V: Validator, const MIN: usize, const MAX: usize, const ASCII_ONLY: bool> GString<
    V,
    MIN,
    MAX,
    ASCII_ONLY,
> {
    /// What a mutation that rebuilds the string from candidate `cand` does:
    /// on a failed check or a rejection it reports the error and changes
    /// nothing; otherwise the string becomes `cand`.
    pub open spec fn mutation_outcome(
        old: Self,
        cand: Seq<char>,
        r: Result<(), GStringError<V::Error>>,
        new: Self,
    ) -> bool {
        match check_constraints(cand, MIN, MAX, ASCII_ONLY) {
            Some(e) => r == Err::<(), GStringError<V::Error>>(lift_error(e)) && new == old,
            None => {
                ||| (r is Ok && new@ == cand && validator_answer::<V>(cand, Ok(())))
                ||| (r matches Err(GStringError::Validation(e)) && new == old && validator_answer::<
                    V,
                >(cand, Err(e)))
            },
        }
    }
}

impl<V: Validator, const MIN: usize, const MAX: usize, const ASCII_ONLY: bool> View for GString<
    V,
    MIN,
    MAX,
    ASCII_ONLY,
> {
    type V = Seq<char>;

    closed spec fn view(&self) -> Seq<char> {
        if self.inv() {
            decode_utf8(self.used())
        } else {
            Seq::empty()
        }
    }
}

/// Every `GString` holds at most `MAX` bytes, and only ASCII when `ASCII_ONLY`.
pub broadcast proof fn lemma_gstring_bounds<
    V: Validator,
    const MIN: usize,
    const MAX: usize,
    const ASCII_ONLY: bool,
>(g: GString<V, MIN, MAX, ASCII_ONLY>)
    ensures
        #[trigger] utf8_len(g@) <= MAX,
        ASCII_ONLY ==> is_ascii_chars(g@),
{
    broadcast use group_utf8_lib;

    if g.inv() {
        assert(encode_utf8(decode_utf8(g.used())) == g.used());
    } else {
        assert(encode_utf8(Seq::<char>::empty()) =~= Seq::<u8>::empty());
    }
}

impl<V: Validator, const MIN: usize, const MAX: usize, const ASCII_ONLY: bool> GString<
    V,
    MIN,
    MAX,
    ASCII_ONLY,
> {
    /// Copies `s` into a fresh buffer, refusing strings longer than `MAX` bytes.
    pub(crate) fn stack_allocate(s: &str) -> (r: Result<RawBuf<MAX>, ConstraintError>)
        ensures
            match r {
                Ok(raw) => raw.wf() && raw.chars() == s@ && utf8_len(s@) <= MAX,
                Err(e) => utf8_len(s@) > MAX && e == ConstraintError::TooLong(MAX),
            },
    {
        broadcast use group_utf8_lib;

        let bytes = s.as_bytes();
        let len = bytes.len();

        if len > MAX {
            return Err(ConstraintError::TooLong(MAX));
        }
        let mut buf = [0u8; MAX];
        let mut i: usize = 0;
        while i < len
            invariant
                len == bytes@.len(),
                len <= MAX,
                i <= len,
                buf@.len() == MAX,
                forall|j: int| 0 <= j < i ==> #[trigger] buf@[j] == bytes@[j],
                forall|j: int| i <= j < MAX ==> #[trigger] buf@[j] == 0,
            decreases len - i,
        {
            buf[i] = bytes[i];
            i += 1;
        }
        let raw = RawBuf { buf, len };
        assert(raw.bytes() =~= bytes@);
        assert(bytes@ == encode_utf8(s@));
        Ok(raw)
    }
}

impl<V: Validator, const MIN: usize, const MAX: usize, const ASCII_ONLY: bool> GString<
    V,
    MIN,
    MAX,
    ASCII_ONLY,
> {
    /// Checks the lower and upper bounds on the candidate's length in bytes.
    pub(crate) fn check_bounds(raw: &RawBuf<MAX>) -> (r: Result<(), ConstraintError>)
        requires
            raw.wf(),
        ensures
            r is Ok <==> MIN <= raw.len <= MAX,
            raw.len < MIN ==> r == Err::<(), ConstraintError>(ConstraintError::TooShort(MIN)),
    {
        if raw.len < MIN {
            return Err(ConstraintError::TooShort(MIN));
        }
        if raw.len > MAX {
            return Err(ConstraintError::TooLong(MAX));
        }
        Ok(())
    }

    /// Checks that the candidate is ASCII when `ASCII_ONLY` is set.
    pub(crate) fn check_ascii(raw: &RawBuf<MAX>) -> (r: Result<(), ConstraintError>)
        requires
            raw.wf(),
        ensures
            r is Ok <==> (ASCII_ONLY ==> is_ascii_chars(raw.chars())),
            r is Err ==> r == Err::<(), ConstraintError>(ConstraintError::NotAscii),
    {
        proof {
            decode_utf8_encode_utf8(raw.bytes());
            lemma_ascii_bytes(raw.chars());
        }
        if ASCII_ONLY {
            let mut i: usize = 0;
            while i < raw.len
                invariant
                    ASCII_ONLY,
                    raw.wf(),
                    i <= raw.len,
                    forall|j: int| 0 <= j < i ==> #[trigger] raw.bytes()[j] < 128,
                decreases raw.len - i,
            {
                if raw.buf[i] >= 128 {
                    proof {
                        assert(raw.bytes()[i as int] == raw.buf@[i as int]);
                        decode_utf8_encode_utf8(raw.bytes());
                        lemma_ascii_bytes(raw.chars());
                        assert(encode_utf8(raw.chars())[i as int] >= 128);
                    }
                    return Err(ConstraintError::NotAscii);
                }
                assert(raw.bytes()[i as int] == raw.buf@[i as int]);
                i += 1;
            }
        }
        Ok(())
    }

    /// Wraps a candidate that passed the constraint checks.
    pub(crate) fn from_checked(raw: RawBuf<MAX>) -> (g: Self)
        requires
            MIN <= MAX,
            raw.wf(),
            ASCII_ONLY ==> is_ascii_chars(raw.chars()),
        ensures
            g@ == raw.chars(),
    {
        let g = GString { buf: raw.buf, len: raw.len, _validator: PhantomData };
        assert(g.used() == raw.bytes());
        g
    }

    /// Runs the length checks, the ASCII check and the validator on a candidate.
    pub(crate) fn from_raw(raw: RawBuf<MAX>) -> (r: Result<Self, GStringError<V::Error>>)
        requires
            raw.wf(),
        ensures
            Self::construction_outcome(raw.chars(), r),
    {
        proof {
            decode_utf8_encode_utf8(raw.bytes());
            assert(utf8_len(raw.chars()) == raw.len);
        }
        match Self::check_bounds(&raw) {
            Ok(()) => {},
            Err(e) => return Err(GStringError::from(e)),
        }
        match Self::check_ascii(&raw) {
            Ok(()) => {},
            Err(e) => return Err(GStringError::from(e)),
        }
        Self::from_checked(raw).validate()
    }

    /// Builds the string when it passes the length and ASCII checks, without
    /// running the validator.
    pub(crate) fn unvalidated(s: &str) -> (r: Option<Self>)
        ensures
            r is Some <==> check_constraints(s@, MIN, MAX, ASCII_ONLY) is None,
            r matches Some(g) ==> g@ == s@,
    {
        let raw = match Self::stack_allocate(s) {
            Ok(raw) => raw,
            Err(_) => return None,
        };
        proof {
            decode_utf8_encode_utf8(raw.bytes());
        }
        match (Self::check_bounds(&raw), Self::check_ascii(&raw)) {
            (Ok(()), Ok(())) => Some(Self::from_checked(raw)),
            _ => None,
        }
    }

    /// Construct a new `GString` from `s`; every constraint of the type is checked.
    pub fn try_new(s: &str) -> (r: Result<Self, GStringError<V::Error>>)
        ensures
            Self::construction_outcome(s@, r),
    {
        match Self::stack_allocate(s) {
            Ok(raw) => Self::from_raw(raw),
            Err(e) => Err(GStringError::from(e)),
        }
    }

    /// Runs the validator on the string.
    pub fn validate(self) -> (r: Result<Self, GStringError<V::Error>>)
        ensures
            match r {
                Ok(g) => g == self && validator_answer::<V>(self@, Ok(())),
                Err(GStringError::Validation(e)) => validator_answer::<V>(self@, Err(e)),
                Err(_) => false,
            },
    {
        let s = self.as_str();
        let v = V::validate(s);
        proof {
            assert(call_ensures(V::validate, (s,), v));
        }
        match v {
            Ok(u) => {
                proof {
                    assert(v == Ok::<(), V::Error>(()));
                }
                Ok(self)
            },
            Err(e) => Err(GStringError::Validation(e)),
        }
    }

    /// Replaces the contents by a candidate when it passes every check;
    /// leaves them as they are otherwise.
    pub(crate) fn replace_with(&mut self, raw: RawBuf<MAX>) -> (r: Result<(), GStringError<V::Error>>)
        requires
            raw.wf(),
        ensures
            Self::mutation_outcome(*old(self), raw.chars(), r, *final(self)),
    {
        proof {
            use_type_invariant(&*self);
        }
        match Self::from_raw(raw) {
            Ok(g) => {
                *self = g;
                Ok(())
            },
            Err(e) => Err(e),
        }
    }

    /// The empty string.
    pub(crate) fn blank() -> (g: Self)
        requires
            MIN <= MAX,
        ensures
            g@ == Seq::<char>::empty(),
    {
        let g = GString { buf: [0u8; MAX], len: 0, _validator: PhantomData };
        proof {
            assert(g.used() =~= Seq::<u8>::empty());
            assert(decode_utf8(g.used()) =~= Seq::<char>::empty());
        }
        g
    }

    /// Overwrites every byte with zero and empties the string.
    pub fn zeroize(&mut self)
        ensures
            final(self)@ == Seq::<char>::empty(),
            final(self).storage() == Seq::new(MAX as nat, |i: int| 0u8),
        opens_invariants none
        no_unwind
    {
        proof {
            use_type_invariant(&*self);
            lemma_zero_prefix(MAX as nat, self.len as nat);
        }
        zeroize_bytes(&mut self.buf);
        zeroize_usize(&mut self.len);
        proof {
            assert(self.used() =~= Seq::<u8>::empty());
            assert(decode_utf8(Seq::<u8>::empty()) =~= Seq::<char>::empty());
        }
    }

    /// Length in bytes.
    pub fn len(&self) -> (r: usize)
        ensures
            r == utf8_len(self@),
    {
        proof {
            use_type_invariant(self);
            decode_utf8_encode_utf8(self.used());
        }
        self.len
    }

    /// The string as `&str`.
    pub fn as_str(&self) -> (r: &str)
        ensures
            r@ == self@,
    {
        proof {
            use_type_invariant(self);
        }
        let bytes = slice_subrange(self.buf.as_slice(), 0, self.len);
        let r = str_from_utf8(bytes);
        proof {
            encode_utf8_decode_utf8(r@);
        }
        r
    }

    /// The string's UTF-8 bytes.
    pub fn as_bytes(&self) -> (r: &[u8])
        ensures
            r@ == encode_utf8(self@),
    {
        proof {
            use_type_invariant(self);
            decode_utf8_encode_utf8(self.used());
        }
        slice_subrange(self.buf.as_slice(), 0, self.len)
    }
}

} // verus!
