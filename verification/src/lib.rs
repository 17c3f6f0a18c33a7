//! Stack-allocated, bounded UTF-8 strings whose length limits, ASCII
//! restriction and custom validation are part of the type.

pub mod validator;
pub mod error;
pub mod text;
pub mod encoding;
pub mod gstring;
pub mod mutation;
pub mod iterator;
pub mod construct;
pub mod conversion;
pub mod query;
pub mod macros;
pub mod equality;
pub mod order;
pub mod gsecret;
pub mod search;
pub mod trim;
pub mod range;
pub mod matching;
pub mod words;
pub mod escape;
pub mod graphemes;
pub mod laws;
pub mod text_laws;

pub use error::{ConstraintError, GStringError};
pub use gstring::GString;
pub use iterator::IntoChars;
pub use construct::{AsText, InValidatedGString};
pub use macros::NotValidatedGString;
pub use gsecret::GSecret;
pub use search::Pattern;
pub use validator::{AllowEmpty, NoValidation, Validator};

use vstd::prelude::*;

verus! {

/// Default value of the lower bound, in bytes.
pub const DEFAULT_MIN: usize = 0;

/// Default value of the upper bound, in bytes.
pub const DEFAULT_MAX: usize = 255;

/// Default value of the ASCII-only switch.
pub const DEFAULT_ASCII_ONLY: bool = false;

/// `GString` without custom validation.
pub type GStringNV<const MIN: usize, const MAX: usize, const ASCII_ONLY: bool> = GString<
    NoValidation,
    MIN,
    MAX,
    ASCII_ONLY,
>;

} // verus!
