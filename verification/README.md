# g_string

Stack-allocated, `Copy`, bounded UTF-8 strings whose minimum and maximum
length (in bytes), ASCII restriction and custom validation are part of the
type, and `GSecret`, a string for secrets that is zeroed on drop and never
shown. The library is written in Verus: every operation carries a contract
over the string's characters (`g@`), and Verus proves the code against it.

Layout:

- `src/gstring.rs`: the type, its invariant (valid UTF-8, zero padding,
  bounds, ASCII) and the constructors; `src/construct.rs`,
  `src/conversion.rs`, `src/macros.rs`: the other ways to build one.
- `src/mutation.rs`: mutations that either rebuild the string from a
  candidate that passes every check or change nothing.
- `src/query.rs`, `src/search.rs`, `src/matching.rs`, `src/words.rs`,
  `src/trim.rs`, `src/range.rs`, `src/escape.rs`, `src/graphemes.rs`:
  read-only operations.
- `src/equality.rs`, `src/order.rs`: comparisons with `GString`, `str` and
  `String`.
- `src/iterator.rs`: the owning character iterator.
- `src/gsecret.rs`: `GSecret`.
- `src/encoding.rs`, `src/text.rs`: UTF-8 lemmas and text helpers.
- `src/laws.rs`: laws relating the operations (round trips, inverse
  operations, the constraints every mutation keeps, iteration from both
  ends, trimming, search and split facts).
- `src/validator.rs`: the `Validator` trait. The contracts pass on what
  `validate` answered for the text (`validator_answer`): a success keeps
  the text, and a refusal is `Validation` with the validator's own error.
  A validator verified with Verus may also state which strings it accepts
  (`valid`, with `obeys_valid`).
- `app/lib.rs`: `Display` and serde support through wrapper types,
  `reveal` for `GSecret`, and the `gstring!`/`gformat!` macros.
