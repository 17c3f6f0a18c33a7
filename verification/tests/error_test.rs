use g_string::{ConstraintError, GStringError};

#[test]
fn test_err() {
    let fmt_err = |err: ConstraintError| -> String { err.to_string() };

    assert_eq!(fmt_err(ConstraintError::TooShort(0)), "minimum length allowed is 0");
    assert_eq!(fmt_err(ConstraintError::TooLong(100)), "maximum length allowed is 100");
    assert_eq!(fmt_err(ConstraintError::NotAscii), "only ASCII characters are allowed");
}

#[test]
fn test_g_string_err() {
    let fmt_err = |err: GStringError<&str>| -> String { err.to_string() };

    assert_eq!(
        fmt_err(GStringError::TooShort(0)),
        "minimum length allowed is 0"
    );
    assert_eq!(
        fmt_err(GStringError::TooLong(100)),
        "maximum length allowed is 100"
    );
    assert_eq!(
        fmt_err(GStringError::NotAscii),
        "only ASCII characters are allowed"
    );
    assert_eq!(
        fmt_err(GStringError::Validation("ERROR")),
        "validation error: ERROR"
    );
    assert_eq!(
        fmt_err(GStringError::Mutation("qwe)(*())")),
        "mutation error: qwe)(*())"
    );
}

#[test]
fn large_bounds_render_in_decimal() {
    assert_eq!(
        ConstraintError::TooLong(4096).to_string(),
        "maximum length allowed is 4096"
    );
    assert_eq!(
        GStringError::<&str>::TooShort(12345).to_string(),
        "minimum length allowed is 12345"
    );
}
