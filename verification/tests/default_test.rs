use g_string::{GString, NoValidation};

type DefaultGString = GString<NoValidation, 0, 255, false>;

#[test]
fn test_default() {
    let d: DefaultGString = DefaultGString::default();
    let e: DefaultGString = DefaultGString::try_new("").unwrap();
    let s = String::default();
    assert_eq!(d, e, "should equal");
    assert_eq!(d, s.as_str(), "should equal");
    assert_eq!(e, s.as_str(), "should equal");
}
