use audiacore::errors::CodedError;
use audiacore::sensitive::{redact_text, Sensitive, SensitiveKey};

#[test]
fn debug_never_exposes_sensitive_value() {
    let secret = Sensitive::new("secret-token".to_owned());
    let debug = secret.debug_text();
    assert_eq!(debug, "Sensitive([REDACTED])");
    assert!(!debug.contains("secret-token"));
}

#[test]
fn redaction_is_explicit_and_deterministic() {
    let values = [
        Sensitive::new("alpha".to_owned()),
        Sensitive::new("beta".to_owned()),
    ];
    assert_eq!(
        redact_text("alpha then beta then alpha".to_owned(), &values),
        "[REDACTED] then [REDACTED] then [REDACTED]"
    );
}

#[test]
fn key_validation_has_stable_error_identity() {
    let error = SensitiveKey::new(" ").unwrap_err();
    assert_eq!(error.code().as_str(), "VAL-SENSITIVE-001");
}

#[test]
fn redaction_matches_str_replace_and_skips_empty_values() {
    let cases = [
        ("aaaa", "aa"),
        ("abababa", "aba"),
        ("xyz", "xyzw"),
        ("héllo héllo", "é"),
        ("", "a"),
    ];
    for (text, value) in cases {
        let expected = text.replace(value, "[REDACTED]");
        assert_eq!(
            redact_text(text.to_owned(), &[Sensitive::new(value.to_owned())]),
            expected
        );
    }
    assert_eq!(
        redact_text("keep".to_owned(), &[Sensitive::new(String::new())]),
        "keep"
    );
    // Later values see the text as earlier values left it.
    assert_eq!(
        redact_text(
            "secret".to_owned(),
            &[Sensitive::new("secret".to_owned()), Sensitive::new("RED".to_owned())]
        ),
        "[[REDACTED]ACTED]"
    );
}

#[test]
fn sensitive_key_and_value_access() {
    let key = SensitiveKey::new("api-token").unwrap();
    assert_eq!(key.as_str(), "api-token");
    assert_eq!(SensitiveKey::new("\t").unwrap_err().message(), "sensitive key must not be empty");
    let secret = Sensitive::new(7_u32);
    assert_eq!(*secret.expose(), 7);
    assert_eq!(secret.into_inner(), 7);
}
