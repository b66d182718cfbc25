use audiacore::errors::{CodedError, ErrorCategory, ErrorCode};

struct ExampleError;

impl CodedError for ExampleError {
    fn code(&self) -> ErrorCode {
        ErrorCode::new("CON-ERRORS-001")
    }
}

#[test]
fn coded_errors_expose_identity_not_presentation() {
    let error = ExampleError;
    assert_eq!(error.code().as_str(), "CON-ERRORS-001");
    assert_eq!(error.category(), ErrorCategory::Constraint);
    assert_eq!(error.category().as_str(), "constraint");
}

#[test]
fn prefix_categories_preserve_original_contract_meaning() {
    assert_eq!(
        ErrorCode::new("RES-EXAMPLE-001").category(),
        ErrorCategory::Resource
    );
    assert_eq!(
        ErrorCode::new("CON-EXAMPLE-001").category(),
        ErrorCategory::Constraint
    );
}

#[test]
fn accepted_code_shape_supports_component_segments() {
    let code = ErrorCode::new("VAL-EXAMPLE-COMPONENT-001");
    assert_eq!(code.as_str(), "VAL-EXAMPLE-COMPONENT-001");
    assert_eq!(code.category(), ErrorCategory::Validation);
}

#[test]
fn dynamic_validation_matches_the_static_constructor_contract() {
    assert!(ErrorCode::is_valid("EXT-GPTAUTO-004"));
    assert!(!ErrorCode::is_valid("VAL-1COMPONENT-001"));
    assert!(!ErrorCode::is_valid("VAL-COMPONENT_-001"));
    assert!(!ErrorCode::is_valid("VAL--001"));
    assert!(!ErrorCode::is_valid("BAD-COMPONENT-001"));
}

#[test]
fn two_letter_prefixes_and_minimum_length() {
    assert!(ErrorCode::is_valid("IO-MCONFIG-001"));
    assert!(ErrorCode::is_valid("TO-ABCD-123"));
    // Eight characters: below the minimum length even though well shaped.
    assert!(!ErrorCode::is_valid("IO-A-001"));
    assert!(ErrorCode::is_valid("IO-AB-001"));
    assert!(!ErrorCode::is_valid("VAL-EXAMPLE-01"));
    assert!(!ErrorCode::is_valid("VAL-EXAMPLE-0011"));
    assert!(!ErrorCode::is_valid("VAL-EXAMPLE-00A"));
    assert!(!ErrorCode::is_valid("VAL-EXAMPLE-"));
    assert!(!ErrorCode::is_valid("-VAL-EXAMPLE-001"));
    assert!(!ErrorCode::is_valid("VAL-EXAMPLE--A-001"));
    assert!(!ErrorCode::is_valid("val-example-001"));
    assert!(!ErrorCode::is_valid("VAL-ÉXAMPLE-001"));
    assert!(!ErrorCode::is_valid("VALEXAMPLE001"));
}

#[test]
fn every_prefix_maps_to_its_category() {
    let cases = [
        ("VAL-X-001A", None),
        ("VAL-XY-001", Some(ErrorCategory::Validation)),
        ("CON-XY-001", Some(ErrorCategory::Constraint)),
        ("RES-XY-001", Some(ErrorCategory::Resource)),
        ("IO-XYZ-001", Some(ErrorCategory::Io)),
        ("NET-XY-001", Some(ErrorCategory::Network)),
        ("TO-XYZ-001", Some(ErrorCategory::Timeout)),
        ("EXT-XY-001", Some(ErrorCategory::External)),
        ("CFG-XY-001", Some(ErrorCategory::Configuration)),
        ("VER-XY-001", Some(ErrorCategory::Version)),
        ("INT-XY-001", Some(ErrorCategory::Internal)),
        ("UNS-XY-001", Some(ErrorCategory::Unsupported)),
    ];
    for (code, category) in cases {
        assert_eq!(ErrorCode::is_valid(code), category.is_some(), "{code}");
    }
    assert_eq!(ErrorCode::new("NET-XY-001").category().as_str(), "network");
    assert_eq!(ErrorCode::new("TO-XYZ-001").category().as_str(), "timeout");
    assert_eq!(ErrorCode::new("UNS-XY-001").category().as_str(), "unsupported");
}
