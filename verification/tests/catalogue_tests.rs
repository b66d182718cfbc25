use audiacore::error_catalog::{CatalogueYamlIssue, ErrorCatalogue, ErrorCatalogueError};
use audiacore::errors::ErrorCode;
use audiacore::template::{TemplateContext, TemplateError, TemplateValue};

const BASE: &str = r#"
CON-EXAMPLE-002:
  message: "Object '{object.id}' changed from revision {expected} to {actual}."
  resolution: "Reload the latest state and retry."
"#;

fn params() -> TemplateContext {
    let mut object = TemplateContext::new();
    object.insert("id".to_owned(), TemplateValue::String("obj-7".to_owned()));
    let mut params = TemplateContext::new();
    params.insert("object".to_owned(), TemplateValue::Object(object));
    params.insert("expected".to_owned(), TemplateValue::Number(3));
    params.insert("actual".to_owned(), TemplateValue::Number(4));
    params
}

#[test]
fn code_owns_category_and_catalogue_owns_presentation() {
    let mut catalogue = ErrorCatalogue::new();
    catalogue.register_yaml("example/errors.yaml", BASE).unwrap();

    let rendered = catalogue
        .render(ErrorCode::new("CON-EXAMPLE-002"), &params())
        .unwrap();

    assert_eq!(rendered.kind(), "constraint");
    assert_eq!(
        rendered.message(),
        "Object 'obj-7' changed from revision 3 to 4."
    );
    assert_eq!(rendered.resolution(), "Reload the latest state and retry.");
    assert_eq!(
        catalogue
            .definition(ErrorCode::new("CON-EXAMPLE-002"))
            .unwrap()
            .source(),
        "example/errors.yaml"
    );
}

#[test]
fn missing_required_params_fail_without_ambient_state() {
    let mut catalogue = ErrorCatalogue::new();
    catalogue.register_yaml("example/errors.yaml", BASE).unwrap();
    let error = catalogue
        .render(ErrorCode::new("CON-EXAMPLE-002"), &TemplateContext::new())
        .unwrap_err();

    match error {
        ErrorCatalogueError::Render { source, .. } => {
            assert_eq!(source.message(), "missing template value: object.id");
        }
        other => panic!("unexpected error {other:?}"),
    }
}

#[test]
fn duplicate_codes_inside_or_across_sources_are_rejected() {
    let duplicate = r#"
VAL-THING-001:
  message: "one"
  resolution: "fix one"
VAL-THING-001:
  message: "two"
  resolution: "fix two"
"#;
    assert!(matches!(
        ErrorCatalogue::new()
            .register_yaml("thing/errors.yaml", duplicate)
            .unwrap_err(),
        ErrorCatalogueError::InvalidYaml { .. }
    ));

    let mut catalogue = ErrorCatalogue::new();
    catalogue.register_yaml("first/errors.yaml", BASE).unwrap();
    assert!(matches!(
        catalogue.register_yaml("second/errors.yaml", BASE).unwrap_err(),
        ErrorCatalogueError::DuplicateCode { .. }
    ));
}

#[test]
fn explicit_overlay_replaces_complete_definition() {
    let mut catalogue = ErrorCatalogue::new();
    catalogue.register_yaml("example/errors.yaml", BASE).unwrap();
    catalogue
        .overlay_yaml(
            "project/errors.yaml",
            r#"
CON-EXAMPLE-002:
  message: "Revision {actual} superseded {expected}."
  resolution: "Refresh before retrying."
"#,
        )
        .unwrap();

    let rendered = catalogue
        .render(ErrorCode::new("CON-EXAMPLE-002"), &params())
        .unwrap();
    assert_eq!(rendered.message(), "Revision 4 superseded 3.");
    assert_eq!(rendered.resolution(), "Refresh before retrying.");
    assert_eq!(
        catalogue
            .definition(ErrorCode::new("CON-EXAMPLE-002"))
            .unwrap()
            .source(),
        "project/errors.yaml"
    );
}

#[test]
fn legacy_kind_and_malformed_definitions_fail_before_registration() {
    let legacy_kind = r#"
VAL-THING-001:
  kind: validation
  message: "bad"
  resolution: "fix"
"#;
    assert!(matches!(
        ErrorCatalogue::new()
            .register_yaml("legacy-kind", legacy_kind)
            .unwrap_err(),
        ErrorCatalogueError::InvalidYaml { .. }
    ));

    let invalid_code = r#"
BAD-THING-001:
  message: "bad"
  resolution: "fix"
"#;
    assert!(matches!(
        ErrorCatalogue::new()
            .register_yaml("bad-code", invalid_code)
            .unwrap_err(),
        ErrorCatalogueError::InvalidCode { .. }
    ));
}

#[test]
fn each_layer_rejection_has_its_own_variant() {
    let err = ErrorCatalogue::new()
        .register_yaml("s", "VAL-THING-001:\n  message: \"m\"\n")
        .unwrap_err();
    match err {
        ErrorCatalogueError::InvalidYaml {
            source_name,
            issue: CatalogueYamlIssue::MissingField { code, field },
        } => {
            assert_eq!(source_name, "s");
            assert_eq!(code, "VAL-THING-001");
            assert_eq!(field, "resolution");
        }
        other => panic!("unexpected {other:?}"),
    }
    let err = ErrorCatalogue::new()
        .register_yaml("s", "VAL-THING-001:\n  message: \" \"\n  resolution: \"r\"\n")
        .unwrap_err();
    assert!(matches!(err, ErrorCatalogueError::EmptyMessage { .. }));
    let err = ErrorCatalogue::new()
        .register_yaml("s", "VAL-THING-001:\n  message: \"m\"\n  resolution: \"\"\n")
        .unwrap_err();
    assert!(matches!(err, ErrorCatalogueError::EmptyResolution { .. }));
    let err = ErrorCatalogue::new()
        .register_yaml("s", "VAL-THING-001:\n  message: \"{open\"\n  resolution: \"r\"\n")
        .unwrap_err();
    assert!(matches!(
        err,
        ErrorCatalogueError::InvalidTemplate { error: TemplateError::UnclosedSlot, .. }
    ));
    let err = ErrorCatalogue::new()
        .register_yaml("s", "[not: a mapping")
        .unwrap_err();
    assert!(matches!(
        err,
        ErrorCatalogueError::InvalidYaml { issue: CatalogueYamlIssue::Syntax(_), .. }
    ));
    let catalogue = ErrorCatalogue::new();
    assert!(matches!(
        catalogue.render(ErrorCode::new("CON-EXAMPLE-002"), &TemplateContext::new()),
        Err(ErrorCatalogueError::MissingDefinition { .. })
    ));
}

#[test]
fn a_failed_registration_leaves_the_catalogue_unchanged() {
    let mut catalogue = ErrorCatalogue::new();
    catalogue.register_yaml("first", BASE).unwrap();
    let mixed = r#"
CON-EXAMPLE-002:
  message: "other"
  resolution: "other"
VAL-OTHER-001:
  message: "new"
  resolution: "new"
"#;
    assert!(catalogue.register_yaml("second", mixed).is_err());
    assert!(catalogue.definition(ErrorCode::new("VAL-OTHER-001")).is_none());
    assert_eq!(
        catalogue.definition(ErrorCode::new("CON-EXAMPLE-002")).unwrap().source(),
        "first"
    );
}

#[test]
fn catalogue_error_messages_name_code_and_sources() {
    let mut catalogue = ErrorCatalogue::new();
    catalogue.register_yaml("first/errors.yaml", BASE).unwrap();
    let duplicate = catalogue
        .register_yaml("second/errors.yaml", BASE)
        .unwrap_err();
    assert_eq!(
        duplicate.message(),
        "duplicate error code CON-EXAMPLE-002 in first/errors.yaml and second/errors.yaml"
    );
    assert!(duplicate.template_error().is_none());
    assert!(duplicate.yaml_error().is_none());

    let missing = catalogue
        .render(ErrorCode::new("VAL-EXAMPLE-001"), &params())
        .unwrap_err();
    assert_eq!(
        missing.message(),
        "no configured definition registered for VAL-EXAMPLE-001"
    );

    let invalid = ErrorCatalogue::new()
        .register_yaml("bad/errors.yaml", "bad-code:\n  message: m\n  resolution: r\n")
        .unwrap_err();
    assert_eq!(
        invalid.message(),
        "invalid error code \"bad-code\" in bad/errors.yaml"
    );

    let malformed = ErrorCatalogue::new()
        .register_yaml("broken/errors.yaml", "[unclosed")
        .unwrap_err();
    assert_eq!(
        malformed.message(),
        "invalid error catalogue YAML from broken/errors.yaml"
    );
    assert!(malformed.yaml_error().is_some());

    let unrenderable = ErrorCatalogue::new();
    let mut catalogue = unrenderable;
    catalogue.register_yaml("example/errors.yaml", BASE).unwrap();
    let render = catalogue
        .render(ErrorCode::new("CON-EXAMPLE-002"), &TemplateContext::new())
        .unwrap_err();
    assert_eq!(
        render.message(),
        "configured message for CON-EXAMPLE-002 could not be rendered"
    );
    assert!(render.template_error().is_some());
}

#[test]
fn scalar_fields_read_as_their_text() {
    let mut catalogue = ErrorCatalogue::new();
    catalogue
        .register_yaml(
            "scalars/errors.yaml",
            "VAL-SCALAR-001:\n  message: 5\n  resolution: true\n",
        )
        .unwrap();
    let definition = catalogue.definition(ErrorCode::new("VAL-SCALAR-001")).unwrap();
    assert_eq!(definition.resolution(), "true");
    let rendered = catalogue
        .render(ErrorCode::new("VAL-SCALAR-001"), &TemplateContext::new())
        .unwrap();
    assert_eq!(rendered.message(), "5");
}
