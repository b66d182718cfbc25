use audiacore::errors::CodedError;
use audiacore::template::{Template, TemplateContext, TemplateError, TemplateValue};

fn object(entries: Vec<(&str, TemplateValue)>) -> TemplateValue {
    TemplateValue::Object(context(entries))
}

fn context(entries: Vec<(&str, TemplateValue)>) -> TemplateContext {
    let mut ctx = TemplateContext::new();
    for (key, value) in entries {
        ctx.insert(key.to_owned(), value);
    }
    ctx
}

fn text(value: &str) -> TemplateValue {
    TemplateValue::String(value.to_owned())
}

#[test]
fn renders_established_single_brace_dotted_mapping_paths() {
    let template =
        Template::parse("Provider {provider.name} resumed {session.provider-session-id}.").unwrap();
    let values = context(vec![
        ("provider", object(vec![("name", text("local"))])),
        ("session", object(vec![("provider-session-id", text("abc-123"))])),
    ]);

    assert_eq!(
        template.render(&values).unwrap(),
        "Provider local resumed abc-123."
    );
}

#[test]
fn mappings_sequences_scalars_and_null_have_deterministic_text_semantics() {
    let template = Template::parse("{object}|{list}|{count}|{enabled}|{nothing}").unwrap();
    let values = context(vec![
        ("object", object(vec![("a", TemplateValue::Number(1))])),
        (
            "list",
            TemplateValue::Array(vec![TemplateValue::Number(1), TemplateValue::Number(2)]),
        ),
        ("count", TemplateValue::Number(3)),
        ("enabled", TemplateValue::Bool(true)),
        ("nothing", TemplateValue::Null),
    ]);

    assert_eq!(template.render(&values).unwrap(), "{\"a\":1}|[1,2]|3|true|");
}

#[test]
fn parser_and_missing_paths_have_distinct_stable_codes() {
    assert_eq!(
        Template::parse("{}").unwrap_err().code().as_str(),
        "VAL-TEMPLATE-001"
    );
    assert_eq!(
        Template::parse("{name").unwrap_err().code().as_str(),
        "VAL-TEMPLATE-002"
    );

    let template = Template::parse("{profile.name}").unwrap();
    let error = template.render(&TemplateContext::new()).unwrap_err();
    assert_eq!(error, TemplateError::MissingValue("profile.name".to_owned()));
    assert_eq!(error.code().as_str(), "RES-TEMPLATE-001");
}

#[test]
fn non_mapping_intermediate_values_are_not_traversed() {
    let template = Template::parse("{session.id}").unwrap();
    let values = context(vec![("session", text("opaque-object"))]);

    assert_eq!(
        template.render(&values).unwrap_err(),
        TemplateError::MissingValue("session.id".to_owned())
    );
}

#[test]
fn slots_are_trimmed_and_literals_kept() {
    let template = Template::parse("a { x } b}c").unwrap();
    assert!(template.has_placeholders());
    let values = context(vec![("x", text("X"))]);
    assert_eq!(template.render(&values).unwrap(), "a X b}c");
    assert!(!Template::parse("plain } text").unwrap().has_placeholders());
    assert_eq!(Template::parse("{  \t }").unwrap_err(), TemplateError::EmptySlot);
    assert_eq!(Template::parse("ok {a} {b").unwrap_err(), TemplateError::UnclosedSlot);
    // The first failing placeholder, from the left, is the one reported.
    let template = Template::parse("{a} {b}").unwrap();
    assert_eq!(
        template.render(&TemplateContext::new()).unwrap_err(),
        TemplateError::MissingValue("a".to_owned())
    );
}

#[test]
fn json_text_escapes_strings_and_orders_keys() {
    let template = Template::parse("{v}").unwrap();
    let nested = object(vec![
        ("z", TemplateValue::Number(-12)),
        ("a", TemplateValue::Array(vec![text("q\"\\\n\u{1}"), TemplateValue::Null])),
        ("m", TemplateValue::Bool(false)),
    ]);
    let values = context(vec![("v", nested)]);
    assert_eq!(
        template.render(&values).unwrap(),
        "{\"a\":[\"q\\\"\\\\\\n\\u0001\",null],\"m\":false,\"z\":-12}"
    );
    let template = Template::parse("{n}").unwrap();
    let values = context(vec![("n", TemplateValue::Number(i64::MIN))]);
    assert_eq!(template.render(&values).unwrap(), i64::MIN.to_string());
    let values = context(vec![("n", TemplateValue::Unsigned(u64::MAX))]);
    assert_eq!(template.render(&values).unwrap(), u64::MAX.to_string());
}

#[test]
fn inserting_a_key_again_replaces_its_value() {
    let mut ctx = TemplateContext::new();
    ctx.insert("k".to_owned(), text("one"));
    ctx.insert("k".to_owned(), text("two"));
    assert_eq!(ctx.len(), 1);
    let template = Template::parse("{k}").unwrap();
    assert_eq!(template.render(&ctx).unwrap(), "two");
    assert!(matches!(ctx.get("k"), Some(TemplateValue::String(s)) if s == "two"));
    assert!(ctx.get("missing").is_none());
}

#[test]
fn template_error_messages() {
    assert_eq!(TemplateError::EmptySlot.message(), "template path must not be empty");
    assert_eq!(TemplateError::UnclosedSlot.message(), "template placeholder is not closed");
    assert_eq!(
        TemplateError::MissingValue("a.b".to_owned()).message(),
        "missing template value: a.b"
    );
}
