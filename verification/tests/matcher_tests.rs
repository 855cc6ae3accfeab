//! Scenarios for the token-streaming matcher.

use suplex::record::FieldValue;
use suplex::schema::{FieldSpec, Schema, ValueType};
use suplex::matcher::extract_str;
use suplex::XmlStructError;

fn user_schema() -> Schema {
    let mut s = Schema::new("user");
    assert!(s.add_field(FieldSpec::named("id", ValueType::UInt)));
    assert!(s.add_field(FieldSpec::named("uuid", ValueType::Text)));
    assert!(s.add_field(FieldSpec::named("username", ValueType::Text)));
    assert!(s.add_field(FieldSpec::renamed("auth_token", "authToken", ValueType::Text)));
    s
}

fn text_of(v: &FieldValue) -> String {
    match v {
        FieldValue::Text(s) => s.clone(),
        FieldValue::UInt(_) => panic!("expected a text field"),
    }
}

fn uint_of(v: &FieldValue) -> u64 {
    match v {
        FieldValue::UInt(n) => *n,
        FieldValue::Text(_) => panic!("expected an integer field"),
    }
}

#[test]
fn all_attributes_present() {
    let schema = user_schema();
    let rec = extract_str(
        &schema,
        r#"<user id="42" uuid="abc-1" username="joe" authToken="tok123"/>"#,
    )
    .unwrap();
    assert_eq!(uint_of(rec.value(0)), 42);
    assert_eq!(text_of(rec.value(1)), "abc-1");
    assert_eq!(text_of(rec.value(2)), "joe");
    assert_eq!(text_of(rec.value(3)), "tok123");
}

#[test]
fn missing_attribute_keeps_default() {
    let schema = user_schema();
    let rec = extract_str(&schema, r#"<user username="joe"/>"#).unwrap();
    assert_eq!(uint_of(rec.value(0)), 0);
    assert_eq!(text_of(rec.value(1)), "");
    assert_eq!(text_of(rec.value(2)), "joe");
    assert_eq!(text_of(rec.value(3)), "");
}

#[test]
fn non_numeric_id_is_a_coercion_error() {
    let schema = user_schema();
    let err = extract_str(&schema, r#"<user id="notanumber"/>"#).unwrap_err();
    match err {
        XmlStructError::TypeCoercion { field_id, text } => {
            assert_eq!(field_id, "id");
            assert_eq!(text, "notanumber");
        }
        other => panic!("expected a coercion error, got {:?}", other),
    }
}

#[test]
fn unterminated_tag_is_a_syntax_error() {
    let schema = user_schema();
    let err = extract_str(&schema, r#"<user id="42""#).unwrap_err();
    assert!(matches!(err, XmlStructError::Syntax { .. }));
}

#[test]
fn absent_element_yields_all_defaults() {
    let schema = user_schema();
    let rec = extract_str(&schema, r#"<other id="7"/><more x="y"></more>"#).unwrap();
    assert_eq!(uint_of(rec.value(0)), 0);
    assert_eq!(text_of(rec.value(1)), "");
    assert_eq!(text_of(rec.value(2)), "");
    assert_eq!(text_of(rec.value(3)), "");
}

#[test]
fn empty_input_yields_all_defaults() {
    let schema = user_schema();
    let rec = extract_str(&schema, "").unwrap();
    assert_eq!(rec.len(), 4);
    assert_eq!(uint_of(rec.value(0)), 0);
}

#[test]
fn first_matching_element_wins() {
    let schema = user_schema();
    let rec = extract_str(
        &schema,
        r#"<user username="first"/><user username="second"/>"#,
    )
    .unwrap();
    assert_eq!(text_of(rec.value(2)), "first");
}

#[test]
fn extraction_is_idempotent() {
    let schema = user_schema();
    let text = r#"<user id="42" uuid="abc-1" username="joe" authToken="tok123"/>"#;
    let a = extract_str(&schema, text).unwrap();
    let b = extract_str(&schema, text).unwrap();
    assert_eq!(a.len(), b.len());
    for i in 0..a.len() {
        match (a.value(i), b.value(i)) {
            (FieldValue::Text(x), FieldValue::Text(y)) => assert_eq!(x, y),
            (FieldValue::UInt(x), FieldValue::UInt(y)) => assert_eq!(x, y),
            _ => panic!("records differ in shape"),
        }
    }
}

#[test]
fn shared_source_attribute_fills_both_fields() {
    let mut schema = Schema::new("user");
    assert!(schema.add_field(FieldSpec::renamed("token_a", "authToken", ValueType::Text)));
    assert!(schema.add_field(FieldSpec::renamed("token_b", "authToken", ValueType::Text)));
    let rec = extract_str(&schema, r#"<user authToken="tok123"/>"#).unwrap();
    assert_eq!(text_of(rec.value(0)), "tok123");
    assert_eq!(text_of(rec.value(1)), "tok123");
}

#[test]
fn entities_are_unescaped() {
    let mut schema = Schema::new("note");
    assert!(schema.add_field(FieldSpec::named("body", ValueType::Text)));
    let rec = extract_str(
        &schema,
        r#"<note body="a &amp; b &lt;c&gt; &quot;d&quot; &apos;e&apos;"/>"#,
    )
    .unwrap();
    assert_eq!(text_of(rec.value(0)), "a & b <c> \"d\" 'e'");
}

#[test]
fn unknown_entity_is_a_syntax_error() {
    let mut schema = Schema::new("note");
    assert!(schema.add_field(FieldSpec::named("body", ValueType::Text)));
    let err = extract_str(&schema, r#"<note body="a &bogus; b"/>"#).unwrap_err();
    assert!(matches!(err, XmlStructError::Syntax { .. }));
}

#[test]
fn unterminated_entity_is_a_syntax_error() {
    let mut schema = Schema::new("note");
    assert!(schema.add_field(FieldSpec::named("body", ValueType::Text)));
    let err = extract_str(&schema, r#"<note body="a &amp b"/>"#).unwrap_err();
    assert!(matches!(err, XmlStructError::Syntax { .. }));
}

#[test]
fn comments_declarations_and_text_are_skipped() {
    let schema = user_schema();
    let rec = extract_str(
        &schema,
        "<?xml version=\"1.0\"?><!-- note --><root>text<user username=\"joe\"/></root>",
    )
    .unwrap();
    assert_eq!(text_of(rec.value(2)), "joe");
}

#[test]
fn open_tag_matches_like_self_closing() {
    let schema = user_schema();
    let rec = extract_str(&schema, r#"<user username="joe"></user>"#).unwrap();
    assert_eq!(text_of(rec.value(2)), "joe");
}

#[test]
fn single_quoted_values_are_read() {
    let schema = user_schema();
    let rec = extract_str(&schema, "<user username='joe'/>").unwrap();
    assert_eq!(text_of(rec.value(2)), "joe");
}

#[test]
fn syntax_error_after_match_is_still_reported() {
    let schema = user_schema();
    let err = extract_str(&schema, r#"<user username="joe"/><broken"#).unwrap_err();
    assert!(matches!(err, XmlStructError::Syntax { .. }));
}

#[test]
fn unknown_attributes_are_ignored() {
    let schema = user_schema();
    let rec = extract_str(&schema, r#"<user stray="x" username="joe"/>"#).unwrap();
    assert_eq!(text_of(rec.value(2)), "joe");
}

#[test]
fn largest_id_value_parses() {
    let schema = user_schema();
    let rec = extract_str(&schema, r#"<user id="18446744073709551615"/>"#).unwrap();
    assert_eq!(uint_of(rec.value(0)), u64::MAX);
}

#[test]
fn id_overflow_is_a_coercion_error() {
    let schema = user_schema();
    let err = extract_str(&schema, r#"<user id="18446744073709551616"/>"#).unwrap_err();
    assert!(matches!(err, XmlStructError::TypeCoercion { .. }));
}

#[test]
fn empty_id_is_a_coercion_error() {
    let schema = user_schema();
    let err = extract_str(&schema, r#"<user id=""/>"#).unwrap_err();
    assert!(matches!(err, XmlStructError::TypeCoercion { .. }));
}

#[test]
fn schema_reports_its_shape() {
    let schema = user_schema();
    assert_eq!(schema.element().as_str(), "user");
    assert_eq!(schema.num_fields(), 4);
    assert!(schema.has_field_id(&"id".to_string()));
    assert!(!schema.has_field_id(&"missing".to_string()));
    assert_eq!(schema.field(0).field_id, "id");
    assert_eq!(schema.field(3).source_name, "authToken");
}

#[test]
fn record_accessors_match_values() {
    let schema = user_schema();
    let rec = extract_str(&schema, r#"<user id="42" username="joe"/>"#).unwrap();
    assert_eq!(rec.uint_at(0), 42);
    assert_eq!(rec.text_at(2), "joe");
    assert_eq!(rec.len(), 4);
}

#[test]
fn duplicate_field_id_is_rejected() {
    let mut schema = Schema::new("user");
    assert!(schema.add_field(FieldSpec::named("id", ValueType::UInt)));
    assert!(!schema.add_field(FieldSpec::named("id", ValueType::Text)));
    assert_eq!(schema.num_fields(), 1);
}
