//! Scenarios for the pattern-matching extractor.

use suplex::patterns::{Pattern, PatternSet};
use suplex::plex_user::PlexUser;
use suplex::record::FieldValue;
use suplex::schema::ValueType;
use suplex::XmlStructError;

fn text_of(v: &FieldValue) -> String {
    match v {
        FieldValue::Text(s) => s.clone(),
        FieldValue::UInt(_) => panic!("expected a text field"),
    }
}

fn uint_of(v: &FieldValue) -> u64 {
    match v {
        FieldValue::UInt(n) => *n,
        FieldValue::Text(_) => panic!("expected an integer field"),
    }
}

#[test]
fn id_is_not_misread_from_uuid() {
    let ps = PlexUser::pattern_set().unwrap();
    let rec = ps.extract_str(r#"<user id="42" uuid="abc-1"/>"#).unwrap();
    assert_eq!(uint_of(rec.value(0)), 42);
    assert_eq!(text_of(rec.value(1)), "abc-1");
}

#[test]
fn uuid_before_id_is_still_disambiguated() {
    let ps = PlexUser::pattern_set().unwrap();
    let rec = ps.extract_str(r#"<user uuid="abc-1" id="42"/>"#).unwrap();
    assert_eq!(uint_of(rec.value(0)), 42);
    assert_eq!(text_of(rec.value(1)), "abc-1");
}

#[test]
fn uuid_alone_leaves_id_at_default() {
    let ps = PlexUser::pattern_set().unwrap();
    let rec = ps.extract_str(r#"<user uuid="abc-1"/>"#).unwrap();
    assert_eq!(uint_of(rec.value(0)), 0);
    assert_eq!(text_of(rec.value(1)), "abc-1");
}

#[test]
fn non_numeric_id_aborts_with_a_coercion_error() {
    let ps = PlexUser::pattern_set().unwrap();
    let err = ps.extract_str(r#"<user id="notanumber"/>"#).unwrap_err();
    match err {
        XmlStructError::TypeCoercion { field_id, text } => {
            assert_eq!(field_id, "id");
            assert_eq!(text, "notanumber");
        }
        other => panic!("expected a coercion error, got {:?}", other),
    }
}

#[test]
fn values_are_trimmed() {
    let ps = PlexUser::pattern_set().unwrap();
    let rec = ps.extract_str(r#"<user username=" joe " id=" 42 "/>"#).unwrap();
    assert_eq!(text_of(rec.value(3)), "joe");
    assert_eq!(uint_of(rec.value(0)), 42);
}

#[test]
fn values_are_not_unescaped() {
    let ps = PlexUser::pattern_set().unwrap();
    let rec = ps.extract_str(r#"<user username="a&amp;b"/>"#).unwrap();
    assert_eq!(text_of(rec.value(3)), "a&amp;b");
}

#[test]
fn all_user_fields_are_found() {
    let ps = PlexUser::pattern_set().unwrap();
    let rec = ps
        .extract_str(
            r#"<user id="42" uuid="abc-1" email="j@x.io" username="joe" title="Joe" thumb="t.png" authToken="tok123"/>"#,
        )
        .unwrap();
    assert_eq!(uint_of(rec.value(0)), 42);
    assert_eq!(text_of(rec.value(1)), "abc-1");
    assert_eq!(text_of(rec.value(2)), "j@x.io");
    assert_eq!(text_of(rec.value(3)), "joe");
    assert_eq!(text_of(rec.value(4)), "Joe");
    assert_eq!(text_of(rec.value(5)), "t.png");
    assert_eq!(text_of(rec.value(6)), "tok123");
}

#[test]
fn empty_pattern_name_fails_to_compile() {
    let patterns = vec![
        Pattern::new("good", "good", "", ValueType::Text),
        Pattern::new("bad", "", "", ValueType::Text),
    ];
    let err = PatternSet::new(patterns).unwrap_err();
    match err {
        XmlStructError::PatternCompilation { index } => assert_eq!(index, 1),
        other => panic!("expected a pattern compilation error, got {:?}", other),
    }
}

#[test]
fn non_word_pattern_name_fails_to_compile() {
    let patterns = vec![Pattern::new("bad", "a b", "", ValueType::Text)];
    let err = PatternSet::new(patterns).unwrap_err();
    assert!(matches!(err, XmlStructError::PatternCompilation { index: 0 }));
}

#[test]
fn missing_closing_quote_is_skipped() {
    let ps = PlexUser::pattern_set().unwrap();
    let rec = ps.extract_str(r#"<user username="joe"#).unwrap();
    assert_eq!(text_of(rec.value(3)), "");
}

#[test]
fn first_valid_match_wins() {
    let ps = PlexUser::pattern_set().unwrap();
    let rec = ps
        .extract_str(r#"<user username="first"/><user username="second"/>"#)
        .unwrap();
    assert_eq!(text_of(rec.value(3)), "first");
}
