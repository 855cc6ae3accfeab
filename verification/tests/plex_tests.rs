//! Scenarios for the typed records of the directory service.

use suplex::plex_server::PlexServer;
use suplex::plex_user::PlexUser;
use suplex::{XmlStruct, XmlStructError};

#[test]
fn user_from_xml_reads_every_field() {
    let xml = r#"<user id="42" uuid="abc-1" email="j@x.io" username="joe" title="Joe" thumb="t.png" authToken="tok123"/>"#;
    let user = PlexUser::from_xml(xml.to_string()).unwrap();
    assert_eq!(user.id, 42);
    assert_eq!(user.uuid, "abc-1");
    assert_eq!(user.email, "j@x.io");
    assert_eq!(user.username, "joe");
    assert_eq!(user.title, "Joe");
    assert_eq!(user.thumb, "t.png");
    assert_eq!(user.auth_token, "tok123");
}

#[test]
fn user_from_xml_with_missing_id_keeps_zero() {
    let user = PlexUser::from_xml(r#"<user username="joe"/>"#.to_string()).unwrap();
    assert_eq!(user.id, 0);
    assert_eq!(user.username, "joe");
    assert_eq!(user.auth_token, "");
}

#[test]
fn user_from_xml_reports_bad_id() {
    let err = PlexUser::from_xml(r#"<user id="notanumber"/>"#.to_string()).unwrap_err();
    match err {
        XmlStructError::TypeCoercion { field_id, text } => {
            assert_eq!(field_id, "id");
            assert_eq!(text, "notanumber");
        }
        other => panic!("expected a coercion error, got {:?}", other),
    }
}

#[test]
fn user_from_xml_reports_malformed_input() {
    let err = PlexUser::from_xml(r#"<user id="42""#.to_string()).unwrap_err();
    assert!(matches!(err, XmlStructError::Syntax { .. }));
}

#[test]
fn user_from_xml_without_user_element_is_all_default() {
    let user = PlexUser::from_xml(r#"<status ok="1"/>"#.to_string()).unwrap();
    assert_eq!(user.id, 0);
    assert_eq!(user.uuid, "");
    assert_eq!(user.username, "");
}

#[test]
fn user_from_xml_unescapes_the_token() {
    let user = PlexUser::from_xml(r#"<user authToken="a&amp;b"/>"#.to_string()).unwrap();
    assert_eq!(user.auth_token, "a&b");
}

#[test]
fn user_default_is_all_empty() {
    let user = PlexUser::default();
    assert_eq!(user.id, 0);
    assert_eq!(user.uuid, "");
    assert_eq!(user.auth_token, "");
}

#[test]
fn server_from_xml_reads_both_fields() {
    let server =
        PlexServer::from_xml(r#"<server first_field="alpha" another_field="7"/>"#.to_string())
            .unwrap();
    assert_eq!(server.first_field(), "alpha");
    assert_eq!(server.another_field(), 7);
}

#[test]
fn server_from_xml_without_server_element_is_all_default() {
    let server = PlexServer::from_xml(r#"<user id="42"/>"#.to_string()).unwrap();
    assert_eq!(server.first_field(), "");
    assert_eq!(server.another_field(), 0);
}

#[test]
fn server_default_is_all_empty() {
    let server = PlexServer::default();
    assert_eq!(server.first_field(), "");
    assert_eq!(server.another_field(), 0);
}
