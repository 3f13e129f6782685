use picc::json::JsonValue;
use picc::mail::{check_status, messages_from_answer, messages_from_answer_text, MailMessage, MailReader};

fn s(t: &str) -> String {
    t.to_string()
}

fn obj(fields: Vec<(&str, JsonValue)>) -> JsonValue {
    JsonValue::Object(fields.into_iter().map(|(k, v)| (s(k), v)).collect())
}

#[test]
fn new_reader_is_not_signed_in() {
    let r = MailReader::new();
    assert!(r.access_token.is_none());
    assert_eq!(
        r.messages_request(10).err().unwrap(),
        "Not authenticated. Use 'axcli mail-auth' first to complete OAuth login"
    );
}

#[test]
fn request_for_signed_in_reader() {
    let r = MailReader { access_token: Some(s("tok")) };
    let req = r.messages_request(25).ok().unwrap();
    assert_eq!(
        req.url,
        "https://graph.microsoft.com/v1.0/me/messages?$top=25&$orderby=receivedDateTime desc"
    );
    assert_eq!(req.authorization, "Bearer tok");
}

#[test]
fn auth_url_encodes_redirect() {
    assert_eq!(
        MailReader::get_auth_url(),
        "https://login.microsoftonline.com/common/oauth2/v2.0/authorize?client_id=04b07795-8ddb-461a-bbee-02f9e1bf7b46&response_type=code&scope=Mail.Read&redirect_uri=http%3A%2F%2Flocalhost%3A8888%2Fcallback&response_mode=query"
    );
}

#[test]
fn status_other_than_ok_is_an_error() {
    assert_eq!(check_status(200, "200 OK"), Ok(()));
    assert_eq!(check_status(401, "401 Unauthorized"), Err(s("API error: HTTP 401 Unauthorized")));
}

#[test]
fn messages_are_read_with_defaults() {
    let body = obj(vec![(
        "value",
        JsonValue::Array(vec![
            obj(vec![
                ("id", JsonValue::Str(s("m1"))),
                ("subject", JsonValue::Str(s("Hi"))),
                (
                    "from",
                    obj(vec![("emailAddress", obj(vec![("address", JsonValue::Str(s("a@b.c")))]))]),
                ),
                ("receivedDateTime", JsonValue::Str(s("2024-01-01T00:00:00Z"))),
                ("bodyPreview", JsonValue::Str(s("preview"))),
            ]),
            obj(vec![("subject", JsonValue::Null)]),
        ]),
    )]);
    let ms = messages_from_answer(&body);
    assert_eq!(ms.len(), 2);
    assert_eq!(ms[0].id, "m1");
    assert_eq!(ms[0].subject, "Hi");
    assert_eq!(ms[0].from, "a@b.c");
    assert_eq!(ms[0].date, "2024-01-01T00:00:00Z");
    assert_eq!(ms[0].preview.as_deref(), Some("preview"));
    assert_eq!(ms[1].id, "");
    assert_eq!(ms[1].subject, "(No subject)");
    assert_eq!(ms[1].from, "(Unknown)");
    assert_eq!(ms[1].date, "(No date)");
    assert!(ms[1].preview.is_none());
    assert!(messages_from_answer(&JsonValue::Null).is_empty());
}

#[test]
fn message_summary_shows_sixty_characters_of_subject() {
    let m = MailMessage {
        id: s("id1"),
        subject: "é".repeat(70),
        from: s("x@y.z"),
        date: s("today"),
        preview: None,
    };
    assert_eq!(
        m.to_string(),
        format!("[id1]\n  Subject: {}\n  From: x@y.z\n  Date: today", "é".repeat(60))
    );
}

#[test]
fn answer_text_is_parsed() {
    let ms = messages_from_answer_text(
        r#"{"value":[{"id":"m1","subject":"Hi","from":{"emailAddress":{"address":"a@b.c"}},"receivedDateTime":"d"}]}"#,
    )
    .ok()
    .unwrap();
    assert_eq!(ms.len(), 1);
    assert_eq!(ms[0].from, "a@b.c");
    assert!(ms[0].preview.is_none());
    let err = messages_from_answer_text("<html>").err().unwrap();
    assert!(err.starts_with("JSON parse error: "));
    assert!(err.len() > "JSON parse error: ".len());
    assert!(messages_from_answer_text("{}").ok().unwrap().is_empty());
}
