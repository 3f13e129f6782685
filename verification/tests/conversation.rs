use picc::bot::{complete_run, plan_run, route_message, Route};
use picc::config::Config;
use picc::json::JsonValue;
use picc::session::{claude_args, read_raw_output, read_stream, StreamLine, StreamState};
use picc::store::TopicSession;

fn s(t: &str) -> String {
    t.to_string()
}

fn obj(fields: Vec<(&str, JsonValue)>) -> JsonValue {
    JsonValue::Object(fields.into_iter().map(|(k, v)| (s(k), v)).collect())
}

fn text(t: &str) -> JsonValue {
    JsonValue::Str(s(t))
}

fn config(allowed_users: &str, allowed_topics: &str) -> Config {
    Config::from_values(Some(s("t")), None, Some(s(allowed_users)), Some(s(allowed_topics)), None)
        .unwrap()
}

#[test]
fn messages_are_routed() {
    let c = config("", "");
    assert!(matches!(route_message(&c, 9, Some(1), Some(2), Some("/status")), Route::Status));
    match route_message(&c, 9, Some(1), None, Some("/new")) {
        Route::NewSession { chat_id, thread_id, reply } => {
            assert_eq!(chat_id, 9);
            assert_eq!(thread_id, 0);
            assert_eq!(reply, "Starting a new session for this topic.");
        }
        _ => panic!("expected a new session"),
    }
    match route_message(&c, -7, Some(1), Some(84), Some("/new")) {
        Route::NewSession { chat_id, thread_id, .. } => assert_eq!((chat_id, thread_id), (-7, 84)),
        _ => panic!("expected a new session"),
    }
    match route_message(&c, 9, None, None, Some("hello")) {
        Route::Prompt(p) => assert_eq!(p, "hello"),
        _ => panic!("expected a prompt"),
    }
    assert!(matches!(route_message(&c, 9, Some(1), Some(2), None), Route::Ignore));
}

#[test]
fn strangers_and_other_topics_are_ignored() {
    let c = config("5", "84");
    assert!(matches!(route_message(&c, 9, Some(6), Some(84), Some("hi")), Route::Ignore));
    assert!(matches!(route_message(&c, 9, None, Some(84), Some("hi")), Route::Ignore));
    assert!(matches!(route_message(&c, 9, Some(5), Some(2), Some("hi")), Route::Ignore));
    assert!(matches!(route_message(&c, 9, Some(5), None, Some("/status")), Route::Ignore));
    assert!(matches!(route_message(&c, 9, Some(5), Some(84), Some("hi")), Route::Prompt(_)));
}

#[test]
fn runs_resume_the_topic_session() {
    let stored = TopicSession {
        chat_id: 1,
        thread_id: 84,
        session_id: s("sess-1"),
        cwd: s("/work"),
        created_at: 100,
    };
    let plan = plan_run(Some(&stored), "/home/coder");
    assert_eq!(plan.resume.as_deref(), Some("sess-1"));
    assert_eq!(plan.cwd, "/work");
    let fresh = plan_run(None, "/home/coder");
    assert!(fresh.resume.is_none());
    assert_eq!(fresh.cwd, "/home/coder");
}

#[test]
fn successful_run_is_stored_and_answered() {
    let out = complete_run(Ok((s("  answer "), s("sess-2"))), 7, 84, s("/work"), Some(100), 500);
    let saved = out.save.unwrap();
    assert_eq!(saved.chat_id, 7);
    assert_eq!(saved.thread_id, 84);
    assert_eq!(saved.session_id, "sess-2");
    assert_eq!(saved.cwd, "/work");
    assert_eq!(saved.created_at, 100);
    assert_eq!(out.reply, "answer");
    let first = complete_run(Ok((s("a"), s("b"))), 7, 0, s("/w"), None, 500);
    assert_eq!(first.save.unwrap().created_at, 500);
}

#[test]
fn failed_run_is_reported() {
    let out = complete_run(Err(s("no luck")), 7, 84, s("/work"), Some(100), 500);
    assert!(out.save.is_none());
    assert_eq!(out.reply, "❌ Error: no luck");
}

#[test]
fn command_line_arguments() {
    assert_eq!(
        claude_args("hi there", None),
        vec!["-p", "hi there", "--output-format", "stream-json", "--no-color"]
    );
    assert_eq!(
        claude_args("x", Some("abc")),
        vec!["-p", "x", "--output-format", "stream-json", "--no-color", "--resume", "abc"]
    );
}

fn assistant(blocks: Vec<JsonValue>) -> JsonValue {
    obj(vec![
        ("type", text("assistant")),
        ("message", obj(vec![("content", JsonValue::Array(blocks))])),
    ])
}

#[test]
fn stream_collects_assistant_text_and_session() {
    let mut st = StreamState::new();
    st.absorb(&obj(vec![("type", text("system")), ("session_id", text("s1"))]));
    st.absorb(&assistant(vec![
        obj(vec![("type", text("text")), ("text", text("Hello, "))]),
        obj(vec![("type", text("tool_use")), ("text", text("ignored"))]),
        obj(vec![("type", text("text")), ("text", JsonValue::Number(s("3")))]),
        obj(vec![("type", text("text")), ("text", text("world"))]),
    ]));
    st.absorb(&obj(vec![
        ("type", text("result")),
        ("result", text("fallback")),
        ("session_id", text("s2")),
    ]));
    assert_eq!(st.finish("assistant-cli").unwrap(), (s("Hello, world"), s("s2")));
}

#[test]
fn result_is_used_when_no_text_came() {
    let mut st = StreamState::new();
    st.absorb(&JsonValue::Null);
    st.absorb(&obj(vec![("type", JsonValue::Bool(true))]));
    st.absorb(&obj(vec![("type", text("result")), ("result", text("done")), ("session_id", text("s"))]));
    assert_eq!(st.finish("x").unwrap(), (s("done"), s("s")));
}

#[test]
fn stream_without_text_gives_placeholder() {
    let mut st = StreamState::new();
    st.absorb(&obj(vec![("session_id", text("s9"))]));
    assert_eq!(st.finish("x").unwrap(), (s("(no response)"), s("s9")));
}

#[test]
fn stream_without_session_is_an_error() {
    let mut st = StreamState::new();
    st.absorb(&assistant(vec![obj(vec![("type", text("text")), ("text", text("hi"))])]));
    assert_eq!(
        st.finish("agent").unwrap_err(),
        "No session_id returned from agent — is agent CLI installed and authenticated?"
    );
}

fn line(t: &str, v: Option<JsonValue>) -> StreamLine {
    StreamLine::Read(s(t), v)
}

#[test]
fn whole_stream_is_read() {
    let lines = vec![
        line("", Some(obj(vec![("session_id", text("blank"))]))),
        line("not json", None),
        line("{...}", Some(obj(vec![("type", text("system")), ("session_id", text("s1"))]))),
        line(
            "{...}",
            Some(assistant(vec![obj(vec![("type", text("text")), ("text", text("hi"))])])),
        ),
    ];
    assert_eq!(read_stream(&lines, "x").unwrap(), (s("hi"), s("s1")));
}

#[test]
fn stream_ends_at_a_failed_read() {
    let lines = vec![
        line("{...}", Some(obj(vec![("session_id", text("s1"))]))),
        StreamLine::Failed,
        line("{...}", Some(obj(vec![("type", text("result")), ("result", text("late"))]))),
    ];
    assert_eq!(read_stream(&lines, "x").unwrap(), (s("(no response)"), s("s1")));
    let none: Vec<StreamLine> = vec![];
    assert_eq!(
        read_stream(&none, "agent").unwrap_err(),
        "No session_id returned from agent — is agent CLI installed and authenticated?"
    );
}

#[test]
fn a_new_session_forgets_the_stored_one() {
    let c = config("", "");
    let stored = TopicSession { chat_id: 9, thread_id: 84, session_id: s("old"), cwd: s("/w"), created_at: 1 };
    let mut table = vec![stored];
    if let Route::NewSession { chat_id, thread_id, .. } = route_message(&c, 9, Some(1), Some(84), Some("/new")) {
        table.retain(|t| !(t.chat_id == chat_id && t.thread_id == thread_id));
    }
    let existing = table.iter().find(|t| t.chat_id == 9 && t.thread_id == 84);
    assert!(plan_run(existing, "/home/coder").resume.is_none());
}

#[test]
fn blank_and_non_json_lines_change_nothing() {
    let event = || Some(obj(vec![("type", text("result")), ("result", text("r")), ("session_id", text("s"))]));
    let plain = vec![line("{...}", event())];
    let noisy = vec![
        line("", None),
        line("garbage", None),
        line("{...}", event()),
        line("", Some(obj(vec![("session_id", text("other"))]))),
    ];
    assert_eq!(read_stream(&plain, "x"), read_stream(&noisy, "x"));
}

#[test]
fn a_run_touches_only_its_topic() {
    let out = complete_run(Ok((s("a"), s("new"))), 9, 84, s("/w"), None, 5);
    let saved = out.save.unwrap();
    assert_eq!((saved.chat_id, saved.thread_id), (9, 84));
}

#[test]
fn raw_output_is_parsed_line_by_line() {
    let raw = vec![
        Some(s(r#"{"type":"system","session_id":"abc"}"#)),
        Some(s("")),
        Some(s("not json at all")),
        Some(s(r#"{"type":"assistant","message":{"content":[{"type":"text","text":"Hi "},{"type":"tool_use"},{"type":"text","text":"there"}]}}"#)),
        Some(s(r#"{"type":"result","result":"ignored","session_id":"abc","cost":0.25}"#)),
    ];
    assert_eq!(read_raw_output(&raw, "x").unwrap(), (s("Hi there"), s("abc")));
}

#[test]
fn raw_output_stops_at_a_failed_read() {
    let raw = vec![
        Some(s(r#"{"session_id":"abc"}"#)),
        None,
        Some(s(r#"{"type":"result","result":"late"}"#)),
    ];
    assert_eq!(read_raw_output(&raw, "x").unwrap(), (s("(no response)"), s("abc")));
    assert_eq!(
        read_raw_output(&vec![Some(s("[1, 2]"))], "tool").unwrap_err(),
        "No session_id returned from tool — is tool CLI installed and authenticated?"
    );
}
