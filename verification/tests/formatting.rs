use picc::formatter::{format_error, format_response, format_status, session_id_can_be_shortened};
use picc::store::TopicSession;

fn session(chat_id: i64, thread_id: i32, id: &str) -> TopicSession {
    TopicSession {
        chat_id,
        thread_id,
        session_id: id.to_string(),
        cwd: "/home/coder".to_string(),
        created_at: 0,
    }
}

#[test]
fn short_response_is_trimmed() {
    assert_eq!(format_response("  hello world \n"), "hello world");
}

#[test]
fn response_of_exactly_the_limit_is_kept() {
    let text = "a".repeat(4000);
    assert_eq!(format_response(&text), text);
}

#[test]
fn long_response_is_truncated_with_total() {
    let text = "b".repeat(5000);
    let expected = format!("{}…\n\n_(truncated, 5000 chars total)_", "b".repeat(4000));
    assert_eq!(format_response(&text), expected);
}

#[test]
fn texts_within_the_limit_are_kept_whatever_their_bytes() {
    // 2001 two-byte characters: more than 4000 bytes, fewer than 4000 characters.
    let text = format!("  {}  ", "é".repeat(2001));
    assert_eq!(format_response(&text), "é".repeat(2001));
}

#[test]
fn truncation_counts_characters_of_trimmed_text() {
    let text = format!("\n{}\t", "€".repeat(5000));
    let expected = format!("{}…\n\n_(truncated, 5000 chars total)_", "€".repeat(4000));
    assert_eq!(format_response(&text), expected);
}

#[test]
fn truncated_response_fits_in_a_message() {
    let text = "x".repeat(100_000);
    assert!(format_response(&text).chars().count() <= 4096);
    let wide = "😀".repeat(100_000);
    assert!(format_response(&wide).chars().count() <= 4096);
}

#[test]
fn error_is_marked() {
    assert_eq!(format_error("boom"), "❌ Error: boom");
}

#[test]
fn empty_status() {
    assert_eq!(format_status(&[]), "No active sessions.");
}

#[test]
fn status_lists_sessions() {
    let sessions = vec![
        session(-1001234, 84, "abcdef0123456789"),
        session(42, 0, "short"),
    ];
    assert_eq!(
        format_status(&sessions),
        "Active sessions:\n• topic 84 in chat -1001234 → session abcdef01…\n• topic 0 in chat 42 → session short…"
    );
}

#[test]
fn status_shows_extreme_ids() {
    let sessions = vec![session(i64::MIN, i32::MIN, "12345678")];
    assert_eq!(
        format_status(&sessions),
        "Active sessions:\n• topic -2147483648 in chat -9223372036854775808 → session 12345678…"
    );
}

#[test]
fn short_id_boundary_check() {
    assert!(session_id_can_be_shortened("abcdefghij"));
    assert!(session_id_can_be_shortened("ab"));
    assert!(!session_id_can_be_shortened("abcdefg€"));
    assert!(session_id_can_be_shortened("abcde€z"));
}

#[test]
fn short_id_check_agrees_with_char_boundaries() {
    for id in ["abcdefgh", "abcdefg€", "abcdef€", "ab", "😀😀", "😀😀😀"] {
        let expected = id.len() < 8 || id.is_char_boundary(8);
        assert_eq!(session_id_can_be_shortened(id), expected);
    }
}
