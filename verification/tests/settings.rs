use picc::config::{parse_allowed_topics, parse_allowed_users, Config};
use picc::numeric::{push_decimal, push_signed_decimal};
use std::collections::HashSet;

fn users(ids: &[u64]) -> HashSet<u64> {
    ids.iter().copied().collect()
}

fn topics(ids: &[i32]) -> HashSet<i32> {
    ids.iter().copied().collect()
}

fn config(allowed_users: &str, allowed_topics: &str) -> Config {
    Config::from_values(
        Some("123:abc".to_string()),
        None,
        Some(allowed_users.to_string()),
        Some(allowed_topics.to_string()),
        None,
    )
    .unwrap()
}

#[test]
fn users_are_parsed_from_a_list() {
    assert_eq!(parse_allowed_users("123456789"), users(&[123456789]));
    assert_eq!(parse_allowed_users(" 1, 2 ,3"), users(&[1, 2, 3]));
    assert_eq!(parse_allowed_users("+7,abc,,-3,4x"), users(&[7]));
    assert_eq!(parse_allowed_users(""), users(&[]));
    assert_eq!(
        parse_allowed_users("18446744073709551615,18446744073709551616"),
        users(&[u64::MAX])
    );
}

#[test]
fn topics_are_parsed_from_ids_and_links() {
    assert_eq!(parse_allowed_topics("84,2"), topics(&[84, 2]));
    assert_eq!(
        parse_allowed_topics("https://t.me/3816634435/84,https://t.me/3816634435/2"),
        topics(&[84, 2])
    );
    assert_eq!(parse_allowed_topics(" https://t.me/x/7 , -5, +9"), topics(&[7, -5, 9]));
    assert_eq!(parse_allowed_topics("https://example.org/5,t.me/,x"), topics(&[]));
    assert_eq!(
        parse_allowed_topics("2147483647,2147483648,-2147483648,-2147483649"),
        topics(&[i32::MAX, i32::MIN])
    );
    assert_eq!(parse_allowed_topics(""), topics(&[]));
}

#[test]
fn token_is_required() {
    let r = Config::from_values(None, None, None, None, None);
    assert_eq!(r.err().unwrap(), "TELEGRAM_BOT_TOKEN not set");
}

#[test]
fn defaults_fill_missing_settings() {
    let c = Config::from_values(Some("t".to_string()), None, None, None, None).unwrap();
    assert_eq!(c.telegram_bot_token, "t");
    assert_eq!(c.approved_directory, "/home/coder");
    assert!(c.allowed_users.is_empty());
    assert!(c.allowed_topics.is_empty());
    assert_eq!(c.db_path, "cc_connect.db");
    assert_eq!(c.tmux_session, "cc-connect");
}

#[test]
fn given_settings_are_kept() {
    let c = Config::from_values(
        Some("t".to_string()),
        Some("/srv".to_string()),
        Some("5".to_string()),
        Some("https://t.me/1/84".to_string()),
        Some("/var/db".to_string()),
    )
    .unwrap();
    assert_eq!(c.approved_directory, "/srv");
    assert_eq!(c.allowed_users, users(&[5]));
    assert_eq!(c.allowed_topics, topics(&[84]));
    assert_eq!(c.db_path, "/var/db");
}

#[test]
fn empty_lists_allow_everyone() {
    let c = config("", "");
    assert!(c.is_allowed_user(0));
    assert!(c.is_allowed_user(987));
    assert!(c.is_allowed_topic(0));
    assert!(c.is_allowed_topic(84));
}

#[test]
fn lists_restrict_users_and_topics() {
    let c = config("5,6", "84");
    assert!(c.is_allowed_user(5));
    assert!(!c.is_allowed_user(7));
    assert!(c.is_allowed_topic(84));
    assert!(!c.is_allowed_topic(0));
}

#[test]
fn written_ids_read_back() {
    for id in [0i32, 7, -5, i32::MAX, i32::MIN] {
        let mut text = String::new();
        push_signed_decimal(&mut text, id as i64);
        assert_eq!(parse_allowed_topics(&text), topics(&[id]));
    }
    for id in [0u64, 123456789, u64::MAX] {
        let mut text = String::new();
        push_decimal(&mut text, id);
        assert_eq!(parse_allowed_users(&text), users(&[id]));
    }
}
