use picc::config::Config;
use picc::config_file::{settings_from_file, Settings};
use std::collections::HashSet;

const SAMPLE: &str = r#"[bot]
telegram_bot_token = "123456:ABC-DEF"   # from the bot father
approved_directory = "/home/coder"          # working directory
allowed_users = [123456789]                 # your id
allowed_topics = [                          # leave empty for all topics
    "https://t.me/3816634435/84",
    "https://t.me/3816634435/2",
]

[db]
path = "~/.cc-connect/sessions.db"
"#;

fn none() -> Settings {
    Settings { token: None, approved_directory: None, allowed_users: None, allowed_topics: None, db_path: None }
}

#[test]
fn documented_file_is_read() {
    let s = settings_from_file(SAMPLE, Some("/home/me"));
    assert_eq!(s.token.as_deref(), Some("123456:ABC-DEF"));
    assert_eq!(s.approved_directory.as_deref(), Some("/home/coder"));
    assert_eq!(s.allowed_users.as_deref(), Some("123456789"));
    assert_eq!(
        s.allowed_topics.as_deref(),
        Some("https://t.me/3816634435/84,https://t.me/3816634435/2,")
    );
    assert_eq!(s.db_path.as_deref(), Some("/home/me/.cc-connect/sessions.db"));
}

#[test]
fn file_settings_build_the_config() {
    let c = Config::from_settings(none(), settings_from_file(SAMPLE, Some("/home/me"))).unwrap();
    assert_eq!(c.telegram_bot_token, "123456:ABC-DEF");
    assert_eq!(c.allowed_users, [123456789u64].into_iter().collect::<HashSet<u64>>());
    assert_eq!(c.allowed_topics, [84i32, 2].into_iter().collect::<HashSet<i32>>());
    assert_eq!(c.db_path, "/home/me/.cc-connect/sessions.db");
}

#[test]
fn environment_comes_before_the_file() {
    let env = Settings { token: Some("env-token".to_string()), db_path: Some("x.db".to_string()), ..none() };
    let c = Config::from_settings(env, settings_from_file(SAMPLE, None)).unwrap();
    assert_eq!(c.telegram_bot_token, "env-token");
    assert_eq!(c.db_path, "x.db");
    assert_eq!(c.approved_directory, "/home/coder");
}

#[test]
fn missing_file_settings_fall_back_to_defaults() {
    let s = settings_from_file("[bot]\n# nothing here\n[db]\n", None);
    assert!(s.token.is_none());
    let r = Config::from_settings(none(), s);
    assert_eq!(r.err().unwrap(), "TELEGRAM_BOT_TOKEN not set");
    let t = settings_from_file("[bot]\ntelegram_bot_token = 'xy'\n[other]\npath = \"p\"\n", None);
    assert_eq!(t.token.as_deref(), Some("xy"));
    assert!(t.db_path.is_none());
    let u = settings_from_file("[bot]\ntelegram_bot_token = \"a#b\" # note\n", None);
    assert_eq!(u.token.as_deref(), Some("a#b"));
}
