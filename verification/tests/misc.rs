use local_ai_hub::chars::{
    join2, join_strings, str_contains, str_ends_with, str_prefix, str_same, str_starts_with, trim_str,
};
use local_ai_hub::codex_types::{
    version_of_output, CodexDoctor, CodexStatus, CodexThreadListResponse,
};
use local_ai_hub::config_store::{
    default_poll_timeout_sec, default_universal_fallback_only, AppConfig, CodexConfig,
    TelegramConfig, TokenStorageMode, UiConfig,
};
use local_ai_hub::logbus::{LogBus, LogLevel};
use local_ai_hub::secrets::{
    after_saving, check_token, entry_of, reading_of, keychain_get_token, status_of_read, telegram_set_token, token_of_read,
    verify_read_back, ReadOutcome, SecretStatus,
};
use local_ai_hub::telegram::{BotState, TelegramStatus};
use local_ai_hub::time::now_unix_ms;

#[test]
fn string_helpers_agree_with_the_standard_library() {
    let samples = ["", " ", "a", " a ", "\u{a0}x\u{3000}", "ab cd\n", "\t\r\n", "é…", "item/x/delta"];
    for s in samples {
        assert_eq!(trim_str(s), s.trim(), "{:?}", s);
        for p in ["", "a", "item/", "/delta", "é", "…", "ab cd\n", "x"] {
            assert_eq!(str_starts_with(s, p), s.starts_with(p), "{:?} {:?}", s, p);
            assert_eq!(str_ends_with(s, p), s.ends_with(p), "{:?} {:?}", s, p);
            assert_eq!(str_contains(s, p), s.contains(p), "{:?} {:?}", s, p);
            assert_eq!(str_same(s, p), s == p, "{:?} {:?}", s, p);
        }
        for n in [0usize, 1, 2, 100] {
            assert_eq!(str_prefix(s, n), s.chars().take(n).collect::<String>());
        }
    }
    assert_eq!(join2("ab", "cd"), "abcd");
}

#[test]
fn defaults_of_the_settings() {
    assert_eq!(default_poll_timeout_sec(), 20);
    assert!(default_universal_fallback_only());
    assert_eq!(TokenStorageMode::default(), TokenStorageMode::Keychain);
    let t = TelegramConfig::default();
    assert!(t.allowed_chat_ids.is_empty());
    assert_eq!(t.poll_timeout_sec, 20);
    assert_eq!(t.token_storage, TokenStorageMode::Keychain);
    let c = CodexConfig::default();
    assert_eq!(c.workspace_dir, None);
    assert_eq!(c.universal_instructions, "");
    assert!(c.universal_fallback_only);
    assert_eq!(UiConfig::default().language, None);
    let a = AppConfig::default();
    assert_eq!(a.telegram.poll_timeout_sec, 20);
    assert!(a.codex.universal_fallback_only);
    assert_eq!(a.ui.language, None);
}

#[test]
fn poll_timeout_is_held_between_a_second_and_a_minute() {
    let mut t = TelegramConfig::default();
    assert_eq!(t.effective_poll_timeout(), 20);
    t.poll_timeout_sec = 0;
    assert_eq!(t.effective_poll_timeout(), 1);
    t.poll_timeout_sec = 61;
    assert_eq!(t.effective_poll_timeout(), 60);
    t.poll_timeout_sec = u64::MAX;
    assert_eq!(t.effective_poll_timeout(), 60);
    t.allowed_chat_ids = vec![5, -7];
    assert!(t.allows(-7));
    assert!(!t.allows(7));
}

#[test]
fn defaults_of_the_status_types() {
    let s = CodexStatus::default();
    assert!(!s.running && !s.initialized);
    assert_eq!(s.last_error, None);
    assert_eq!(s.duplicate(), s);
    let d = CodexDoctor::default();
    assert!(!d.node_ok && !d.npm_ok && !d.codex_ok && !d.local_codex_ok);
    let l = CodexThreadListResponse::default();
    assert!(l.threads.is_empty() && l.next_cursor.is_none());
    let t = TelegramStatus::default();
    assert!(!t.running && t.bot_username.is_none() && t.last_poll_unix_ms.is_none());
    assert_eq!(BotState::default().offset, 0);
}

#[test]
fn doctor_report_follows_the_probe() {
    let d = CodexDoctor::from_probe(
        Some("v20".to_string()),
        None,
        Some("0.5".to_string()),
        true,
        Some("0.4".to_string()),
        Some("/tools/codex.js".to_string()),
    );
    assert!(d.node_ok && !d.npm_ok && d.codex_ok && d.local_codex_ok);
    assert_eq!(d.codex_version, Some("0.5".to_string()));
    assert_eq!(d.local_codex_version, Some("0.4".to_string()));
    assert_eq!(d.local_codex_entry, Some("/tools/codex.js".to_string()));
    assert_eq!(d.node_path, None);
}

#[test]
fn log_record_drops_the_oldest_when_full() {
    let mut bus = LogBus::new(3);
    assert_eq!(bus.cap, 50);
    for i in 0..60u128 {
        bus.push_at(i, LogLevel::Info, "src".to_string(), format!("m{}", i));
    }
    assert_eq!(bus.buf.len(), 50);
    assert_eq!(bus.buf[0].msg, "m10");
    assert_eq!(bus.buf[49].msg, "m59");
    let newest = bus.list(2);
    assert_eq!(newest.len(), 2);
    assert_eq!(newest[0].msg, "m59");
    assert_eq!(newest[1].msg, "m58");
    assert_eq!(newest[0].level, LogLevel::Info);
    assert_eq!(newest[0].source, "src");
    assert_eq!(newest[0].ts_unix_ms, 59);
    assert_eq!(bus.list(0).len(), 1);
    assert_eq!(bus.list(1000).len(), 50);
    bus.clear();
    assert!(bus.list(10).is_empty());
    assert!(bus.list(0).is_empty());
    assert_eq!(LogBus::new(1200).cap, 1200);
}

#[test]
fn log_record_takes_the_time_from_the_clock() {
    let before = now_unix_ms();
    let mut bus = LogBus::new(50);
    bus.push(LogLevel::Warn, "codex".to_string(), "stopped".to_string());
    let after = now_unix_ms();
    let e = &bus.list(1)[0];
    assert!(before <= e.ts_unix_ms && e.ts_unix_ms <= after);
    assert_eq!(e.level, LogLevel::Warn);
    assert_eq!(e.msg, "stopped");
    assert!(before > 1_600_000_000_000);
}

#[test]
fn token_is_trimmed_and_must_not_be_blank() {
    assert_eq!(check_token("  abc \n"), Ok("abc".to_string()));
    assert_eq!(check_token("   "), Err("token is empty".to_string()));
    assert_eq!(check_token(""), Err("token is empty".to_string()));
    assert_eq!(telegram_set_token(" \t"), Err("token is empty".to_string()));
}

#[test]
fn read_back_must_match() {
    assert_eq!(verify_read_back("abc", "abc"), Ok(()));
    assert_eq!(
        verify_read_back("abc", "abd"),
        Err("token read-back verification failed".to_string())
    );
    assert_eq!(
        verify_read_back("abc", ""),
        Err("token read-back verification failed".to_string())
    );
}

#[test]
fn status_of_a_reading() {
    assert_eq!(
        status_of_read("file", ReadOutcome::Found(" tok ".to_string())),
        SecretStatus { stored: true, error: None, mode: "file".to_string() }
    );
    assert_eq!(
        status_of_read("file", ReadOutcome::Found(" \n".to_string())),
        SecretStatus { stored: false, error: None, mode: "file".to_string() }
    );
    assert_eq!(
        status_of_read("keychain", ReadOutcome::Missing),
        SecretStatus { stored: false, error: None, mode: "keychain".to_string() }
    );
    assert_eq!(
        status_of_read("keychain", ReadOutcome::Failed("locked".to_string())),
        SecretStatus { stored: false, error: Some("locked".to_string()), mode: "keychain".to_string() }
    );
}

#[test]
fn token_of_a_reading() {
    assert_eq!(token_of_read(ReadOutcome::Found("tok".to_string())), Ok("tok".to_string()));
    assert_eq!(token_of_read(ReadOutcome::Missing), Err("Telegram token missing".to_string()));
    assert_eq!(
        token_of_read(ReadOutcome::Failed("locked".to_string())),
        Err("get token failed: locked".to_string())
    );
}

#[test]
fn keychain_answers_are_passed_on() {
    match telegram_set_token("  secret-token  ") {
        Ok(()) => {}
        Err(e) => assert!(
            e.starts_with("keyring entry error: ")
                || e.starts_with("set token failed: ")
                || e.starts_with("read-back failed: ")
                || e == "token read-back verification failed",
            "{}",
            e
        ),
    }
    match keychain_get_token() {
        Ok(_) => {}
        Err(e) => assert!(
            e.starts_with("keyring entry error: ")
                || e == "Telegram token missing"
                || e.starts_with("get token failed: "),
            "{}",
            e
        ),
    }
}

#[test]
fn version_of_a_tool_is_what_it_printed() {
    assert_eq!(version_of_output(true, " v20.1.0\n"), Some("v20.1.0".to_string()));
    assert_eq!(version_of_output(true, " \n"), None);
    assert_eq!(version_of_output(false, "v20.1.0"), None);
}

#[test]
fn a_token_that_is_gone_after_saving_is_an_error() {
    let gone = SecretStatus { stored: false, error: None, mode: "keychain".to_string() };
    assert_eq!(
        after_saving(gone).error,
        Some("Token was not found after saving. Try enabling File (fallback).".to_string())
    );
    let there = SecretStatus { stored: true, error: None, mode: "file".to_string() };
    assert_eq!(after_saving(there.clone()), there);
    let broken = SecretStatus { stored: false, error: Some("locked".to_string()), mode: "file".to_string() };
    assert_eq!(after_saving(broken.clone()), broken);
}

#[test]
fn strings_are_joined_with_a_separator() {
    assert_eq!(join_strings(&vec![], ", "), "");
    assert_eq!(join_strings(&vec!["a".to_string()], ", "), "a");
    assert_eq!(join_strings(&vec!["a".to_string(), "".to_string(), "c".to_string()], ", "), "a, , c");
}

#[test]
fn answers_of_the_keychain_to_a_reading() {
    assert_eq!(reading_of(Ok(" tok ".to_string())), ReadOutcome::Found(" tok ".to_string()));
    assert_eq!(reading_of(Err(keyring::Error::NoEntry)), ReadOutcome::Missing);
    assert_eq!(
        reading_of(Err(keyring::Error::TooLong("user".to_string(), 5))),
        ReadOutcome::Failed("Attribute 'user' is longer than platform limit of 5 chars".to_string())
    );
    assert_eq!(
        token_of_read(reading_of(Err(keyring::Error::BadEncoding(vec![0xff])))),
        Err("get token failed: Data is not UTF-8 encoded".to_string())
    );
}

#[test]
fn answers_of_the_keychain_to_the_opening_of_an_entry() {
    match entry_of(Err(keyring::Error::Invalid("service".to_string(), "is empty".to_string()))) {
        Err(e) => assert_eq!(e, "keyring entry error: Attribute service is invalid: is empty"),
        Ok(_) => panic!("an entry out of a complaint"),
    }
    match entry_of(Err(keyring::Error::NoEntry)) {
        Err(e) => {
            assert_eq!(e, "keyring entry error: No matching entry found in secure storage")
        }
        Ok(_) => panic!("an entry out of a complaint"),
    }
    if let Ok(entry) = keyring::Entry::new("local-ai-hub-test", "nobody") {
        assert!(entry_of(Ok(entry)).is_ok());
    }
}
