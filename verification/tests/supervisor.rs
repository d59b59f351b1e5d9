use local_ai_hub::logbus::LogLevel;
use local_ai_hub::runtime::CodexCore;
use local_ai_hub::supervisor::{
    chat_threads_file_name, level_of_stderr, override_file_name, profile_marker_content,
    profile_marker_name, should_apply_instructions,
};
use local_ai_hub::threads::ChatThreads;

fn core_with(entries: &[(i64, &str)]) -> CodexCore {
    let mut threads = ChatThreads::new();
    for (chat, thread) in entries {
        threads.insert(*chat, thread.to_string());
    }
    CodexCore::new(threads, None)
}

#[test]
fn stderr_level_looks_for_error_then_warn_in_any_case() {
    assert_eq!(level_of_stderr("2024 ERROR something"), Some(LogLevel::Error));
    assert_eq!(level_of_stderr("an Error and a warning"), Some(LogLevel::Error));
    assert_eq!(level_of_stderr("stderror"), Some(LogLevel::Error));
    assert_eq!(level_of_stderr("WARN: low disk"), Some(LogLevel::Warn));
    assert_eq!(level_of_stderr("Warning"), Some(LogLevel::Warn));
    assert_eq!(level_of_stderr("info: all good"), None);
    assert_eq!(level_of_stderr(""), None);
    assert_eq!(level_of_stderr("ÉRROR"), None);
}

#[test]
fn stderr_level_agrees_with_unicode_lower_casing() {
    for line in ["ERROR", "İerror", "K warn", "ẞ", "eRRoR é", "WaRnİng", "ΣΑΣ error"] {
        let lower = line.to_lowercase();
        let wanted = if lower.contains("error") {
            Some(LogLevel::Error)
        } else if lower.contains("warn") {
            Some(LogLevel::Warn)
        } else {
            None
        };
        assert_eq!(level_of_stderr(line), wanted, "{}", line);
    }
}

#[test]
fn stderr_tail_keeps_the_last_thirty_lines() {
    let mut core = core_with(&[]);
    for i in 0..45 {
        let r = core.handle_codex_stderr(format!("line {}", i));
        assert_eq!(r.level, None);
        assert!(!r.mapping_reset);
    }
    assert_eq!(core.stderr_tail.len(), 30);
    assert_eq!(core.stderr_tail[0], "line 15");
    assert_eq!(core.stderr_tail[29], "line 44");
}

#[test]
fn stderr_sentinel_forgets_the_thread() {
    let mut core = core_with(&[(1, "t-1"), (2, "t-2"), (3, "t-1")]);
    core.thread_resumed("t-1".to_string());
    core.thread_resumed("t-2".to_string());
    let r = core.handle_codex_stderr(
        "2024 ERROR state db missing rollout path for thread t-1 (skipping)".to_string(),
    );
    assert_eq!(r.level, Some(LogLevel::Error));
    assert!(r.mapping_reset);
    assert_eq!(core.chat_threads.get(1), None);
    assert_eq!(core.chat_threads.get(3), None);
    assert_eq!(core.chat_threads.get(2), Some("t-2".to_string()));
    assert!(!core.resumed_threads.contains("t-1"));
    assert!(core.resumed_threads.contains("t-2"));
    let r = core.handle_codex_stderr("state db missing rollout path for thread t-1".to_string());
    assert!(!r.mapping_reset);
    let r = core.handle_codex_stderr("state db missing rollout path for thread   ".to_string());
    assert!(!r.mapping_reset);
    assert_eq!(core.chat_threads.get(2), Some("t-2".to_string()));
    assert_eq!(core.stderr_tail.len(), 3);
}

#[test]
fn instructions_apply_unless_blank_or_overruled_by_the_workspace() {
    assert!(!should_apply_instructions("", false, false, false));
    assert!(!should_apply_instructions("  \n", false, true, true));
    assert!(should_apply_instructions("be kind", false, true, true));
    assert!(should_apply_instructions("be kind", true, false, true));
    assert!(should_apply_instructions("be kind", true, true, false));
    assert!(!should_apply_instructions("be kind", true, true, true));
}

#[test]
fn override_content_is_the_instructions_or_nothing() {
    let mut core = core_with(&[]);
    assert_eq!(core.override_content(false), (String::new(), false));
    core.set_universal_instructions(" be kind ".to_string(), true);
    assert_eq!(core.override_content(true), (" be kind ".to_string(), true));
    core.set_workspace_dir(Some("/w".to_string()));
    assert_eq!(core.override_content(true), (String::new(), false));
    assert_eq!(core.override_content(false), (" be kind ".to_string(), true));
    core.set_universal_instructions(" be kind ".to_string(), false);
    assert_eq!(core.override_content(true), (" be kind ".to_string(), true));
}

#[test]
fn a_fresh_profile_forgets_the_threads_once() {
    let mut core = core_with(&[(1, "a")]);
    core.thread_resumed("a".to_string());
    assert!(core.profile_marked());
    assert!(core.chat_threads.entries.is_empty());
    assert!(core.resumed_threads.items.is_empty());
    assert!(!core.profile_marked());
}

#[test]
fn file_names_of_the_profile() {
    assert_eq!(profile_marker_name(), ".profile-marker-v1");
    assert_eq!(profile_marker_content(), "v1\n");
    assert_eq!(chat_threads_file_name(), "chat-threads.json");
    assert_eq!(override_file_name(), "AGENTS.override.md");
}
