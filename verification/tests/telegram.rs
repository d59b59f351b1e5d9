use local_ai_hub::chars::str_replace;
use local_ai_hub::codex_types::CodexThreadSummary;
use local_ai_hub::telegram::{
    api_outcome, describe_request_error, choose_thread, extract_text_message, final_reply, listed_thread_ids, next_offset, parse_index,
    plan_message, start_failure_reply, threads_listing, BotAction, TgChat, TgMessage, TgUpdate,
};
use local_ai_hub::telegram_text::{
    collapse_blank_lines, compact_skills_list, format_for_telegram, message_pieces,
    name_desc_cleanup, parse_command, redact_token, split_for_telegram, strip_file_paths,
};

#[test]
fn replace_agrees_with_the_standard_library() {
    let texts = ["", "a", "aaa", "abab", "a\r\nb\r\n", "xx  yy   zz", "`code` and `more`", "ééé", "/Users/me/Users/"];
    let pats = ["a", "aa", "ab", "\r\n", "  ", "`", "é", "/Users/", "zz"];
    let withs = ["", "b", "aa", "\n", " ", "~/", "[REDACTED]"];
    for t in texts {
        for p in pats {
            for w in withs {
                assert_eq!(str_replace(t, p, w), t.replace(p, w), "{:?} {:?} {:?}", t, p, w);
            }
        }
    }
}

#[test]
fn token_is_hidden_wherever_it_occurs() {
    assert_eq!(
        redact_token("https://api/bot123:ABC/getMe failed for bot123:ABC", "123:ABC"),
        "https://api/bot[REDACTED]/getMe failed for bot[REDACTED]"
    );
    assert_eq!(redact_token("nothing to hide", "123:ABC"), "nothing to hide");
    assert_eq!(redact_token("a b c", " "), "a b c");
    assert_eq!(redact_token("abc", ""), "abc");
    assert_eq!(redact_token("a b c", " b "), "a[REDACTED]c");
    assert_eq!(redact_token("aaaa", "aa"), "[REDACTED][REDACTED]");
}

#[test]
fn blank_lines_are_thinned() {
    assert_eq!(collapse_blank_lines("a\n\n\n\nb", 2), "a\n\nb");
    assert_eq!(collapse_blank_lines("a\n\n\n\nb", 1), "a\nb");
    assert_eq!(collapse_blank_lines("a\n\n\n\nb", 0), "ab");
    assert_eq!(collapse_blank_lines("a\n \n\n\nb", 2), "a\n \n\nb");
    assert_eq!(collapse_blank_lines("\n\n\na\n\n\n", 2), "a");
    assert_eq!(collapse_blank_lines("  a\nb  ", 2), "a\nb");
    assert_eq!(collapse_blank_lines("", 2), "");
    assert_eq!(collapse_blank_lines("\n\n\n\n", 2), "");
    assert_eq!(collapse_blank_lines("a\n\nb\n\n\nc\n\n\n\n\nd", 2), "a\n\nb\n\nc\n\nd");
}

#[test]
fn file_paths_are_dropped_line_by_line() {
    assert_eq!(
        strip_file_paths("skill one  Файл: /Users/me/skills/a/SKILL.md\nplain line"),
        "skill one\nplain line"
    );
    assert_eq!(strip_file_paths("see /Users/me/x and /Users/you/y"), "see ~/me/x and ~/you/y");
    assert_eq!(strip_file_paths("a\r\nb\n"), "a\nb");
    assert_eq!(strip_file_paths("a\n\nb"), "a\n\nb");
    assert_eq!(strip_file_paths("\n\na\n\n"), "a");
    assert_eq!(strip_file_paths(""), "");
    assert_eq!(strip_file_paths("Файл: x"), "");
    assert_eq!(strip_file_paths("a\rb\r"), "a\rb");
    assert_eq!(strip_file_paths("x Файл: /Users/ Файл: y"), "x");
}

#[test]
fn descriptions_are_cleaned() {
    assert_eq!(name_desc_cleanup("  does  things  "), "does things");
    assert_eq!(name_desc_cleanup("a    b"), "a  b");
    assert_eq!(name_desc_cleanup("does things (file: /x/y)"), "does things");
    assert_eq!(name_desc_cleanup("(file: /x/y)"), "");
    assert_eq!(name_desc_cleanup(""), "");
    assert_eq!(name_desc_cleanup("a (file:b) (file:c)"), "a");
}

#[test]
fn skills_with_dashes_are_listed() {
    let raw = "Доступні скіли:\n- alpha — does  alpha things Файл: /Users/me/a/SKILL.md\n-- beta — does beta (file: /x)\n\ngamma — \n — nameless\nno skill here";
    assert_eq!(
        compact_skills_list(raw),
        Some("Доступні скіли:\n• alpha — does alpha things\n• beta — does beta".to_string())
    );
}

#[test]
fn skills_with_parentheses_are_listed() {
    let raw = "Доступні скіли\n`delta` (makes deltas): /Users/me/skills/delta/SKILL.md\nepsilon: /x/SKILL.md\n(only desc): /x/SKILL.md\nzeta (): /x/SKILL.md\neta )wrong(: /x/SKILL.md";
    assert_eq!(
        compact_skills_list(raw),
        Some("Доступні скіли:\n• delta — makes deltas".to_string())
    );
}

#[test]
fn no_skills_no_list() {
    assert_eq!(compact_skills_list(""), None);
    assert_eq!(compact_skills_list("Доступні скіли:\n\nnothing"), None);
    assert_eq!(compact_skills_list("just text"), None);
}

#[test]
fn long_descriptions_are_cut_short() {
    let desc = "д".repeat(161);
    let raw = format!("name — {}", desc);
    let wanted = format!("Доступні скіли:\n• name — {}…", "д".repeat(157));
    assert_eq!(compact_skills_list(&raw), Some(wanted));
    let desc = "д".repeat(160);
    let raw = format!("name — {}", desc);
    let wanted = format!("Доступні скіли:\n• name — {}", desc);
    assert_eq!(compact_skills_list(&raw), Some(wanted));
}

#[test]
fn messages_are_shaped() {
    assert_eq!(format_for_telegram("a\r\n\r\n\r\n\r\nb `c`"), "a\n\nb c");
    assert_eq!(format_for_telegram("  hello  "), "hello");
    assert_eq!(format_for_telegram("see /Users/me/file"), "see ~/me/file");
    assert_eq!(format_for_telegram(""), "");
    assert_eq!(
        format_for_telegram("Доступні скіли:\r\n- alpha — does alpha Файл: /a/SKILL.md\r\n- beta — does `beta`"),
        "Доступні скіли:\n• alpha — does alpha\n• beta — does beta"
    );
    assert_eq!(
        format_for_telegram("Доступні скіли: none, but SKILL.md is named"),
        "Доступні скіли: none, but SKILL.md is named"
    );
    assert_eq!(format_for_telegram("Доступні скіли:\n- a — b"), "Доступні скіли:\n- a — b");
}

#[test]
fn text_is_sent_as_one_part() {
    assert_eq!(split_for_telegram("  hello\r\nworld  ", 900), vec!["hello\nworld".to_string()]);
    assert_eq!(split_for_telegram("   ", 900), Vec::<String>::new());
    assert_eq!(split_for_telegram("", 900), Vec::<String>::new());
    let long = "word ".repeat(1000);
    assert_eq!(split_for_telegram(&long, 900), vec![long.trim().to_string()]);
    assert_eq!(split_for_telegram("a\n\nb", 0), vec!["a\n\nb".to_string()]);
}

#[test]
fn long_messages_are_cut_into_pieces() {
    assert_eq!(message_pieces(""), Vec::<String>::new());
    assert_eq!(message_pieces("  hi `there`  "), vec!["hi there".to_string()]);
    let text = "я".repeat(4096 * 2 + 5);
    let pieces = message_pieces(&text);
    assert_eq!(pieces.len(), 3);
    assert_eq!(pieces[0], "я".repeat(4096));
    assert_eq!(pieces[1], "я".repeat(4096));
    assert_eq!(pieces[2], "я".repeat(5));
    let exact = "x".repeat(4096);
    assert_eq!(message_pieces(&exact), vec![exact.clone()]);
}

#[test]
fn commands_are_parsed() {
    assert_eq!(parse_command("/start"), (Some("/start".to_string()), None));
    assert_eq!(
        parse_command("/codex  write a poem "),
        (Some("/codex".to_string()), Some("write a poem".to_string()))
    );
    assert_eq!(
        parse_command("/codex@my_bot hello"),
        (Some("/codex".to_string()), Some("hello".to_string()))
    );
    assert_eq!(parse_command("hello /codex"), (None, None));
    assert_eq!(parse_command(""), (None, None));
    assert_eq!(parse_command("   "), (None, None));
    assert_eq!(parse_command(" /ping now"), (Some("/ping".to_string()), None));
    assert_eq!(parse_command("/"), (Some("/".to_string()), None));
    assert_eq!(parse_command("/@bot x"), (Some("/".to_string()), Some("x".to_string())));
    assert_eq!(parse_command("/thread\n3"), (Some("/thread".to_string()), Some("3".to_string())));
}

#[test]
fn text_messages_are_extracted() {
    let update = TgUpdate {
        update_id: 10,
        message: Some(TgMessage { message_id: 5, chat: TgChat { id: -77 }, text: Some("hi".to_string()) }),
    };
    assert_eq!(extract_text_message(&update), Some((-77, 5, "hi".to_string())));
    let update = TgUpdate {
        update_id: 10,
        message: Some(TgMessage { message_id: 5, chat: TgChat { id: -77 }, text: None }),
    };
    assert_eq!(extract_text_message(&update), None);
    assert_eq!(extract_text_message(&TgUpdate { update_id: 1, message: None }), None);
}

#[test]
fn next_offset_is_past_the_largest_update() {
    let u = |id: i64| TgUpdate { update_id: id, message: None };
    assert_eq!(next_offset(&vec![], 17), 17);
    assert_eq!(next_offset(&vec![u(3)], 17), 4);
    assert_eq!(next_offset(&vec![u(5), u(9), u(7)], 0), 10);
    assert_eq!(next_offset(&vec![u(-5), u(-9)], 0), -4);
}

#[test]
fn commands_for_everyone() {
    assert_eq!(
        plan_message("/start", 1, false),
        BotAction::Reply { text: "Бот підключено.\n\nКоманди:\n/whoami\n/ping".to_string() }
    );
    assert_eq!(
        plan_message(" /whoami ", -1001234, false),
        BotAction::Reply { text: "chat_id: -1001234".to_string() }
    );
    assert_eq!(
        plan_message("/whoami@bot", 42, true),
        BotAction::Reply { text: "chat_id: 42".to_string() }
    );
}

#[test]
fn commands_for_allowed_chats() {
    let deny = BotAction::Reply {
        text: "Нема доступу. Використай /whoami і додай chat_id в allowlist.".to_string(),
    };
    for cmd in ["/ping", "/codex hi", "/threads", "/thread 3", "/thread"] {
        assert_eq!(plan_message(cmd, 1, false), deny, "{}", cmd);
    }
    assert_eq!(plan_message("/ping", 1, true), BotAction::Reply { text: "pong".to_string() });
    assert_eq!(
        plan_message("/codex  tell me ", 1, true),
        BotAction::AskCodex { prompt: "tell me".to_string() }
    );
    assert_eq!(
        plan_message("/codex", 1, true),
        BotAction::Reply { text: "Напиши: /codex <повідомлення>".to_string() }
    );
    assert_eq!(plan_message("/threads", 1, true), BotAction::ListThreads);
    assert_eq!(plan_message("/thread", 1, true), BotAction::ShowThread);
    assert_eq!(
        plan_message("/thread 3", 1, true),
        BotAction::AttachThread { choice: "3".to_string() }
    );
}

#[test]
fn plain_messages_and_unknown_commands() {
    assert_eq!(
        plan_message("  what is up?  ", 1, true),
        BotAction::AskCodex { prompt: "what is up?".to_string() }
    );
    assert_eq!(plan_message("what is up?", 1, false), BotAction::Ignore);
    assert_eq!(plan_message("/unknown", 1, true), BotAction::Ignore);
    assert_eq!(plan_message("/pinger", 1, true), BotAction::Ignore);
    assert_eq!(plan_message("   ", 1, true), BotAction::Ignore);
    assert_eq!(plan_message("", 1, true), BotAction::Ignore);
}

#[test]
fn replies_after_a_turn() {
    assert_eq!(start_failure_reply("Busy"), "Зачекай: обробляю попереднє повідомлення.");
    assert_eq!(start_failure_reply("Empty message"), "Codex error: Empty message");
    assert_eq!(final_reply(Some(Ok("answer".to_string())), true), None);
    assert_eq!(final_reply(Some(Ok("answer".to_string())), false), Some("answer".to_string()));
    assert_eq!(
        final_reply(Some(Ok(" \n".to_string())), false),
        Some("Нема відповіді від Codex. Спробуй ще раз.".to_string())
    );
    assert_eq!(
        final_reply(Some(Err("boom".to_string())), true),
        Some("Codex error: boom".to_string())
    );
    assert_eq!(
        final_reply(None, false),
        Some("Codex error: internal channel closed".to_string())
    );
}

fn thread(id: &str, title: Option<&str>, preview: Option<&str>) -> CodexThreadSummary {
    CodexThreadSummary {
        id: id.to_string(),
        title: title.map(|s| s.to_string()),
        preview: preview.map(|s| s.to_string()),
        updated_at_unix_ms: None,
        created_at_unix_ms: None,
        archived: false,
        source_kind: None,
    }
}

#[test]
fn threads_are_listed_with_numbers() {
    assert_eq!(threads_listing(&vec![]), "Поки що немає діалогів.");
    let threads = vec![
        thread("a", Some("First"), Some("a preview")),
        thread("b", None, Some("preview two")),
        thread("c", None, None),
    ];
    assert_eq!(
        threads_listing(&threads),
        "Останні діалоги:\n\n1. First\n2. preview two\n3. Діалог\n\nПродовжити: /thread <номер> (наприклад /thread 1)"
    );
    assert_eq!(listed_thread_ids(&threads), vec!["a", "b", "c"]);
    let many: Vec<CodexThreadSummary> =
        (0..15).map(|i| thread(&format!("id{}", i), Some("t"), None)).collect();
    let text = threads_listing(&many);
    assert!(text.contains("\n10. t\n"));
    assert!(!text.contains("\n11. t"));
    assert_eq!(listed_thread_ids(&many).len(), 10);
}

#[test]
fn index_parses_like_the_standard_library() {
    for s in ["", "+", "0", "1", "10", "007", "+5", "-5", "5 ", " 5", "5a", "18446744073709551615", "18446744073709551616", "99999999999999999999999", "٣"] {
        assert_eq!(parse_index(s), s.parse::<usize>().ok(), "{:?}", s);
    }
}

#[test]
fn thread_is_chosen_by_number_or_id() {
    let recent = vec!["a".to_string(), "b".to_string(), " ".to_string()];
    assert_eq!(choose_thread("1", &recent), Some("a".to_string()));
    assert_eq!(choose_thread("2", &recent), Some("b".to_string()));
    assert_eq!(choose_thread("0", &recent), Some("a".to_string()));
    assert_eq!(choose_thread("3", &recent), None);
    assert_eq!(choose_thread("4", &recent), None);
    assert_eq!(choose_thread("thread-xyz", &recent), Some("thread-xyz".to_string()));
    assert_eq!(choose_thread("1", &vec![]), None);
}

#[test]
fn failed_requests_are_described_without_the_token() {
    let causes: Vec<String> = (1..=6).map(|i| format!("cause {} for bot123:ABC", i)).collect();
    assert_eq!(
        describe_request_error(
            "error sending request for url (https://api/bot123:ABC/getMe)",
            true,
            false,
            Some("502 Bad Gateway"),
            &causes,
            "123:ABC"
        ),
        "error sending request for url (https://api/bot[REDACTED]/getMe): timeout: http 502 Bad Gateway: cause 1 for bot[REDACTED]: cause 2 for bot[REDACTED]: cause 3 for bot[REDACTED]: cause 4 for bot[REDACTED]"
    );
    assert_eq!(describe_request_error("plain", false, true, None, &vec![], ""), "plain: connect");
    assert_eq!(describe_request_error("plain", false, false, None, &vec![], "x"), "plain");
    assert_eq!(api_outcome(true, Some("ignored".to_string()), "f"), Ok(()));
    assert_eq!(api_outcome(false, Some("Unauthorized".to_string()), "f"), Err("Unauthorized".to_string()));
    assert_eq!(api_outcome(false, None, "getMe failed"), Err("getMe failed".to_string()));
}
