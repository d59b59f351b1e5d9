use local_ai_hub::json::{parse_json, Json};
use local_ai_hub::protocol::{
    auto_reply, build_notification, build_request, classify, decode_notice,
    extract_no_rollout_thread_id, extract_no_rollout_thread_id_from_message, find_token_after,
    no_rollout_thread_id_in, notice_from, outcome_of_response, read_line, reply_for, wire_line,
    LineOutcome, Notice, Shape,
};

fn doc(text: &str) -> Json {
    parse_json(text).unwrap()
}

#[test]
fn shapes_are_told_apart_by_members() {
    assert_eq!(classify(&doc(r#"{"id":1,"result":{}}"#)), Shape::Response);
    assert_eq!(classify(&doc(r#"{"id":1,"error":{"code":1}}"#)), Shape::Response);
    assert_eq!(classify(&doc(r#"{"id":1,"method":"m","result":1}"#)), Shape::Response);
    assert_eq!(classify(&doc(r#"{"id":1,"method":"m","error":1}"#)), Shape::Response);
    assert_eq!(classify(&doc(r#"{"id":1,"method":"m","params":{}}"#)), Shape::ServerRequest);
    assert_eq!(classify(&doc(r#"{"id":"x","method":5}"#)), Shape::ServerRequest);
    assert_eq!(classify(&doc(r#"{"method":"m"}"#)), Shape::Notification);
    assert_eq!(classify(&doc(r#"{"method":5}"#)), Shape::Nothing);
    assert_eq!(classify(&doc(r#"{"id":1}"#)), Shape::Nothing);
    assert_eq!(classify(&doc(r#"{}"#)), Shape::Nothing);
    assert_eq!(classify(&doc(r#"[1,2]"#)), Shape::Nothing);
    assert_eq!(classify(&doc(r#"{"result":1}"#)), Shape::Nothing);
}

#[test]
fn response_outcome_prefers_the_error() {
    assert_eq!(
        outcome_of_response(&doc(r#"{"id":1,"result":{"a":1}}"#)),
        Ok(doc(r#"{"a":1}"#))
    );
    assert_eq!(
        outcome_of_response(&doc(r#"{"id":1,"error":{"code":-32600,"message":"bad"}}"#)),
        Err(r#"{"code":-32600,"message":"bad"}"#.to_string())
    );
    assert_eq!(
        outcome_of_response(&doc(r#"{"id":1,"result":1,"error":"e"}"#)),
        Err("\"e\"".to_string())
    );
    assert_eq!(outcome_of_response(&doc(r#"{"id":1}"#)), Ok(Json::Null));
}

#[test]
fn approvals_are_declined_and_input_gets_no_answers() {
    let decline = doc(r#"{"decision":"decline"}"#);
    assert_eq!(auto_reply("item/commandExecution/requestApproval"), Some(doc(r#"{"decision":"decline"}"#)));
    assert_eq!(auto_reply("item/fileChange/requestApproval"), Some(decline));
    assert_eq!(auto_reply("item/tool/requestUserInput"), Some(doc(r#"{"answers":{}}"#)));
    assert_eq!(auto_reply("item/other/requestApproval"), None);
    assert_eq!(auto_reply(""), None);
}

#[test]
fn approval_of_a_file_change_is_declined() {
    let msg = doc(r#"{"id":11,"method":"item/fileChange/requestApproval","params":{}}"#);
    assert_eq!(classify(&msg), Shape::ServerRequest);
    let reply = reply_for(&msg).unwrap();
    assert_eq!(wire_line(&reply).unwrap(), "{\"id\":11,\"result\":{\"decision\":\"decline\"}}\n");
}

#[test]
fn reply_echoes_an_id_of_any_kind() {
    let msg = doc(r#"{"id":"abc","method":"item/tool/requestUserInput"}"#);
    assert_eq!(
        wire_line(&reply_for(&msg).unwrap()).unwrap(),
        "{\"id\":\"abc\",\"result\":{\"answers\":{}}}\n"
    );
    assert_eq!(reply_for(&doc(r#"{"id":3,"method":"unknown/request"}"#)), None);
    assert_eq!(reply_for(&doc(r#"{"id":3,"method":7}"#)), None);
}

#[test]
fn request_line_has_id_method_and_params() {
    let msg = build_request(1, "initialize", doc(r#"{"x":true}"#));
    assert_eq!(
        wire_line(&msg).unwrap(),
        "{\"id\":1,\"method\":\"initialize\",\"params\":{\"x\":true}}\n"
    );
    let msg = build_request(u64::MAX, "account/logout", Json::Null);
    assert_eq!(
        wire_line(&msg).unwrap(),
        "{\"id\":18446744073709551615,\"method\":\"account/logout\",\"params\":null}\n"
    );
}

#[test]
fn notification_line_has_no_id() {
    assert_eq!(
        wire_line(&build_notification("initialized", None)).unwrap(),
        "{\"method\":\"initialized\"}\n"
    );
    assert_eq!(
        wire_line(&build_notification("n", Some(doc("[1]")))).unwrap(),
        "{\"method\":\"n\",\"params\":[1]}\n"
    );
}

#[test]
fn account_updated_carries_the_auth_mode() {
    assert_eq!(
        decode_notice("account/updated", &doc(r#"{"authMode":"chatgpt"}"#)),
        Notice::AccountUpdated { auth_mode: Some("chatgpt".to_string()) }
    );
    assert_eq!(
        decode_notice("account/updated", &doc(r#"{"authMode":null}"#)),
        Notice::AccountUpdated { auth_mode: None }
    );
    assert_eq!(
        decode_notice("account/updated", &Json::Null),
        Notice::AccountUpdated { auth_mode: None }
    );
}

#[test]
fn login_completed_defaults_to_failure() {
    assert_eq!(
        decode_notice(
            "account/login/completed",
            &doc(r#"{"success":true,"loginId":"L1"}"#)
        ),
        Notice::LoginCompleted { success: true, login_id: Some("L1".to_string()), error: None }
    );
    assert_eq!(
        decode_notice("account/login/completed", &doc(r#"{"error":"denied"}"#)),
        Notice::LoginCompleted { success: false, login_id: None, error: Some("denied".to_string()) }
    );
    assert_eq!(
        decode_notice("account/login/completed", &doc(r#"{"success":"yes"}"#)),
        Notice::LoginCompleted { success: false, login_id: None, error: None }
    );
}

#[test]
fn any_item_delta_with_turn_and_text_is_a_delta() {
    let params = doc(r#"{"turnId":"t1","delta":"Hi"}"#);
    let delta = Notice::Delta { turn_id: "t1".to_string(), delta: "Hi".to_string() };
    assert_eq!(decode_notice("item/agentMessage/delta", &params), delta);
    assert_eq!(decode_notice("item/anything/at/all/delta", &params), delta);
    assert_eq!(decode_notice("item/delta", &params), delta);
    assert_eq!(decode_notice("item/agentMessage/deltas", &params), Notice::Ignored);
    assert_eq!(decode_notice("items/agentMessage/delta", &params), Notice::Ignored);
    assert_eq!(
        decode_notice("item/x/delta", &doc(r#"{"turnId":"","delta":"Hi"}"#)),
        Notice::Ignored
    );
    assert_eq!(
        decode_notice("item/x/delta", &doc(r#"{"turnId":"t1","delta":""}"#)),
        Notice::Ignored
    );
    assert_eq!(decode_notice("item/x/delta", &doc(r#"{"turnId":"t1"}"#)), Notice::Ignored);
    assert_eq!(decode_notice("item/x/delta", &doc(r#"{"delta":"Hi"}"#)), Notice::Ignored);
    assert_eq!(
        decode_notice("item/x/delta", &doc(r#"{"turnId":"t1","delta":5}"#)),
        Notice::Ignored
    );
}

#[test]
fn item_completed_counts_for_message_items_with_text() {
    let done = Notice::ItemCompleted { turn_id: "t1".to_string(), text: "full".to_string() };
    for kind in ["agentMessage", "assistantMessage", "otherMessage", "Message"] {
        let params = doc(&format!(
            r#"{{"turnId":"t1","item":{{"type":"{}","text":"full"}}}}"#,
            kind
        ));
        assert_eq!(decode_notice("item/completed", &params), done);
    }
    let ignored = [
        r#"{"turnId":"t1","item":{"type":"reasoning","text":"full"}}"#,
        r#"{"turnId":"t1","item":{"type":"agentMessages","text":"full"}}"#,
        r#"{"turnId":"t1","item":{"type":"agentMessage"}}"#,
        r#"{"turnId":"t1","item":{"type":"agentMessage","text":5}}"#,
        r#"{"turnId":"","item":{"type":"agentMessage","text":"full"}}"#,
        r#"{"item":{"type":"agentMessage","text":"full"}}"#,
        r#"{"turnId":"t1"}"#,
        r#"{"turnId":"t1","item":{"text":"full"}}"#,
    ];
    for text in ignored {
        assert_eq!(decode_notice("item/completed", &doc(text)), Notice::Ignored, "{}", text);
    }
}

#[test]
fn turn_completed_carries_status_and_error() {
    assert_eq!(
        decode_notice("turn/completed", &doc(r#"{"turn":{"id":"t1","status":"completed"}}"#)),
        Notice::TurnCompleted { turn_id: "t1".to_string(), failed: false, error: None }
    );
    assert_eq!(
        decode_notice(
            "turn/completed",
            &doc(r#"{"turn":{"id":"t1","status":"failed","error":{"message":"boom"}}}"#)
        ),
        Notice::TurnCompleted {
            turn_id: "t1".to_string(),
            failed: true,
            error: Some("boom".to_string())
        }
    );
    assert_eq!(
        decode_notice("turn/completed", &doc(r#"{"turn":{"id":"t1"}}"#)),
        Notice::TurnCompleted { turn_id: "t1".to_string(), failed: false, error: None }
    );
    assert_eq!(decode_notice("turn/completed", &doc(r#"{"turn":{"id":""}}"#)), Notice::Ignored);
    assert_eq!(decode_notice("turn/completed", &doc(r#"{"turn":{}}"#)), Notice::Ignored);
    assert_eq!(decode_notice("turn/completed", &doc(r#"{}"#)), Notice::Ignored);
}

#[test]
fn error_notification_shows_its_params() {
    assert_eq!(
        decode_notice("error", &doc(r#"{"message":"x"}"#)),
        Notice::Failure { text: "codex error: {\"message\":\"x\"}".to_string() }
    );
    assert_eq!(
        decode_notice("error", &Json::Null),
        Notice::Failure { text: "codex error: null".to_string() }
    );
}

#[test]
fn unknown_notifications_are_ignored() {
    assert_eq!(decode_notice("thread/started", &doc("{}")), Notice::Ignored);
    assert_eq!(decode_notice("", &doc("{}")), Notice::Ignored);
}

#[test]
fn notice_from_reads_method_and_params() {
    assert_eq!(
        notice_from(&doc(r#"{"method":"error"}"#)),
        Notice::Failure { text: "codex error: null".to_string() }
    );
    assert_eq!(
        notice_from(&doc(r#"{"method":"item/a/delta","params":{"turnId":"t","delta":"d"}}"#)),
        Notice::Delta { turn_id: "t".to_string(), delta: "d".to_string() }
    );
}

#[test]
fn token_after_takes_the_first_run_without_whitespace() {
    assert_eq!(find_token_after("see id: abc def", "id:"), Some("abc".to_string()));
    assert_eq!(find_token_after("see id:abc", "id:"), Some("abc".to_string()));
    assert_eq!(find_token_after("see id:   \n abc\tdef", "id:"), Some("abc".to_string()));
    assert_eq!(find_token_after("see id:   ", "id:"), None);
    assert_eq!(find_token_after("see id:", "id:"), None);
    assert_eq!(find_token_after("nothing here", "id:"), None);
    assert_eq!(find_token_after("id:a id:b", "id:"), Some("a".to_string()));
}

#[test]
fn no_rollout_thread_id_is_read_from_plain_text() {
    assert_eq!(
        extract_no_rollout_thread_id_from_message("no rollout found for thread id t-old"),
        Some("t-old".to_string())
    );
    assert_eq!(
        extract_no_rollout_thread_id_from_message("error: no rollout found for thread id abc-1 (gone)"),
        Some("abc-1".to_string())
    );
    assert_eq!(extract_no_rollout_thread_id_from_message("no rollout found for thread id "), None);
    assert_eq!(extract_no_rollout_thread_id_from_message("no rollout found for thread"), None);
    assert_eq!(extract_no_rollout_thread_id_from_message(""), None);
}

#[test]
fn no_rollout_thread_id_is_read_from_the_message_of_a_json_error() {
    assert_eq!(
        extract_no_rollout_thread_id(
            r#"{"code":-32600,"message":"no rollout found for thread id t-old"}"#
        ),
        Some("t-old".to_string())
    );
    assert_eq!(
        extract_no_rollout_thread_id("no rollout found for thread id t-9 now"),
        Some("t-9".to_string())
    );
    assert_eq!(
        extract_no_rollout_thread_id(
            r#"{"message":"other","data":"no rollout found for thread id t-old"}"#
        ),
        None
    );
    assert_eq!(
        extract_no_rollout_thread_id(r#"{"data":"no rollout found for thread id t-old"}"#),
        Some("t-old\"}".to_string())
    );
    assert_eq!(extract_no_rollout_thread_id("codex request timeout: turn/start"), None);
}

#[test]
fn no_rollout_thread_id_in_takes_what_was_parsed() {
    let parsed = doc(r#"{"message":"no rollout found for thread id a"}"#);
    assert_eq!(
        no_rollout_thread_id_in(Some(&parsed), "no rollout found for thread id b"),
        Some("a".to_string())
    );
    assert_eq!(
        no_rollout_thread_id_in(None, "no rollout found for thread id b"),
        Some("b".to_string())
    );
    assert_eq!(
        no_rollout_thread_id_in(Some(&doc("[]")), "no rollout found for thread id b"),
        Some("b".to_string())
    );
}

#[test]
fn lines_are_blank_messages_or_garbage() {
    assert_eq!(read_line(""), LineOutcome::Blank);
    assert_eq!(read_line("  \t "), LineOutcome::Blank);
    assert_eq!(read_line("  {\"id\":1}  \n"), LineOutcome::Message(doc(r#"{"id":1}"#)));
    match read_line("WARN something odd") {
        LineOutcome::Garbage { log } => {
            assert!(log.starts_with("codex stdout non-JSON line (ignored): "));
            assert!(log.ends_with(": WARN something odd"));
        }
        other => panic!("{:?}", other),
    }
}

#[test]
fn garbage_is_noted_with_its_first_characters_only() {
    let long = "é".repeat(500);
    match read_line(&long) {
        LineOutcome::Garbage { log } => {
            let snippet = "é".repeat(220);
            assert!(log.ends_with(&format!(": {}", snippet)));
            assert!(!log.ends_with(&format!("é: {}", snippet)));
        }
        other => panic!("{:?}", other),
    }
}

#[test]
fn garbage_is_noted_with_the_complaint_of_the_parser() {
    let complaint = parse_json("nope {").unwrap_err().message;
    assert!(complaint.contains("line 1"));
    assert_eq!(
        read_line("  nope {  "),
        LineOutcome::Garbage {
            log: format!("codex stdout non-JSON line (ignored): {}: nope {{", complaint)
        }
    );
}
