use local_ai_hub::json::{parse_json, Json};
use local_ai_hub::protocol::wire_line;
use local_ai_hub::runtime::{CodexCore, Effect};
use local_ai_hub::session::{
    account_ready, build_account_read_params, build_initialize_params, build_login_start_params,
    request_cancelled_error, request_timeout_error, ThreadPlan,
};
use local_ai_hub::threads::ChatThreads;

fn doc(text: &str) -> Json {
    parse_json(text).unwrap()
}

fn fresh() -> CodexCore {
    CodexCore::new(ChatThreads::new(), None)
}

fn feed(core: &mut CodexCore, line: &str) -> Vec<Effect> {
    core.handle_server_msg(&doc(line))
}

/// Sends a request and answers it with `result`; gives the effects of the answer.
fn round_trip(core: &mut CodexCore, method: &str, params: Json, result: &str) -> Json {
    let out = core.send_request(method, params).unwrap();
    let effects = feed(core, &format!(r#"{{"id":{},"result":{}}}"#, out.id, result));
    match effects.into_iter().next() {
        Some(Effect::RequestDone { id, outcome }) => {
            assert_eq!(id, out.id);
            outcome.unwrap()
        }
        other => panic!("{:?}", other),
    }
}

fn start_turn(core: &mut CodexCore, chat_id: i64, text: &str, thread: &str, turn: &str) {
    let text = core.begin_turn(chat_id, text).unwrap();
    assert_eq!(core.plan_thread(chat_id), ThreadPlan::Start);
    let params = core.build_thread_start_params();
    let res = round_trip(core, "thread/start", params, &format!(r#"{{"thread":{{"id":"{}"}}}}"#, thread));
    let thread_id = core.thread_started(chat_id, &res).unwrap();
    let params = core.build_turn_start_params(&thread_id, &text);
    let res = round_trip(core, "turn/start", params, &format!(r#"{{"turn":{{"id":"{}"}}}}"#, turn));
    assert_eq!(core.turn_started(chat_id, &res).unwrap(), turn);
}

#[test]
fn happy_path_of_a_turn() {
    let mut core = fresh();
    assert!(core.needs_start());
    core.mark_started();
    assert!(core.status().running);
    assert!(core.needs_initialize());
    let out = core.send_request("initialize", build_initialize_params("1.2.3")).unwrap();
    assert_eq!(out.id, 1);
    assert_eq!(
        wire_line(&out.message).unwrap(),
        "{\"id\":1,\"method\":\"initialize\",\"params\":{\"clientInfo\":{\"name\":\"local-ai-hub\",\"title\":\"Local AI Hub\",\"version\":\"1.2.3\"}}}\n"
    );
    let done = feed(&mut core, r#"{"id":1,"result":{"userAgent":"x"}}"#);
    assert_eq!(
        done,
        vec![Effect::RequestDone { id: 1, outcome: Ok(doc(r#"{"userAgent":"x"}"#)) }]
    );
    core.mark_initialized();
    assert!(core.status().initialized);
    let res = round_trip(
        &mut core,
        "account/read",
        build_account_read_params(),
        r#"{"requiresOpenaiAuth":true,"account":{"type":"chatgpt"}}"#,
    );
    assert_eq!(core.apply_account_state(&res), (true, true));
    assert_eq!(account_ready(true, true), Ok(()));
    assert_eq!(core.status().auth_mode, Some("chatgpt".to_string()));

    start_turn(&mut core, 42, "Hello", "th-1", "turn-1");
    assert!(core.busy_chats.contains(42));
    assert_eq!(core.turns.len(), 1);

    let mut chunks: Vec<String> = vec![];
    for delta in ["Hi. ", "How are you? ", "I am fine."] {
        let line = format!(
            r#"{{"method":"item/agentMessage/delta","params":{{"turnId":"turn-1","delta":"{}"}}}}"#,
            delta
        );
        for e in feed(&mut core, &line) {
            match e {
                Effect::Chunk { turn_id, text } => {
                    assert_eq!(turn_id, "turn-1");
                    chunks.push(text);
                }
                other => panic!("{:?}", other),
            }
        }
    }
    assert!(core.busy_chats.contains(42));
    let effects = feed(
        &mut core,
        r#"{"method":"turn/completed","params":{"turn":{"id":"turn-1","status":"completed"}}}"#,
    );
    let mut done = None;
    for e in effects {
        match e {
            Effect::Chunk { text, .. } => {
                assert!(done.is_none());
                chunks.push(text);
            }
            Effect::TurnDone { turn_id, chat_id, outcome } => {
                assert_eq!(turn_id, "turn-1");
                assert_eq!(chat_id, 42);
                done = Some(outcome);
            }
            other => panic!("{:?}", other),
        }
    }
    assert!(!chunks.is_empty());
    assert_eq!(chunks.concat(), "Hi. How are you? I am fine.");
    assert_eq!(done, Some(Ok("Hi. How are you? I am fine.".to_string())));
    assert!(!core.busy_chats.contains(42));
    assert!(core.busy_chats.items.is_empty());
    assert!(core.turns.is_empty());
    assert!(core.pending.is_empty());
}

#[test]
fn a_lost_thread_is_recovered_by_hand() {
    let mut threads = ChatThreads::new();
    threads.insert(7, "t-old".to_string());
    let mut core = CodexCore::new(threads, None);
    core.mark_started();
    core.mark_initialized();
    let text = core.begin_turn(7, " Hello ").unwrap();
    assert_eq!(text, "Hello");
    assert_eq!(core.plan_thread(7), ThreadPlan::Resume("t-old".to_string()));
    let params = core.build_thread_resume_params("t-old");
    assert_eq!(
        params.to_text().unwrap(),
        r#"{"approvalPolicy":"never","sandbox":"read-only","threadId":"t-old"}"#
    );
    round_trip(&mut core, "thread/resume", params, "{}");
    core.thread_resumed("t-old".to_string());
    assert_eq!(core.plan_thread(7), ThreadPlan::Ready("t-old".to_string()));

    let params = core.build_turn_start_params("t-old", &text);
    assert_eq!(
        params.to_text().unwrap(),
        r#"{"approvalPolicy":"never","input":[{"text":"Hello","type":"text"}],"threadId":"t-old"}"#
    );
    let out = core.send_request("turn/start", params).unwrap();
    let effects = feed(
        &mut core,
        &format!(
            r#"{{"id":{},"error":{{"code":-32600,"message":"no rollout found for thread id t-old"}}}}"#,
            out.id
        ),
    );
    let err = match effects.into_iter().next() {
        Some(Effect::RequestDone { outcome: Err(e), .. }) => e,
        other => panic!("{:?}", other),
    };
    assert_eq!(err, r#"{"code":-32600,"message":"no rollout found for thread id t-old"}"#);
    let dropped = core.recover_no_rollout(&err);
    assert_eq!(dropped, Some(vec![]));
    assert!(core.chat_threads.entries.is_empty());
    assert!(core.resumed_threads.items.is_empty());
    assert_eq!(core.plan_thread(7), ThreadPlan::Start);

    let params = core.build_thread_start_params();
    let res = round_trip(&mut core, "thread/start", params, r#"{"thread":{"id":"t-new"}}"#);
    assert_eq!(core.thread_started(7, &res), Ok("t-new".to_string()));
    assert_eq!(core.chat_threads.get(7), Some("t-new".to_string()));
    let params = core.build_turn_start_params("t-new", &text);
    let res = round_trip(&mut core, "turn/start", params, r#"{"turn":{"id":"turn-2"}}"#);
    assert_eq!(core.turn_started(7, &res), Ok("turn-2".to_string()));
    feed(
        &mut core,
        r#"{"method":"item/agentMessage/delta","params":{"turnId":"turn-2","delta":"Done."}}"#,
    );
    let effects = feed(
        &mut core,
        r#"{"method":"turn/completed","params":{"turn":{"id":"turn-2","status":"completed"}}}"#,
    );
    assert_eq!(
        effects,
        vec![
            Effect::Chunk { turn_id: "turn-2".to_string(), text: "Done.".to_string() },
            Effect::TurnDone {
                turn_id: "turn-2".to_string(),
                chat_id: 7,
                outcome: Ok("Done.".to_string())
            },
        ]
    );
}

#[test]
fn recovery_leaves_other_errors_alone() {
    let mut threads = ChatThreads::new();
    threads.insert(7, "t-old".to_string());
    let mut core = CodexCore::new(threads, None);
    assert_eq!(core.recover_no_rollout("codex request timeout: turn/start"), None);
    assert_eq!(core.chat_threads.get(7), Some("t-old".to_string()));
}

#[test]
fn disconnect_during_a_turn() {
    let mut core = fresh();
    core.mark_started();
    core.mark_initialized();
    start_turn(&mut core, 5, "Hello", "th", "turn-1");
    feed(
        &mut core,
        r#"{"method":"item/agentMessage/delta","params":{"turnId":"turn-1","delta":"Partial"}}"#,
    );
    let a = core.send_request("account/read", Json::Null).unwrap();
    let b = core.send_request("thread/start", Json::Null).unwrap();
    let effects = core.handle_disconnect();
    assert_eq!(
        effects,
        vec![
            Effect::RequestDone { id: a.id, outcome: Err("codex app-server stopped".to_string()) },
            Effect::RequestDone { id: b.id, outcome: Err("codex app-server stopped".to_string()) },
            Effect::TurnDone {
                turn_id: "turn-1".to_string(),
                chat_id: 5,
                outcome: Err("Codex disconnected".to_string())
            },
        ]
    );
    assert!(core.busy_chats.items.is_empty());
    assert!(core.turns.is_empty());
    assert!(core.pending.is_empty());
    let status = core.status();
    assert!(!status.running);
    assert!(!status.initialized);
    assert_eq!(status.last_error, Some("codex app-server stopped".to_string()));
    assert!(core.needs_start());
}

#[test]
fn disconnect_keeps_an_error_that_is_already_noted() {
    let mut core = fresh();
    core.fail_start("boom".to_string());
    core.handle_disconnect();
    assert_eq!(core.status().last_error, Some("boom".to_string()));
}

#[test]
fn disconnect_frees_only_the_chats_of_turns() {
    let mut core = fresh();
    start_turn(&mut core, 1, "a", "th1", "turn-1");
    core.begin_turn(2, "b").unwrap();
    core.handle_disconnect();
    assert!(!core.busy_chats.contains(1));
    assert!(core.busy_chats.contains(2));
    core.release_chat(2);
    assert!(core.busy_chats.items.is_empty());
}

#[test]
fn double_start_on_the_same_chat() {
    let mut core = fresh();
    assert_eq!(core.begin_turn(99, "first"), Ok("first".to_string()));
    let pending_before = core.pending.clone();
    assert_eq!(core.begin_turn(99, "second"), Err("Busy".to_string()));
    assert_eq!(core.pending, pending_before);
    assert!(core.busy_chats.contains(99));
    assert_eq!(core.begin_turn(98, "other chat"), Ok("other chat".to_string()));
}

#[test]
fn blank_message_is_refused_before_the_chat_is_busy() {
    let mut core = fresh();
    assert_eq!(core.begin_turn(1, "  \n "), Err("Empty message".to_string()));
    assert_eq!(core.begin_turn(1, ""), Err("Empty message".to_string()));
    assert!(!core.busy_chats.contains(1));
    core.begin_turn(1, "x").unwrap();
    assert_eq!(core.begin_turn(1, " "), Err("Empty message".to_string()));
}

#[test]
fn chat_is_free_again_after_a_failed_start() {
    let mut core = fresh();
    core.begin_turn(3, "x").unwrap();
    core.release_chat(3);
    assert_eq!(core.begin_turn(3, "y"), Ok("y".to_string()));
}

#[test]
fn request_ids_start_at_one_and_increase() {
    let mut core = fresh();
    let mut last = 0;
    for _ in 0..50 {
        let out = core.send_request("m", Json::Null).unwrap();
        assert_eq!(out.id, last + 1);
        last = out.id;
    }
    assert_eq!(core.pending, (1..=50).collect::<Vec<u64>>());
    feed(&mut core, r#"{"id":7,"result":null}"#);
    feed(&mut core, r#"{"id":7,"result":null}"#);
    assert_eq!(core.pending.len(), 49);
    assert!(!core.pending.contains(&7));
    let out = core.send_request("m", Json::Null).unwrap();
    assert_eq!(out.id, 51);
}

#[test]
fn request_ids_run_out_at_the_largest_number() {
    let mut core = fresh();
    core.next_id = u64::MAX - 1;
    assert_eq!(core.send_request("m", Json::Null).unwrap().id, u64::MAX - 1);
    assert_eq!(
        core.send_request("m", Json::Null),
        Err("codex request ids exhausted".to_string())
    );
    assert_eq!(core.pending, vec![u64::MAX - 1]);
}

#[test]
fn responses_to_unknown_requests_are_dropped() {
    let mut core = fresh();
    core.send_request("m", Json::Null).unwrap();
    assert!(feed(&mut core, r#"{"id":2,"result":1}"#).is_empty());
    assert!(feed(&mut core, r#"{"id":"1","result":1}"#).is_empty());
    assert!(feed(&mut core, r#"{"id":-1,"result":1}"#).is_empty());
    assert_eq!(core.pending, vec![1]);
    assert_eq!(
        feed(&mut core, r#"{"id":1,"error":"no"}"#),
        vec![Effect::RequestDone { id: 1, outcome: Err("\"no\"".to_string()) }]
    );
    assert!(core.pending.is_empty());
}

#[test]
fn server_requests_get_their_reply_as_an_effect() {
    let mut core = fresh();
    let effects = feed(
        &mut core,
        r#"{"id":11,"method":"item/commandExecution/requestApproval","params":{"command":"rm"}}"#,
    );
    match &effects[..] {
        [Effect::Send { message }] => {
            assert_eq!(
                wire_line(message).unwrap(),
                "{\"id\":11,\"result\":{\"decision\":\"decline\"}}\n"
            );
        }
        other => panic!("{:?}", other),
    }
    assert!(feed(&mut core, r#"{"id":12,"method":"something/else"}"#).is_empty());
}

#[test]
fn deltas_for_unknown_turns_are_dropped() {
    let mut core = fresh();
    let effects = feed(
        &mut core,
        r#"{"method":"item/agentMessage/delta","params":{"turnId":"nope","delta":"x"}}"#,
    );
    assert!(effects.is_empty());
    assert!(core.turns.is_empty());
}

#[test]
fn item_completed_replaces_a_shorter_buffer_only() {
    let mut core = fresh();
    start_turn(&mut core, 1, "q", "th", "t1");
    feed(&mut core, r#"{"method":"item/x/delta","params":{"turnId":"t1","delta":"abcdef"}}"#);
    feed(
        &mut core,
        r#"{"method":"item/completed","params":{"turnId":"t1","item":{"type":"agentMessage","text":"abc"}}}"#,
    );
    assert_eq!(core.turns[0].full_text, "abcdef");
    feed(
        &mut core,
        r#"{"method":"item/completed","params":{"turnId":"t1","item":{"type":"agentMessage","text":"abcdefgh"}}}"#,
    );
    assert_eq!(core.turns[0].full_text, "abcdefgh");
    feed(
        &mut core,
        r#"{"method":"item/completed","params":{"turnId":"t1","item":{"type":"reasoning","text":"a much longer text than before"}}}"#,
    );
    assert_eq!(core.turns[0].full_text, "abcdefgh");
}

#[test]
fn failed_turn_surfaces_its_error() {
    let mut core = fresh();
    start_turn(&mut core, 1, "q", "th", "t1");
    let effects = feed(
        &mut core,
        r#"{"method":"turn/completed","params":{"turn":{"id":"t1","status":"failed","error":{"message":"model overloaded"}}}}"#,
    );
    assert_eq!(
        effects,
        vec![Effect::TurnDone {
            turn_id: "t1".to_string(),
            chat_id: 1,
            outcome: Err("model overloaded".to_string())
        }]
    );
    start_turn(&mut core, 2, "q", "th2", "t2");
    let effects = feed(
        &mut core,
        r#"{"method":"turn/completed","params":{"turn":{"id":"t2","status":"failed"}}}"#,
    );
    assert_eq!(
        effects,
        vec![Effect::TurnDone {
            turn_id: "t2".to_string(),
            chat_id: 2,
            outcome: Err("Turn failed".to_string())
        }]
    );
}

#[test]
fn turn_timer_fails_a_turn_that_is_still_in_flight() {
    let mut core = fresh();
    start_turn(&mut core, 4, "q", "th", "t1");
    assert!(core.turn_timed_out("other").is_empty());
    assert_eq!(
        core.turn_timed_out("t1"),
        vec![Effect::TurnDone {
            turn_id: "t1".to_string(),
            chat_id: 4,
            outcome: Err("Codex timeout".to_string())
        }]
    );
    assert!(!core.busy_chats.contains(4));
    assert!(core.turn_timed_out("t1").is_empty());
}

#[test]
fn one_turn_per_chat_while_turns_of_other_chats_run() {
    let mut core = fresh();
    start_turn(&mut core, 1, "a", "th1", "t1");
    start_turn(&mut core, 2, "b", "th2", "t2");
    assert_eq!(core.begin_turn(1, "again"), Err("Busy".to_string()));
    assert_eq!(core.begin_turn(2, "again"), Err("Busy".to_string()));
    feed(
        &mut core,
        r#"{"method":"turn/completed","params":{"turn":{"id":"t1","status":"completed"}}}"#,
    );
    assert_eq!(core.begin_turn(2, "again"), Err("Busy".to_string()));
    assert_eq!(core.begin_turn(1, "again"), Ok("again".to_string()));
    let chats: Vec<i64> = core.turns.iter().map(|t| t.chat_id).collect();
    assert_eq!(chats, vec![2]);
}

#[test]
fn registering_a_turn_replaces_one_of_the_same_id() {
    let mut core = fresh();
    core.register_turn("t".to_string(), 1);
    core.turns[0].push_text("old");
    core.register_turn("u".to_string(), 2);
    core.register_turn("t".to_string(), 3);
    let ids: Vec<(&str, i64, &str)> = core
        .turns
        .iter()
        .map(|t| (t.turn_id.as_str(), t.chat_id, t.full_text.as_str()))
        .collect();
    assert_eq!(ids, vec![("u", 2, ""), ("t", 3, "")]);
}

#[test]
fn reset_is_idempotent() {
    let mut threads = ChatThreads::new();
    threads.insert(1, "a".to_string());
    threads.insert(2, "b".to_string());
    let mut core = CodexCore::new(threads, Some("/w".to_string()));
    core.thread_resumed("a".to_string());
    start_turn(&mut core, 3, "x", "c", "t3");
    core.begin_turn(4, "y").unwrap();
    let dropped = core.reset_threads();
    assert_eq!(dropped, vec!["t3".to_string()]);
    assert!(core.chat_threads.entries.is_empty());
    assert!(core.resumed_threads.items.is_empty());
    assert!(core.busy_chats.items.is_empty());
    assert!(core.turns.is_empty());
    let pending = core.pending.clone();
    assert!(core.reset_threads().is_empty());
    assert!(core.chat_threads.entries.is_empty());
    assert!(core.resumed_threads.items.is_empty());
    assert_eq!(core.pending, pending);
    assert_eq!(core.default_cwd, Some("/w".to_string()));
}

#[test]
fn forgetting_one_thread_leaves_the_others() {
    let mut threads = ChatThreads::new();
    threads.insert(1, "a".to_string());
    threads.insert(2, "b".to_string());
    threads.insert(3, "a".to_string());
    let mut core = CodexCore::new(threads, None);
    core.thread_resumed("a".to_string());
    core.thread_resumed("b".to_string());
    assert!(core.reset_thread_everywhere("a"));
    assert_eq!(core.chat_threads.get(1), None);
    assert_eq!(core.chat_threads.get(3), None);
    assert_eq!(core.chat_threads.get(2), Some("b".to_string()));
    assert!(!core.resumed_threads.contains("a"));
    assert!(core.resumed_threads.contains("b"));
    assert!(!core.reset_thread_everywhere("a"));
    assert!(!core.reset_thread_everywhere("zzz"));
}

#[test]
fn params_carry_the_workspace_when_there_is_one() {
    let mut core = fresh();
    core.set_workspace_dir(Some("  /work/space ".to_string()));
    assert_eq!(
        core.build_thread_start_params().to_text().unwrap(),
        r#"{"approvalPolicy":"never","cwd":"/work/space","sandbox":"read-only"}"#
    );
    assert_eq!(
        core.build_thread_resume_params("t").to_text().unwrap(),
        r#"{"approvalPolicy":"never","cwd":"/work/space","sandbox":"read-only","threadId":"t"}"#
    );
    assert_eq!(
        core.build_turn_start_params("t", "hi").to_text().unwrap(),
        r#"{"approvalPolicy":"never","cwd":"/work/space","input":[{"text":"hi","type":"text"}],"threadId":"t"}"#
    );
    core.set_workspace_dir(Some("   ".to_string()));
    assert_eq!(core.default_cwd, None);
    assert_eq!(
        core.build_thread_start_params().to_text().unwrap(),
        r#"{"approvalPolicy":"never","sandbox":"read-only"}"#
    );
    core.set_workspace_dir(None);
    assert_eq!(core.default_cwd, None);
}

#[test]
fn missing_ids_in_answers_are_errors() {
    let mut core = fresh();
    assert_eq!(
        core.thread_started(1, &doc(r#"{"thread":{}}"#)),
        Err("thread/start response missing thread.id".to_string())
    );
    assert_eq!(
        core.thread_started(1, &doc(r#"{"thread":{"id":5}}"#)),
        Err("thread/start response missing thread.id".to_string())
    );
    assert!(core.chat_threads.entries.is_empty());
    assert_eq!(
        core.turn_started(1, &doc(r#"{}"#)),
        Err("turn/start response missing turn.id".to_string())
    );
    assert!(core.turns.is_empty());
}

#[test]
fn account_state_notes_a_missing_sign_in() {
    let mut core = fresh();
    assert_eq!(
        core.apply_account_state(&doc(r#"{"requiresOpenaiAuth":true,"account":null}"#)),
        (true, false)
    );
    assert_eq!(core.status().last_error, Some("Sign in required".to_string()));
    assert_eq!(core.status().auth_mode, None);
    assert!(account_ready(true, false).is_err());
    assert_eq!(
        account_ready(true, false).unwrap_err(),
        "Codex requires sign-in. Open AI Core -> Codex settings and sign in (ChatGPT)."
    );
    assert_eq!(
        core.apply_account_state(&doc(r#"{"requiresOpenaiAuth":true,"account":{"type":"apiKey"}}"#)),
        (true, true)
    );
    assert_eq!(core.status().last_error, None);
    assert_eq!(core.status().auth_mode, Some("apiKey".to_string()));
    core.fail_start("other".to_string());
    assert_eq!(core.apply_account_state(&doc(r#"{}"#)), (false, false));
    assert_eq!(core.status().last_error, Some("other".to_string()));
    assert_eq!(account_ready(false, false), Ok(()));
    assert_eq!(account_ready(false, true), Ok(()));
}

#[test]
fn an_account_without_a_kind_is_an_account() {
    let mut core = fresh();
    assert_eq!(
        core.apply_account_state(&doc(r#"{"requiresOpenaiAuth":true,"account":{}}"#)),
        (true, true)
    );
    assert_eq!(core.status().last_error, None);
    assert_eq!(core.status().auth_mode, None);
    assert_eq!(
        core.apply_account_state(&doc(r#"{"requiresOpenaiAuth":true,"account":"me"}"#)),
        (true, true)
    );
    assert_eq!(core.apply_account_state(&doc(r#"{"requiresOpenaiAuth":true}"#)), (true, false));
    assert_eq!(core.status().last_error, Some("Sign in required".to_string()));
}

#[test]
fn an_answer_that_opens_with_a_blank_line_is_sent_at_the_end_of_the_turn() {
    let mut core = fresh();
    start_turn(&mut core, 1, "q", "th", "t1");
    feed(&mut core, r#"{"method":"item/x/delta","params":{"turnId":"t1","delta":"\n\nA"}}"#);
    let effects = feed(
        &mut core,
        r#"{"method":"turn/completed","params":{"turn":{"id":"t1","status":"completed"}}}"#,
    );
    assert_eq!(
        effects,
        vec![
            Effect::Chunk { turn_id: "t1".to_string(), text: "A".to_string() },
            Effect::TurnDone {
                turn_id: "t1".to_string(),
                chat_id: 1,
                outcome: Ok("\n\nA".to_string())
            },
        ]
    );
}

#[test]
fn an_answer_that_opens_with_a_space_is_sent_without_it() {
    let mut core = fresh();
    start_turn(&mut core, 1, "q", "th", "t1");
    let first = "Paragraph one is long enough to cross the threshold of eighty characters. It has two sentences.";
    let delta = Json::Object(vec![
        ("method".to_string(), Json::Str("item/x/delta".to_string())),
        (
            "params".to_string(),
            Json::Object(vec![
                ("turnId".to_string(), Json::Str("t1".to_string())),
                ("delta".to_string(), Json::Str(format!(" {}\n\nParagraph two", first))),
            ]),
        ),
    ]);
    let effects = core.handle_server_msg(&delta);
    assert_eq!(effects, vec![Effect::Chunk { turn_id: "t1".to_string(), text: first.to_string() }]);
    assert_eq!(&core.turns[0].full_text[core.turns[0].sent_byte..], "Paragraph two");
}

#[test]
fn the_canonical_text_replaces_the_buffer_even_where_characters_differ() {
    let mut core = fresh();
    start_turn(&mut core, 1, "q", "th", "t1");
    feed(&mut core, r#"{"method":"item/x/delta","params":{"turnId":"t1","delta":"é."}}"#);
    core.turns[0].sent_byte = 3;
    feed(
        &mut core,
        r#"{"method":"item/completed","params":{"turnId":"t1","item":{"type":"agentMessage","text":"a€ and more"}}}"#,
    );
    assert_eq!(core.turns[0].full_text, "a€ and more");
    assert_eq!(core.turns[0].sent_byte, 1);
}

#[test]
fn login_flow_notes_and_clears_the_pending_login() {
    let mut core = fresh();
    assert_eq!(build_login_start_params().to_text().unwrap(), r#"{"type":"chatgpt"}"#);
    assert_eq!(build_account_read_params().to_text().unwrap(), r#"{"refreshToken":false}"#);
    assert_eq!(
        core.login_started(&doc(r#"{"loginId":"L1"}"#)),
        Err("login response missing authUrl".to_string())
    );
    assert_eq!(
        core.login_started(&doc(r#"{"authUrl":"https://x"}"#)),
        Err("login response missing loginId".to_string())
    );
    core.fail_start("old".to_string());
    assert_eq!(
        core.login_started(&doc(r#"{"authUrl":"https://x","loginId":"L1"}"#)),
        Ok(("https://x".to_string(), "L1".to_string()))
    );
    let st = core.status();
    assert_eq!(st.login_url, Some("https://x".to_string()));
    assert_eq!(st.login_id, Some("L1".to_string()));
    assert_eq!(st.last_error, None);

    feed(
        &mut core,
        r#"{"method":"account/login/completed","params":{"loginId":"other","success":true}}"#,
    );
    assert_eq!(core.status().login_id, Some("L1".to_string()));
    feed(
        &mut core,
        r#"{"method":"account/login/completed","params":{"loginId":"L1","success":false}}"#,
    );
    let st = core.status();
    assert_eq!(st.login_id, None);
    assert_eq!(st.login_url, None);
    assert_eq!(st.last_error, Some("Login failed".to_string()));
    feed(&mut core, r#"{"method":"account/updated","params":{"authMode":"chatgpt"}}"#);
    assert_eq!(core.status().auth_mode, Some("chatgpt".to_string()));
    core.logged_out();
    assert_eq!(core.status().auth_mode, None);
    feed(&mut core, r#"{"method":"error","params":{"m":1}}"#);
    assert_eq!(core.status().last_error, Some("codex error: {\"m\":1}".to_string()));
}

#[test]
fn stop_and_fail_start_change_the_status() {
    let mut core = fresh();
    core.mark_started();
    core.mark_initialized();
    core.stop();
    let st = core.status();
    assert!(!st.running && !st.initialized);
    assert_eq!(
        core.fail_start("Codex is not installed. Install it in Codex settings.".to_string()),
        "Codex is not installed. Install it in Codex settings."
    );
    assert_eq!(
        core.status().last_error,
        Some("Codex is not installed. Install it in Codex settings.".to_string())
    );
    core.mark_started();
    assert_eq!(core.status().last_error, None);
}

#[test]
fn request_errors_name_the_method() {
    assert_eq!(request_timeout_error("turn/start"), "codex request timeout: turn/start");
    assert_eq!(request_cancelled_error("turn/start"), "codex request cancelled: turn/start");
}
