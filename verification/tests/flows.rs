use local_ai_hub::flows::{BootEvent, BootStep, Booting, Event, Step, TurnStart, Waiting};
use local_ai_hub::json::{parse_json, Json};
use local_ai_hub::runtime::CodexCore;
use local_ai_hub::threads::ChatThreads;

fn doc(text: &str) -> Json {
    parse_json(text).unwrap()
}

fn core_with(entries: &[(i64, &str)]) -> CodexCore {
    let mut threads = ChatThreads::new();
    for (chat, thread) in entries {
        threads.insert(*chat, thread.to_string());
    }
    CodexCore::new(threads, None)
}

/// Takes one step and expects a request of the given method; gives its text.
fn expect_send(core: &mut CodexCore, flow: TurnStart, event: Event, method: &str) -> (TurnStart, String, bool) {
    let (flow, step) = core.advance(flow, event);
    match step {
        Step::Send { request, method: m, store, .. } => {
            assert_eq!(m, method);
            (flow, request.message.to_text().unwrap(), store)
        }
        other => panic!("{:?}", other),
    }
}

fn answered(text: &str) -> Event {
    Event::Answer(Ok(doc(text)))
}

fn failed(text: &str) -> Event {
    Event::Answer(Err(text.to_string()))
}

const NO_ROLLOUT: &str = r#"{"code":-32600,"message":"no rollout found for thread id t-old"}"#;

#[test]
fn start_of_a_turn_for_a_chat_without_a_thread() {
    let mut core = core_with(&[]);
    let flow = core.begin_start(42, "  Hello ").unwrap();
    assert_eq!(flow.text, "Hello");
    assert_eq!(flow.waiting, Waiting::Ready);
    let (flow, text, _) = expect_send(&mut core, flow, Event::Ready(Ok(())), "account/read");
    assert_eq!(text, r#"{"id":1,"method":"account/read","params":{"refreshToken":false}}"#);
    assert_eq!(flow.waiting, Waiting::Account);
    let (flow, text, store) = expect_send(
        &mut core,
        flow,
        answered(r#"{"requiresOpenaiAuth":true,"account":{"type":"chatgpt"}}"#),
        "thread/start",
    );
    assert_eq!(
        text,
        r#"{"id":2,"method":"thread/start","params":{"approvalPolicy":"never","sandbox":"read-only"}}"#
    );
    assert!(!store);
    assert_eq!(core.status().auth_mode, Some("chatgpt".to_string()));
    let (flow, step) = core.advance(flow, answered(r#"{"thread":{"id":"th-1"}}"#));
    assert_eq!(step, Step::Store);
    assert_eq!(core.chat_threads.get(42), Some("th-1".to_string()));
    let (flow, text, _) = expect_send(&mut core, flow, Event::Stored(Ok(())), "turn/start");
    assert_eq!(
        text,
        r#"{"id":3,"method":"turn/start","params":{"approvalPolicy":"never","input":[{"text":"Hello","type":"text"}],"threadId":"th-1"}}"#
    );
    let (flow, step) = core.advance(flow, answered(r#"{"turn":{"id":"turn-1"}}"#));
    assert_eq!(step, Step::Started { turn_id: "turn-1".to_string() });
    assert_eq!(flow.waiting, Waiting::Over);
    assert_eq!(core.turns.len(), 1);
    assert_eq!(core.turns[0].chat_id, 42);
    assert!(core.busy_chats.contains(42));
}

#[test]
fn start_is_refused_for_a_busy_chat_and_a_blank_message() {
    let mut core = core_with(&[]);
    core.begin_start(1, "a").unwrap();
    assert_eq!(core.begin_start(1, "b"), Err("Busy".to_string()));
    assert_eq!(core.begin_start(2, "  "), Err("Empty message".to_string()));
    assert!(!core.busy_chats.contains(2));
}

#[test]
fn start_fails_when_the_runtime_does_not_come_up() {
    let mut core = core_with(&[]);
    let flow = core.begin_start(1, "a").unwrap();
    let (flow, step) = core.advance(flow, Event::Ready(Err("Codex is not installed.".to_string())));
    assert_eq!(step, Step::Failed { error: "Codex is not installed.".to_string() });
    assert_eq!(flow.waiting, Waiting::Over);
    assert!(!core.busy_chats.contains(1));
    assert!(core.pending.is_empty());
}

#[test]
fn start_is_refused_without_a_sign_in() {
    let mut core = core_with(&[(1, "t")]);
    let flow = core.begin_start(1, "a").unwrap();
    let (flow, _, _) = expect_send(&mut core, flow, Event::Ready(Ok(())), "account/read");
    let (_, step) = core.advance(flow, answered(r#"{"requiresOpenaiAuth":true,"account":null}"#));
    assert_eq!(
        step,
        Step::Failed {
            error: "Codex requires sign-in. Open AI Core -> Codex settings and sign in (ChatGPT)."
                .to_string()
        }
    );
    assert!(!core.busy_chats.contains(1));
    assert_eq!(core.status().last_error, Some("Sign in required".to_string()));
    assert_eq!(core.pending, vec![1]);
}

#[test]
fn a_failed_account_read_is_no_obstacle() {
    let mut core = core_with(&[]);
    let flow = core.begin_start(1, "a").unwrap();
    let (flow, _, _) = expect_send(&mut core, flow, Event::Ready(Ok(())), "account/read");
    let (flow, _, _) = expect_send(&mut core, flow, failed("codex request timeout: account/read"), "thread/start");
    assert_eq!(flow.waiting, Waiting::Thread);
}

#[test]
fn a_stored_thread_is_resumed_once() {
    let mut core = core_with(&[(7, "t-old")]);
    let flow = core.begin_start(7, "first").unwrap();
    let (flow, _, _) = expect_send(&mut core, flow, Event::Ready(Ok(())), "account/read");
    let (flow, text, _) = expect_send(&mut core, flow, answered("{}"), "thread/resume");
    assert_eq!(
        text,
        r#"{"id":2,"method":"thread/resume","params":{"approvalPolicy":"never","sandbox":"read-only","threadId":"t-old"}}"#
    );
    let (flow, text, _) = expect_send(&mut core, flow, answered("{}"), "turn/start");
    assert!(text.contains(r#""threadId":"t-old""#));
    assert!(core.resumed_threads.contains("t-old"));
    let (_, step) = core.advance(flow, answered(r#"{"turn":{"id":"a"}}"#));
    assert_eq!(step, Step::Started { turn_id: "a".to_string() });
    core.turn_timed_out("a");

    let flow = core.begin_start(7, "second").unwrap();
    let (flow, _, _) = expect_send(&mut core, flow, Event::Ready(Ok(())), "account/read");
    let (_, text, _) = expect_send(&mut core, flow, answered("{}"), "turn/start");
    assert!(text.contains(r#""threadId":"t-old""#));
}

#[test]
fn a_lost_thread_is_replaced_when_it_is_resumed() {
    let mut core = core_with(&[(7, "t-old"), (8, "t-other")]);
    core.register_turn("x".to_string(), 8);
    let flow = core.begin_start(7, "hi").unwrap();
    let (flow, _, _) = expect_send(&mut core, flow, Event::Ready(Ok(())), "account/read");
    let (flow, _, _) = expect_send(&mut core, flow, answered("{}"), "thread/resume");
    let (flow, step) = core.advance(flow, failed(NO_ROLLOUT));
    match step {
        Step::Send { method, dropped, store, .. } => {
            assert_eq!(method, "thread/start");
            assert_eq!(dropped, vec!["x".to_string()]);
            assert!(store);
        }
        other => panic!("{:?}", other),
    }
    assert!(!flow.retried);
    assert!(core.chat_threads.entries.is_empty());
    assert!(core.turns.is_empty());
    assert!(core.busy_chats.items.is_empty());
}

#[test]
fn turn_start_is_retried_once_after_a_lost_thread() {
    let mut core = core_with(&[(7, "t-old")]);
    core.thread_resumed("t-old".to_string());
    let flow = core.begin_start(7, "hi").unwrap();
    let (flow, _, _) = expect_send(&mut core, flow, Event::Ready(Ok(())), "account/read");
    let (flow, text, _) = expect_send(&mut core, flow, answered("{}"), "turn/start");
    assert!(text.contains(r#""threadId":"t-old""#));
    let (flow, _, store) = expect_send(&mut core, flow, failed(NO_ROLLOUT), "thread/start");
    assert!(store);
    assert!(flow.retried);
    assert!(core.chat_threads.entries.is_empty());
    let (flow, step) = core.advance(flow, answered(r#"{"thread":{"id":"t-new"}}"#));
    assert_eq!(step, Step::Store);
    let (flow, text, _) = expect_send(&mut core, flow, Event::Stored(Ok(())), "turn/start");
    assert!(text.contains(r#""threadId":"t-new""#));
    let (_, step) = core.advance(flow, answered(r#"{"turn":{"id":"turn-2"}}"#));
    assert_eq!(step, Step::Started { turn_id: "turn-2".to_string() });
    assert_eq!(core.chat_threads.get(7), Some("t-new".to_string()));
}

#[test]
fn a_second_failure_of_turn_start_surfaces() {
    let mut core = core_with(&[(7, "t-old")]);
    core.thread_resumed("t-old".to_string());
    let flow = core.begin_start(7, "hi").unwrap();
    let (flow, _, _) = expect_send(&mut core, flow, Event::Ready(Ok(())), "account/read");
    let (flow, _, _) = expect_send(&mut core, flow, answered("{}"), "turn/start");
    let (flow, _, _) = expect_send(&mut core, flow, failed(NO_ROLLOUT), "thread/start");
    let (flow, _) = core.advance(flow, answered(r#"{"thread":{"id":"t-new"}}"#));
    let (flow, _, _) = expect_send(&mut core, flow, Event::Stored(Ok(())), "turn/start");
    let (flow, step) = core.advance(flow, failed(NO_ROLLOUT));
    assert_eq!(step, Step::Failed { error: NO_ROLLOUT.to_string() });
    assert_eq!(flow.waiting, Waiting::Over);
    assert_eq!(core.chat_threads.get(7), Some("t-new".to_string()));
}

#[test]
fn other_failures_of_turn_start_surface_at_once() {
    let mut core = core_with(&[(7, "t")]);
    core.thread_resumed("t".to_string());
    let flow = core.begin_start(7, "hi").unwrap();
    let (flow, _, _) = expect_send(&mut core, flow, Event::Ready(Ok(())), "account/read");
    let (flow, _, _) = expect_send(&mut core, flow, answered("{}"), "turn/start");
    let (_, step) = core.advance(flow, failed("codex request timeout: turn/start"));
    assert_eq!(step, Step::Failed { error: "codex request timeout: turn/start".to_string() });
    assert!(!core.busy_chats.contains(7));
    assert_eq!(core.chat_threads.get(7), Some("t".to_string()));
}

#[test]
fn a_thread_that_cannot_be_stored_fails_the_start() {
    let mut core = core_with(&[]);
    let flow = core.begin_start(1, "a").unwrap();
    let (flow, _, _) = expect_send(&mut core, flow, Event::Ready(Ok(())), "account/read");
    let (flow, _, _) = expect_send(&mut core, flow, answered("{}"), "thread/start");
    let (flow, step) = core.advance(flow, answered(r#"{"thread":{"id":"t"}}"#));
    assert_eq!(step, Step::Store);
    let (_, step) = core.advance(flow, Event::Stored(Err("write codex state failed: disk full".to_string())));
    assert_eq!(step, Step::Failed { error: "write codex state failed: disk full".to_string() });
    assert!(!core.busy_chats.contains(1));
}

#[test]
fn answers_without_ids_fail_the_start() {
    let mut core = core_with(&[]);
    let flow = core.begin_start(1, "a").unwrap();
    let (flow, _, _) = expect_send(&mut core, flow, Event::Ready(Ok(())), "account/read");
    let (flow, _, _) = expect_send(&mut core, flow, answered("{}"), "thread/start");
    let (_, step) = core.advance(flow, answered(r#"{"thread":{}}"#));
    assert_eq!(step, Step::Failed { error: "thread/start response missing thread.id".to_string() });

    let mut core = core_with(&[(1, "t")]);
    core.thread_resumed("t".to_string());
    let flow = core.begin_start(1, "a").unwrap();
    let (flow, _, _) = expect_send(&mut core, flow, Event::Ready(Ok(())), "account/read");
    let (flow, _, _) = expect_send(&mut core, flow, answered("{}"), "turn/start");
    let (_, step) = core.advance(flow, answered(r#"{"turn":{"id":7}}"#));
    assert_eq!(step, Step::Failed { error: "turn/start response missing turn.id".to_string() });
    assert!(core.turns.is_empty());
    assert!(!core.busy_chats.contains(1));
}

#[test]
fn events_out_of_order_fail_the_start() {
    let mut core = core_with(&[]);
    let flow = core.begin_start(1, "a").unwrap();
    let (flow, step) = core.advance(flow, Event::Stored(Ok(())));
    assert_eq!(step, Step::Failed { error: "codex turn start out of order".to_string() });
    assert!(!core.busy_chats.contains(1));
    let (_, step) = core.advance(flow, answered("{}"));
    assert_eq!(step, Step::Failed { error: "codex turn start out of order".to_string() });
}

#[test]
fn advance_with_takes_the_lost_thread_as_given() {
    let mut core = core_with(&[(7, "t")]);
    core.thread_resumed("t".to_string());
    let flow = core.begin_start(7, "hi").unwrap();
    let (flow, _, _) = expect_send(&mut core, flow, Event::Ready(Ok(())), "account/read");
    let (flow, _, _) = expect_send(&mut core, flow, answered("{}"), "turn/start");
    let (flow, step) = core.advance_with(flow, failed("whatever"), Some("t".to_string()));
    assert!(matches!(step, Step::Send { store: true, .. }));
    assert!(flow.retried);
}

#[test]
fn the_runtime_is_brought_up_step_by_step() {
    let mut core = core_with(&[]);
    let (stage, step) = core.boot(Booting::Begin, BootEvent::Begin, "1.0.0");
    assert_eq!((stage, &step), (Booting::Spawn, &BootStep::Spawn));
    let (stage, step) = core.boot(stage, BootEvent::Spawned(Ok(())), "1.0.0");
    assert_eq!(stage, Booting::Handshake);
    match step {
        BootStep::Send { request, method } => {
            assert_eq!(method, "initialize");
            assert_eq!(
                request.message.to_text().unwrap(),
                r#"{"id":1,"method":"initialize","params":{"clientInfo":{"name":"local-ai-hub","title":"Local AI Hub","version":"1.0.0"}}}"#
            );
        }
        other => panic!("{:?}", other),
    }
    assert!(core.status().running);
    let (stage, step) = core.boot(stage, BootEvent::Answer(Ok(doc("{}"))), "1.0.0");
    assert_eq!(stage, Booting::Notify);
    match step {
        BootStep::Notify { message } => {
            assert_eq!(message.to_text().unwrap(), r#"{"method":"initialized"}"#)
        }
        other => panic!("{:?}", other),
    }
    assert!(!core.status().initialized);
    let (stage, step) = core.boot(stage, BootEvent::Written(Ok(())), "1.0.0");
    assert_eq!(stage, Booting::Account);
    assert!(matches!(step, BootStep::Send { ref method, .. } if method == "account/read"));
    assert!(core.status().initialized);
    let (stage, step) = core.boot(
        stage,
        BootEvent::Answer(Ok(doc(r#"{"account":{"type":"chatgpt"}}"#))),
        "1.0.0",
    );
    assert_eq!((stage, step), (Booting::Over, BootStep::Ready));
    assert_eq!(core.status().auth_mode, Some("chatgpt".to_string()));

    let (stage, step) = core.boot(Booting::Begin, BootEvent::Begin, "1.0.0");
    assert_eq!((stage, step), (Booting::Over, BootStep::Ready));
}

#[test]
fn a_running_runtime_is_only_initialized() {
    let mut core = core_with(&[]);
    core.mark_started();
    let (stage, step) = core.boot(Booting::Begin, BootEvent::Begin, "1");
    assert_eq!(stage, Booting::Handshake);
    assert!(matches!(step, BootStep::Send { .. }));
}

#[test]
fn failures_end_the_bringing_up() {
    let mut core = core_with(&[]);
    assert_eq!(
        core.boot(Booting::Spawn, BootEvent::Spawned(Err("no node".to_string())), "1"),
        (Booting::Over, BootStep::Failed { error: "no node".to_string() })
    );
    assert_eq!(
        core.boot(Booting::Handshake, BootEvent::Answer(Err("timeout".to_string())), "1"),
        (Booting::Over, BootStep::Failed { error: "timeout".to_string() })
    );
    assert_eq!(
        core.boot(Booting::Notify, BootEvent::Written(Err("write failed: x".to_string())), "1"),
        (Booting::Over, BootStep::Failed { error: "write failed: x".to_string() })
    );
    assert!(!core.status().initialized);
    assert_eq!(
        core.boot(Booting::Account, BootEvent::Answer(Err("timeout".to_string())), "1"),
        (Booting::Over, BootStep::Ready)
    );
    assert_eq!(
        core.boot(Booting::Over, BootEvent::Begin, "1"),
        (Booting::Over, BootStep::Failed { error: "codex start out of order".to_string() })
    );
}

#[test]
fn forgetting_every_thread_frees_every_chat() {
    let mut core = core_with(&[(7, "t-old")]);
    core.thread_resumed("t-old".to_string());
    let flow = core.begin_start(7, "hi").unwrap();
    let (flow, _, _) = expect_send(&mut core, flow, Event::Ready(Ok(())), "account/read");
    let (flow, _, _) = expect_send(&mut core, flow, answered("{}"), "turn/start");
    let (_flow, _, store) = expect_send(&mut core, flow, failed(NO_ROLLOUT), "thread/start");
    assert!(store);
    assert!(!core.busy_chats.contains(7));
    assert!(core.begin_start(7, "again").is_ok());
}
