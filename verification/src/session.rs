//! The session with the assistant: the handshake and the account, the thread
//! of each chat, the start of a turn, and the recovery when the assistant has
//! lost a thread.
//!
//! Each function is one decision between two waits. The caller sends what a
//! function builds, waits for the response, and hands it to the next.
use crate::chars::{join2, str_same, trim, trim_str};
use crate::codex_types::{opt_text, text_result, CodexStatusView};
use crate::json::{json_parse, member2, member_text, text_of, Json, JsonValue};
use crate::protocol::{
    build_request, extract_no_rollout_thread_id, no_rollout_thread_id, request_message,
};
use crate::runtime::{lemma_turn_from, turn_at, turn_views, CodexCore, CoreView};
use crate::stream::{PendingTurn, TurnView};
use crate::threads::without_thread;
use vstd::prelude::*;

verus! {

/// A request that is ready to be sent.
#[derive(Debug, PartialEq)]
pub struct Outbound {
    pub id: u64,
    pub message: Json,
}

/// What to do to get the thread of a chat.
#[derive(Debug, Clone, PartialEq)]
pub enum ThreadPlan {
    /// The chat has a thread that was resumed before: use it.
    Ready(String),
    /// The chat has a thread that was not resumed yet: resume it first.
    Resume(String),
    /// The chat has no thread: start one.
    Start,
}

/// The mathematical value of a `ThreadPlan`.
pub enum ThreadPlanView {
    Ready(Seq<char>),
    Resume(Seq<char>),
    Start,
}

impl ThreadPlan {
    /// The mathematical value.
    pub open spec fn view(&self) -> ThreadPlanView {
        match self {
            ThreadPlan::Ready(t) => ThreadPlanView::Ready(t@),
            ThreadPlan::Resume(t) => ThreadPlanView::Resume(t@),
            ThreadPlan::Start => ThreadPlanView::Start,
        }
    }
}

/// The object `{"approvalPolicy":"never"}` followed by the working directory,
/// where one is set.
pub open spec fn policy_entries(cwd: Option<Seq<char>>) -> Seq<(Seq<char>, JsonValue)> {
    match cwd {
        Some(dir) => seq![
            ("approvalPolicy"@, JsonValue::Str("never"@)),
            ("cwd"@, JsonValue::Str(dir)),
        ],
        None => seq![("approvalPolicy"@, JsonValue::Str("never"@))],
    }
}

/// The parameters of `thread/start`: never ask for approval, a read-only
/// sandbox, and the working directory where one is set.
pub open spec fn thread_start_params(cwd: Option<Seq<char>>) -> JsonValue {
    JsonValue::Object(policy_entries(cwd).push(("sandbox"@, JsonValue::Str("read-only"@))))
}

/// The parameters of `thread/resume`: those of `thread/start` and the thread.
pub open spec fn thread_resume_params(cwd: Option<Seq<char>>, thread_id: Seq<char>) -> JsonValue {
    JsonValue::Object(
        policy_entries(cwd).push(("sandbox"@, JsonValue::Str("read-only"@))).push(
            ("threadId"@, JsonValue::Str(thread_id)),
        ),
    )
}

/// The parameters of `turn/start`: never ask for approval, the working
/// directory where one is set, the text as the only input, and the thread.
pub open spec fn turn_start_params(cwd: Option<Seq<char>>, thread_id: Seq<char>, text: Seq<char>)
    -> JsonValue {
    JsonValue::Object(
        policy_entries(cwd).push(
            (
                "input"@,
                JsonValue::Array(
                    seq![
                        JsonValue::Object(
                            seq![
                                ("text"@, JsonValue::Str(text)),
                                ("type"@, JsonValue::Str("text"@)),
                            ],
                        ),
                    ],
                ),
            ),
        ).push(("threadId"@, JsonValue::Str(thread_id))),
    )
}

/// The parameters of `initialize`: who the client is.
pub open spec fn initialize_params(version: Seq<char>) -> JsonValue {
    JsonValue::Object(
        seq![
            (
                "clientInfo"@,
                JsonValue::Object(
                    seq![
                        ("name"@, JsonValue::Str("local-ai-hub"@)),
                        ("title"@, JsonValue::Str("Local AI Hub"@)),
                        ("version"@, JsonValue::Str(version)),
                    ],
                ),
            ),
        ],
    )
}

/// The parameters of `account/read`: do not refresh the token.
pub open spec fn account_read_params() -> JsonValue {
    JsonValue::Object(seq![("refreshToken"@, JsonValue::Bool(false))])
}

/// The parameters of `account/login/start`: sign in with ChatGPT.
pub open spec fn login_start_params() -> JsonValue {
    JsonValue::Object(seq![("type"@, JsonValue::Str("chatgpt"@))])
}

/// Whether the server asks for a sign-in, according to `account/read`.
pub open spec fn requires_auth(res: JsonValue) -> bool {
    match crate::json::member(res, "requiresOpenaiAuth"@) {
        Some(b) => crate::json::bool_of(b) == Some(true),
        None => false,
    }
}

/// The way the account is signed in, according to `account/read`.
pub open spec fn account_kind(res: JsonValue) -> Option<Seq<char>> {
    match member2(res, "account"@, "type"@) {
        Some(t) => text_of(t),
        None => None,
    }
}

/// Whether there is an account, according to `account/read`: the answer has
/// the member `account`, and it is not `null`.
pub open spec fn has_account(res: JsonValue) -> bool {
    match crate::json::member(res, "account"@) {
        Some(a) => a != JsonValue::Null,
        None => false,
    }
}

/// What is noted as the last error while a sign-in is missing.
pub open spec fn sign_in_required() -> Seq<char> {
    "Sign in required"@
}

impl CoreView {
    /// Whether a turn for `chat_id` with the message `text` may start: the
    /// message without the whitespace around it, or why not.
    pub open spec fn admission(self, chat_id: i64, text: Seq<char>) -> Result<
        Seq<char>,
        Seq<char>,
    > {
        if trim(text).len() == 0 {
            Err("Empty message"@)
        } else if self.busy.contains(chat_id) {
            Err("Busy"@)
        } else {
            Ok(trim(text))
        }
    }

    /// The state once the turn is admitted: the chat is busy.
    pub open spec fn admitted(self, chat_id: i64, text: Seq<char>) -> CoreView {
        if self.admission(chat_id, text).is_ok() {
            CoreView { busy: self.busy.insert(chat_id), ..self }
        } else {
            self
        }
    }

    /// The state once the chat is free again.
    pub open spec fn released(self, chat_id: i64) -> CoreView {
        CoreView { busy: self.busy.remove(chat_id), ..self }
    }

    /// Whether another request id can be given out.
    pub open spec fn has_free_id(self) -> bool {
        self.next_id < u64::MAX
    }

    /// The state once a request is registered under the next id.
    pub open spec fn requested(self) -> CoreView {
        if self.has_free_id() {
            CoreView {
                pending: self.pending.push(self.next_id),
                next_id: (self.next_id + 1) as u64,
                ..self
            }
        } else {
            self
        }
    }

    /// What to do to get the thread of `chat_id`.
    pub open spec fn thread_plan(self, chat_id: i64) -> ThreadPlanView {
        if self.threads.contains_key(chat_id) {
            if self.resumed.contains(self.threads[chat_id]) {
                ThreadPlanView::Ready(self.threads[chat_id])
            } else {
                ThreadPlanView::Resume(self.threads[chat_id])
            }
        } else {
            ThreadPlanView::Start
        }
    }

    /// The state with every thread forgotten: no thread of any chat, no
    /// thread resumed, no chat busy, no turn in flight.
    pub open spec fn reset(self) -> CoreView {
        CoreView {
            threads: Map::empty(),
            resumed: Set::empty(),
            busy: Set::empty(),
            turns: Seq::empty(),
            ..self
        }
    }

    /// The state with the thread `thread_id` forgotten.
    pub open spec fn without(self, thread_id: Seq<char>) -> CoreView {
        CoreView {
            threads: without_thread(self.threads, thread_id),
            resumed: self.resumed.remove(thread_id),
            ..self
        }
    }

    /// The state after an error of the assistant: where the error names a
    /// thread without rollout, every thread is forgotten.
    pub open spec fn recovered(self, bad_thread: Option<Seq<char>>) -> CoreView {
        match bad_thread {
            Some(t) => self.reset().without(t),
            None => self,
        }
    }

    /// The state with the turn `turn_id` of `chat_id` in flight, in place of
    /// any turn of that id.
    pub open spec fn registered(self, turn_id: Seq<char>, chat_id: i64) -> CoreView {
        let others = match turn_at(self.turns, turn_id) {
            Some(i) => self.turns.remove(i),
            None => self.turns,
        };
        CoreView {
            turns: others.push(
                TurnView { turn_id, chat_id, full_text: Seq::empty(), sent_byte: 0 },
            ),
            ..self
        }
    }

    /// The state after `account/read` has answered `res`: the way the
    /// account is signed in is noted, and so is a missing sign-in, as the
    /// last error; a missing sign-in that was noted before is forgotten once
    /// it is there.
    pub open spec fn with_account(self, res: JsonValue) -> CoreView {
        let kind = account_kind(res);
        let missing = requires_auth(res) && !has_account(res);
        CoreView {
            status: CodexStatusView {
                auth_mode: kind,
                last_error: if missing {
                    Some(sign_in_required())
                } else if self.status.last_error == Some(sign_in_required()) {
                    None
                } else {
                    self.status.last_error
                },
                ..self.status
            },
            ..self
        }
    }
}

/// The id that a response carries under `outer.id`, or the error `missing`.
pub open spec fn id_in(res: JsonValue, outer: Seq<char>, missing: Seq<char>) -> Result<
    Seq<char>,
    Seq<char>,
> {
    match member2(res, outer, "id"@) {
        Some(id) => match text_of(id) {
            Some(t) => Ok(t),
            None => Err(missing),
        },
        None => Err(missing),
    }
}

/// The id that `res` carries under `outer.id`.
pub fn read_id(res: &Json, outer: &str, missing: &str) -> (r: Result<String, String>)
    ensures
        text_result(r) == id_in(res@, outer@, missing@),
{
    match res.get2(outer, "id") {
        Some(id) => match id.as_str() {
            Some(t) => Ok(t.to_owned()),
            None => Err(missing.to_owned()),
        },
        None => Err(missing.to_owned()),
    }
}

/// The text that says that `method` was not answered in time.
pub fn request_timeout_error(method: &str) -> (r: String)
    ensures
        r@ == "codex request timeout: "@ + method@,
{
    join2("codex request timeout: ", method)
}

/// The text that says that the request `method` was dropped.
pub fn request_cancelled_error(method: &str) -> (r: String)
    ensures
        r@ == "codex request cancelled: "@ + method@,
{
    join2("codex request cancelled: ", method)
}

/// Whether a turn may start, given what `account/read` said: it may not
/// where the server asks for a sign-in and there is no account.
pub fn account_ready(needs_auth: bool, have: bool) -> (r: Result<(), String>)
    ensures
        r.is_err() == (needs_auth && !have),
        r matches Err(e) ==> e@
            == "Codex requires sign-in. Open AI Core -> Codex settings and sign in (ChatGPT)."@,
{
    if needs_auth && !have {
        Err("Codex requires sign-in. Open AI Core -> Codex settings and sign in (ChatGPT).".to_owned())
    } else {
        Ok(())
    }
}

fn policy_object(cwd: &Option<String>) -> (r: Json)
    ensures
        r@ == JsonValue::Object(policy_entries(opt_text(*cwd))),
{
    let base = Json::object1("approvalPolicy", Json::text("never"));
    match cwd {
        Some(dir) => {
            let r = base.with("cwd", Json::text(dir.as_str()));
            assert(seq![("approvalPolicy"@, JsonValue::Str("never"@))].push(
                ("cwd"@, JsonValue::Str(dir@)),
            ) =~= policy_entries(opt_text(*cwd)));
            r
        },
        None => base,
    }
}

/// Builds the parameters of `initialize` for the client version `version`.
pub fn build_initialize_params(version: &str) -> (r: Json)
    ensures
        r@ == initialize_params(version@),
{
    let ghost a = ("name"@, JsonValue::Str("local-ai-hub"@));
    let ghost b = ("title"@, JsonValue::Str("Local AI Hub"@));
    let ghost c = ("version"@, JsonValue::Str(version@));
    let info = Json::object1("name", Json::text("local-ai-hub")).with(
        "title",
        Json::text("Local AI Hub"),
    ).with("version", Json::text(version));
    assert(seq![a].push(b).push(c) =~= seq![a, b, c]);
    Json::object1("clientInfo", info)
}

/// Builds the parameters of `account/read`.
pub fn build_account_read_params() -> (r: Json)
    ensures
        r@ == account_read_params(),
{
    Json::object1("refreshToken", Json::Bool(false))
}

/// Builds the parameters of `account/login/start`.
pub fn build_login_start_params() -> (r: Json)
    ensures
        r@ == login_start_params(),
{
    Json::object1("type", Json::text("chatgpt"))
}

impl CodexCore {
    /// Admits a turn for `chat_id` with the message `text`, unless the
    /// message is blank or the chat is busy. Gives the message without the
    /// whitespace around it and marks the chat busy.
    pub fn begin_turn(&mut self, chat_id: i64, text: &str) -> (r: Result<String, String>)
        requires
            old(self).wf(),
        ensures
            final(self).wf(),
            text_result(r) == old(self)@.admission(chat_id, text@),
            final(self)@ == old(self)@.admitted(chat_id, text@),
    {
        let trimmed = trim_str(text);
        if trimmed.as_str().is_empty() {
            return Err("Empty message".to_owned());
        }
        if self.busy_chats.contains(chat_id) {
            return Err("Busy".to_owned());
        }
        self.busy_chats.insert(chat_id);
        Ok(trimmed)
    }

    /// Marks `chat_id` free again, after a turn could not be started.
    pub fn release_chat(&mut self, chat_id: i64)
        requires
            old(self).wf(),
        ensures
            final(self).wf(),
            final(self)@ == old(self)@.released(chat_id),
    {
        self.busy_chats.remove(chat_id);
    }

    /// Registers a request under the next id and builds its message. Fails
    /// only when every id has been given out.
    pub fn send_request(&mut self, method: &str, params: Json) -> (r: Result<Outbound, String>)
        requires
            old(self).wf(),
        ensures
            final(self).wf(),
            final(self)@ == old(self)@.requested(),
            r.is_ok() == old(self)@.has_free_id(),
            r matches Ok(out) ==> out.id == old(self)@.next_id && out.message@ == request_message(
                out.id,
                method@,
                params@,
            ),
            r matches Err(e) ==> e@ == "codex request ids exhausted"@,
    {
        if self.next_id == u64::MAX {
            return Err("codex request ids exhausted".to_owned());
        }
        let id = self.next_id;
        let ghost before = self.pending@;
        self.pending.push(id);
        self.next_id = id + 1;
        proof {
            let after = self.pending@;
            assert forall|i: int, j: int| 0 <= i < j < after.len() implies after[i] < after[j] by {
                if j < before.len() {
                    assert(before[i] < before[j]);
                } else {
                    assert(before[i] < id);
                }
            }
            assert forall|i: int| 0 <= i < after.len() implies #[trigger] after[i]
                < self.next_id by {
                if i < before.len() {
                    assert(before[i] < id);
                }
            }
        }
        Ok(Outbound { id, message: build_request(id, method, params) })
    }

    /// What to do to get the thread of `chat_id`.
    pub fn plan_thread(&self, chat_id: i64) -> (r: ThreadPlan)
        requires
            self.wf(),
        ensures
            r@ == self@.thread_plan(chat_id),
    {
        match self.chat_threads.get(chat_id) {
            Some(t) => {
                if self.resumed_threads.contains(t.as_str()) {
                    ThreadPlan::Ready(t)
                } else {
                    ThreadPlan::Resume(t)
                }
            },
            None => ThreadPlan::Start,
        }
    }

    /// Builds the parameters of `thread/start`.
    pub fn build_thread_start_params(&self) -> (r: Json)
        ensures
            r@ == thread_start_params(self@.cwd),
    {
        policy_object(&self.default_cwd).with("sandbox", Json::text("read-only"))
    }

    /// Builds the parameters of `thread/resume` for `thread_id`.
    pub fn build_thread_resume_params(&self, thread_id: &str) -> (r: Json)
        ensures
            r@ == thread_resume_params(self@.cwd, thread_id@),
    {
        policy_object(&self.default_cwd).with("sandbox", Json::text("read-only")).with(
            "threadId",
            Json::text(thread_id),
        )
    }

    /// Builds the parameters of `turn/start` for `thread_id` and the message
    /// `text`.
    pub fn build_turn_start_params(&self, thread_id: &str, text: &str) -> (r: Json)
        ensures
            r@ == turn_start_params(self@.cwd, thread_id@, text@),
    {
        let ghost a = ("text"@, JsonValue::Str(text@));
        let ghost b = ("type"@, JsonValue::Str("text"@));
        let item = Json::object1("text", Json::text(text)).with("type", Json::text("text"));
        assert(seq![a].push(b) =~= seq![a, b]);
        let mut items: Vec<Json> = Vec::new();
        items.push(item);
        let input = Json::Array(items);
        assert(input@->Array_0 =~= seq![item@]);
        policy_object(&self.default_cwd).with("input", input).with(
            "threadId",
            Json::text(thread_id),
        )
    }

    /// Notes that `thread_id` was resumed.
    pub fn thread_resumed(&mut self, thread_id: String)
        requires
            old(self).wf(),
        ensures
            final(self).wf(),
            final(self)@ == (CoreView {
                resumed: old(self)@.resumed.insert(thread_id@),
                ..old(self)@
            }),
    {
        self.resumed_threads.insert(thread_id);
    }

    /// Forgets every thread: the thread of each chat, which threads were
    /// resumed, which chats are busy, and the turns in flight. Gives the ids
    /// of the turns that were dropped.
    pub fn reset_threads(&mut self) -> (dropped: Vec<String>)
        requires
            old(self).wf(),
        ensures
            final(self).wf(),
            final(self)@ == old(self)@.reset(),
            dropped@.len() == old(self)@.turns.len(),
            forall|i: int|
                0 <= i < dropped@.len() ==> (#[trigger] dropped@[i])@
                    == old(self)@.turns[i].turn_id,
    {
        let mut dropped: Vec<String> = Vec::new();
        let mut i: usize = 0;
        while i < self.turns.len()
            invariant
                i <= self.turns.len(),
                *self == *old(self),
                dropped@.len() == i,
                forall|j: int|
                    0 <= j < i ==> (#[trigger] dropped@[j])@ == old(self)@.turns[j].turn_id,
            decreases self.turns.len() - i,
        {
            dropped.push(self.turns[i].turn_id.clone());
            i += 1;
        }
        self.resumed_threads.clear();
        self.busy_chats.clear();
        self.turns = Vec::new();
        self.chat_threads.clear();
        assert(turn_views(self.turns@) =~= Seq::<TurnView>::empty());
        dropped
    }

    /// Forgets the thread `thread_id`: that it was resumed, and every chat
    /// that has it. Says whether any chat had it.
    pub fn reset_thread_everywhere(&mut self, thread_id: &str) -> (removed_any: bool)
        requires
            old(self).wf(),
        ensures
            final(self).wf(),
            final(self)@ == old(self)@.without(thread_id@),
            removed_any == crate::threads::uses_thread(old(self)@.threads, thread_id@),
    {
        self.resumed_threads.remove(thread_id);
        self.chat_threads.remove_thread(thread_id)
    }

    /// Recovers from the error `err` of the assistant, where `bad_thread` is
    /// the thread that the error says has no rollout: every thread is
    /// forgotten, so that the chat gets a fresh one. Gives the ids of the
    /// turns that were dropped, or `None` where the error names no thread.
    pub fn recover_from(&mut self, bad_thread: Option<String>) -> (dropped: Option<Vec<String>>)
        requires
            old(self).wf(),
        ensures
            final(self).wf(),
            final(self)@ == old(self)@.recovered(opt_text(bad_thread)),
            dropped.is_some() == bad_thread.is_some(),
            dropped matches Some(d) ==> d@.len() == old(self)@.turns.len() && forall|i: int|
                0 <= i < d@.len() ==> (#[trigger] d@[i])@ == old(self)@.turns[i].turn_id,
    {
        match bad_thread {
            Some(t) => {
                let dropped = self.reset_threads();
                self.reset_thread_everywhere(t.as_str());
                Some(dropped)
            },
            None => None,
        }
    }

    /// Recovers from the error `err` of the assistant if it says that a
    /// thread has no rollout.
    pub fn recover_no_rollout(&mut self, err: &str) -> (dropped: Option<Vec<String>>)
        requires
            old(self).wf(),
        ensures
            final(self).wf(),
            final(self)@ == old(self)@.recovered(no_rollout_thread_id(json_parse(err@), err@)),
            dropped.is_some() == no_rollout_thread_id(json_parse(err@), err@).is_some(),
            dropped matches Some(d) ==> d@.len() == old(self)@.turns.len() && forall|i: int|
                0 <= i < d@.len() ==> (#[trigger] d@[i])@ == old(self)@.turns[i].turn_id,
    {
        let bad = extract_no_rollout_thread_id(err);
        self.recover_from(bad)
    }

    /// Takes the answer to `thread/start` for `chat_id`: the chat gets the
    /// thread that the answer names.
    pub fn thread_started(&mut self, chat_id: i64, res: &Json) -> (r: Result<String, String>)
        requires
            old(self).wf(),
        ensures
            final(self).wf(),
            text_result(r) == id_in(
                res@,
                "thread"@,
                "thread/start response missing thread.id"@,
            ),
            final(self)@ == match id_in(
                res@,
                "thread"@,
                "thread/start response missing thread.id"@,
            ) {
                Ok(t) => CoreView { threads: old(self)@.threads.insert(chat_id, t), ..old(self)@ },
                Err(_) => old(self)@,
            },
    {
        match read_id(res, "thread", "thread/start response missing thread.id") {
            Ok(t) => {
                self.chat_threads.insert(chat_id, t.clone());
                Ok(t)
            },
            Err(e) => Err(e),
        }
    }

    /// Puts the turn `turn_id` of `chat_id` in flight, in place of any turn
    /// of that id.
    pub fn register_turn(&mut self, turn_id: String, chat_id: i64)
        requires
            old(self).wf(),
        ensures
            final(self).wf(),
            final(self)@ == old(self)@.registered(turn_id@, chat_id),
    {
        let ghost before = turn_views(self.turns@);
        proof {
            lemma_turn_from(before, turn_id@, 0);
        }
        match self.find_turn(turn_id.as_str()) {
            Some(i) => {
                let ghost turns = self.turns@;
                self.turns.remove(i);
                assert(turn_views(self.turns@) =~= before.remove(i as int));
            },
            None => {},
        }
        let ghost others = turn_views(self.turns@);
        let t = PendingTurn::new(turn_id, chat_id);
        self.turns.push(t);
        proof {
            let views = turn_views(self.turns@);
            assert(views =~= others.push(t@));
            assert forall|a: int| 0 <= a < others.len() implies (#[trigger] others[a]).wf()
                && others[a].turn_id != turn_id@ && exists|a0: int|
                0 <= a0 < before.len() && before[a0] == others[a] && (a0 == a || a0 == a + 1) by {
                match turn_at(before, turn_id@) {
                    Some(i) => {
                        let a0 = if a < i {
                            a
                        } else {
                            a + 1
                        };
                        assert(before[a0].wf());
                        assert(before[a0] == others[a]);
                        if a0 < i {
                            assert(before[a0].turn_id != before[i].turn_id);
                        } else {
                            assert(before[i].turn_id != before[a0].turn_id);
                        }
                    },
                    None => {
                        assert(before[a].wf());
                    },
                }
            }
            assert forall|a: int, b: int| 0 <= a < b < views.len() implies (#[trigger] views[a]).turn_id
                != (#[trigger] views[b]).turn_id by {
                if b < others.len() {
                    let a0 = choose|a0: int|
                        0 <= a0 < before.len() && before[a0] == others[a] && (a0 == a || a0 == a
                            + 1);
                    let b0 = choose|b0: int|
                        0 <= b0 < before.len() && before[b0] == others[b] && (b0 == b || b0 == b
                            + 1);
                    if a0 < b0 {
                        assert(before[a0].turn_id != before[b0].turn_id);
                    } else if b0 < a0 {
                        assert(before[b0].turn_id != before[a0].turn_id);
                    } else {
                        match turn_at(before, turn_id@) {
                            Some(i) => {
                                assert(a0 == a + 1 && b0 == b);
                                assert(a >= i && b < i);
                            },
                            None => {},
                        }
                    }
                } else {
                    assert(others[a].turn_id != turn_id@);
                }
            }
            assert forall|a: int| 0 <= a < views.len() implies (#[trigger] views[a]).wf() by {
                if a < others.len() {
                    assert(others[a].wf());
                }
            }
        }
    }

    /// Takes the answer to `turn/start` for `chat_id`: the turn that the
    /// answer names is in flight from now on.
    pub fn turn_started(&mut self, chat_id: i64, res: &Json) -> (r: Result<String, String>)
        requires
            old(self).wf(),
        ensures
            final(self).wf(),
            text_result(r) == id_in(res@, "turn"@, "turn/start response missing turn.id"@),
            final(self)@ == match id_in(res@, "turn"@, "turn/start response missing turn.id"@) {
                Ok(t) => old(self)@.registered(t, chat_id),
                Err(_) => old(self)@,
            },
    {
        match read_id(res, "turn", "turn/start response missing turn.id") {
            Ok(t) => {
                self.register_turn(t.clone(), chat_id);
                Ok(t)
            },
            Err(e) => Err(e),
        }
    }

    /// Takes the answer to `account/read`. Says whether the server asks for
    /// a sign-in, and whether there is an account.
    pub fn apply_account_state(&mut self, res: &Json) -> (r: (bool, bool))
        requires
            old(self).wf(),
        ensures
            final(self).wf(),
            r.0 == requires_auth(res@),
            r.1 == has_account(res@),
            final(self)@ == old(self)@.with_account(res@),
    {
        let needs_auth = match res.get("requiresOpenaiAuth") {
            Some(b) => match b.as_bool() {
                Some(v) => v,
                None => false,
            },
            None => false,
        };
        let kind: Option<String> = match res.get2("account", "type") {
            Some(t) => match t.as_str() {
                Some(s) => Some(s.to_owned()),
                None => None,
            },
            None => None,
        };
        let have = match res.get("account") {
            Some(Json::Null) => false,
            Some(_) => true,
            None => false,
        };
        self.status.auth_mode = kind;
        if needs_auth && !have {
            self.status.last_error = Some("Sign in required".to_owned());
        } else {
            let noted = match &self.status.last_error {
                Some(e) => str_same(e.as_str(), "Sign in required"),
                None => false,
            };
            if noted {
                self.status.last_error = None;
            }
        }
        assert(final(self)@ =~= old(self)@.with_account(res@));
        (needs_auth, have)
    }

    /// Takes the answer to `account/login/start`: the address to sign in at
    /// and the id of the sign-in, which are noted.
    pub fn login_started(&mut self, res: &Json) -> (r: Result<(String, String), String>)
        requires
            old(self).wf(),
        ensures
            final(self).wf(),
            match (member_text(res@, "authUrl"@), member_text(res@, "loginId"@)) {
                (Some(url), Some(id)) => r matches Ok(pair) && pair.0@ == url && pair.1@ == id
                    && final(self)@ == (CoreView {
                    status: CodexStatusView {
                        login_url: Some(url),
                        login_id: Some(id),
                        last_error: None,
                        ..old(self)@.status
                    },
                    ..old(self)@
                }),
                (None, _) => r matches Err(e) && e@ == "login response missing authUrl"@
                    && final(self)@ == old(self)@,
                (Some(_), None) => r matches Err(e) && e@ == "login response missing loginId"@
                    && final(self)@ == old(self)@,
            },
    {
        let url = match res.get_str("authUrl") {
            Some(u) => u.to_owned(),
            None => {
                return Err("login response missing authUrl".to_owned());
            },
        };
        let id = match res.get_str("loginId") {
            Some(i) => i.to_owned(),
            None => {
                return Err("login response missing loginId".to_owned());
            },
        };
        self.status.login_url = Some(url.clone());
        self.status.login_id = Some(id.clone());
        self.status.last_error = None;
        Ok((url, id))
    }

    /// Takes the answer to `account/logout`: nothing is known of the account
    /// any more.
    pub fn logged_out(&mut self)
        requires
            old(self).wf(),
        ensures
            final(self).wf(),
            final(self)@ == (CoreView {
                status: CodexStatusView {
                    auth_mode: None,
                    login_url: None,
                    login_id: None,
                    ..old(self)@.status
                },
                ..old(self)@
            }),
    {
        self.status.auth_mode = None;
        self.status.login_url = None;
        self.status.login_id = None;
    }
}

} // verus!
