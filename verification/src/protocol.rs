//! The wire protocol of the assistant subprocess: one JSON object per line,
//! where responses, requests of the subprocess and notifications share one
//! stream and are told apart by their shape.
use crate::chars::{
    ends_with, find_first, find_from, first_token, first_token_from, join2, prefix,
    starts_with, str_chars, str_ends_with, str_prefix, str_same, str_starts_with, trim, trim_str,
};
use crate::codex_types::{opt_text, text_result};
use crate::json::{
    bool_of, json_parse, json_read, json_shown, json_text, json_written, member, member2, member_text, number_of_u64,
    parse_json, text_of, Json, JsonValue,
};
use vstd::prelude::*;

verus! {

/// The kinds of message that arrive from the subprocess.
#[derive(Debug, Clone, Copy, PartialEq, Eq, Structural)]
pub enum Shape {
    /// Has `id` and `result` or `error`.
    Response,
    /// Has `id` and `method`, and neither `result` nor `error`.
    ServerRequest,
    /// Has a `method` that is a string, and no `id`.
    Notification,
    /// Anything else.
    Nothing,
}

/// The kind of `msg`.
pub open spec fn shape_of(msg: JsonValue) -> Shape {
    let has_id = member(msg, "id"@).is_some();
    let answered = member(msg, "result"@).is_some() || member(msg, "error"@).is_some();
    if has_id && answered {
        Shape::Response
    } else if has_id && member(msg, "method"@).is_some() {
        Shape::ServerRequest
    } else if member_text(msg, "method"@).is_some() {
        Shape::Notification
    } else {
        Shape::Nothing
    }
}

/// Tells the kind of `msg` by its members.
pub fn classify(msg: &Json) -> (r: Shape)
    ensures
        r == shape_of(msg@),
{
    let has_id = msg.get("id").is_some();
    let answered = msg.get("result").is_some() || msg.get("error").is_some();
    if has_id && answered {
        Shape::Response
    } else if has_id && msg.get("method").is_some() {
        Shape::ServerRequest
    } else if msg.get_str("method").is_some() {
        Shape::Notification
    } else {
        Shape::Nothing
    }
}

/// How a response ends the request it answers: with the text that its
/// `error` displays as, or else with its `result`.
pub open spec fn response_outcome(msg: JsonValue) -> Result<JsonValue, Seq<char>> {
    match member(msg, "error"@) {
        Some(e) => Err(json_shown(e)),
        None => Ok(
            match member(msg, "result"@) {
                Some(r) => r,
                None => JsonValue::Null,
            },
        ),
    }
}

/// The view of an outcome.
pub open spec fn outcome_view(o: Result<Json, String>) -> Result<JsonValue, Seq<char>> {
    match o {
        Ok(j) => Ok(j@),
        Err(e) => Err(e@),
    }
}

/// How the response `msg` ends the request it answers.
pub fn outcome_of_response(msg: &Json) -> (r: Result<Json, String>)
    ensures
        outcome_view(r) == response_outcome(msg@),
{
    match msg.get("error") {
        Some(e) => Err(e.shown()),
        None => match msg.get("result") {
            Some(r) => Ok(r.duplicate()),
            None => Ok(Json::Null),
        },
    }
}

/// The result that declines a request for approval.
pub open spec fn decline() -> JsonValue {
    JsonValue::Object(seq![("decision"@, JsonValue::Str("decline"@))])
}

/// The result that answers a request for input with nothing.
pub open spec fn no_answers() -> JsonValue {
    JsonValue::Object(seq![("answers"@, JsonValue::Object(Seq::empty()))])
}

/// What the subprocess is told when it asks for the host's consent: requests
/// to run a command or to change a file are declined, a request for the
/// user's input gets no answers, and anything else gets no reply.
pub open spec fn reply_policy(method: Seq<char>) -> Option<JsonValue> {
    if method == "item/commandExecution/requestApproval"@ || method
        == "item/fileChange/requestApproval"@ {
        Some(decline())
    } else if method == "item/tool/requestUserInput"@ {
        Some(no_answers())
    } else {
        None
    }
}

/// The result that a request of the subprocess is answered with, if any.
pub fn auto_reply(method: &str) -> (r: Option<Json>)
    ensures
        match r {
            Some(j) => reply_policy(method@) == Some(j@),
            None => reply_policy(method@).is_none(),
        },
{
    if str_same(method, "item/commandExecution/requestApproval") || str_same(
        method,
        "item/fileChange/requestApproval",
    ) {
        Some(Json::object1("decision", Json::text("decline")))
    } else if str_same(method, "item/tool/requestUserInput") {
        Some(Json::object1("answers", Json::empty_object()))
    } else {
        None
    }
}

/// The response to a request of the subprocess: its `id` echoed, and the result.
pub open spec fn reply_message(id: JsonValue, result: JsonValue) -> JsonValue {
    JsonValue::Object(seq![("id"@, id), ("result"@, result)])
}

/// The reply that the request `msg` of the subprocess gets, if it gets one.
pub open spec fn reply_to(msg: JsonValue) -> Option<JsonValue> {
    let id = match member(msg, "id"@) {
        Some(id) => id,
        None => JsonValue::Null,
    };
    let method = match member_text(msg, "method"@) {
        Some(m) => m,
        None => Seq::empty(),
    };
    match reply_policy(method) {
        Some(result) => Some(reply_message(id, result)),
        None => None,
    }
}

/// The reply that the request `msg` of the subprocess gets, if it gets one.
pub fn reply_for(msg: &Json) -> (r: Option<Json>)
    ensures
        match r {
            Some(j) => reply_to(msg@) == Some(j@),
            None => reply_to(msg@).is_none(),
        },
{
    let id = match msg.get("id") {
        Some(id) => id.duplicate(),
        None => Json::Null,
    };
    let result = match msg.get_str("method") {
        Some(m) => auto_reply(m),
        None => {
            proof {
                reveal_strlit("item/commandExecution/requestApproval");
                reveal_strlit("item/fileChange/requestApproval");
                reveal_strlit("item/tool/requestUserInput");
                assert("item/commandExecution/requestApproval"@.len() > 0);
                assert("item/fileChange/requestApproval"@.len() > 0);
                assert("item/tool/requestUserInput"@.len() > 0);
                assert(reply_policy(Seq::<char>::empty()).is_none());
            }
            None
        },
    };
    match result {
        Some(result) => {
            let r = Json::object1("id", id).with("result", result);
            assert(seq![("id"@, id@)].push(("result"@, result@)) =~= seq![
                ("id"@, id@),
                ("result"@, result@),
            ]);
            Some(r)
        },
        None => None,
    }
}

/// A request: `id`, `method` and `params`.
pub open spec fn request_message(id: u64, method: Seq<char>, params: JsonValue) -> JsonValue {
    JsonValue::Object(
        seq![
            ("id"@, JsonValue::Number(number_of_u64(id))),
            ("method"@, JsonValue::Str(method)),
            ("params"@, params),
        ],
    )
}

/// Builds the request `method` with the given id and parameters.
pub fn build_request(id: u64, method: &str, params: Json) -> (r: Json)
    ensures
        r@ == request_message(id, method@, params@),
{
    let ghost a = ("id"@, JsonValue::Number(number_of_u64(id)));
    let ghost b = ("method"@, JsonValue::Str(method@));
    let ghost c = ("params"@, params@);
    let r = Json::object1("id", Json::unsigned(id)).with("method", Json::text(method)).with(
        "params",
        params,
    );
    assert(seq![a].push(b).push(c) =~= seq![a, b, c]);
    r
}

/// A notification: `method`, and `params` where there are any.
pub open spec fn notification_message(method: Seq<char>, params: Option<JsonValue>) -> JsonValue {
    match params {
        Some(p) => JsonValue::Object(seq![("method"@, JsonValue::Str(method)), ("params"@, p)]),
        None => JsonValue::Object(seq![("method"@, JsonValue::Str(method))]),
    }
}

/// The view of optional parameters.
pub open spec fn opt_json(o: Option<Json>) -> Option<JsonValue> {
    match o {
        Some(j) => Some(j@),
        None => None,
    }
}

/// Builds the notification `method`.
pub fn build_notification(method: &str, params: Option<Json>) -> (r: Json)
    ensures
        r@ == notification_message(method@, opt_json(params)),
{
    let base = Json::object1("method", Json::text(method));
    match params {
        Some(p) => {
            let ghost a = ("method"@, JsonValue::Str(method@));
            let ghost b = ("params"@, p@);
            let r = base.with("params", p);
            assert(seq![a].push(b) =~= seq![a, b]);
            r
        },
        None => base,
    }
}

/// The line that `msg` travels as: its compact text and a line feed; where
/// the text cannot be written, the printer's complaint after
/// `serialize failed: `.
pub open spec fn wired(msg: JsonValue) -> Result<Seq<char>, Seq<char>> {
    match json_written(msg) {
        Ok(t) => Ok(t + seq!['\n']),
        Err(m) => Err("serialize failed: "@ + m),
    }
}

/// The line that carries `msg`: its compact text and a line feed. Where the
/// text cannot be written, the reason after `serialize failed: `.
pub fn wire_line(msg: &Json) -> (r: Result<String, String>)
    ensures
        text_result(r) == wired(msg@),
        match r {
            Ok(line) => line@ == json_text(msg@) + seq!['\n'],
            Err(e) => starts_with(e@, "serialize failed: "@),
        },
{
    match msg.to_text() {
        Ok(text) => {
            proof {
                reveal_strlit("\n");
                assert("\n"@ =~= seq!['\n']);
            }
            Ok(join2(text.as_str(), "\n"))
        },
        Err(fault) => {
            let e = join2("serialize failed: ", fault.message.as_str());
            assert(e@.subrange(0, "serialize failed: "@.len() as int) =~= "serialize failed: "@);
            Err(e)
        },
    }
}

/// What a notification says, decoded by its method.
#[derive(Debug, Clone, PartialEq)]
pub enum Notice {
    /// `account/updated`: the way the account is signed in, if it is.
    AccountUpdated { auth_mode: Option<String> },
    /// `account/login/completed`.
    LoginCompleted { success: bool, login_id: Option<String>, error: Option<String> },
    /// `item/*/delta` with a turn id and text that are not empty.
    Delta { turn_id: String, delta: String },
    /// `item/completed` for a message item that carries its text.
    ItemCompleted { turn_id: String, text: String },
    /// `turn/completed` with a turn id.
    TurnCompleted { turn_id: String, failed: bool, error: Option<String> },
    /// `error`: the text to report.
    Failure { text: String },
    /// A notification that changes nothing.
    Ignored,
}

/// The mathematical value of a `Notice`.
pub enum NoticeView {
    AccountUpdated { auth_mode: Option<Seq<char>> },
    LoginCompleted { success: bool, login_id: Option<Seq<char>>, error: Option<Seq<char>> },
    Delta { turn_id: Seq<char>, delta: Seq<char> },
    ItemCompleted { turn_id: Seq<char>, text: Seq<char> },
    TurnCompleted { turn_id: Seq<char>, failed: bool, error: Option<Seq<char>> },
    Failure { text: Seq<char> },
    Ignored,
}

impl Notice {
    /// The mathematical value.
    pub open spec fn view(&self) -> NoticeView {
        match self {
            Notice::AccountUpdated { auth_mode } => NoticeView::AccountUpdated {
                auth_mode: opt_text(*auth_mode),
            },
            Notice::LoginCompleted { success, login_id, error } => NoticeView::LoginCompleted {
                success: *success,
                login_id: opt_text(*login_id),
                error: opt_text(*error),
            },
            Notice::Delta { turn_id, delta } => NoticeView::Delta {
                turn_id: turn_id@,
                delta: delta@,
            },
            Notice::ItemCompleted { turn_id, text } => NoticeView::ItemCompleted {
                turn_id: turn_id@,
                text: text@,
            },
            Notice::TurnCompleted { turn_id, failed, error } => NoticeView::TurnCompleted {
                turn_id: turn_id@,
                failed: *failed,
                error: opt_text(*error),
            },
            Notice::Failure { text } => NoticeView::Failure { text: text@ },
            Notice::Ignored => NoticeView::Ignored,
        }
    }
}

/// The text of the member `key`, or the empty text.
pub open spec fn member_text_or_empty(j: JsonValue, key: Seq<char>) -> Seq<char> {
    match member_text(j, key) {
        Some(t) => t,
        None => Seq::empty(),
    }
}

/// The member `key`, or `null`.
pub open spec fn member_or_null(j: JsonValue, key: Seq<char>) -> JsonValue {
    match member(j, key) {
        Some(m) => m,
        None => JsonValue::Null,
    }
}

/// The method names a stream of text: `item/`, anything, `/delta`.
pub open spec fn is_delta_method(method: Seq<char>) -> bool {
    starts_with(method, "item/"@) && ends_with(method, "/delta"@)
}

/// What the notification `method` with `params` says.
pub open spec fn notice_of(method: Seq<char>, params: JsonValue) -> NoticeView {
    if method == "account/updated"@ {
        NoticeView::AccountUpdated { auth_mode: member_text(params, "authMode"@) }
    } else if method == "account/login/completed"@ {
        NoticeView::LoginCompleted {
            success: match member(params, "success"@) {
                Some(s) => bool_of(s) == Some(true),
                None => false,
            },
            login_id: member_text(params, "loginId"@),
            error: member_text(params, "error"@),
        }
    } else if is_delta_method(method) {
        let turn_id = member_text_or_empty(params, "turnId"@);
        let delta = member_text_or_empty(params, "delta"@);
        if turn_id.len() == 0 || delta.len() == 0 {
            NoticeView::Ignored
        } else {
            NoticeView::Delta { turn_id, delta }
        }
    } else if method == "item/completed"@ {
        let turn_id = member_text_or_empty(params, "turnId"@);
        let item = member_or_null(params, "item"@);
        let kind = member_text_or_empty(item, "type"@);
        if turn_id.len() == 0 || !ends_with(kind, "Message"@) {
            NoticeView::Ignored
        } else {
            match member_text(item, "text"@) {
                Some(text) => NoticeView::ItemCompleted { turn_id, text },
                None => NoticeView::Ignored,
            }
        }
    } else if method == "turn/completed"@ {
        let turn = member_or_null(params, "turn"@);
        let turn_id = member_text_or_empty(turn, "id"@);
        if turn_id.len() == 0 {
            NoticeView::Ignored
        } else {
            NoticeView::TurnCompleted {
                turn_id,
                failed: member_text(turn, "status"@) == Some("failed"@),
                error: match member2(turn, "error"@, "message"@) {
                    Some(m) => text_of(m),
                    None => None,
                },
            }
        }
    } else if method == "error"@ {
        NoticeView::Failure { text: "codex error: "@ + json_shown(params) }
    } else {
        NoticeView::Ignored
    }
}

fn owned(o: Option<&str>) -> (r: Option<String>)
    ensures
        match o {
            Some(s) => opt_text(r) == Some(s@),
            None => r.is_none(),
        },
{
    match o {
        Some(s) => Some(s.to_owned()),
        None => None,
    }
}

/// Decodes the notification `method` with `params`.
pub fn decode_notice(method: &str, params: &Json) -> (r: Notice)
    ensures
        r@ == notice_of(method@, params@),
{
    if str_same(method, "account/updated") {
        Notice::AccountUpdated { auth_mode: owned(params.get_str("authMode")) }
    } else if str_same(method, "account/login/completed") {
        let success = match params.get("success") {
            Some(s) => match s.as_bool() {
                Some(b) => b,
                None => false,
            },
            None => false,
        };
        Notice::LoginCompleted {
            success,
            login_id: owned(params.get_str("loginId")),
            error: owned(params.get_str("error")),
        }
    } else if str_starts_with(method, "item/") && str_ends_with(method, "/delta") {
        let turn_id = params.get_str("turnId");
        let delta = params.get_str("delta");
        match (turn_id, delta) {
            (Some(t), Some(d)) => {
                if t.is_empty() || d.is_empty() {
                    Notice::Ignored
                } else {
                    Notice::Delta { turn_id: t.to_owned(), delta: d.to_owned() }
                }
            },
            _ => Notice::Ignored,
        }
    } else if str_same(method, "item/completed") {
        let turn_id = match params.get_str("turnId") {
            Some(t) => t,
            None => {
                return Notice::Ignored;
            },
        };
        if turn_id.is_empty() {
            return Notice::Ignored;
        }
        let item = match params.get("item") {
            Some(item) => item,
            None => {
                proof {
                    reveal_strlit("Message");
                }
                return Notice::Ignored;
            },
        };
        let is_message = match item.get_str("type") {
            Some(kind) => str_ends_with(kind, "Message"),
            None => {
                proof {
                    reveal_strlit("Message");
                }
                false
            },
        };
        if !is_message {
            return Notice::Ignored;
        }
        match item.get_str("text") {
            Some(text) => Notice::ItemCompleted {
                turn_id: turn_id.to_owned(),
                text: text.to_owned(),
            },
            None => Notice::Ignored,
        }
    } else if str_same(method, "turn/completed") {
        let turn = match params.get("turn") {
            Some(turn) => turn,
            None => {
                return Notice::Ignored;
            },
        };
        let turn_id = match turn.get_str("id") {
            Some(t) => t,
            None => {
                return Notice::Ignored;
            },
        };
        if turn_id.is_empty() {
            return Notice::Ignored;
        }
        let failed = match turn.get_str("status") {
            Some(s) => str_same(s, "failed"),
            None => false,
        };
        let error = match turn.get2("error", "message") {
            Some(m) => owned(m.as_str()),
            None => None,
        };
        Notice::TurnCompleted { turn_id: turn_id.to_owned(), failed, error }
    } else if str_same(method, "error") {
        let shown = params.shown();
        Notice::Failure { text: join2("codex error: ", shown.as_str()) }
    } else {
        Notice::Ignored
    }
}

/// The notice that the notification `msg` carries.
pub open spec fn notice_in(msg: JsonValue) -> NoticeView {
    notice_of(member_text_or_empty(msg, "method"@), member_or_null(msg, "params"@))
}

/// Decodes the notification `msg`.
pub fn notice_from(msg: &Json) -> (r: Notice)
    requires
        shape_of(msg@) == Shape::Notification,
    ensures
        r@ == notice_in(msg@),
{
    let method = match msg.get_str("method") {
        Some(m) => m,
        None => {
            return Notice::Ignored;
        },
    };
    match msg.get("params") {
        Some(params) => decode_notice(method, params),
        None => decode_notice(method, &Json::Null),
    }
}

/// The words that open a complaint of the subprocess about a thread that it
/// has no record of.
pub open spec fn no_rollout_needle() -> Seq<char> {
    "no rollout found for thread id "@
}

/// The thread id that follows `needle` in `text`: the first run of
/// characters without whitespace after its first occurrence.
pub open spec fn token_after(text: Seq<char>, needle: Seq<char>) -> Option<Seq<char>> {
    match find_first(text, needle) {
        Some(i) => {
            let token = first_token(text.subrange(i + needle.len(), text.len() as int));
            if token.len() > 0 {
                Some(token)
            } else {
                None
            }
        },
        None => None,
    }
}

/// The first run of characters without whitespace that follows the first
/// occurrence of `needle` in `text`.
pub fn find_token_after(text: &str, needle: &str) -> (r: Option<String>)
    ensures
        opt_text(r) == token_after(text@, needle@),
{
    let v = str_chars(text);
    let n = str_chars(needle);
    assert(v@.take(v.len() as int) =~= v@);
    match find_from(&v, v.len(), &n, 0) {
        Some(i) => {
            let token = first_token_from(&v, i + n.len());
            if token.as_str().is_empty() {
                None
            } else {
                Some(token)
            }
        },
        None => None,
    }
}

/// The id of the thread that `msg` says has no rollout.
pub fn extract_no_rollout_thread_id_from_message(msg: &str) -> (r: Option<String>)
    ensures
        opt_text(r) == token_after(msg@, no_rollout_needle()),
{
    find_token_after(msg, "no rollout found for thread id ")
}

/// The id of the thread that an error says has no rollout. The error is the
/// text of a JSON object with a `message`, in which case only the message
/// counts, or plain text.
pub open spec fn no_rollout_thread_id(parsed: Option<JsonValue>, err: Seq<char>) -> Option<
    Seq<char>,
> {
    match parsed {
        Some(v) => match member_text(v, "message"@) {
            Some(m) => token_after(m, no_rollout_needle()),
            None => token_after(err, no_rollout_needle()),
        },
        None => token_after(err, no_rollout_needle()),
    }
}

/// The id of the thread that the error `err` says has no rollout, where
/// `parsed` is what `err` parses to as JSON.
pub fn no_rollout_thread_id_in(parsed: Option<&Json>, err: &str) -> (r: Option<String>)
    ensures
        opt_text(r) == no_rollout_thread_id(
            match parsed {
                Some(j) => Some(j@),
                None => None,
            },
            err@,
        ),
{
    match parsed {
        Some(v) => match v.get_str("message") {
            Some(m) => extract_no_rollout_thread_id_from_message(m),
            None => extract_no_rollout_thread_id_from_message(err),
        },
        None => extract_no_rollout_thread_id_from_message(err),
    }
}

/// The id of the thread that the error `err` says has no rollout.
pub fn extract_no_rollout_thread_id(err: &str) -> (r: Option<String>)
    ensures
        opt_text(r) == no_rollout_thread_id(json_parse(err@), err@),
{
    match parse_json(err) {
        Ok(v) => no_rollout_thread_id_in(Some(&v), err),
        Err(_) => no_rollout_thread_id_in(None, err),
    }
}

/// What a line of the subprocess's output is.
#[derive(Debug, PartialEq)]
pub enum LineOutcome {
    /// Nothing but whitespace.
    Blank,
    /// A JSON document.
    Message(Json),
    /// Something else; `log` is what to note of it.
    Garbage { log: String },
}

/// Most characters of a line that is no JSON that are noted.
pub const SNIPPET_CHARS: usize = 220;

/// The mathematical value of a `LineOutcome`.
pub enum LineOutcomeView {
    Blank,
    Message(JsonValue),
    Garbage { log: Seq<char> },
}

impl LineOutcome {
    /// The mathematical value.
    pub open spec fn view(&self) -> LineOutcomeView {
        match self {
            LineOutcome::Blank => LineOutcomeView::Blank,
            LineOutcome::Message(j) => LineOutcomeView::Message(j@),
            LineOutcome::Garbage { log } => LineOutcomeView::Garbage { log: log@ },
        }
    }
}

/// What a line of the subprocess's output is: blank; or the document that
/// it holds between the whitespace around it; or, where the parser reads
/// none, a note of the parser's complaint and of the first characters of the
/// line.
pub open spec fn line_read(line: Seq<char>) -> LineOutcomeView {
    let trimmed = trim(line);
    if trimmed.len() == 0 {
        LineOutcomeView::Blank
    } else {
        match json_read(trimmed) {
            Ok(j) => LineOutcomeView::Message(j),
            Err(complaint) => LineOutcomeView::Garbage {
                log: "codex stdout non-JSON line (ignored): "@ + complaint + ": "@ + prefix(
                    trimmed,
                    SNIPPET_CHARS as int,
                ),
            },
        }
    }
}

/// Reads one line of the subprocess's output. A line that is no JSON is
/// noted with the parser's complaint and its first characters, and skipped.
pub fn read_line(line: &str) -> (r: LineOutcome)
    ensures
        r@ == line_read(line@),
        match r {
            LineOutcome::Blank => trim(line@).len() == 0,
            LineOutcome::Message(j) => trim(line@).len() > 0 && json_parse(trim(line@)) == Some(
                j@,
            ),
            LineOutcome::Garbage { log } => trim(line@).len() > 0 && json_parse(
                trim(line@),
            ).is_none() && starts_with(log@, "codex stdout non-JSON line (ignored): "@)
                && ends_with(log@, ": "@ + prefix(trim(line@), SNIPPET_CHARS as int)),
        },
{
    let trimmed = trim_str(line);
    if trimmed.as_str().is_empty() {
        return LineOutcome::Blank;
    }
    match parse_json(trimmed.as_str()) {
        Ok(j) => LineOutcome::Message(j),
        Err(fault) => {
            let snippet = str_prefix(trimmed.as_str(), SNIPPET_CHARS);
            let head = join2("codex stdout non-JSON line (ignored): ", fault.message.as_str());
            let tail = join2(": ", snippet.as_str());
            let log = join2(head.as_str(), tail.as_str());
            proof {
                let opening = "codex stdout non-JSON line (ignored): "@;
                assert(log@.subrange(0, opening.len() as int) =~= opening);
                assert(log@.subrange(log@.len() - tail@.len(), log@.len() as int) =~= tail@);
                assert(log@ =~= opening + fault.message@ + ": "@ + snippet@);
            }
            LineOutcome::Garbage { log }
        },
    }
}

} // verus!
