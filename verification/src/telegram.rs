//! The chat transport as the runtime sees it: its status, its stored state,
//! and the shaping of text for its messages.
use crate::chars::{
    all_space, append_chars, join2, lemma_all_space_trim, str_chars, str_same, string_of, trim,
    trim_chars, trim_str,
};
use crate::codex_types::{opt_text, CodexThreadSummary};
use crate::decimal::{all_digits, decimal, digits_value, i64_to_decimal, is_digit};
use crate::chars::{join_strings, joined, texts};
use crate::telegram_text::{command_of, parse_command, redact_token, redacted};
use vstd::prelude::*;

verus! {

/// State of the long-polling loop.
#[derive(Debug, Clone)]
pub struct TelegramStatus {
    pub running: bool,
    pub bot_username: Option<String>,
    pub last_poll_unix_ms: Option<u128>,
    pub last_error: Option<String>,
}

impl Default for TelegramStatus {
    /// Not running, nothing known.
    fn default() -> (r: TelegramStatus)
        ensures
            !r.running,
            r.bot_username.is_none(),
            r.last_poll_unix_ms.is_none(),
            r.last_error.is_none(),
    {
        TelegramStatus {
            running: false,
            bot_username: None,
            last_poll_unix_ms: None,
            last_error: None,
        }
    }
}

/// What the bot keeps between runs: the offset of the next update.
#[derive(Debug, Clone)]
pub struct BotState {
    pub offset: i64,
}

impl Default for BotState {
    fn default() -> (r: BotState)
        ensures
            r.offset == 0,
    {
        BotState { offset: 0 }
    }
}

/// What a self test of the transport found.
#[derive(Debug, Clone)]
pub struct TelegramSelfTestResult {
    pub ok: bool,
    pub bot_username: Option<String>,
    pub sent_test_message: bool,
    pub error: Option<String>,
}

/// The chat that a message was sent in.
#[derive(Debug, Clone, PartialEq)]
pub struct TgChat {
    pub id: i64,
}

/// A message as the transport delivers it.
#[derive(Debug, Clone, PartialEq)]
pub struct TgMessage {
    pub message_id: i64,
    pub chat: TgChat,
    pub text: Option<String>,
}

/// One update of the transport.
#[derive(Debug, Clone, PartialEq)]
pub struct TgUpdate {
    pub update_id: i64,
    pub message: Option<TgMessage>,
}

/// The chat, the message id and the text of an update that carries a text
/// message.
pub fn extract_text_message(update: &TgUpdate) -> (r: Option<(i64, i64, String)>)
    ensures
        match update.message {
            Some(m) => match m.text {
                Some(t) => r matches Some(x) && x.0 == m.chat.id && x.1 == m.message_id && x.2@
                    == t@,
                None => r.is_none(),
            },
            None => r.is_none(),
        },
{
    match &update.message {
        Some(m) => match &m.text {
            Some(t) => Some((m.chat.id, m.message_id, t.clone())),
            None => None,
        },
        None => None,
    }
}

/// The offset after the first `n` updates: one more than the largest update
/// id among them, or `offset` where there are none.
pub open spec fn offset_after(items: Seq<TgUpdate>, offset: i64, n: int) -> int
    decreases n,
{
    if n <= 0 || n > items.len() {
        offset as int
    } else if n == 1 {
        items[0].update_id + 1
    } else {
        let before = offset_after(items, offset, n - 1);
        if items[n - 1].update_id + 1 > before {
            items[n - 1].update_id + 1
        } else {
            before
        }
    }
}

/// The offset from which to ask for updates next.
pub fn next_offset(items: &Vec<TgUpdate>, offset: i64) -> (r: i64)
    requires
        forall|i: int| 0 <= i < items@.len() ==> (#[trigger] items@[i]).update_id < i64::MAX,
    ensures
        r == offset_after(items@, offset, items@.len() as int),
{
    if items.len() == 0 {
        return offset;
    }
    let mut best: i64 = items[0].update_id + 1;
    let mut i: usize = 1;
    while i < items.len()
        invariant
            1 <= i <= items.len(),
            forall|k: int| 0 <= k < items@.len() ==> (#[trigger] items@[k]).update_id < i64::MAX,
            best == offset_after(items@, offset, i as int),
        decreases items.len() - i,
    {
        let next = items[i].update_id + 1;
        if next > best {
            best = next;
        }
        i += 1;
    }
    best
}

/// What to do about a message.
#[derive(Debug, Clone, PartialEq)]
pub enum BotAction {
    /// Nothing.
    Ignore,
    /// Answer with a text.
    Reply { text: String },
    /// Hand the prompt to the assistant and stream its answer.
    AskCodex { prompt: String },
    /// List the recent threads.
    ListThreads,
    /// Show the thread of the chat.
    ShowThread,
    /// Attach the chat to the thread that `choice` names, by number or id.
    AttachThread { choice: String },
}

/// The mathematical value of a `BotAction`.
pub enum BotActionView {
    Ignore,
    Reply { text: Seq<char> },
    AskCodex { prompt: Seq<char> },
    ListThreads,
    ShowThread,
    AttachThread { choice: Seq<char> },
}

impl BotAction {
    /// The mathematical value.
    pub open spec fn view(&self) -> BotActionView {
        match self {
            BotAction::Ignore => BotActionView::Ignore,
            BotAction::Reply { text } => BotActionView::Reply { text: text@ },
            BotAction::AskCodex { prompt } => BotActionView::AskCodex { prompt: prompt@ },
            BotAction::ListThreads => BotActionView::ListThreads,
            BotAction::ShowThread => BotActionView::ShowThread,
            BotAction::AttachThread { choice } => BotActionView::AttachThread { choice: choice@ },
        }
    }
}

/// What a chat that is not on the allow list is told.
pub open spec fn no_access() -> Seq<char> {
    "Нема доступу. Використай /whoami і додай chat_id в allowlist."@
}

/// What a command of an allowed chat asks for.
pub open spec fn allowed_command(cmd: Seq<char>, rest: Option<Seq<char>>) -> BotActionView {
    if cmd == "/ping"@ {
        BotActionView::Reply { text: "pong"@ }
    } else if cmd == "/codex"@ {
        match rest {
            Some(p) => BotActionView::AskCodex { prompt: p },
            None => BotActionView::Reply { text: "Напиши: /codex <повідомлення>"@ },
        }
    } else if cmd == "/threads"@ {
        BotActionView::ListThreads
    } else {
        match rest {
            Some(choice) => BotActionView::AttachThread { choice },
            None => BotActionView::ShowThread,
        }
    }
}

/// `cmd` is one of the commands that only allowed chats may use.
pub open spec fn is_guarded(cmd: Seq<char>) -> bool {
    cmd == "/ping"@ || cmd == "/codex"@ || cmd == "/threads"@ || cmd == "/thread"@
}

/// What to do about the message `text` of the chat `chat_id`: `/start` and
/// `/whoami` are answered for everyone; the other commands and plain
/// messages are for allowed chats only; a command that is not known and a
/// blank message are ignored.
pub open spec fn planned(text: Seq<char>, chat_id: i64, allowed: bool) -> BotActionView {
    let trimmed = trim(text);
    if trimmed.len() == 0 {
        BotActionView::Ignore
    } else {
        match command_of(trimmed).0 {
            Some(cmd) => if cmd == "/start"@ {
                BotActionView::Reply { text: "Бот підключено.\n\nКоманди:\n/whoami\n/ping"@ }
            } else if cmd == "/whoami"@ {
                BotActionView::Reply { text: "chat_id: "@ + decimal(chat_id as int) }
            } else if is_guarded(cmd) {
                if allowed {
                    allowed_command(cmd, command_of(trimmed).1)
                } else {
                    BotActionView::Reply { text: no_access() }
                }
            } else {
                BotActionView::Ignore
            },
            None => if allowed {
                BotActionView::AskCodex { prompt: trimmed }
            } else {
                BotActionView::Ignore
            },
        }
    }
}

/// Decides what to do about the message `text` of the chat `chat_id`.
pub fn plan_message(text: &str, chat_id: i64, allowed: bool) -> (r: BotAction)
    ensures
        r@ == planned(text@, chat_id, allowed),
{
    let trimmed = trim_str(text);
    if trimmed.as_str().is_empty() {
        return BotAction::Ignore;
    }
    let (cmd, rest) = parse_command(trimmed.as_str());
    let cmd = match cmd {
        Some(c) => c,
        None => {
            return if allowed {
                BotAction::AskCodex { prompt: trimmed }
            } else {
                BotAction::Ignore
            };
        },
    };
    if str_same(cmd.as_str(), "/start") {
        return BotAction::Reply {
            text: "Бот підключено.\n\nКоманди:\n/whoami\n/ping".to_owned(),
        };
    }
    if str_same(cmd.as_str(), "/whoami") {
        return BotAction::Reply {
            text: join2("chat_id: ", i64_to_decimal(chat_id).as_str()),
        };
    }
    let ping = str_same(cmd.as_str(), "/ping");
    let codex = str_same(cmd.as_str(), "/codex");
    let threads = str_same(cmd.as_str(), "/threads");
    let thread = str_same(cmd.as_str(), "/thread");
    if !(ping || codex || threads || thread) {
        return BotAction::Ignore;
    }
    if !allowed {
        return BotAction::Reply {
            text: "Нема доступу. Використай /whoami і додай chat_id в allowlist.".to_owned(),
        };
    }
    if ping {
        BotAction::Reply { text: "pong".to_owned() }
    } else if codex {
        match rest {
            Some(p) => BotAction::AskCodex { prompt: p },
            None => BotAction::Reply { text: "Напиши: /codex <повідомлення>".to_owned() },
        }
    } else if threads {
        BotAction::ListThreads
    } else {
        match rest {
            Some(choice) => BotAction::AttachThread { choice },
            None => BotAction::ShowThread,
        }
    }
}

/// What the chat is told when a turn could not be started.
pub fn start_failure_reply(error: &str) -> (r: String)
    ensures
        r@ == if error@ == "Busy"@ {
            "Зачекай: обробляю попереднє повідомлення."@
        } else {
            "Codex error: "@ + error@
        },
{
    if str_same(error, "Busy") {
        "Зачекай: обробляю попереднє повідомлення.".to_owned()
    } else {
        join2("Codex error: ", error)
    }
}

/// What the chat is told when a turn has ended, beyond the fragments that
/// were sent while it ran: nothing after a good end with fragments; the
/// whole answer after a good end without fragments, or an excuse where the
/// answer is blank; the error after a bad end; and a note where the turn
/// was dropped.
pub fn final_reply(outcome: Option<Result<String, String>>, sent_any: bool) -> (r: Option<String>)
    ensures
        match outcome {
            Some(Ok(answer)) => if sent_any {
                r.is_none()
            } else if all_space(answer@) {
                opt_text(r) == Some("Нема відповіді від Codex. Спробуй ще раз."@)
            } else {
                opt_text(r) == Some(answer@)
            },
            Some(Err(e)) => opt_text(r) == Some("Codex error: "@ + e@),
            None => opt_text(r) == Some("Codex error: internal channel closed"@),
        },
{
    match outcome {
        Some(Ok(answer)) => {
            if sent_any {
                None
            } else {
                proof {
                    lemma_all_space_trim(answer@);
                }
                if trim_str(answer.as_str()).as_str().is_empty() {
                    Some("Нема відповіді від Codex. Спробуй ще раз.".to_owned())
                } else {
                    Some(answer)
                }
            }
        },
        Some(Err(e)) => Some(join2("Codex error: ", e.as_str())),
        None => Some("Codex error: internal channel closed".to_owned()),
    }
}

/// Most threads that a listing shows.
pub const LISTED_THREADS: usize = 10;

/// What a thread is called in a listing: its title, else its preview, else
/// a stock word.
pub open spec fn thread_label(t: CodexThreadSummary) -> Seq<char> {
    match t.title {
        Some(title) => title@,
        None => match t.preview {
            Some(preview) => preview@,
            None => "Діалог"@,
        },
    }
}

/// The numbered lines of the first `n` threads.
pub open spec fn listing_lines(threads: Seq<CodexThreadSummary>, n: int) -> Seq<char>
    decreases n,
{
    if n <= 0 || n > threads.len() {
        Seq::empty()
    } else {
        listing_lines(threads, n - 1) + seq!['\n'] + decimal(n) + ". "@ + thread_label(
            threads[n - 1],
        )
    }
}

/// The number of threads that a listing shows.
pub open spec fn listed(threads: Seq<CodexThreadSummary>) -> int {
    if threads.len() < LISTED_THREADS {
        threads.len() as int
    } else {
        LISTED_THREADS as int
    }
}

/// The listing of the recent threads: a heading, the first threads with
/// their numbers, and how to go on; or a note that there are none.
pub open spec fn listing(threads: Seq<CodexThreadSummary>) -> Seq<char> {
    if threads.len() == 0 {
        "Поки що немає діалогів."@
    } else {
        trim(
            "Останні діалоги:\n"@ + listing_lines(threads, listed(threads))
                + "\n\nПродовжити: /thread <номер> (наприклад /thread 1)"@,
        )
    }
}

/// The listing of the recent threads.
pub fn threads_listing(threads: &Vec<CodexThreadSummary>) -> (r: String)
    ensures
        r@ == listing(threads@),
{
    if threads.len() == 0 {
        return "Поки що немає діалогів.".to_owned();
    }
    let n = if threads.len() < LISTED_THREADS {
        threads.len()
    } else {
        LISTED_THREADS
    };
    let mut out = str_chars("Останні діалоги:\n");
    let ghost head = out@;
    let mut i: usize = 0;
    assert(out@ =~= head + listing_lines(threads@, 0));
    while i < n
        invariant
            i <= n <= threads.len(),
            n <= LISTED_THREADS,
            out@ == head + listing_lines(threads@, i as int),
        decreases n - i,
    {
        let ghost before = out@;
        out.push('\n');
        append_chars(&mut out, &str_chars(i64_to_decimal((i + 1) as i64).as_str()));
        append_chars(&mut out, &str_chars(". "));
        let t = &threads[i];
        match &t.title {
            Some(title) => {
                append_chars(&mut out, &str_chars(title.as_str()));
            },
            None => match &t.preview {
                Some(preview) => {
                    append_chars(&mut out, &str_chars(preview.as_str()));
                },
                None => {
                    append_chars(&mut out, &str_chars("Діалог"));
                },
            },
        }
        assert(out@ =~= head + listing_lines(threads@, i + 1));
        i += 1;
    }
    append_chars(&mut out, &str_chars("\n\nПродовжити: /thread <номер> (наприклад /thread 1)"));
    string_of(&trim_chars(&out))
}

/// The ids of the threads that a listing shows, in its order.
pub fn listed_thread_ids(threads: &Vec<CodexThreadSummary>) -> (r: Vec<String>)
    ensures
        r@.len() == listed(threads@),
        forall|i: int| 0 <= i < r@.len() ==> (#[trigger] r@[i])@ == threads@[i].id@,
{
    let n = if threads.len() < LISTED_THREADS {
        threads.len()
    } else {
        LISTED_THREADS
    };
    let mut out: Vec<String> = Vec::new();
    let mut i: usize = 0;
    while i < n
        invariant
            i <= n <= threads.len(),
            out@.len() == i,
            forall|k: int| 0 <= k < i ==> (#[trigger] out@[k])@ == threads@[k].id@,
        decreases n - i,
    {
        out.push(threads[i].id.clone());
        i += 1;
    }
    out
}

/// The number that `s` stands for: digits, after a plus sign or not, as far
/// as the number fits.
pub open spec fn index_value(s: Seq<char>) -> Option<nat> {
    let d = if s.len() > 0 && s[0] == '+' {
        s.skip(1)
    } else {
        s
    };
    if d.len() > 0 && all_digits(d) && digits_value(d) <= usize::MAX {
        Some(digits_value(d))
    } else {
        None
    }
}

/// The number that `s` stands for.
pub fn parse_index(s: &str) -> (r: Option<usize>)
    ensures
        match r {
            Some(n) => index_value(s@) == Some(n as nat),
            None => index_value(s@).is_none(),
        },
{
    let v = str_chars(s);
    let start: usize = if v.len() > 0 && v[0] == '+' {
        1
    } else {
        0
    };
    let ghost d = v@.subrange(start as int, v.len() as int);
    assert(d =~= if v@.len() > 0 && v@[0] == '+' {
        v@.skip(1)
    } else {
        v@
    });
    if start >= v.len() {
        return None;
    }
    let mut acc: usize = 0;
    let mut i: usize = start;
    assert(d.take(0) =~= Seq::<char>::empty());
    while i < v.len()
        invariant
            start <= i <= v.len(),
            s@ == v@,
            d == v@.subrange(start as int, v.len() as int),
            d == if v@.len() > 0 && v@[0] == '+' {
                v@.skip(1)
            } else {
                v@
            },
            acc == digits_value(d.take(i - start)),
            all_digits(d.take(i - start)),
        decreases v.len() - i,
    {
        let c = v[i];
        let ghost shorter = d.take(i - start);
        let ghost longer = d.take(i - start + 1);
        proof {
            assert(longer.drop_last() =~= shorter);
            assert(longer.last() == c);
        }
        if !('0' <= c && c <= '9') {
            assert(!is_digit(d[i - start]));
            return None;
        }
        let digit: usize = (c as u8 - 48u8) as usize;
        if acc > (usize::MAX - digit) / 10 {
            proof {
                assert(digits_value(longer) > usize::MAX) by (nonlinear_arith)
                    requires
                        digits_value(longer) == acc * 10 + digit,
                        acc > (usize::MAX - digit) / 10,
                        0 <= digit < 10,
                ;
                if all_digits(d) {
                    crate::decimal::lemma_digits_value_grows(d, i - start + 1);
                }
            }
            return None;
        }
        assert(acc * 10 + digit <= usize::MAX) by (nonlinear_arith)
            requires
                acc <= (usize::MAX - digit) / 10,
                0 <= digit < 10,
        ;
        acc = acc * 10 + digit;
        proof {
            assert forall|t: int| 0 <= t < longer.len() implies is_digit(#[trigger] longer[t]) by {
                if t < shorter.len() {
                    assert(is_digit(shorter[t]));
                }
            }
        }
        i += 1;
    }
    proof {
        assert(d.take(v.len() - start) =~= d);
    }
    Some(acc)
}

/// The thread that a choice names: where the choice is a number, the thread
/// with that number in the last listing, counted from one, where zero
/// counts as one; else the choice itself. `None` where the number names no
/// thread of the listing, or the thread it names has a blank id.
pub open spec fn chosen_thread(choice: Seq<char>, recent: Seq<String>) -> Option<Seq<char>> {
    let id = match index_value(choice) {
        Some(n) => {
            let at = if n == 0 {
                0int
            } else {
                n - 1
            };
            if at < recent.len() {
                recent[at]@
            } else {
                Seq::empty()
            }
        },
        None => choice,
    };
    if all_space(id) {
        None
    } else {
        Some(id)
    }
}

/// The thread that `choice` names, given the ids of the last listing.
pub fn choose_thread(choice: &str, recent: &Vec<String>) -> (r: Option<String>)
    ensures
        opt_text(r) == chosen_thread(choice@, recent@),
{
    let id = match parse_index(choice) {
        Some(n) => {
            let at = if n == 0 {
                0
            } else {
                n - 1
            };
            if at < recent.len() {
                recent[at].clone()
            } else {
                String::new()
            }
        },
        None => choice.to_owned(),
    };
    proof {
        lemma_all_space_trim(id@);
    }
    if trim_str(id.as_str()).as_str().is_empty() {
        None
    } else {
        Some(id)
    }
}

/// Most causes of a failed request that are told.
pub const TOLD_CAUSES: usize = 4;

/// The first `n` of `causes`, each with the token hidden.
pub open spec fn hidden_causes(causes: Seq<String>, token: Seq<char>, n: int) -> Seq<Seq<char>> {
    Seq::new(n as nat, |i: int| redacted(causes[i]@, token))
}

/// The number of causes that are told.
pub open spec fn told(causes: Seq<String>) -> int {
    if causes.len() < TOLD_CAUSES {
        causes.len() as int
    } else {
        TOLD_CAUSES as int
    }
}

/// What is told of a failed request, part by part: what the failure says,
/// whether the time ran out, whether no connection was made, the status of
/// the answer if there was one, and the first causes; the token is hidden
/// throughout.
pub open spec fn error_parts(
    base: Seq<char>,
    timeout: bool,
    connect: bool,
    status: Option<Seq<char>>,
    causes: Seq<String>,
    token: Seq<char>,
) -> Seq<Seq<char>> {
    seq![redacted(base, token)] + (if timeout {
        seq!["timeout"@]
    } else {
        Seq::empty()
    }) + (if connect {
        seq!["connect"@]
    } else {
        Seq::empty()
    }) + (match status {
        Some(s) => seq!["http "@ + s],
        None => Seq::empty(),
    }) + hidden_causes(causes, token, told(causes))
}

/// The view of an optional text.
pub open spec fn opt_str(o: Option<&str>) -> Option<Seq<char>> {
    match o {
        Some(s) => Some(s@),
        None => None,
    }
}

/// What is told of a failed request: its parts, with a colon and a blank
/// between each two.
pub fn describe_request_error(
    base: &str,
    timeout: bool,
    connect: bool,
    status: Option<&str>,
    causes: &Vec<String>,
    token: &str,
) -> (r: String)
    ensures
        r@ == joined(
            error_parts(base@, timeout, connect, opt_str(status), causes@, token@),
            ": "@,
            error_parts(base@, timeout, connect, opt_str(status), causes@, token@).len() as int,
        ),
{
    let mut parts: Vec<String> = Vec::new();
    parts.push(redact_token(base, token));
    if timeout {
        parts.push("timeout".to_owned());
    }
    if connect {
        parts.push("connect".to_owned());
    }
    match status {
        Some(s) => {
            parts.push(join2("http ", s));
        },
        None => {},
    }
    let ghost head = texts(parts@);
    assert(head =~= seq![redacted(base@, token@)] + (if timeout {
        seq!["timeout"@]
    } else {
        Seq::empty()
    }) + (if connect {
        seq!["connect"@]
    } else {
        Seq::empty()
    }) + (match opt_str(status) {
        Some(s) => seq!["http "@ + s],
        None => Seq::<Seq<char>>::empty(),
    }));
    let n = if causes.len() < TOLD_CAUSES {
        causes.len()
    } else {
        TOLD_CAUSES
    };
    let mut i: usize = 0;
    assert(texts(parts@) =~= head + hidden_causes(causes@, token@, 0));
    while i < n
        invariant
            i <= n <= causes.len(),
            texts(parts@) == head + hidden_causes(causes@, token@, i as int),
        decreases n - i,
    {
        let ghost before = texts(parts@);
        let hidden = redact_token(causes[i].as_str(), token);
        parts.push(hidden);
        assert(texts(parts@) =~= before.push(hidden@));
        assert(head + hidden_causes(causes@, token@, i + 1) =~= (head + hidden_causes(
            causes@,
            token@,
            i as int,
        )).push(hidden@));
        i += 1;
    }
    join_strings(&parts, ": ")
}

/// What an answer of the transport amounts to: it is good where it says
/// so; else its description is the error, or `fallback` where it has none.
pub fn api_outcome(ok: bool, description: Option<String>, fallback: &str) -> (r: Result<
    (),
    String,
>)
    ensures
        r.is_ok() == ok,
        r matches Err(e) ==> e@ == match description {
            Some(d) => d@,
            None => fallback@,
        },
{
    if ok {
        Ok(())
    } else {
        match description {
            Some(d) => Err(d),
            None => Err(fallback.to_owned()),
        }
    }
}

} // verus!
