//! The state of the assistant runtime and what each message of the
//! subprocess does to it.
//!
//! The state is plain data. A step takes the state and an event and gives
//! the next state and the effects to carry out: requests to complete, lines
//! to send, fragments to hand on, turns to complete. The caller owns the
//! channels and the subprocess and carries the effects out in order.
use crate::chars::str_same;
use crate::codex_types::{opt_text, text_result, CodexStatus, CodexStatusView};
use crate::json::{member, u64_of, Json, JsonValue};
use crate::protocol::{
    classify, notice_from, notice_in, outcome_of_response, outcome_view, reply_for, reply_to,
    response_outcome, shape_of, Notice, NoticeView, Shape,
};
use crate::stream::{flush_turn_chunks, PendingTurn, TurnView};
use crate::threads::{ChatSet, ChatThreads, TextSet};
use crate::chars::texts;
use vstd::prelude::*;

verus! {

/// Most lines of the subprocess's error output that are kept.
pub const STDERR_TAIL_LINES: usize = 30;

/// Seconds after which a request without a response is given up.
pub const REQUEST_TIMEOUT_SECS: u64 = 60;

/// Seconds after which a turn without its completion is given up.
pub const TURN_TIMEOUT_SECS: u64 = 180;

/// Milliseconds between two looks at whether the subprocess has exited.
pub const EXIT_POLL_MILLIS: u64 = 350;

/// Everything that the runtime keeps between events.
#[derive(Debug, Clone)]
pub struct CodexCore {
    pub status: CodexStatus,
    pub next_id: u64,
    pub pending: Vec<u64>,
    pub turns: Vec<PendingTurn>,
    pub chat_threads: ChatThreads,
    pub resumed_threads: TextSet,
    pub busy_chats: ChatSet,
    pub stderr_tail: Vec<String>,
    pub default_cwd: Option<String>,
    pub universal_instructions: String,
    pub universal_fallback_only: bool,
}

/// The mathematical value of a `CodexCore`.
pub struct CoreView {
    pub status: CodexStatusView,
    pub next_id: u64,
    pub pending: Seq<u64>,
    pub turns: Seq<TurnView>,
    pub threads: Map<i64, Seq<char>>,
    pub resumed: Set<Seq<char>>,
    pub busy: Set<i64>,
    pub stderr_tail: Seq<Seq<char>>,
    pub cwd: Option<Seq<char>>,
    pub instructions: Seq<char>,
    pub fallback_only: bool,
}

/// Something for the caller to carry out.
#[allow(inconsistent_fields)]
#[derive(Debug, PartialEq)]
pub enum Effect {
    /// Complete the request `id` with its result or with an error.
    RequestDone { id: u64, outcome: Result<Json, String> },
    /// Send `message` to the subprocess.
    Send { message: Json },
    /// Hand the fragment `text` to the updates stream of the turn.
    Chunk { turn_id: String, text: String },
    /// Complete the turn with the whole answer or with an error.
    TurnDone { turn_id: String, chat_id: i64, outcome: Result<String, String> },
}

/// The mathematical value of an `Effect`.
#[allow(inconsistent_fields)]
pub enum EffectView {
    RequestDone { id: u64, outcome: Result<JsonValue, Seq<char>> },
    Send { message: JsonValue },
    Chunk { turn_id: Seq<char>, text: Seq<char> },
    TurnDone { turn_id: Seq<char>, chat_id: i64, outcome: Result<Seq<char>, Seq<char>> },
}

impl Effect {
    /// The mathematical value.
    pub open spec fn view(&self) -> EffectView {
        match self {
            Effect::RequestDone { id, outcome } => EffectView::RequestDone {
                id: *id,
                outcome: outcome_view(*outcome),
            },
            Effect::Send { message } => EffectView::Send { message: message@ },
            Effect::Chunk { turn_id, text } => EffectView::Chunk {
                turn_id: turn_id@,
                text: text@,
            },
            Effect::TurnDone { turn_id, chat_id, outcome } => EffectView::TurnDone {
                turn_id: turn_id@,
                chat_id: *chat_id,
                outcome: text_result(*outcome),
            },
        }
    }
}

/// The views of a list of effects.
pub open spec fn effect_views(effects: Seq<Effect>) -> Seq<EffectView> {
    Seq::new(effects.len(), |i: int| effects[i]@)
}

/// The views of a list of turns.
pub open spec fn turn_views(turns: Seq<PendingTurn>) -> Seq<TurnView> {
    Seq::new(turns.len(), |i: int| turns[i]@)
}

/// One `Chunk` for each fragment, in order.
pub open spec fn chunk_effects(turn_id: Seq<char>, chunks: Seq<Seq<char>>) -> Seq<EffectView> {
    Seq::new(chunks.len(), |i: int| EffectView::Chunk { turn_id, text: chunks[i] })
}

/// Index of the first turn at or after `k` with the id `turn_id`.
pub open spec fn turn_from(turns: Seq<TurnView>, turn_id: Seq<char>, k: int) -> Option<int>
    decreases turns.len() - k,
{
    if k < 0 || k >= turns.len() {
        None
    } else if turns[k].turn_id == turn_id {
        Some(k)
    } else {
        turn_from(turns, turn_id, k + 1)
    }
}

/// Index of the turn with the id `turn_id`.
pub open spec fn turn_at(turns: Seq<TurnView>, turn_id: Seq<char>) -> Option<int> {
    turn_from(turns, turn_id, 0)
}

/// `turn_from` gives the first turn from `k` on with the id, if there is one.
pub proof fn lemma_turn_from(turns: Seq<TurnView>, turn_id: Seq<char>, k: int)
    requires
        0 <= k,
    ensures
        match turn_from(turns, turn_id, k) {
            Some(i) => k <= i < turns.len() && turns[i].turn_id == turn_id,
            None => forall|j: int| k <= j < turns.len() ==> turns[j].turn_id != turn_id,
        },
    decreases turns.len() - k,
{
    if k < turns.len() && turns[k].turn_id != turn_id {
        lemma_turn_from(turns, turn_id, k + 1);
    }
}

/// Index of the first of `ids` at or after `k` that is `id`.
pub open spec fn request_from(ids: Seq<u64>, id: u64, k: int) -> Option<int>
    decreases ids.len() - k,
{
    if k < 0 || k >= ids.len() {
        None
    } else if ids[k] == id {
        Some(k)
    } else {
        request_from(ids, id, k + 1)
    }
}

/// Index of the outstanding request `id`.
pub open spec fn request_at(ids: Seq<u64>, id: u64) -> Option<int> {
    request_from(ids, id, 0)
}

/// No two turns have the same id.
pub open spec fn distinct_turn_ids(turns: Seq<TurnView>) -> bool {
    forall|i: int, j: int|
        0 <= i < j < turns.len() ==> (#[trigger] turns[i]).turn_id != (#[trigger] turns[j]).turn_id
}

/// The ids grow from each to the next.
pub open spec fn increasing(ids: Seq<u64>) -> bool {
    forall|i: int, j: int| 0 <= i < j < ids.len() ==> ids[i] < ids[j]
}

impl CoreView {
    /// What holds of every state: each turn's sent position lies on a
    /// boundary of its answer, no two turns share an id, the ids of the
    /// outstanding requests grow and lie below the next id, and the kept
    /// error output is bounded.
    pub open spec fn wf(self) -> bool {
        &&& forall|i: int| 0 <= i < self.turns.len() ==> (#[trigger] self.turns[i]).wf()
        &&& distinct_turn_ids(self.turns)
        &&& increasing(self.pending)
        &&& forall|i: int| 0 <= i < self.pending.len() ==> #[trigger] self.pending[i] < self.next_id
        &&& self.next_id >= 1
        &&& self.stderr_tail.len() <= STDERR_TAIL_LINES
    }

    /// No two turns in flight belong to the same chat.
    pub open spec fn single_flight(self) -> bool {
        forall|i: int, j: int|
            0 <= i < j < self.turns.len() ==> (#[trigger] self.turns[i]).chat_id != (
            #[trigger] self.turns[j]).chat_id
    }

    /// The chat of every turn in flight is marked busy.
    pub open spec fn turns_are_busy(self) -> bool {
        forall|i: int|
            0 <= i < self.turns.len() ==> self.busy.contains((#[trigger] self.turns[i]).chat_id)
    }

    /// The state after a response to the request `id` has come: the request
    /// is outstanding no longer.
    pub open spec fn answered(self, id: u64) -> CoreView {
        match request_at(self.pending, id) {
            Some(i) => CoreView { pending: self.pending.remove(i), ..self },
            None => self,
        }
    }

    /// What a response does: it ends the request it answers, if that is
    /// outstanding.
    pub open spec fn on_response(self, msg: JsonValue) -> (CoreView, Seq<EffectView>) {
        let id = match member(msg, "id"@) {
            Some(j) => u64_of(j),
            None => None,
        };
        match id {
            Some(id) => if request_at(self.pending, id).is_some() {
                (
                    self.answered(id),
                    seq![EffectView::RequestDone { id, outcome: response_outcome(msg) }],
                )
            } else {
                (self, Seq::empty())
            },
            None => (self, Seq::empty()),
        }
    }

    /// What a request of the subprocess does: it is answered by the policy.
    pub open spec fn on_server_request(self, msg: JsonValue) -> (CoreView, Seq<EffectView>) {
        match reply_to(msg) {
            Some(message) => (self, seq![EffectView::Send { message }]),
            None => (self, Seq::empty()),
        }
    }

    /// The state with the turn at `i` changed to `t`, and the fragments that
    /// are then due while the answer grows.
    pub open spec fn with_turn_flushed(self, i: int, t: TurnView) -> (CoreView, Seq<EffectView>) {
        let (chunks, after) = t.flushed(false);
        (
            CoreView { turns: self.turns.update(i, after), ..self },
            chunk_effects(t.turn_id, chunks),
        )
    }

    /// What the end of a turn does: the rest of the answer is handed on, the
    /// turn leaves, its chat is free again, and the turn is completed with
    /// the whole answer, or with the error where it failed.
    pub open spec fn on_turn_completed(
        self,
        i: int,
        failed: bool,
        error: Option<Seq<char>>,
    ) -> (CoreView, Seq<EffectView>) {
        let t = self.turns[i];
        let (chunks, after) = t.flushed(true);
        let outcome = if failed {
            Err(
                match error {
                    Some(e) => e,
                    None => "Turn failed"@,
                },
            )
        } else {
            Ok(t.full_text)
        };
        (
            CoreView {
                turns: self.turns.remove(i),
                busy: self.busy.remove(t.chat_id),
                ..self
            },
            chunk_effects(t.turn_id, chunks).push(
                EffectView::TurnDone { turn_id: t.turn_id, chat_id: t.chat_id, outcome },
            ),
        )
    }

    /// What a notification does.
    pub open spec fn on_notice(self, notice: NoticeView) -> (CoreView, Seq<EffectView>) {
        match notice {
            NoticeView::AccountUpdated { auth_mode } => (
                CoreView { status: CodexStatusView { auth_mode, ..self.status }, ..self },
                Seq::empty(),
            ),
            NoticeView::LoginCompleted { success, login_id, error } => {
                let matches = login_id.is_some() && self.status.login_id == login_id;
                let status = CodexStatusView {
                    login_url: if matches {
                        None
                    } else {
                        self.status.login_url
                    },
                    login_id: if matches {
                        None
                    } else {
                        self.status.login_id
                    },
                    last_error: if success {
                        self.status.last_error
                    } else {
                        Some(
                            match error {
                                Some(e) => e,
                                None => "Login failed"@,
                            },
                        )
                    },
                    ..self.status
                };
                (CoreView { status, ..self }, Seq::empty())
            },
            NoticeView::Delta { turn_id, delta } => match turn_at(self.turns, turn_id) {
                Some(i) => self.with_turn_flushed(i, self.turns[i].grown(delta)),
                None => (self, Seq::empty()),
            },
            NoticeView::ItemCompleted { turn_id, text } => match turn_at(self.turns, turn_id) {
                Some(i) => self.with_turn_flushed(i, self.turns[i].replaced(text)),
                None => (self, Seq::empty()),
            },
            NoticeView::TurnCompleted { turn_id, failed, error } => match turn_at(
                self.turns,
                turn_id,
            ) {
                Some(i) => self.on_turn_completed(i, failed, error),
                None => (self, Seq::empty()),
            },
            NoticeView::Failure { text } => (
                CoreView {
                    status: CodexStatusView { last_error: Some(text), ..self.status },
                    ..self
                },
                Seq::empty(),
            ),
            NoticeView::Ignored => (self, Seq::empty()),
        }
    }

    /// What a message of the subprocess does, by its shape.
    pub open spec fn on_message(self, msg: JsonValue) -> (CoreView, Seq<EffectView>) {
        match shape_of(msg) {
            Shape::Response => self.on_response(msg),
            Shape::ServerRequest => self.on_server_request(msg),
            Shape::Notification => self.on_notice(notice_in(msg)),
            Shape::Nothing => (self, Seq::empty()),
        }
    }

    /// One failed `RequestDone` for each of the first `n` outstanding requests.
    pub open spec fn failed_requests(self, n: int) -> Seq<EffectView> {
        Seq::new(
            n as nat,
            |i: int|
                EffectView::RequestDone {
                    id: self.pending[i],
                    outcome: Err("codex app-server stopped"@),
                },
        )
    }

    /// One failed `TurnDone` for each of the first `n` turns in flight.
    pub open spec fn failed_turns(self, n: int) -> Seq<EffectView> {
        Seq::new(
            n as nat,
            |i: int|
                EffectView::TurnDone {
                    turn_id: self.turns[i].turn_id,
                    chat_id: self.turns[i].chat_id,
                    outcome: Err("Codex disconnected"@),
                },
        )
    }

    /// The chats of the first `n` turns.
    pub open spec fn turn_chats(self, n: int) -> Set<i64> {
        Set::new(|c: i64| exists|i: int| 0 <= i < n && (#[trigger] self.turns[i]).chat_id == c)
    }

    /// What the end of the subprocess's output does: every outstanding
    /// request and every turn in flight fails, the chats of those turns are
    /// free again, and the runtime is neither running nor initialized. An
    /// error that is already noted stays.
    pub open spec fn on_disconnect(self) -> (CoreView, Seq<EffectView>) {
        (
            CoreView {
                status: CodexStatusView {
                    running: false,
                    initialized: false,
                    last_error: match self.status.last_error {
                        Some(e) => Some(e),
                        None => Some("codex app-server stopped"@),
                    },
                    ..self.status
                },
                pending: Seq::empty(),
                turns: Seq::empty(),
                busy: self.busy.difference(self.turn_chats(self.turns.len() as int)),
                ..self
            },
            self.failed_requests(self.pending.len() as int) + self.failed_turns(
                self.turns.len() as int,
            ),
        )
    }

    /// What the turn timer does when it fires: the turn, if it is still in
    /// flight, leaves and fails, and its chat is free again.
    pub open spec fn on_turn_timeout(self, turn_id: Seq<char>) -> (CoreView, Seq<EffectView>) {
        match turn_at(self.turns, turn_id) {
            Some(i) => (
                CoreView {
                    turns: self.turns.remove(i),
                    busy: self.busy.remove(self.turns[i].chat_id),
                    ..self
                },
                seq![
                    EffectView::TurnDone {
                        turn_id: self.turns[i].turn_id,
                        chat_id: self.turns[i].chat_id,
                        outcome: Err("Codex timeout"@),
                    },
                ],
            ),
            None => (self, Seq::empty()),
        }
    }
}

impl CodexCore {
    /// The mathematical value.
    pub open spec fn view(&self) -> CoreView {
        CoreView {
            status: self.status@,
            next_id: self.next_id,
            pending: self.pending@,
            turns: turn_views(self.turns@),
            threads: self.chat_threads@,
            resumed: self.resumed_threads@,
            busy: self.busy_chats@,
            stderr_tail: texts(self.stderr_tail@),
            cwd: opt_text(self.default_cwd),
            instructions: self.universal_instructions@,
            fallback_only: self.universal_fallback_only,
        }
    }

    /// The state is well formed, and so is the list behind the thread map.
    pub open spec fn wf(&self) -> bool {
        self@.wf() && self.chat_threads.wf()
    }

    /// The state at the start: nothing running, no request sent yet, and the
    /// thread of each chat as it was stored.
    pub fn new(chat_threads: ChatThreads, default_cwd: Option<String>) -> (core: CodexCore)
        requires
            chat_threads.wf(),
        ensures
            core.wf(),
            core@.next_id == 1,
            core@.pending.len() == 0,
            core@.turns.len() == 0,
            core@.threads == chat_threads@,
            core@.resumed == Set::<Seq<char>>::empty(),
            core@.busy == Set::<i64>::empty(),
            core@.stderr_tail.len() == 0,
            core@.cwd == opt_text(default_cwd),
            core@.instructions.len() == 0,
            core@.fallback_only,
            !core@.status.running && !core@.status.initialized,
    {
        CodexCore {
            status: CodexStatus::default(),
            next_id: 1,
            pending: Vec::new(),
            turns: Vec::new(),
            chat_threads,
            resumed_threads: TextSet::new(),
            busy_chats: ChatSet::new(),
            stderr_tail: Vec::new(),
            default_cwd,
            universal_instructions: String::new(),
            universal_fallback_only: true,
        }
    }

    /// A copy of the status.
    pub fn status(&self) -> (r: CodexStatus)
        ensures
            r@ == self@.status,
    {
        self.status.duplicate()
    }

    /// Index of the turn with the id `turn_id`.
    pub fn find_turn(&self, turn_id: &str) -> (r: Option<usize>)
        ensures
            match r {
                Some(i) => turn_at(self@.turns, turn_id@) == Some(i as int) && i
                    < self.turns.len(),
                None => turn_at(self@.turns, turn_id@).is_none(),
            },
    {
        let mut i: usize = 0;
        while i < self.turns.len()
            invariant
                i <= self.turns.len(),
                turn_at(self@.turns, turn_id@) == turn_from(self@.turns, turn_id@, i as int),
            decreases self.turns.len() - i,
        {
            if str_same(self.turns[i].turn_id.as_str(), turn_id) {
                return Some(i);
            }
            i += 1;
        }
        None
    }
}

/// One `Chunk` effect for each fragment, added to `effects` in order.
fn push_chunks(effects: &mut Vec<Effect>, turn_id: &str, chunks: Vec<String>)
    ensures
        effect_views(final(effects)@) == effect_views(old(effects)@) + chunk_effects(
            turn_id@,
            texts(chunks@),
        ),
{
    let mut i: usize = 0;
    let ghost start = effect_views(effects@);
    assert(start + chunk_effects(turn_id@, texts(chunks@)).take(0) =~= start);
    while i < chunks.len()
        invariant
            i <= chunks.len(),
            effect_views(effects@) == start + chunk_effects(turn_id@, texts(chunks@)).take(
                i as int,
            ),
        decreases chunks.len() - i,
    {
        let ghost before = effect_views(effects@);
        let e = Effect::Chunk { turn_id: turn_id.to_owned(), text: chunks[i].clone() };
        effects.push(e);
        proof {
            let all = chunk_effects(turn_id@, texts(chunks@));
            assert(effect_views(effects@) =~= before.push(all[i as int]));
            assert(all.take(i + 1) =~= all.take(i as int).push(all[i as int]));
            assert(start + all.take(i + 1) =~= (start + all.take(i as int)).push(all[i as int]));
        }
        i += 1;
    }
    proof {
        let all = chunk_effects(turn_id@, texts(chunks@));
        assert(all.take(chunks.len() as int) =~= all);
    }
}

impl CodexCore {
    /// Index of the outstanding request `id`.
    fn find_request(&self, id: u64) -> (r: Option<usize>)
        ensures
            match r {
                Some(i) => request_at(self@.pending, id) == Some(i as int) && i
                    < self.pending.len(),
                None => request_at(self@.pending, id).is_none(),
            },
    {
        let mut i: usize = 0;
        while i < self.pending.len()
            invariant
                i <= self.pending.len(),
                request_at(self@.pending, id) == request_from(self@.pending, id, i as int),
            decreases self.pending.len() - i,
        {
            if self.pending[i] == id {
                return Some(i);
            }
            i += 1;
        }
        None
    }

    /// Ends the request that the response `msg` answers, if it is outstanding.
    pub fn handle_response(&mut self, msg: &Json) -> (effects: Vec<Effect>)
        requires
            old(self).wf(),
        ensures
            final(self).wf(),
            final(self)@ == old(self)@.on_response(msg@).0,
            effect_views(effects@) == old(self)@.on_response(msg@).1,
    {
        let mut effects: Vec<Effect> = Vec::new();
        let id = match msg.get("id") {
            Some(j) => j.as_u64(),
            None => None,
        };
        match id {
            Some(id) => match self.find_request(id) {
                Some(i) => {
                    self.pending.remove(i);
                    let e = Effect::RequestDone { id, outcome: outcome_of_response(msg) };
                    effects.push(e);
                    assert(effect_views(effects@) =~= seq![e@]);
                    assert(final(self)@ =~= old(self)@.on_response(msg@).0);
                },
                None => {},
            },
            None => {},
        }
        assert(effects@.len() == 0 ==> effect_views(effects@) =~= Seq::<EffectView>::empty());
        effects
    }

    /// Changes the turn at `i` by `change` and hands on the fragments that
    /// are then due.
    fn update_turn(&mut self, i: usize, delta: Option<&str>, text: Option<&str>) -> (effects: Vec<
        Effect,
    >)
        requires
            old(self).wf(),
            i < old(self).turns.len(),
            delta.is_some() != text.is_some(),
        ensures
            final(self).wf(),
            final(self)@ == old(self)@.with_turn_flushed(
                i as int,
                match delta {
                    Some(d) => old(self)@.turns[i as int].grown(d@),
                    None => old(self)@.turns[i as int].replaced(text.unwrap()@),
                },
            ).0,
            effect_views(effects@) == old(self)@.with_turn_flushed(
                i as int,
                match delta {
                    Some(d) => old(self)@.turns[i as int].grown(d@),
                    None => old(self)@.turns[i as int].replaced(text.unwrap()@),
                },
            ).1,
    {
        let ghost before = self.turns@;
        assert(old(self)@.turns[i as int] == before[i as int]@);
        assert(before[i as int].wf());
        let mut t = self.turns.remove(i);
        match delta {
            Some(d) => {
                t.push_text(d);
            },
            None => match text {
                Some(x) => {
                    t.replace_text(x);
                },
                None => {},
            },
        }
        let ghost changed = t@;
        let chunks = flush_turn_chunks(&mut t, false);
        let id = t.turn_id.clone();
        let ghost after = t;
        self.turns.insert(i, t);
        let mut effects: Vec<Effect> = Vec::new();
        assert(effect_views(effects@) =~= Seq::<EffectView>::empty());
        push_chunks(&mut effects, id.as_str(), chunks);
        proof {
            assert(self.turns@ =~= before.update(i as int, after));
            assert(turn_views(self.turns@) =~= turn_views(before).update(i as int, after@));
            assert(effect_views(effects@) =~= chunk_effects(changed.turn_id, texts(chunks@)));
            let views = turn_views(self.turns@);
            assert forall|a: int, b: int| 0 <= a < b < views.len() implies (#[trigger] views[a]).turn_id
                != (#[trigger] views[b]).turn_id by {
                assert(turn_views(before)[a].turn_id != turn_views(before)[b].turn_id);
            }
            assert forall|a: int| 0 <= a < views.len() implies (#[trigger] views[a]).wf() by {
                if a != i {
                    assert(turn_views(before)[a].wf());
                }
            }
        }
        effects
    }

    /// Completes the turn at `i`.
    fn complete_turn(&mut self, i: usize, failed: bool, error: Option<String>) -> (effects: Vec<
        Effect,
    >)
        requires
            old(self).wf(),
            i < old(self).turns.len(),
        ensures
            final(self).wf(),
            final(self)@ == old(self)@.on_turn_completed(i as int, failed, opt_text(error)).0,
            effect_views(effects@) == old(self)@.on_turn_completed(
                i as int,
                failed,
                opt_text(error),
            ).1,
    {
        let ghost before = self.turns@;
        assert(old(self)@.turns[i as int] == before[i as int]@);
        assert(before[i as int].wf());
        let mut t = self.turns.remove(i);
        let ghost first = t@;
        let chunks = flush_turn_chunks(&mut t, true);
        self.busy_chats.remove(t.chat_id);
        let mut effects: Vec<Effect> = Vec::new();
        assert(effect_views(effects@) =~= Seq::<EffectView>::empty());
        push_chunks(&mut effects, t.turn_id.as_str(), chunks);
        let ghost so_far = effect_views(effects@);
        let outcome = if failed {
            Err(
                match error {
                    Some(e) => e,
                    None => "Turn failed".to_owned(),
                },
            )
        } else {
            Ok(t.full_text)
        };
        let done = Effect::TurnDone { turn_id: t.turn_id, chat_id: t.chat_id, outcome };
        effects.push(done);
        proof {
            assert(effect_views(effects@) =~= so_far.push(done@));
            assert(turn_views(self.turns@) =~= turn_views(before).remove(i as int));
            let views = turn_views(self.turns@);
            let old_views = turn_views(before);
            assert forall|a: int, b: int| 0 <= a < b < views.len() implies (#[trigger] views[a]).turn_id
                != (#[trigger] views[b]).turn_id by {
                let a0 = if a < i { a } else { a + 1 };
                let b0 = if b < i { b } else { b + 1 };
                assert(old_views[a0].turn_id != old_views[b0].turn_id);
            }
            assert forall|a: int| 0 <= a < views.len() implies (#[trigger] views[a]).wf() by {
                let a0 = if a < i { a } else { a + 1 };
                assert(old_views[a0].wf());
            }
        }
        effects
    }

    /// Applies a notification.
    pub fn apply_notice(&mut self, notice: Notice) -> (effects: Vec<Effect>)
        requires
            old(self).wf(),
        ensures
            final(self).wf(),
            final(self)@ == old(self)@.on_notice(notice@).0,
            effect_views(effects@) == old(self)@.on_notice(notice@).1,
    {
        let none: Vec<Effect> = Vec::new();
        assert(effect_views(none@) =~= Seq::<EffectView>::empty());
        match notice {
            Notice::AccountUpdated { auth_mode } => {
                self.status.auth_mode = auth_mode;
                none
            },
            Notice::LoginCompleted { success, login_id, error } => {
                let matches = match (&login_id, &self.status.login_id) {
                    (Some(a), Some(b)) => str_same(a.as_str(), b.as_str()),
                    _ => false,
                };
                if matches {
                    self.status.login_url = None;
                    self.status.login_id = None;
                }
                if !success {
                    self.status.last_error = Some(
                        match error {
                            Some(e) => e,
                            None => "Login failed".to_owned(),
                        },
                    );
                }
                assert(final(self)@ =~= old(self)@.on_notice(notice@).0);
                none
            },
            Notice::Delta { turn_id, delta } => match self.find_turn(turn_id.as_str()) {
                Some(i) => self.update_turn(i, Some(delta.as_str()), None),
                None => none,
            },
            Notice::ItemCompleted { turn_id, text } => match self.find_turn(turn_id.as_str()) {
                Some(i) => self.update_turn(i, None, Some(text.as_str())),
                None => none,
            },
            Notice::TurnCompleted { turn_id, failed, error } => match self.find_turn(
                turn_id.as_str(),
            ) {
                Some(i) => self.complete_turn(i, failed, error),
                None => none,
            },
            Notice::Failure { text } => {
                self.status.last_error = Some(text);
                none
            },
            Notice::Ignored => none,
        }
    }

    /// Takes in one message of the subprocess: a response ends the request
    /// it answers; a request of the subprocess is answered by the policy; a
    /// notification is applied; anything else is dropped.
    pub fn handle_server_msg(&mut self, msg: &Json) -> (effects: Vec<Effect>)
        requires
            old(self).wf(),
        ensures
            final(self).wf(),
            final(self)@ == old(self)@.on_message(msg@).0,
            effect_views(effects@) == old(self)@.on_message(msg@).1,
    {
        match classify(msg) {
            Shape::Response => self.handle_response(msg),
            Shape::ServerRequest => {
                let mut effects: Vec<Effect> = Vec::new();
                match reply_for(msg) {
                    Some(message) => {
                        let e = Effect::Send { message };
                        effects.push(e);
                        assert(effect_views(effects@) =~= seq![e@]);
                    },
                    None => {
                        assert(effect_views(effects@) =~= Seq::<EffectView>::empty());
                    },
                }
                effects
            },
            Shape::Notification => {
                let notice = notice_from(msg);
                self.apply_notice(notice)
            },
            Shape::Nothing => {
                let effects: Vec<Effect> = Vec::new();
                assert(effect_views(effects@) =~= Seq::<EffectView>::empty());
                effects
            },
        }
    }

    /// Fails the turn `turn_id` if it is still in flight when its timer fires.
    pub fn turn_timed_out(&mut self, turn_id: &str) -> (effects: Vec<Effect>)
        requires
            old(self).wf(),
        ensures
            final(self).wf(),
            final(self)@ == old(self)@.on_turn_timeout(turn_id@).0,
            effect_views(effects@) == old(self)@.on_turn_timeout(turn_id@).1,
    {
        let mut effects: Vec<Effect> = Vec::new();
        match self.find_turn(turn_id) {
            Some(i) => {
                let ghost before = self.turns@;
                assert(old(self)@.turns[i as int] == before[i as int]@);
                let t = self.turns.remove(i);
                self.busy_chats.remove(t.chat_id);
                let e = Effect::TurnDone {
                    turn_id: t.turn_id,
                    chat_id: t.chat_id,
                    outcome: Err("Codex timeout".to_owned()),
                };
                effects.push(e);
                proof {
                    assert(effect_views(effects@) =~= seq![e@]);
                    assert(turn_views(self.turns@) =~= turn_views(before).remove(i as int));
                    let views = turn_views(self.turns@);
                    let old_views = turn_views(before);
                    assert forall|a: int, b: int| 0 <= a < b < views.len() implies (
                    #[trigger] views[a]).turn_id != (#[trigger] views[b]).turn_id by {
                        let a0 = if a < i { a } else { a + 1 };
                        let b0 = if b < i { b } else { b + 1 };
                        assert(old_views[a0].turn_id != old_views[b0].turn_id);
                    }
                    assert forall|a: int| 0 <= a < views.len() implies (#[trigger] views[a]).wf() by {
                        let a0 = if a < i { a } else { a + 1 };
                        assert(old_views[a0].wf());
                    }
                }
            },
            None => {
                assert(effect_views(effects@) =~= Seq::<EffectView>::empty());
            },
        }
        effects
    }

    /// Takes in the end of the subprocess's output: fails every outstanding
    /// request and every turn in flight.
    pub fn handle_disconnect(&mut self) -> (effects: Vec<Effect>)
        requires
            old(self).wf(),
        ensures
            final(self).wf(),
            final(self)@ == old(self)@.on_disconnect().0,
            effect_views(effects@) == old(self)@.on_disconnect().1,
    {
        let mut effects: Vec<Effect> = Vec::new();
        let ghost pre = self@;
        assert(effect_views(effects@) =~= pre.failed_requests(0));
        let mut i: usize = 0;
        while i < self.pending.len()
            invariant
                i <= self.pending.len(),
                *self == *old(self),
                pre == self@,
                effect_views(effects@) == pre.failed_requests(i as int),
            decreases self.pending.len() - i,
        {
            let e = Effect::RequestDone {
                id: self.pending[i],
                outcome: Err("codex app-server stopped".to_owned()),
            };
            let ghost before = effect_views(effects@);
            effects.push(e);
            assert(effect_views(effects@) =~= before.push(e@));
            assert(pre.failed_requests(i + 1) =~= pre.failed_requests(i as int).push(e@));
            i += 1;
        }
        let ghost requests = effect_views(effects@);
        assert(requests + pre.failed_turns(0) =~= requests);
        let mut chats: Vec<i64> = Vec::new();
        let mut k: usize = 0;
        while k < self.turns.len()
            invariant
                k <= self.turns.len(),
                *self == *old(self),
                pre == self@,
                effect_views(effects@) == requests + pre.failed_turns(k as int),
                chats@.len() == k,
                forall|j: int| 0 <= j < k ==> chats@[j] == (#[trigger] pre.turns[j]).chat_id,
            decreases self.turns.len() - k,
        {
            let e = Effect::TurnDone {
                turn_id: self.turns[k].turn_id.clone(),
                chat_id: self.turns[k].chat_id,
                outcome: Err("Codex disconnected".to_owned()),
            };
            let ghost before = effect_views(effects@);
            effects.push(e);
            chats.push(self.turns[k].chat_id);
            proof {
                assert(pre.turns[k as int] == self.turns@[k as int]@);
                assert(effect_views(effects@) =~= before.push(e@));
                assert(pre.failed_turns(k + 1) =~= pre.failed_turns(k as int).push(e@));
                assert(requests + pre.failed_turns(k + 1) =~= (requests + pre.failed_turns(
                    k as int,
                )).push(e@));
            }
            k += 1;
        }
        proof {
            let n = pre.turns.len() as int;
            assert forall|c: i64| chats@.to_set().contains(c) == pre.turn_chats(n).contains(c) by {
                if chats@.to_set().contains(c) {
                    let j = choose|j: int| 0 <= j < chats@.len() && chats@[j] == c;
                    assert(pre.turns[j].chat_id == c);
                }
                if pre.turn_chats(n).contains(c) {
                    let j = choose|j: int| 0 <= j < n && (#[trigger] pre.turns[j]).chat_id == c;
                    assert(chats@[j] == c);
                }
            }
            assert(chats@.to_set() =~= pre.turn_chats(n));
        }
        self.busy_chats.remove_all(&chats);
        self.pending = Vec::new();
        self.turns = Vec::new();
        self.status.running = false;
        self.status.initialized = false;
        if self.status.last_error.is_none() {
            self.status.last_error = Some("codex app-server stopped".to_owned());
        }
        proof {
            assert(turn_views(self.turns@) =~= Seq::<TurnView>::empty());
            assert(self.pending@ =~= Seq::<u64>::empty());
            assert(final(self)@ =~= pre.on_disconnect().0);
        }
        effects
    }
}

} // verus!
