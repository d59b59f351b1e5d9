//! The two procedures of the session, step by step: bringing the runtime
//! up, and starting a turn.
//!
//! A procedure is a value that says what it waits for. The caller does what
//! a step asks (spawns, sends, stores), and reports what came of it; the
//! next step is decided here. So the order of the steps, the one retry after
//! a lost thread, and the release of the chat when a start fails are all
//! decided in one place.
use crate::codex_types::opt_text;
use crate::json::{json_parse, Json, JsonValue};
use crate::protocol::{
    build_notification, extract_no_rollout_thread_id, no_rollout_thread_id, notification_message,
    request_message,
};
use crate::runtime::{CodexCore, CoreView};
use crate::session::{
    account_read_params, account_ready, has_account, build_account_read_params, build_initialize_params, id_in,
    initialize_params, requires_auth, thread_resume_params, thread_start_params,
    turn_start_params, Outbound, ThreadPlan, ThreadPlanView,
};
use crate::chars::texts;
use vstd::prelude::*;

verus! {

/// What the start of a turn waits for.
#[derive(Debug, PartialEq)]
pub enum Waiting {
    /// For the runtime to be up.
    Ready,
    /// For the answer to `account/read`.
    Account,
    /// For the answer to `thread/resume`.
    Resume { thread_id: String },
    /// For the answer to `thread/start`.
    Thread,
    /// For the thread map to be stored.
    Stored { thread_id: String },
    /// For the answer to `turn/start`.
    Turn { thread_id: String },
    /// For nothing: the start is over.
    Over,
}

/// The mathematical value of a `Waiting`.
pub enum WaitingView {
    Ready,
    Account,
    Resume { thread_id: Seq<char> },
    Thread,
    Stored { thread_id: Seq<char> },
    Turn { thread_id: Seq<char> },
    Over,
}

impl Waiting {
    /// The mathematical value.
    pub open spec fn view(&self) -> WaitingView {
        match self {
            Waiting::Ready => WaitingView::Ready,
            Waiting::Account => WaitingView::Account,
            Waiting::Resume { thread_id } => WaitingView::Resume { thread_id: thread_id@ },
            Waiting::Thread => WaitingView::Thread,
            Waiting::Stored { thread_id } => WaitingView::Stored { thread_id: thread_id@ },
            Waiting::Turn { thread_id } => WaitingView::Turn { thread_id: thread_id@ },
            Waiting::Over => WaitingView::Over,
        }
    }
}

/// The start of a turn that is under way.
#[derive(Debug, PartialEq)]
pub struct TurnStart {
    pub chat_id: i64,
    pub text: String,
    pub waiting: Waiting,
    /// Whether `turn/start` was tried again after a lost thread.
    pub retried: bool,
}

/// The mathematical value of a `TurnStart`.
pub struct TurnStartView {
    pub chat_id: i64,
    pub text: Seq<char>,
    pub waiting: WaitingView,
    pub retried: bool,
}

impl TurnStart {
    /// The mathematical value.
    pub open spec fn view(&self) -> TurnStartView {
        TurnStartView {
            chat_id: self.chat_id,
            text: self.text@,
            waiting: self.waiting@,
            retried: self.retried,
        }
    }
}

/// What came of the step before.
#[derive(Debug, PartialEq)]
pub enum Event {
    /// The runtime is up, or could not be brought up.
    Ready(Result<(), String>),
    /// The request was answered, or failed.
    Answer(Result<Json, String>),
    /// The thread map was stored, or could not be.
    Stored(Result<(), String>),
}

/// The mathematical value of an `Event`.
pub enum EventView {
    Ready(Result<(), Seq<char>>),
    Answer(Result<JsonValue, Seq<char>>),
    Stored(Result<(), Seq<char>>),
}

/// The view of a result without a value.
pub open spec fn unit_result(r: Result<(), String>) -> Result<(), Seq<char>> {
    match r {
        Ok(_) => Ok(()),
        Err(e) => Err(e@),
    }
}

impl Event {
    /// The mathematical value.
    pub open spec fn view(&self) -> EventView {
        match self {
            Event::Ready(r) => EventView::Ready(unit_result(*r)),
            Event::Answer(r) => EventView::Answer(crate::protocol::outcome_view(*r)),
            Event::Stored(r) => EventView::Stored(unit_result(*r)),
        }
    }

    /// The error of an answer that failed.
    pub open spec fn error(&self) -> Option<Seq<char>> {
        match self {
            Event::Answer(Err(e)) => Some(e@),
            _ => None,
        }
    }
}

/// What the caller is to do next.
#[derive(Debug, PartialEq)]
pub enum Step {
    /// Drop the sinks of the turns `dropped`; store the thread map if
    /// `store`, whether that succeeds or not; send `request`, and report its
    /// `Event::Answer`.
    Send { request: Outbound, method: String, dropped: Vec<String>, store: bool },
    /// Store the thread map, and report `Event::Stored`.
    Store,
    /// Nothing more: the turn `turn_id` is in flight.
    Started { turn_id: String },
    /// Nothing more: the start has failed, and the chat is free again.
    Failed { error: String },
}

/// The mathematical value of a `Step`.
pub enum StepView {
    Send { id: u64, message: JsonValue, method: Seq<char>, dropped: Seq<Seq<char>>, store: bool },
    Store,
    Started { turn_id: Seq<char> },
    Failed { error: Seq<char> },
}

impl Step {
    /// The mathematical value.
    pub open spec fn view(&self) -> StepView {
        match self {
            Step::Send { request, method, dropped, store } => StepView::Send {
                id: request.id,
                message: request.message@,
                method: method@,
                dropped: texts(dropped@),
                store: *store,
            },
            Step::Store => StepView::Store,
            Step::Started { turn_id } => StepView::Started { turn_id: turn_id@ },
            Step::Failed { error } => StepView::Failed { error: error@ },
        }
    }
}

/// What a start is refused with where a sign-in is missing.
pub open spec fn sign_in_message() -> Seq<char> {
    "Codex requires sign-in. Open AI Core -> Codex settings and sign in (ChatGPT)."@
}

/// What a start fails with where an event does not fit what it waits for.
pub open spec fn out_of_order() -> Seq<char> {
    "codex turn start out of order"@
}

/// What a request fails with where every id has been given out.
pub open spec fn ids_exhausted() -> Seq<char> {
    "codex request ids exhausted"@
}

/// The ids of the turns in flight.
pub open spec fn turn_ids(core: CoreView) -> Seq<Seq<char>> {
    Seq::new(core.turns.len(), |i: int| core.turns[i].turn_id)
}

/// The start fails: the chat is free again.
pub open spec fn fails(core: CoreView, flow: TurnStartView, error: Seq<char>) -> (
    CoreView,
    TurnStartView,
    StepView,
) {
    (
        core.released(flow.chat_id),
        TurnStartView { waiting: WaitingView::Over, ..flow },
        StepView::Failed { error },
    )
}

/// The start goes on with a request, unless no request id is left.
pub open spec fn sends(
    core: CoreView,
    flow: TurnStartView,
    waiting: WaitingView,
    method: Seq<char>,
    params: JsonValue,
    dropped: Seq<Seq<char>>,
    store: bool,
) -> (CoreView, TurnStartView, StepView) {
    if core.has_free_id() {
        (
            core.requested(),
            TurnStartView { waiting, ..flow },
            StepView::Send {
                id: core.next_id,
                message: request_message(core.next_id, method, params),
                method,
                dropped,
                store,
            },
        )
    } else {
        fails(core, flow, ids_exhausted())
    }
}

/// The start goes on with `turn/start` on the thread `thread_id`.
pub open spec fn sends_turn_start(core: CoreView, flow: TurnStartView, thread_id: Seq<char>) -> (
    CoreView,
    TurnStartView,
    StepView,
) {
    sends(
        core,
        flow,
        WaitingView::Turn { thread_id },
        "turn/start"@,
        turn_start_params(core.cwd, thread_id, flow.text),
        Seq::empty(),
        false,
    )
}

/// The start goes on with getting the thread of the chat: its thread is
/// used where it was resumed before, resumed where it was not, and a new
/// thread is started where the chat has none.
pub open spec fn seeks_thread(core: CoreView, flow: TurnStartView) -> (
    CoreView,
    TurnStartView,
    StepView,
) {
    match core.thread_plan(flow.chat_id) {
        ThreadPlanView::Ready(t) => sends_turn_start(core, flow, t),
        ThreadPlanView::Resume(t) => sends(
            core,
            flow,
            WaitingView::Resume { thread_id: t },
            "thread/resume"@,
            thread_resume_params(core.cwd, t),
            Seq::empty(),
            false,
        ),
        ThreadPlanView::Start => sends(
            core,
            flow,
            WaitingView::Thread,
            "thread/start"@,
            thread_start_params(core.cwd),
            Seq::empty(),
            false,
        ),
    }
}

/// The start goes on after the assistant has lost a thread: every thread is
/// forgotten, and a new one is started for the chat.
pub open spec fn starts_afresh(core: CoreView, flow: TurnStartView, bad: Seq<char>) -> (
    CoreView,
    TurnStartView,
    StepView,
) {
    sends(
        core.recovered(Some(bad)),
        flow,
        WaitingView::Thread,
        "thread/start"@,
        thread_start_params(core.cwd),
        turn_ids(core),
        true,
    )
}

/// The next step of the start of a turn, where `bad` is the thread that a
/// failed answer says has no rollout.
///
/// The runtime is brought up first. Then the account is read: a start is
/// refused where the server asks for a sign-in and there is no account; that
/// the account could not be read is no obstacle. Then the thread of the chat
/// is sought, resumed where it was not yet, and started where there is none
/// or where the assistant has lost it; a new thread is stored before it is
/// used. Then the turn is started; if the assistant has lost the thread,
/// every thread is forgotten and the turn is started once more on a new
/// one. Any other failure ends the start and frees the chat.
pub open spec fn next_step(
    core: CoreView,
    flow: TurnStartView,
    event: EventView,
    bad: Option<Seq<char>>,
) -> (CoreView, TurnStartView, StepView) {
    match (flow.waiting, event) {
        (WaitingView::Ready, EventView::Ready(Ok(_))) => sends(
            core,
            flow,
            WaitingView::Account,
            "account/read"@,
            account_read_params(),
            Seq::empty(),
            false,
        ),
        (WaitingView::Ready, EventView::Ready(Err(e))) => fails(core, flow, e),
        (WaitingView::Account, EventView::Answer(Ok(res))) => if requires_auth(res)
            && !has_account(res) {
            fails(core.with_account(res), flow, sign_in_message())
        } else {
            seeks_thread(core.with_account(res), flow)
        },
        (WaitingView::Account, EventView::Answer(Err(_))) => seeks_thread(core, flow),
        (WaitingView::Resume { thread_id }, EventView::Answer(Ok(_))) => sends_turn_start(
            CoreView { resumed: core.resumed.insert(thread_id), ..core },
            flow,
            thread_id,
        ),
        (WaitingView::Resume { thread_id }, EventView::Answer(Err(e))) => match bad {
            Some(b) => starts_afresh(core, flow, b),
            None => fails(core, flow, e),
        },
        (WaitingView::Thread, EventView::Answer(Ok(res))) => match id_in(
            res,
            "thread"@,
            "thread/start response missing thread.id"@,
        ) {
            Ok(t) => (
                CoreView { threads: core.threads.insert(flow.chat_id, t), ..core },
                TurnStartView { waiting: WaitingView::Stored { thread_id: t }, ..flow },
                StepView::Store,
            ),
            Err(m) => fails(core, flow, m),
        },
        (WaitingView::Thread, EventView::Answer(Err(e))) => fails(core, flow, e),
        (WaitingView::Stored { thread_id }, EventView::Stored(Ok(_))) => sends_turn_start(
            core,
            flow,
            thread_id,
        ),
        (WaitingView::Stored { thread_id }, EventView::Stored(Err(e))) => fails(core, flow, e),
        (WaitingView::Turn { thread_id }, EventView::Answer(Ok(res))) => match id_in(
            res,
            "turn"@,
            "turn/start response missing turn.id"@,
        ) {
            Ok(id) => (
                core.registered(id, flow.chat_id),
                TurnStartView { waiting: WaitingView::Over, ..flow },
                StepView::Started { turn_id: id },
            ),
            Err(m) => fails(core, flow, m),
        },
        (WaitingView::Turn { thread_id }, EventView::Answer(Err(e))) => match bad {
            Some(b) => if flow.retried {
                fails(core, flow, e)
            } else {
                starts_afresh(core, TurnStartView { retried: true, ..flow }, b)
            },
            None => fails(core, flow, e),
        },
        _ => fails(core, flow, out_of_order()),
    }
}

impl CodexCore {
    /// Admits a turn for `chat_id` with the message `text`, unless the
    /// message is blank or the chat is busy, and begins its start. The
    /// caller brings the runtime up next, and reports `Event::Ready`.
    pub fn begin_start(&mut self, chat_id: i64, text: &str) -> (r: Result<TurnStart, String>)
        requires
            old(self).wf(),
        ensures
            final(self).wf(),
            final(self)@ == old(self)@.admitted(chat_id, text@),
            match r {
                Ok(flow) => old(self)@.admission(chat_id, text@) == Ok::<Seq<char>, Seq<char>>(
                    flow.text@,
                ) && flow@ == (TurnStartView {
                    chat_id,
                    text: flow.text@,
                    waiting: WaitingView::Ready,
                    retried: false,
                }),
                Err(e) => old(self)@.admission(chat_id, text@) == Err::<Seq<char>, Seq<char>>(e@),
            },
    {
        match self.begin_turn(chat_id, text) {
            Ok(text) => Ok(TurnStart { chat_id, text, waiting: Waiting::Ready, retried: false }),
            Err(e) => Err(e),
        }
    }

    fn flow_fails(&mut self, flow: TurnStart, error: String) -> (r: (TurnStart, Step))
        requires
            old(self).wf(),
        ensures
            final(self).wf(),
            (final(self)@, r.0@, r.1@) == fails(old(self)@, flow@, error@),
    {
        self.release_chat(flow.chat_id);
        (
            TurnStart {
                chat_id: flow.chat_id,
                text: flow.text,
                waiting: Waiting::Over,
                retried: flow.retried,
            },
            Step::Failed { error },
        )
    }

    fn flow_sends(
        &mut self,
        flow: TurnStart,
        waiting: Waiting,
        method: &str,
        params: Json,
        dropped: Vec<String>,
        store: bool,
    ) -> (r: (TurnStart, Step))
        requires
            old(self).wf(),
        ensures
            final(self).wf(),
            (final(self)@, r.0@, r.1@) == sends(
                old(self)@,
                flow@,
                waiting@,
                method@,
                params@,
                texts(dropped@),
                store,
            ),
    {
        match self.send_request(method, params) {
            Ok(request) => (
                TurnStart {
                    chat_id: flow.chat_id,
                    text: flow.text,
                    waiting,
                    retried: flow.retried,
                },
                Step::Send { request, method: method.to_owned(), dropped, store },
            ),
            Err(e) => self.flow_fails(flow, e),
        }
    }

    fn flow_sends_turn_start(&mut self, flow: TurnStart, thread_id: String) -> (r: (
        TurnStart,
        Step,
    ))
        requires
            old(self).wf(),
        ensures
            final(self).wf(),
            (final(self)@, r.0@, r.1@) == sends_turn_start(old(self)@, flow@, thread_id@),
    {
        let params = self.build_turn_start_params(thread_id.as_str(), flow.text.as_str());
        let none: Vec<String> = Vec::new();
        assert(texts(none@) =~= Seq::<Seq<char>>::empty());
        self.flow_sends(flow, Waiting::Turn { thread_id }, "turn/start", params, none, false)
    }

    fn flow_seeks_thread(&mut self, flow: TurnStart) -> (r: (TurnStart, Step))
        requires
            old(self).wf(),
        ensures
            final(self).wf(),
            (final(self)@, r.0@, r.1@) == seeks_thread(old(self)@, flow@),
    {
        let none: Vec<String> = Vec::new();
        assert(texts(none@) =~= Seq::<Seq<char>>::empty());
        match self.plan_thread(flow.chat_id) {
            ThreadPlan::Ready(t) => self.flow_sends_turn_start(flow, t),
            ThreadPlan::Resume(t) => {
                let params = self.build_thread_resume_params(t.as_str());
                self.flow_sends(
                    flow,
                    Waiting::Resume { thread_id: t },
                    "thread/resume",
                    params,
                    none,
                    false,
                )
            },
            ThreadPlan::Start => {
                let params = self.build_thread_start_params();
                self.flow_sends(flow, Waiting::Thread, "thread/start", params, none, false)
            },
        }
    }

    fn flow_starts_afresh(&mut self, flow: TurnStart, bad: String) -> (r: (TurnStart, Step))
        requires
            old(self).wf(),
        ensures
            final(self).wf(),
            (final(self)@, r.0@, r.1@) == starts_afresh(old(self)@, flow@, bad@),
    {
        let dropped = match self.recover_from(Some(bad)) {
            Some(d) => d,
            None => Vec::new(),
        };
        assert(texts(dropped@) =~= turn_ids(old(self)@));
        let params = self.build_thread_start_params();
        self.flow_sends(flow, Waiting::Thread, "thread/start", params, dropped, true)
    }

    /// Takes the start of a turn one step on, where `bad` is the thread that
    /// a failed answer says has no rollout. Gives the start as it stands
    /// then, and what the caller is to do next.
    pub fn advance_with(&mut self, flow: TurnStart, event: Event, bad: Option<String>) -> (r: (
        TurnStart,
        Step,
    ))
        requires
            old(self).wf(),
        ensures
            final(self).wf(),
            (final(self)@, r.0@, r.1@) == next_step(old(self)@, flow@, event@, opt_text(bad)),
    {
        let TurnStart { chat_id, text, waiting, retried } = flow;
        match (waiting, event) {
            (Waiting::Ready, Event::Ready(Ok(()))) => {
                let flow = TurnStart { chat_id, text, waiting: Waiting::Ready, retried };
                let none: Vec<String> = Vec::new();
                assert(texts(none@) =~= Seq::<Seq<char>>::empty());
                self.flow_sends(
                    flow,
                    Waiting::Account,
                    "account/read",
                    build_account_read_params(),
                    none,
                    false,
                )
            },
            (Waiting::Ready, Event::Ready(Err(e))) => {
                let flow = TurnStart { chat_id, text, waiting: Waiting::Ready, retried };
                self.flow_fails(flow, e)
            },
            (Waiting::Account, Event::Answer(Ok(res))) => {
                let flow = TurnStart { chat_id, text, waiting: Waiting::Account, retried };
                let (needs_auth, have) = self.apply_account_state(&res);
                match account_ready(needs_auth, have) {
                    Ok(()) => self.flow_seeks_thread(flow),
                    Err(e) => self.flow_fails(flow, e),
                }
            },
            (Waiting::Account, Event::Answer(Err(_))) => {
                let flow = TurnStart { chat_id, text, waiting: Waiting::Account, retried };
                self.flow_seeks_thread(flow)
            },
            (Waiting::Resume { thread_id }, Event::Answer(Ok(_))) => {
                let flow = TurnStart {
                    chat_id,
                    text,
                    waiting: Waiting::Resume { thread_id: thread_id.clone() },
                    retried,
                };
                self.thread_resumed(thread_id.clone());
                self.flow_sends_turn_start(flow, thread_id)
            },
            (Waiting::Resume { thread_id }, Event::Answer(Err(e))) => {
                let flow = TurnStart { chat_id, text, waiting: Waiting::Resume { thread_id }, retried };
                match bad {
                    Some(b) => self.flow_starts_afresh(flow, b),
                    None => self.flow_fails(flow, e),
                }
            },
            (Waiting::Thread, Event::Answer(Ok(res))) => {
                match self.thread_started(chat_id, &res) {
                    Ok(t) => (
                        TurnStart {
                            chat_id,
                            text,
                            waiting: Waiting::Stored { thread_id: t },
                            retried,
                        },
                        Step::Store,
                    ),
                    Err(m) => {
                        let flow = TurnStart { chat_id, text, waiting: Waiting::Thread, retried };
                        self.flow_fails(flow, m)
                    },
                }
            },
            (Waiting::Thread, Event::Answer(Err(e))) => {
                let flow = TurnStart { chat_id, text, waiting: Waiting::Thread, retried };
                self.flow_fails(flow, e)
            },
            (Waiting::Stored { thread_id }, Event::Stored(Ok(()))) => {
                let flow = TurnStart {
                    chat_id,
                    text,
                    waiting: Waiting::Stored { thread_id: thread_id.clone() },
                    retried,
                };
                self.flow_sends_turn_start(flow, thread_id)
            },
            (Waiting::Stored { thread_id }, Event::Stored(Err(e))) => {
                let flow = TurnStart { chat_id, text, waiting: Waiting::Stored { thread_id }, retried };
                self.flow_fails(flow, e)
            },
            (Waiting::Turn { thread_id }, Event::Answer(Ok(res))) => {
                match self.turn_started(chat_id, &res) {
                    Ok(id) => (
                        TurnStart { chat_id, text, waiting: Waiting::Over, retried },
                        Step::Started { turn_id: id },
                    ),
                    Err(m) => {
                        let flow = TurnStart {
                            chat_id,
                            text,
                            waiting: Waiting::Turn { thread_id },
                            retried,
                        };
                        self.flow_fails(flow, m)
                    },
                }
            },
            (Waiting::Turn { thread_id }, Event::Answer(Err(e))) => {
                match bad {
                    Some(b) => {
                        if retried {
                            let flow = TurnStart {
                                chat_id,
                                text,
                                waiting: Waiting::Turn { thread_id },
                                retried,
                            };
                            self.flow_fails(flow, e)
                        } else {
                            let flow = TurnStart {
                                chat_id,
                                text,
                                waiting: Waiting::Turn { thread_id },
                                retried: true,
                            };
                            self.flow_starts_afresh(flow, b)
                        }
                    },
                    None => {
                        let flow = TurnStart {
                            chat_id,
                            text,
                            waiting: Waiting::Turn { thread_id },
                            retried,
                        };
                        self.flow_fails(flow, e)
                    },
                }
            },
            (w, _) => {
                let flow = TurnStart { chat_id, text, waiting: w, retried };
                self.flow_fails(flow, "codex turn start out of order".to_owned())
            },
        }
    }

    /// Takes the start of a turn one step on.
    pub fn advance(&mut self, flow: TurnStart, event: Event) -> (r: (TurnStart, Step))
        requires
            old(self).wf(),
        ensures
            final(self).wf(),
            (final(self)@, r.0@, r.1@) == next_step(
                old(self)@,
                flow@,
                event@,
                match event.error() {
                    Some(e) => no_rollout_thread_id(json_parse(e), e),
                    None => None,
                },
            ),
    {
        let bad = match &event {
            Event::Answer(Err(e)) => extract_no_rollout_thread_id(e.as_str()),
            _ => None,
        };
        self.advance_with(flow, event, bad)
    }
}

/// What the bringing up of the runtime waits for.
#[derive(Debug, Clone, Copy, PartialEq, Eq, Structural)]
pub enum Booting {
    /// For the word to begin.
    Begin,
    /// For the subprocess to be spawned.
    Spawn,
    /// For the answer to `initialize`.
    Handshake,
    /// For the notification `initialized` to be written.
    Notify,
    /// For the answer to `account/read`.
    Account,
    /// For nothing: the procedure is over.
    Over,
}

/// What came of the step before.
#[derive(Debug, PartialEq)]
pub enum BootEvent {
    /// Nothing yet: the procedure begins.
    Begin,
    /// The subprocess was spawned, or could not be.
    Spawned(Result<(), String>),
    /// The request was answered, or failed.
    Answer(Result<Json, String>),
    /// The notification was written, or could not be.
    Written(Result<(), String>),
}

/// The mathematical value of a `BootEvent`.
pub enum BootEventView {
    Begin,
    Spawned(Result<(), Seq<char>>),
    Answer(Result<JsonValue, Seq<char>>),
    Written(Result<(), Seq<char>>),
}

impl BootEvent {
    /// The mathematical value.
    pub open spec fn view(&self) -> BootEventView {
        match self {
            BootEvent::Begin => BootEventView::Begin,
            BootEvent::Spawned(r) => BootEventView::Spawned(unit_result(*r)),
            BootEvent::Answer(r) => BootEventView::Answer(crate::protocol::outcome_view(*r)),
            BootEvent::Written(r) => BootEventView::Written(unit_result(*r)),
        }
    }
}

/// What the caller is to do next.
#[derive(Debug, PartialEq)]
pub enum BootStep {
    /// Prepare the profile directory and spawn the subprocess; report
    /// `BootEvent::Spawned`.
    Spawn,
    /// Send `request`, and report its `BootEvent::Answer`.
    Send { request: Outbound, method: String },
    /// Write the notification `message`, and report `BootEvent::Written`.
    Notify { message: Json },
    /// Nothing more: the runtime is up.
    Ready,
    /// Nothing more: the runtime could not be brought up.
    Failed { error: String },
}

/// The mathematical value of a `BootStep`.
pub enum BootStepView {
    Spawn,
    Send { id: u64, message: JsonValue, method: Seq<char> },
    Notify { message: JsonValue },
    Ready,
    Failed { error: Seq<char> },
}

impl BootStep {
    /// The mathematical value.
    pub open spec fn view(&self) -> BootStepView {
        match self {
            BootStep::Spawn => BootStepView::Spawn,
            BootStep::Send { request, method } => BootStepView::Send {
                id: request.id,
                message: request.message@,
                method: method@,
            },
            BootStep::Notify { message } => BootStepView::Notify { message: message@ },
            BootStep::Ready => BootStepView::Ready,
            BootStep::Failed { error } => BootStepView::Failed { error: error@ },
        }
    }
}

/// The procedure goes on with a request; where no request id is left, it
/// ends as `otherwise` says.
pub open spec fn boot_sends(
    core: CoreView,
    stage: Booting,
    method: Seq<char>,
    params: JsonValue,
    otherwise: BootStepView,
) -> (CoreView, Booting, BootStepView) {
    if core.has_free_id() {
        (
            core.requested(),
            stage,
            BootStepView::Send {
                id: core.next_id,
                message: request_message(core.next_id, method, params),
                method,
            },
        )
    } else {
        (core, Booting::Over, otherwise)
    }
}

/// The procedure goes on with the handshake, unless it was made before.
pub open spec fn boot_handshake(core: CoreView, version: Seq<char>) -> (
    CoreView,
    Booting,
    BootStepView,
) {
    if core.status.initialized {
        (core, Booting::Over, BootStepView::Ready)
    } else {
        boot_sends(
            core,
            Booting::Handshake,
            "initialize"@,
            initialize_params(version),
            BootStepView::Failed { error: ids_exhausted() },
        )
    }
}

/// The state once the subprocess runs: the handshake is still to be made,
/// and no error stands.
pub open spec fn started(core: CoreView) -> CoreView {
    CoreView {
        status: crate::codex_types::CodexStatusView {
            running: true,
            initialized: false,
            last_error: None,
            ..core.status
        },
        ..core
    }
}

/// The state once the handshake is made.
pub open spec fn initialized(core: CoreView) -> CoreView {
    CoreView {
        status: crate::codex_types::CodexStatusView { initialized: true, ..core.status },
        ..core
    }
}

/// The next step of bringing the runtime up: the subprocess is spawned
/// unless it runs; the handshake is made unless it was made: `initialize`
/// is sent and, once it is answered, `initialized` is written; then the
/// account is read, which may fail without harm. Any other failure ends
/// the procedure.
pub open spec fn boot_next(core: CoreView, stage: Booting, event: BootEventView, version: Seq<char>)
    -> (CoreView, Booting, BootStepView) {
    match (stage, event) {
        (Booting::Begin, BootEventView::Begin) => if core.status.running {
            boot_handshake(core, version)
        } else {
            (core, Booting::Spawn, BootStepView::Spawn)
        },
        (Booting::Spawn, BootEventView::Spawned(Ok(_))) => boot_handshake(started(core), version),
        (Booting::Spawn, BootEventView::Spawned(Err(e))) => (
            core,
            Booting::Over,
            BootStepView::Failed { error: e },
        ),
        (Booting::Handshake, BootEventView::Answer(Ok(_))) => (
            core,
            Booting::Notify,
            BootStepView::Notify { message: notification_message("initialized"@, None) },
        ),
        (Booting::Handshake, BootEventView::Answer(Err(e))) => (
            core,
            Booting::Over,
            BootStepView::Failed { error: e },
        ),
        (Booting::Notify, BootEventView::Written(Ok(_))) => boot_sends(
            initialized(core),
            Booting::Account,
            "account/read"@,
            account_read_params(),
            BootStepView::Ready,
        ),
        (Booting::Notify, BootEventView::Written(Err(e))) => (
            core,
            Booting::Over,
            BootStepView::Failed { error: e },
        ),
        (Booting::Account, BootEventView::Answer(Ok(res))) => (
            core.with_account(res),
            Booting::Over,
            BootStepView::Ready,
        ),
        (Booting::Account, BootEventView::Answer(Err(_))) => (
            core,
            Booting::Over,
            BootStepView::Ready,
        ),
        _ => (core, Booting::Over, BootStepView::Failed { error: "codex start out of order"@ }),
    }
}

impl CodexCore {
    fn boot_handshake(&mut self, version: &str) -> (r: (Booting, BootStep))
        requires
            old(self).wf(),
        ensures
            final(self).wf(),
            (final(self)@, r.0, r.1@) == boot_handshake(old(self)@, version@),
    {
        if !self.needs_initialize() {
            return (Booting::Over, BootStep::Ready);
        }
        match self.send_request("initialize", build_initialize_params(version)) {
            Ok(request) => (
                Booting::Handshake,
                BootStep::Send { request, method: "initialize".to_owned() },
            ),
            Err(e) => (Booting::Over, BootStep::Failed { error: e }),
        }
    }

    /// Takes the bringing up of the runtime one step on, for a client of
    /// the version `version`.
    pub fn boot(&mut self, stage: Booting, event: BootEvent, version: &str) -> (r: (
        Booting,
        BootStep,
    ))
        requires
            old(self).wf(),
        ensures
            final(self).wf(),
            (final(self)@, r.0, r.1@) == boot_next(old(self)@, stage, event@, version@),
    {
        match (stage, event) {
            (Booting::Begin, BootEvent::Begin) => {
                if self.needs_start() {
                    (Booting::Spawn, BootStep::Spawn)
                } else {
                    self.boot_handshake(version)
                }
            },
            (Booting::Spawn, BootEvent::Spawned(Ok(()))) => {
                self.mark_started();
                self.boot_handshake(version)
            },
            (Booting::Spawn, BootEvent::Spawned(Err(e))) => (
                Booting::Over,
                BootStep::Failed { error: e },
            ),
            (Booting::Handshake, BootEvent::Answer(Ok(_))) => (
                Booting::Notify,
                BootStep::Notify { message: build_notification("initialized", None) },
            ),
            (Booting::Handshake, BootEvent::Answer(Err(e))) => (
                Booting::Over,
                BootStep::Failed { error: e },
            ),
            (Booting::Notify, BootEvent::Written(Ok(()))) => {
                self.mark_initialized();
                match self.send_request("account/read", build_account_read_params()) {
                    Ok(request) => (
                        Booting::Account,
                        BootStep::Send { request, method: "account/read".to_owned() },
                    ),
                    Err(_) => (Booting::Over, BootStep::Ready),
                }
            },
            (Booting::Notify, BootEvent::Written(Err(e))) => (
                Booting::Over,
                BootStep::Failed { error: e },
            ),
            (Booting::Account, BootEvent::Answer(Ok(res))) => {
                let _ = self.apply_account_state(&res);
                (Booting::Over, BootStep::Ready)
            },
            (Booting::Account, BootEvent::Answer(Err(_))) => (Booting::Over, BootStep::Ready),
            _ => (
                Booting::Over,
                BootStep::Failed { error: "codex start out of order".to_owned() },
            ),
        }
    }
}

} // verus!
