//! What holds of the runtime whatever happens: one turn per chat, request
//! ids that never repeat, a reset that stays a reset, and a disconnect that
//! leaves nothing waiting.
use crate::flows::{
    boot_next, next_step, BootEventView, Booting, EventView, StepView, TurnStartView, WaitingView,
};
use crate::json::JsonValue;
use crate::protocol::{notice_in, shape_of, NoticeView, Shape};
use crate::runtime::{
    lemma_turn_from, request_at, request_from, turn_at, CoreView, EffectView,
};
use crate::chars::all_space;
use crate::protocol::request_message;
use crate::session::{id_in, thread_start_params, turn_start_params};
use crate::stream::{
    law_fragments_are_trimmed, law_turn_end_hands_on_fragments, lemma_flushed_wf, lemma_grown_wf,
    lemma_replaced_wf, trimmed, unsent, TurnView,
};
use vstd::prelude::*;

verus! {

impl CoreView {
    /// No turn in flight belongs to `chat_id`.
    pub open spec fn has_no_turn_of(self, chat_id: i64) -> bool {
        forall|i: int| 0 <= i < self.turns.len() ==> (#[trigger] self.turns[i]).chat_id != chat_id
    }

    /// A turn for `chat_id` is being started: the chat is busy and has no
    /// turn in flight yet.
    pub open spec fn starting(self, chat_id: i64) -> bool {
        self.busy.contains(chat_id) && self.has_no_turn_of(chat_id)
    }

    /// Turns are single-flight: no two turns in flight belong to the same
    /// chat, and the chat of each is busy.
    pub open spec fn orderly(self) -> bool {
        self.single_flight() && self.turns_are_busy()
    }
}

/// Removing one turn, and its chat from the busy chats, keeps turns
/// single-flight, and keeps a start that is under way for another chat.
proof fn lemma_turn_leaves(pre: CoreView, i: int, post: CoreView)
    requires
        pre.orderly(),
        0 <= i < pre.turns.len(),
        post.turns == pre.turns.remove(i),
        post.busy == pre.busy.remove(pre.turns[i].chat_id),
    ensures
        post.orderly(),
        forall|c: i64| pre.starting(c) ==> post.starting(c),
{
    assert forall|a: int| 0 <= a < post.turns.len() implies post.busy.contains(
        (#[trigger] post.turns[a]).chat_id,
    ) && post.turns[a] == pre.turns[if a < i {
        a
    } else {
        a + 1
    }] by {
        let a0 = if a < i {
            a
        } else {
            a + 1
        };
        assert(pre.busy.contains(pre.turns[a0].chat_id));
        if a0 < i {
            assert(pre.turns[a0].chat_id != pre.turns[i].chat_id);
        } else {
            assert(pre.turns[i].chat_id != pre.turns[a0].chat_id);
        }
    }
    assert forall|a: int, b: int| 0 <= a < b < post.turns.len() implies (
    #[trigger] post.turns[a]).chat_id != (#[trigger] post.turns[b]).chat_id by {
        let a0 = if a < i {
            a
        } else {
            a + 1
        };
        let b0 = if b < i {
            b
        } else {
            b + 1
        };
        assert(pre.turns[a0].chat_id != pre.turns[b0].chat_id);
    }
    assert forall|c: i64| pre.starting(c) implies post.starting(c) by {
        assert(pre.turns[i].chat_id != c);
        assert forall|a: int| 0 <= a < post.turns.len() implies (#[trigger] post.turns[a]).chat_id
            != c by {
            let a0 = if a < i {
                a
            } else {
                a + 1
            };
            assert(pre.turns[a0].chat_id != c);
        }
    }
}

/// Changing the answer of one turn keeps turns single-flight, and keeps a
/// start that is under way.
proof fn lemma_turn_changes(pre: CoreView, i: int, t: TurnView, post: CoreView)
    requires
        pre.orderly(),
        0 <= i < pre.turns.len(),
        t.chat_id == pre.turns[i].chat_id,
        post.turns == pre.turns.update(i, t),
        post.busy == pre.busy,
    ensures
        post.orderly(),
        forall|c: i64| pre.starting(c) ==> post.starting(c),
{
    assert forall|a: int| 0 <= a < post.turns.len() implies (#[trigger] post.turns[a]).chat_id
        == pre.turns[a].chat_id by {}
    assert forall|a: int, b: int| 0 <= a < b < post.turns.len() implies (
    #[trigger] post.turns[a]).chat_id != (#[trigger] post.turns[b]).chat_id by {
        assert(pre.turns[a].chat_id != pre.turns[b].chat_id);
    }
    assert forall|a: int| 0 <= a < post.turns.len() implies post.busy.contains(
        (#[trigger] post.turns[a]).chat_id,
    ) by {
        assert(pre.busy.contains(pre.turns[a].chat_id));
    }
    assert forall|c: i64| pre.starting(c) implies post.starting(c) by {
        assert forall|a: int| 0 <= a < post.turns.len() implies (#[trigger] post.turns[a]).chat_id
            != c by {
            assert(pre.turns[a].chat_id != c);
        }
    }
}

/// Single-flight, under messages: whatever the subprocess sends, no two
/// turns in flight belong to the same chat afterwards, the chat of each is
/// busy, and a start that is under way for a chat stays under way.
pub proof fn law_messages_keep_single_flight(pre: CoreView, msg: JsonValue)
    requires
        pre.orderly(),
    ensures
        pre.on_message(msg).0.orderly(),
        forall|c: i64| pre.starting(c) ==> pre.on_message(msg).0.starting(c),
{
    let post = pre.on_message(msg).0;
    match shape_of(msg) {
        Shape::Notification => {
            law_notices_keep_single_flight(pre, notice_in(msg));
        },
        Shape::Response => {
            assert(post.turns == pre.turns && post.busy == pre.busy);
        },
        _ => {},
    }
}

/// Single-flight, under notifications.
pub proof fn law_notices_keep_single_flight(pre: CoreView, notice: NoticeView)
    requires
        pre.orderly(),
    ensures
        pre.on_notice(notice).0.orderly(),
        forall|c: i64| pre.starting(c) ==> pre.on_notice(notice).0.starting(c),
{
    let post = pre.on_notice(notice).0;
    match notice {
        NoticeView::Delta { turn_id, delta } => {
            lemma_turn_from(pre.turns, turn_id, 0);
            if let Some(i) = turn_at(pre.turns, turn_id) {
                lemma_turn_changes(pre, i, pre.turns[i].grown(delta).flushed(false).1, post);
            }
        },
        NoticeView::ItemCompleted { turn_id, text } => {
            lemma_turn_from(pre.turns, turn_id, 0);
            if let Some(i) = turn_at(pre.turns, turn_id) {
                lemma_turn_changes(pre, i, pre.turns[i].replaced(text).flushed(false).1, post);
            }
        },
        NoticeView::TurnCompleted { turn_id, failed, error } => {
            lemma_turn_from(pre.turns, turn_id, 0);
            if let Some(i) = turn_at(pre.turns, turn_id) {
                lemma_turn_leaves(pre, i, post);
            }
        },
        _ => {
            assert(post.turns == pre.turns && post.busy == pre.busy);
        },
    }
}

/// Single-flight, under the turn timer.
pub proof fn law_timeout_keeps_single_flight(pre: CoreView, turn_id: Seq<char>)
    requires
        pre.orderly(),
    ensures
        pre.on_turn_timeout(turn_id).0.orderly(),
        forall|c: i64| pre.starting(c) ==> pre.on_turn_timeout(turn_id).0.starting(c),
{
    lemma_turn_from(pre.turns, turn_id, 0);
    if let Some(i) = turn_at(pre.turns, turn_id) {
        lemma_turn_leaves(pre, i, pre.on_turn_timeout(turn_id).0);
    }
}

/// Single-flight, at the start of a turn: a turn is admitted only for a chat
/// that is not busy, which then has no turn in flight; and once the turn of
/// a chat whose start is under way is registered, turns are single-flight
/// still.
pub proof fn law_start_keeps_single_flight(
    pre: CoreView,
    chat_id: i64,
    text: Seq<char>,
    turn_id: Seq<char>,
)
    requires
        pre.orderly(),
    ensures
        pre.admitted(chat_id, text).orderly(),
        pre.admission(chat_id, text).is_ok() ==> pre.admitted(chat_id, text).starting(chat_id),
        pre.starting(chat_id) ==> pre.registered(turn_id, chat_id).orderly(),
{
    let admitted = pre.admitted(chat_id, text);
    assert forall|a: int| 0 <= a < admitted.turns.len() implies admitted.busy.contains(
        (#[trigger] admitted.turns[a]).chat_id,
    ) by {
        assert(pre.busy.contains(pre.turns[a].chat_id));
    }
    if pre.admission(chat_id, text).is_ok() {
        assert forall|a: int| 0 <= a < pre.turns.len() implies (#[trigger] pre.turns[a]).chat_id
            != chat_id by {
            assert(pre.busy.contains(pre.turns[a].chat_id));
        }
    }
    if pre.starting(chat_id) {
        let post = pre.registered(turn_id, chat_id);
        lemma_turn_from(pre.turns, turn_id, 0);
        let others = match turn_at(pre.turns, turn_id) {
            Some(i) => pre.turns.remove(i),
            None => pre.turns,
        };
        assert forall|a: int| 0 <= a < others.len() implies exists|a0: int|
            0 <= a0 < pre.turns.len() && pre.turns[a0] == #[trigger] others[a] && (a0 == a || a0
                == a + 1) by {
            match turn_at(pre.turns, turn_id) {
                Some(i) => {
                    let a0 = if a < i {
                        a
                    } else {
                        a + 1
                    };
                    assert(pre.turns[a0] == others[a]);
                },
                None => {
                    assert(pre.turns[a] == others[a]);
                },
            }
        }
        assert forall|a: int, b: int| 0 <= a < b < post.turns.len() implies (
        #[trigger] post.turns[a]).chat_id != (#[trigger] post.turns[b]).chat_id by {
            let a0 = choose|a0: int|
                0 <= a0 < pre.turns.len() && pre.turns[a0] == others[a] && (a0 == a || a0 == a + 1);
            if b < others.len() {
                let b0 = choose|b0: int|
                    0 <= b0 < pre.turns.len() && pre.turns[b0] == others[b] && (b0 == b || b0 == b
                        + 1);
                if a0 < b0 {
                    assert(pre.turns[a0].chat_id != pre.turns[b0].chat_id);
                } else {
                    // Both indices moved past the turn that left, or neither did.
                    match turn_at(pre.turns, turn_id) {
                        Some(i) => {
                            assert(a0 == a + 1 && b0 == b);
                            assert(a >= i && b < i);
                        },
                        None => {},
                    }
                }
            } else {
                assert(pre.turns[a0].chat_id != chat_id);
            }
        }
        assert forall|a: int| 0 <= a < post.turns.len() implies post.busy.contains(
            (#[trigger] post.turns[a]).chat_id,
        ) by {
            if a < others.len() {
                let a0 = choose|a0: int|
                    0 <= a0 < pre.turns.len() && pre.turns[a0] == others[a] && (a0 == a || a0 == a
                        + 1);
                assert(pre.busy.contains(pre.turns[a0].chat_id));
            }
        }
    }
}

/// Single-flight, when a start fails: freeing a chat that has no turn in
/// flight keeps turns single-flight.
pub proof fn law_release_keeps_single_flight(pre: CoreView, chat_id: i64)
    requires
        pre.orderly(),
        pre.has_no_turn_of(chat_id),
    ensures
        pre.released(chat_id).orderly(),
{
    let post = pre.released(chat_id);
    assert forall|a: int| 0 <= a < post.turns.len() implies post.busy.contains(
        (#[trigger] post.turns[a]).chat_id,
    ) by {
        assert(pre.busy.contains(pre.turns[a].chat_id));
        assert(pre.turns[a].chat_id != chat_id);
    }
}

/// Id uniqueness: the id of a new request is larger than the id of every
/// request before it, and no two outstanding requests share an id.
pub proof fn law_request_ids_increase(pre: CoreView)
    requires
        pre.wf(),
        pre.has_free_id(),
    ensures
        pre.requested().wf(),
        pre.requested().next_id == pre.next_id + 1,
        pre.requested().pending.last() == pre.next_id,
        forall|i: int| 0 <= i < pre.pending.len() ==> pre.pending[i] < pre.next_id,
        forall|i: int, j: int|
            0 <= i < j < pre.requested().pending.len() ==> pre.requested().pending[i]
                != pre.requested().pending[j],
{
    let post = pre.requested();
    assert forall|i: int, j: int| 0 <= i < j < post.pending.len() implies post.pending[i]
        < post.pending[j] by {
        if j < pre.pending.len() {
            assert(pre.pending[i] < pre.pending[j]);
        } else {
            assert(pre.pending[i] < pre.next_id);
        }
    }
    assert forall|i: int| 0 <= i < post.pending.len() implies #[trigger] post.pending[i]
        < post.next_id by {
        if i < pre.pending.len() {
            assert(pre.pending[i] < pre.next_id);
        }
    }
}

/// Id uniqueness, in every state: no two outstanding requests share an id.
pub proof fn law_outstanding_ids_differ(s: CoreView, i: int, j: int)
    requires
        s.wf(),
        0 <= i < s.pending.len(),
        0 <= j < s.pending.len(),
        i != j,
    ensures
        s.pending[i] != s.pending[j],
{
    if i < j {
        assert(s.pending[i] < s.pending[j]);
    } else {
        assert(s.pending[j] < s.pending[i]);
    }
}

/// Recovery idempotence: after a reset no chat has a thread and no thread
/// counts as resumed, and a second reset changes nothing.
pub proof fn law_reset_is_idempotent(pre: CoreView)
    ensures
        pre.reset().threads == Map::<i64, Seq<char>>::empty(),
        pre.reset().resumed == Set::<Seq<char>>::empty(),
        pre.reset().busy == Set::<i64>::empty(),
        pre.reset().turns.len() == 0,
        pre.reset().reset() == pre.reset(),
{
}

/// Disconnect completeness: when the subprocess's output ends, every
/// outstanding request and every turn in flight is completed with a
/// failure, in order; afterwards nothing is outstanding or in flight, the
/// chat of no former turn is busy, and the runtime is neither running nor
/// initialized. Where every busy chat had a turn in flight, no chat is busy.
pub proof fn law_disconnect_is_complete(pre: CoreView)
    requires
        pre.orderly(),
    ensures
        ({
            let (post, effects) = pre.on_disconnect();
            &&& post.pending.len() == 0
            &&& post.turns.len() == 0
            &&& !post.status.running && !post.status.initialized
            &&& post.status.last_error.is_some()
            &&& effects.len() == pre.pending.len() + pre.turns.len()
            &&& forall|i: int|
                0 <= i < pre.pending.len() ==> #[trigger] effects[i] == (EffectView::RequestDone {
                    id: pre.pending[i],
                    outcome: Err("codex app-server stopped"@),
                })
            &&& forall|k: int|
                0 <= k < pre.turns.len() ==> #[trigger] effects[pre.pending.len() + k] == (
                EffectView::TurnDone {
                    turn_id: pre.turns[k].turn_id,
                    chat_id: pre.turns[k].chat_id,
                    outcome: Err("Codex disconnected"@),
                })
            &&& forall|k: int|
                0 <= k < pre.turns.len() ==> !post.busy.contains((#[trigger] pre.turns[k]).chat_id)
            &&& post.orderly()
            &&& forall|c: i64| pre.starting(c) ==> post.starting(c)
            &&& (forall|c: i64| pre.busy.contains(c) ==> !pre.has_no_turn_of(c)) ==> post.busy
                == Set::<i64>::empty()
        }),
{
    let (post, effects) = pre.on_disconnect();
    let n = pre.turns.len() as int;
    assert forall|k: int| 0 <= k < n implies !post.busy.contains(
        (#[trigger] pre.turns[k]).chat_id,
    ) by {
        assert(pre.turn_chats(n).contains(pre.turns[k].chat_id));
    }
    assert forall|c: i64| pre.starting(c) implies post.starting(c) by {
        if pre.turn_chats(n).contains(c) {
            let i = choose|i: int| 0 <= i < n && (#[trigger] pre.turns[i]).chat_id == c;
            assert(pre.turns[i].chat_id != c);
        }
    }
    if forall|c: i64| pre.busy.contains(c) ==> !pre.has_no_turn_of(c) {
        assert forall|c: i64| !post.busy.contains(c) by {
            if pre.busy.contains(c) {
                assert(!pre.has_no_turn_of(c));
                let i = choose|i: int|
                    0 <= i < pre.turns.len() && (#[trigger] pre.turns[i]).chat_id == c;
                assert(pre.turn_chats(n).contains(c));
            }
        }
        assert(post.busy =~= Set::<i64>::empty());
    }
}

/// Single-flight, over the start of a turn: while the chat of a start is
/// busy and has no turn in flight, every step of the start keeps turns
/// single-flight; and until the start is over, or forgets every thread, its
/// chat stays busy without a turn.
pub proof fn law_start_steps_keep_single_flight(
    pre: CoreView,
    flow: TurnStartView,
    event: EventView,
    bad: Option<Seq<char>>,
)
    requires
        pre.orderly(),
        pre.starting(flow.chat_id),
    ensures
        ({
            let (post, after, step) = next_step(pre, flow, event, bad);
            &&& post.orderly()
            &&& after.chat_id == flow.chat_id
            &&& (step is Started || step is Failed) == (after.waiting is Over)
            &&& step matches StepView::Send { dropped, store, .. } ==> (store || post.starting(
                flow.chat_id,
            ))
            &&& step is Store ==> post.starting(flow.chat_id)
            &&& step is Failed ==> !post.busy.contains(flow.chat_id)
            &&& step is Started ==> post.busy.contains(flow.chat_id) && !post.has_no_turn_of(
                flow.chat_id,
            )
        }),
{
    let (post, after, step) = next_step(pre, flow, event, bad);
    law_release_keeps_single_flight(pre, flow.chat_id);
    if let StepView::Started { turn_id } = step {
        law_start_keeps_single_flight(pre, flow.chat_id, flow.text, turn_id);
        assert(post.turns.last().chat_id == flow.chat_id);
    }
    if let (WaitingView::Account, EventView::Answer(Ok(res))) = (flow.waiting, event) {
        let noted = pre.with_account(res);
        assert(noted.turns == pre.turns && noted.busy == pre.busy);
        law_release_keeps_single_flight(noted, flow.chat_id);
    }
}

/// The one retry: once `turn/start` was tried again after a lost thread, a
/// second failure of `turn/start` ends the start with that failure.
pub proof fn law_turn_start_is_retried_once(
    pre: CoreView,
    flow: TurnStartView,
    error: Seq<char>,
    bad: Option<Seq<char>>,
)
    requires
        flow.waiting is Turn,
    ensures
        ({
            let (post, after, step) = next_step(pre, flow, EventView::Answer(Err(error)), bad);
            &&& flow.retried ==> step == (StepView::Failed { error })
            &&& bad.is_none() ==> step == (StepView::Failed { error })
            &&& !flow.retried && bad.is_some() ==> after.retried && !(step is Started)
        }),
{
}

/// A state stays well formed when one of its turns changes its answer
/// and keeps its id.
proof fn lemma_turn_change_keeps_wf(pre: CoreView, i: int, t: TurnView, post: CoreView)
    requires
        pre.wf(),
        0 <= i < pre.turns.len(),
        t.wf(),
        t.turn_id == pre.turns[i].turn_id,
        post == (CoreView { turns: pre.turns.update(i, t), ..pre }),
    ensures
        post.wf(),
{
    assert forall|a: int| 0 <= a < post.turns.len() implies (#[trigger] post.turns[a]).wf() by {
        if a != i {
            assert(pre.turns[a].wf());
        }
    }
    assert forall|a: int, b: int| 0 <= a < b < post.turns.len() implies (
    #[trigger] post.turns[a]).turn_id != (#[trigger] post.turns[b]).turn_id by {
        assert(pre.turns[a].turn_id != pre.turns[b].turn_id);
    }
}

/// A state stays well formed when one of its turns leaves.
proof fn lemma_turn_leave_keeps_wf(pre: CoreView, i: int, post: CoreView)
    requires
        pre.wf(),
        0 <= i < pre.turns.len(),
        post.turns == pre.turns.remove(i),
        post.pending == pre.pending,
        post.next_id == pre.next_id,
        post.stderr_tail == pre.stderr_tail,
    ensures
        post.wf(),
{
    assert forall|a: int| 0 <= a < post.turns.len() implies (#[trigger] post.turns[a]).wf() by {
        let a0 = if a < i {
            a
        } else {
            a + 1
        };
        assert(pre.turns[a0].wf());
    }
    assert forall|a: int, b: int| 0 <= a < b < post.turns.len() implies (
    #[trigger] post.turns[a]).turn_id != (#[trigger] post.turns[b]).turn_id by {
        let a0 = if a < i {
            a
        } else {
            a + 1
        };
        let b0 = if b < i {
            b
        } else {
            b + 1
        };
        assert(pre.turns[a0].turn_id != pre.turns[b0].turn_id);
    }
}

proof fn lemma_request_found(ids: Seq<u64>, id: u64, k: int)
    requires
        0 <= k,
    ensures
        request_from(ids, id, k) matches Some(i) ==> k <= i < ids.len(),
    decreases ids.len() - k,
{
    if k < ids.len() && ids[k] != id {
        lemma_request_found(ids, id, k + 1);
    }
}

/// Every state is well formed: whatever the subprocess sends, the sent
/// position of each turn stays on a character boundary of its answer, no two
/// turns share an id, and the ids of the outstanding requests keep growing
/// below the next id.
pub proof fn law_messages_keep_state_well_formed(pre: CoreView, msg: JsonValue)
    requires
        pre.wf(),
    ensures
        pre.on_message(msg).0.wf(),
{
    let post = pre.on_message(msg).0;
    match shape_of(msg) {
        Shape::Notification => {
            match notice_in(msg) {
                NoticeView::Delta { turn_id, delta } => {
                    lemma_turn_from(pre.turns, turn_id, 0);
                    if let Some(i) = turn_at(pre.turns, turn_id) {
                        let t = pre.turns[i].grown(delta);
                        lemma_grown_wf(pre.turns[i], delta);
                        lemma_flushed_wf(t, false);
                        lemma_turn_change_keeps_wf(pre, i, t.flushed(false).1, post);
                    }
                },
                NoticeView::ItemCompleted { turn_id, text } => {
                    lemma_turn_from(pre.turns, turn_id, 0);
                    if let Some(i) = turn_at(pre.turns, turn_id) {
                        let t = pre.turns[i].replaced(text);
                        assert(pre.turns[i].wf());
                        lemma_replaced_wf(pre.turns[i], text);
                        lemma_flushed_wf(t, false);
                        lemma_turn_change_keeps_wf(pre, i, t.flushed(false).1, post);
                    }
                },
                NoticeView::TurnCompleted { turn_id, failed, error } => {
                    lemma_turn_from(pre.turns, turn_id, 0);
                    if let Some(i) = turn_at(pre.turns, turn_id) {
                        lemma_turn_leave_keeps_wf(pre, i, post);
                    }
                },
                _ => {},
            }
        },
        Shape::Response => {
            if post != pre {
                let id = choose|id: u64| post == pre.answered(id) && request_at(
                    pre.pending,
                    id,
                ).is_some();
                lemma_request_found(pre.pending, id, 0);
                let i = request_at(pre.pending, id).unwrap();
                assert forall|a: int, b: int| 0 <= a < b < post.pending.len() implies post.pending[a]
                    < post.pending[b] by {
                    let a0 = if a < i {
                        a
                    } else {
                        a + 1
                    };
                    let b0 = if b < i {
                        b
                    } else {
                        b + 1
                    };
                    assert(pre.pending[a0] < pre.pending[b0]);
                }
                assert forall|a: int| 0 <= a < post.pending.len() implies #[trigger] post.pending[a]
                    < post.next_id by {
                    let a0 = if a < i {
                        a
                    } else {
                        a + 1
                    };
                    assert(pre.pending[a0] < pre.next_id);
                }
            }
        },
        _ => {},
    }
}

/// Single-flight, under everything else: forgetting threads, registering a
/// request, a line of error output, an answer about the account, and the
/// bringing up of the runtime leave the turns in flight and the busy chats
/// as they are, or leave none of them.
pub proof fn law_other_steps_keep_single_flight(
    pre: CoreView,
    bad: Option<Seq<char>>,
    line: Seq<char>,
    res: JsonValue,
    stage: Booting,
    event: BootEventView,
    version: Seq<char>,
)
    requires
        pre.orderly(),
    ensures
        pre.reset().orderly(),
        pre.recovered(bad).orderly(),
        pre.requested().orderly(),
        pre.after_stderr(line).orderly(),
        pre.with_account(res).orderly(),
        pre.with_fresh_profile().orderly(),
        boot_next(pre, stage, event, version).0.orderly(),
{
    let booted = boot_next(pre, stage, event, version).0;
    assert(booted.turns == pre.turns && booted.busy == pre.busy);
    assert(pre.requested().turns == pre.turns && pre.requested().busy == pre.busy);
    assert(pre.after_stderr(line).turns == pre.turns && pre.after_stderr(line).busy == pre.busy);
}

/// The end of a turn: every fragment is handed on before the turn is
/// completed; where the unsent part of the answer holds more than
/// whitespace there is at least one; each holds a character and neither
/// begins nor ends with whitespace; and a turn that did not fail is
/// completed with the whole answer.
pub proof fn law_turn_end_hands_on_the_answer(
    pre: CoreView,
    i: int,
    failed: bool,
    error: Option<Seq<char>>,
)
    requires
        pre.wf(),
        0 <= i < pre.turns.len(),
    ensures
        ({
            let t = pre.turns[i];
            let effects = pre.on_turn_completed(i, failed, error).1;
            let last = effects.len() - 1;
            &&& effects.len() >= 1
            &&& !all_space(unsent(t)) ==> effects.len() >= 2
            &&& forall|k: int|
                0 <= k < last ==> (#[trigger] effects[k] matches EffectView::Chunk {
                    turn_id,
                    text,
                } && turn_id == t.turn_id && trimmed(text))
            &&& effects[last] matches EffectView::TurnDone { turn_id, chat_id, outcome }
                && turn_id == t.turn_id && chat_id == t.chat_id && (!failed ==> outcome == Ok::<
                Seq<char>,
                Seq<char>,
            >(t.full_text))
        }),
{
    let t = pre.turns[i];
    assert(t.wf());
    if !all_space(unsent(t)) {
        law_turn_end_hands_on_fragments(t);
    }
    law_fragments_are_trimmed(t, true);
    let chunks = t.flushed(true).0;
    let effects = pre.on_turn_completed(i, failed, error).1;
    assert forall|k: int| 0 <= k < effects.len() - 1 implies (#[trigger] effects[k] matches EffectView::Chunk {
        turn_id,
        text,
    } && turn_id == t.turn_id && trimmed(text)) by {
        assert(effects[k] == (EffectView::Chunk { turn_id: t.turn_id, text: chunks[k] }));
    }
}

/// Whatever message comes, no fragment that is handed on for it is empty,
/// and none begins or ends with whitespace.
pub proof fn law_messages_hand_on_trimmed_fragments(pre: CoreView, msg: JsonValue, k: int)
    requires
        pre.wf(),
        0 <= k < pre.on_message(msg).1.len(),
    ensures
        pre.on_message(msg).1[k] matches EffectView::Chunk { turn_id, text } ==> trimmed(text),
{
    if shape_of(msg) is Notification {
        match notice_in(msg) {
            NoticeView::Delta { turn_id, delta } => {
                if let Some(i) = turn_at(pre.turns, turn_id) {
                    lemma_turn_from(pre.turns, turn_id, 0);
                    lemma_grown_wf(pre.turns[i], delta);
                    law_fragments_are_trimmed(pre.turns[i].grown(delta), false);
                }
            },
            NoticeView::ItemCompleted { turn_id, text } => {
                if let Some(i) = turn_at(pre.turns, turn_id) {
                    lemma_turn_from(pre.turns, turn_id, 0);
                    lemma_replaced_wf(pre.turns[i], text);
                    law_fragments_are_trimmed(pre.turns[i].replaced(text), false);
                }
            },
            NoticeView::TurnCompleted { turn_id, failed, error } => {
                if let Some(i) = turn_at(pre.turns, turn_id) {
                    lemma_turn_from(pre.turns, turn_id, 0);
                    law_fragments_are_trimmed(pre.turns[i], true);
                }
            },
            _ => {},
        }
    }
}

/// Recovery of a lost thread, first step: when `turn/start` fails because
/// the assistant has lost the thread, and it was not tried again before,
/// every thread and every resumed mark is forgotten, the start is marked as
/// tried again, and `thread/start` is sent with the order to store the map.
pub proof fn law_lost_thread_is_forgotten(
    pre: CoreView,
    flow: TurnStartView,
    error: Seq<char>,
    bad: Seq<char>,
)
    requires
        flow.waiting is Turn,
        !flow.retried,
        pre.has_free_id(),
    ensures
        ({
            let (post, after, step) = next_step(
                pre,
                flow,
                EventView::Answer(Err(error)),
                Some(bad),
            );
            &&& post.threads == Map::<i64, Seq<char>>::empty()
            &&& post.resumed == Set::<Seq<char>>::empty()
            &&& post.pending == pre.pending.push(pre.next_id)
            &&& after == (TurnStartView { waiting: WaitingView::Thread, retried: true, ..flow })
            &&& step matches StepView::Send { id, message, method, dropped, store } && id
                == pre.next_id && method == "thread/start"@ && store && message == request_message(
                pre.next_id,
                "thread/start"@,
                thread_start_params(pre.cwd),
            )
        }),
{
    let post = next_step(pre, flow, EventView::Answer(Err(error)), Some(bad)).0;
    assert(post.threads =~= Map::<i64, Seq<char>>::empty());
    assert(post.resumed =~= Set::<Seq<char>>::empty());
}

/// Recovery of a lost thread, second step: the thread that the answer to
/// `thread/start` names becomes the thread of the chat, and the map is to be
/// stored before anything else.
pub proof fn law_new_thread_is_mapped(
    pre: CoreView,
    flow: TurnStartView,
    res: JsonValue,
    thread_id: Seq<char>,
)
    requires
        flow.waiting is Thread,
        id_in(res, "thread"@, "thread/start response missing thread.id"@) == Ok::<
            Seq<char>,
            Seq<char>,
        >(thread_id),
    ensures
        ({
            let (post, after, step) = next_step(pre, flow, EventView::Answer(Ok(res)), None);
            &&& post.threads == pre.threads.insert(flow.chat_id, thread_id)
            &&& post.threads[flow.chat_id] == thread_id
            &&& post.pending == pre.pending
            &&& after == (TurnStartView { waiting: WaitingView::Stored { thread_id }, ..flow })
            &&& step is Store
        }),
{
}

/// Recovery of a lost thread, third step: once the map is stored,
/// `turn/start` is sent on the new thread with the same message, and the
/// start is tried again no more often than it was.
pub proof fn law_turn_starts_on_the_new_thread(
    pre: CoreView,
    flow: TurnStartView,
    thread_id: Seq<char>,
)
    requires
        flow.waiting == (WaitingView::Stored { thread_id }),
        pre.has_free_id(),
    ensures
        ({
            let (post, after, step) = next_step(pre, flow, EventView::Stored(Ok(())), None);
            &&& post == pre.requested()
            &&& after == (TurnStartView { waiting: WaitingView::Turn { thread_id }, ..flow })
            &&& step == (StepView::Send {
                id: pre.next_id,
                message: request_message(
                    pre.next_id,
                    "turn/start"@,
                    turn_start_params(pre.cwd, thread_id, flow.text),
                ),
                method: "turn/start"@,
                dropped: Seq::empty(),
                store: false,
            })
        }),
{
}

} // verus!
