//! A request on its way: from the scheduler to a backend and back to the client.
//!
//! Each request that the scheduler hands out is a flight. The proxy reports to it what happened,
//! and is told what to do next; the counts of users and backends follow.

use vstd::prelude::*;

use crate::backend::BackendStatus;
use crate::fairness::{law_caps_hold, model_of};
use crate::names::{less_one, one_less, one_more, tally};
use crate::request::{body_model, is_model_path, text_of};
use crate::routing::{first_actionable, online};
use crate::scheduler::{can_act, was_served, SelectionResult};
use crate::state::AppState;
use crate::text::{decimal, join, push_decimal};

verus! {

/// How far a flight has come.
#[derive(Clone, Copy, PartialEq, Eq, Debug, Structural)]
pub enum Phase {
    /// The scheduler handed it out.
    Selected,
    /// The backend is asked.
    Requested,
    /// The backend answered; the client is told its status.
    Answering,
    /// The next piece of the answer is awaited.
    Streaming,
    /// A piece of the answer is passed on.
    Forwarding,
    /// The backend could not be asked; the client is told so.
    Failing,
    /// All is done.
    Over,
}

/// What happened to a flight.
#[derive(Clone, Copy, PartialEq, Eq, Debug, Structural)]
pub enum Event {
    /// It was taken up; the client may be gone by then.
    Taken { client_gone: bool },
    /// The backend answered with a status.
    Responded,
    /// The backend could not be asked.
    RequestFailed,
    /// The status was passed on, and reached the client or not.
    StatusSent { delivered: bool },
    /// A piece of the answer came in.
    ChunkRead,
    /// No further piece will come in, be the answer whole or broken off.
    StreamOver,
    /// A piece was passed on, and reached the client or not.
    ChunkSent { delivered: bool },
    /// The failure was passed on.
    ErrorSent,
}

/// How a flight ends.
#[derive(Clone, Copy, PartialEq, Eq, Debug, Structural)]
pub enum Ending {
    /// The user is blocked, or the client left before the backend was asked.
    Refused,
    /// The client left before the status reached it.
    Unheard,
    /// The answer went through to its end.
    Processed,
    /// The client left amid the answer.
    Abandoned,
    /// The backend could not be asked.
    Failed,
}

/// What to do next.
#[derive(Clone, Copy, PartialEq, Eq, Debug, Structural)]
pub enum Action {
    /// Ask the backend.
    SendRequest,
    /// Pass the status and headers on.
    SendStatus,
    /// Await the next piece of the answer.
    ReadChunk,
    /// Pass the piece on.
    SendChunk,
    /// Tell the client that the backend could not be asked.
    SendError,
    /// Nothing more; the backend is free again.
    Finish(Ending),
    /// Nothing: the event does not belong to this phase.
    Ignore,
}

/// A request that the scheduler handed out.
pub struct Flight {
    pub user_id: String,
    pub backend_idx: usize,
    pub resolved_model: Option<String>,
    pub phase: Phase,
}

impl Flight {
    /// A request that was just handed out.
    pub fn new(user_id: String, backend_idx: usize, resolved_model: Option<String>) -> (r: Self)
        ensures
            r == (Flight { user_id, backend_idx, resolved_model, phase: Phase::Selected }),
    {
        Flight { user_id, backend_idx, resolved_model, phase: Phase::Selected }
    }
}

/// Where a request is sent: the path under the backend's URL.
pub fn target_url(backend_url: &str, path: &str) -> (r: String)
    ensures
        r@ == backend_url@ + path@,
{
    join(backend_url, path)
}

/// `user` is blocked, or was last seen at a blocked address.
pub open spec fn is_blocked<R>(state: AppState<R>, user: Seq<char>) -> bool {
    state.blocked_users@.contains(user) || (state.user_ips@.contains_key(user)
        && state.blocked_ips@.contains(state.user_ips@[user]@))
}

/// The phase that an event leads to, and what to do there.
pub open spec fn step(blocked: bool, phase: Phase, event: Event) -> (Phase, Action) {
    match (phase, event) {
        (Phase::Selected, Event::Taken { client_gone }) => if blocked || client_gone {
            (Phase::Over, Action::Finish(Ending::Refused))
        } else {
            (Phase::Requested, Action::SendRequest)
        },
        (Phase::Requested, Event::Responded) => (Phase::Answering, Action::SendStatus),
        (Phase::Requested, Event::RequestFailed) => (Phase::Failing, Action::SendError),
        (Phase::Answering, Event::StatusSent { delivered }) => if delivered {
            (Phase::Streaming, Action::ReadChunk)
        } else {
            (Phase::Over, Action::Finish(Ending::Unheard))
        },
        (Phase::Streaming, Event::ChunkRead) => (Phase::Forwarding, Action::SendChunk),
        (Phase::Streaming, Event::StreamOver) => (Phase::Over, Action::Finish(Ending::Processed)),
        (Phase::Forwarding, Event::ChunkSent { delivered }) => if delivered {
            (Phase::Streaming, Action::ReadChunk)
        } else {
            (Phase::Over, Action::Finish(Ending::Abandoned))
        },
        (Phase::Failing, Event::ErrorSent) => (Phase::Over, Action::Finish(Ending::Failed)),
        _ => (phase, Action::Ignore),
    }
}

/// The phase that an event leads to, and what to do there.
pub fn next_step(blocked: bool, phase: Phase, event: Event) -> (r: (Phase, Action))
    ensures
        r == step(blocked, phase, event),
{
    match (phase, event) {
        (Phase::Selected, Event::Taken { client_gone }) => if blocked || client_gone {
            (Phase::Over, Action::Finish(Ending::Refused))
        } else {
            (Phase::Requested, Action::SendRequest)
        },
        (Phase::Requested, Event::Responded) => (Phase::Answering, Action::SendStatus),
        (Phase::Requested, Event::RequestFailed) => (Phase::Failing, Action::SendError),
        (Phase::Answering, Event::StatusSent { delivered }) => if delivered {
            (Phase::Streaming, Action::ReadChunk)
        } else {
            (Phase::Over, Action::Finish(Ending::Unheard))
        },
        (Phase::Streaming, Event::ChunkRead) => (Phase::Forwarding, Action::SendChunk),
        (Phase::Streaming, Event::StreamOver) => (Phase::Over, Action::Finish(Ending::Processed)),
        (Phase::Forwarding, Event::ChunkSent { delivered }) => if delivered {
            (Phase::Streaming, Action::ReadChunk)
        } else {
            (Phase::Over, Action::Finish(Ending::Abandoned))
        },
        (Phase::Failing, Event::ErrorSent) => (Phase::Over, Action::Finish(Ending::Failed)),
        _ => (phase, Action::Ignore),
    }
}

/// The backend at `at` is done with a request, for `model` where that is known; the others are
/// as they were.
pub open spec fn was_released(
    before: Seq<BackendStatus>,
    after: Seq<BackendStatus>,
    at: int,
    model: Option<Seq<char>>,
) -> bool {
    &&& after.len() == before.len()
    &&& forall|i: int| 0 <= i < before.len() && i != at ==> #[trigger] after[i] == before[i]
    &&& after[at].url == before[at].url
    &&& after[at].configured_models == before[at].configured_models
    &&& after[at].active_requests == less_one(before[at].active_requests)
    &&& after[at].processed_count == before[at].processed_count + 1
    &&& after[at].is_online == before[at].is_online
    &&& after[at].model_status == before[at].model_status
    &&& match model {
        Some(name) => {
            &&& after[at].active_models@ == one_less(before[at].active_models@, name)
            &&& after[at].processed_models@ == one_more(before[at].processed_models@, name)
        },
        None => {
            &&& after[at].active_models == before[at].active_models
            &&& after[at].processed_models == before[at].processed_models
        },
    }
}

/// An ending that counts as a dropped request.
pub open spec fn drops(ending: Ending) -> bool {
    ending == Ending::Refused || ending == Ending::Abandoned || ending == Ending::Failed
}

/// What an action does to the state, beside what it asks for.
pub open spec fn has_effect<R>(
    before: AppState<R>,
    after: AppState<R>,
    flight: Flight,
    action: Action,
) -> bool {
    let user = flight.user_id@;
    &&& after.queues == before.queues
    &&& after.user_ips == before.user_ips
    &&& after.blocked_ips == before.blocked_ips
    &&& after.blocked_users == before.blocked_users
    &&& after.vip_user == before.vip_user
    &&& after.global_counter == before.global_counter
    &&& after.model_config == before.model_config
    &&& after.cached_tags == before.cached_tags
    &&& after.log_lines == before.log_lines
    &&& after.ip_header == before.ip_header
    &&& match action {
        Action::SendRequest => {
            &&& after.processing_counts@ == one_more(before.processing_counts@, user)
            &&& after.processed_counts == before.processed_counts
            &&& after.dropped_counts == before.dropped_counts
            &&& after.backends == before.backends
        },
        Action::Finish(ending) => {
            &&& after.processing_counts@ == if ending != Ending::Refused
                && before.processing_counts@.contains_key(user) {
                one_less(before.processing_counts@, user)
            } else {
                before.processing_counts@
            }
            &&& after.processed_counts@ == if ending == Ending::Processed {
                one_more(before.processed_counts@, user)
            } else {
                before.processed_counts@
            }
            &&& after.dropped_counts@ == if drops(ending) {
                one_more(before.dropped_counts@, user)
            } else {
                before.dropped_counts@
            }
            &&& was_released(
                before.backends@,
                after.backends@,
                flight.backend_idx as int,
                text_of(flight.resolved_model),
            )
        },
        _ => {
            &&& after.processing_counts == before.processing_counts
            &&& after.processed_counts == before.processed_counts
            &&& after.dropped_counts == before.dropped_counts
            &&& after.backends == before.backends
        },
    }
}

/// No count that the event raises is at its limit, and the backend that it frees is there.
pub open spec fn can_count<R>(state: AppState<R>, flight: Flight, event: Event) -> bool {
    let user = flight.user_id@;
    match step(is_blocked(state, user), flight.phase, event).1 {
        Action::SendRequest => tally(state.processing_counts@, user) < usize::MAX,
        Action::Finish(ending) => {
            &&& ending == Ending::Processed ==> tally(state.processed_counts@, user) < usize::MAX
            &&& drops(ending) ==> tally(state.dropped_counts@, user) < usize::MAX
            &&& flight.backend_idx < state.backends@.len()
            &&& state.backends@[flight.backend_idx as int].processed_count < usize::MAX
            &&& flight.resolved_model matches Some(model) ==> tally(
                state.backends@[flight.backend_idx as int].processed_models@,
                model@,
            ) < usize::MAX
        },
        _ => true,
    }
}

/// Whether no count that the event raises is at its limit, and the backend that it frees is
/// there.
pub fn room_to_count<R>(state: &AppState<R>, flight: &Flight, event: Event) -> (r: bool)
    ensures
        r == can_count(*state, *flight, event),
{
    let user = flight.user_id.as_str();
    let ending = match next_step(user_is_blocked(state, user), flight.phase, event).1 {
        Action::SendRequest => return state.processing_counts.count(user) < usize::MAX,
        Action::Finish(ending) => ending,
        _ => return true,
    };
    let counted = match ending {
        Ending::Processed => state.processed_counts.count(user) < usize::MAX,
        Ending::Refused | Ending::Abandoned | Ending::Failed => state.dropped_counts.count(user)
            < usize::MAX,
        Ending::Unheard => true,
    };
    if !counted || flight.backend_idx >= state.backends.len() {
        return false;
    }
    let backend = &state.backends[flight.backend_idx];
    if backend.processed_count == usize::MAX {
        return false;
    }
    match &flight.resolved_model {
        Some(model) => backend.processed_models.count(model.as_str()) < usize::MAX,
        None => true,
    }
}

fn user_is_blocked<R>(state: &AppState<R>, user: &str) -> (r: bool)
    ensures
        r == is_blocked(*state, user@),
{
    if state.blocked_users.contains(user) {
        return true;
    }
    match state.user_ips.get(user) {
        Some(ip) => state.blocked_ips.contains(ip.as_str()),
        None => false,
    }
}

/// A backend is done with a request.
fn release(backends: &mut Vec<BackendStatus>, at: usize, model: &Option<String>)
    requires
        at < old(backends)@.len(),
        old(backends)@[at as int].processed_count < usize::MAX,
        *model matches Some(name) ==> tally(old(backends)@[at as int].processed_models@, name@)
            < usize::MAX,
    ensures
        was_released(old(backends)@, final(backends)@, at as int, text_of(*model)),
{
    let backend = &mut backends[at];
    backend.active_requests = backend.active_requests.saturating_sub(1);
    backend.processed_count = backend.processed_count + 1;
    match model {
        Some(name) => {
            backend.active_models.take_one(name.as_str());
            backend.processed_models.add_one(name.as_str());
        },
        None => {},
    }
}

/// Reports what happened to a flight, and tells what to do next.
///
/// Users who were blocked since they got in line, and clients who left, are not served. A
/// request that went through counts as processed; one that was refused, failed, or whose client
/// left amid the answer counts as dropped. However it ends, its backend is free again.
pub fn advance<R>(state: &mut AppState<R>, flight: &mut Flight, event: Event) -> (r: Action)
    requires
        can_count(*old(state), *old(flight), event),
    ensures
        (final(flight).phase, r) == step(
            is_blocked(*old(state), old(flight).user_id@),
            old(flight).phase,
            event,
        ),
        final(flight).user_id == old(flight).user_id,
        final(flight).backend_idx == old(flight).backend_idx,
        final(flight).resolved_model == old(flight).resolved_model,
        has_effect(*old(state), *final(state), *old(flight), r),
{
    let blocked = user_is_blocked(state, flight.user_id.as_str());
    let (phase, action) = next_step(blocked, flight.phase, event);
    flight.phase = phase;
    let user = flight.user_id.as_str();
    match action {
        Action::SendRequest => {
            state.processing_counts.add_one(user);
        },
        Action::Finish(ending) => {
            match ending {
                Ending::Processed => {
                    state.processed_counts.add_one(user);
                },
                Ending::Refused | Ending::Abandoned | Ending::Failed => {
                    state.dropped_counts.add_one(user);
                },
                Ending::Unheard => {},
            }
            if ending != Ending::Refused && state.processing_counts.contains_name(user) {
                state.processing_counts.take_one(user);
            }
            release(&mut state.backends, flight.backend_idx, &flight.resolved_model);
        },
        _ => {},
    }
    action
}

/// A backend works on the flight, or its answer is under way.
pub open spec fn in_flight(phase: Phase) -> bool {
    phase != Phase::Selected && phase != Phase::Over
}

/// A flight ends once: it is finished exactly as it gets over, and nothing moves it from there.
pub proof fn law_a_flight_ends_once(blocked: bool, phase: Phase, event: Event)
    ensures
        step(blocked, Phase::Over, event) == (Phase::Over, Action::Ignore),
        step(blocked, phase, event).1 is Finish <==> phase != Phase::Over && step(
            blocked,
            phase,
            event,
        ).0 == Phase::Over,
        step(blocked, phase, event).0 != Phase::Selected || phase == Phase::Selected,
{
}

/// A user's count of requests being processed is that of the user's requests in flight: it goes
/// up as one takes off, and down as that one is over, however it ends.
pub proof fn law_processing_counts_flights<R>(
    before: AppState<R>,
    after: AppState<R>,
    flight: Flight,
    event: Event,
)
    requires
        can_count(before, flight, event),
        in_flight(flight.phase) ==> tally(before.processing_counts@, flight.user_id@) > 0,
        has_effect(
            before,
            after,
            flight,
            step(is_blocked(before, flight.user_id@), flight.phase, event).1,
        ),
    ensures
        ({
            let user = flight.user_id@;
            let phase = step(is_blocked(before, user), flight.phase, event).0;
            let flying_before: int = if in_flight(flight.phase) { 1 } else { 0 };
            let flying_after: int = if in_flight(phase) { 1 } else { 0 };
            &&& tally(after.processing_counts@, user) - flying_after == tally(
                before.processing_counts@,
                user,
            ) - flying_before
            &&& forall|u: Seq<char>|
                u != user ==> #[trigger] tally(after.processing_counts@, u) == tally(
                    before.processing_counts@,
                    u,
                )
        }),
{
}

/// A blocked user's request never reaches a backend.
pub proof fn law_blocked_users_are_refused(event: Event)
    ensures
        step(true, Phase::Selected, event).1 != Action::SendRequest,
        event is Taken ==> step(true, Phase::Selected, event).1 == Action::Finish(
            Ending::Refused,
        ),
{
}

/// Each flight counts for its user once: as processed where the answer went through to its end,
/// as dropped where it was refused, failed or was abandoned, and not at all where the client
/// left before the status reached it.
pub proof fn law_a_flight_counts_once<R>(
    before: AppState<R>,
    after: AppState<R>,
    flight: Flight,
    ending: Ending,
)
    requires
        tally(before.processed_counts@, flight.user_id@) < usize::MAX,
        tally(before.dropped_counts@, flight.user_id@) < usize::MAX,
        has_effect(before, after, flight, Action::Finish(ending)),
    ensures
        ({
            let user = flight.user_id@;
            let processed = tally(after.processed_counts@, user) - tally(
                before.processed_counts@,
                user,
            );
            let dropped = tally(after.dropped_counts@, user) - tally(before.dropped_counts@, user);
            &&& processed == if ending == Ending::Processed { 1int } else { 0int }
            &&& dropped == if ending == Ending::Processed || ending == Ending::Unheard {
                0int
            } else {
                1int
            }
        }),
{
}

/// The load of a backend: its requests, and those for each model.
pub open spec fn same_load(a: BackendStatus, b: BackendStatus) -> bool {
    &&& a.active_requests == b.active_requests
    &&& forall|model: Seq<char>| #[trigger]
        tally(a.active_models@, model) == tally(b.active_models@, model)
}

/// A request that is over takes back the load that it put on its backend, where its path is one
/// for models and it got in line under the model that its body asks for. Requests to other paths
/// note no model, and leave their backend's count for the model raised.
pub proof fn law_load_is_given_back<R>(
    before: AppState<R>,
    during: AppState<R>,
    user: Seq<char>,
    r: SelectionResult<R>,
    after: Seq<BackendStatus>,
)
    requires
        before.has_room(),
        can_act(before, user),
        was_served(before, during, user, r),
        r matches SelectionResult::Dispatch(_, task, b, _) && {
            &&& is_model_path(task.path@)
            &&& was_released(during.backends@, after, b as int, text_of(task.resolved_model))
        },
        ({
            let queue = before.queues@[user]@;
            let at = first_actionable(
                before.model_config,
                before.backends@,
                online(before.backends@),
                queue,
            );
            text_of(queue[at].requested_model) == body_model(queue[at].body@)
        }),
    ensures
        after.len() == before.backends@.len(),
        forall|i: int|
            0 <= i < after.len() ==> same_load(#[trigger] after[i], before.backends@[i]),
{
    law_caps_hold(before, during, user, r);
    let b = r->Dispatch_2 as int;
    let task = r->Dispatch_1;
    let model = model_of(before.model_config, task)->0;
    assert(text_of(task.resolved_model) == Some(model));
    assert(tally(before.backends@[b].active_models@, model) < usize::MAX);
    assert forall|i: int| 0 <= i < after.len() implies same_load(
        #[trigger] after[i],
        before.backends@[i],
    ) by {
        if i != b {
            assert(after[i] == during.backends@[i]);
            assert(during.backends@[i] == before.backends@[i]);
        } else {
            assert(before.backends@[b].active_requests < usize::MAX);
        }
    }
}

/// "1s", or "1m 1s" from a minute on.
pub open spec fn duration_text(secs: nat) -> Seq<char> {
    if secs < 60 {
        decimal(secs) + "s"@
    } else {
        decimal(secs / 60) + "m "@ + decimal(secs % 60) + "s"@
    }
}

/// A duration of whole seconds in words: seconds below a minute, else minutes and seconds.
pub fn format_duration_short(secs: u64) -> (r: String)
    ensures
        r@ == duration_text(secs as nat),
{
    let mut r = "".to_owned();
    proof {
        reveal_strlit("");
    }
    if secs < 60 {
        push_decimal(&mut r, secs);
        r.append("s");
        assert(r@ =~= duration_text(secs as nat));
    } else {
        push_decimal(&mut r, secs / 60);
        r.append("m ");
        push_decimal(&mut r, secs % 60);
        r.append("s");
        assert(r@ =~= duration_text(secs as nat));
    }
    r
}

/// What is logged of a flight that a backend answered or could not be asked for.
pub open spec fn log_text(
    user: Seq<char>,
    model: Option<Seq<char>>,
    ending: Ending,
    secs: nat,
) -> Option<Seq<char>> {
    let using = match model {
        Some(name) => " using "@ + name,
        None => Seq::empty(),
    };
    match ending {
        Ending::Processed => Some(
            "Request finished for user "@ + user + using + ", duration "@ + duration_text(secs),
        ),
        Ending::Failed => Some(
            "Request failed for user "@ + user + using + ", duration "@ + duration_text(secs),
        ),
        _ => None,
    }
}

/// The log line of a flight that went through or failed, after the given time.
pub fn log_line(flight: &Flight, ending: Ending, secs: u64) -> (r: Option<String>)
    ensures
        text_of(r) == log_text(
            flight.user_id@,
            text_of(flight.resolved_model),
            ending,
            secs as nat,
        ),
{
    let mut line = match ending {
        Ending::Processed => "Request finished for user ".to_owned(),
        Ending::Failed => "Request failed for user ".to_owned(),
        _ => return None,
    };
    line.append(flight.user_id.as_str());
    let ghost head = line@;
    match &flight.resolved_model {
        Some(model) => {
            line.append(" using ");
            line.append(model.as_str());
            assert(line@ =~= head + (" using "@ + model@));
        },
        None => {
            assert(line@ =~= head + Seq::<char>::empty());
        },
    }
    line.append(", duration ");
    line.append(format_duration_short(secs).as_str());
    Some(line)
}

/// A request just handed out is sent to its backend exactly where its client is there, its user
/// is not blocked, and the address that the user was last seen at, if any, is not. Else it is
/// refused. So no block holds up anyone but those whom it names.
pub proof fn law_only_the_blocked_are_refused<R>(
    state: AppState<R>,
    user: Seq<char>,
    client_gone: bool,
)
    ensures
        ({
            let action = step(
                is_blocked(state, user),
                Phase::Selected,
                Event::Taken { client_gone },
            ).1;
            let shut_out = state.blocked_users@.contains(user) || (state.user_ips@.contains_key(
                user,
            ) && state.blocked_ips@.contains(state.user_ips@[user]@));
            &&& !client_gone && !shut_out ==> action == Action::SendRequest
            &&& client_gone || shut_out ==> action == Action::Finish(Ending::Refused)
        }),
{
}

/// Blocking or unblocking other addresses and other users changes nothing for a user.
pub proof fn law_blocks_do_not_reach_others<R>(
    before: AppState<R>,
    after: AppState<R>,
    user: Seq<char>,
    phase: Phase,
    event: Event,
)
    requires
        after.user_ips@ == before.user_ips@,
        after.blocked_users@.contains(user) == before.blocked_users@.contains(user),
        before.user_ips@.contains_key(user) ==> after.blocked_ips@.contains(
            before.user_ips@[user]@,
        ) == before.blocked_ips@.contains(before.user_ips@[user]@),
    ensures
        step(is_blocked(after, user), phase, event) == step(
            is_blocked(before, user),
            phase,
            event,
        ),
{
}

/// What each thing done answers to, and to nothing else: the backend is asked as a request is
/// taken up, the status passed on as it answers, the failure as it cannot be asked; a piece is
/// passed on as it comes in, and the next one awaited once the status or the piece ahead of it
/// reached the client. A flight counts as gone through only when the stream is over, as failed
/// only when the failure was passed on, as abandoned only when a piece did not reach the client,
/// and as unheard only when the status did not.
pub proof fn law_actions_answer_to_events(blocked: bool, phase: Phase, event: Event)
    ensures
        ({
            let (next, action) = step(blocked, phase, event);
            &&& action == Action::SendRequest <==> phase == Phase::Selected && event
                == (Event::Taken { client_gone: false }) && !blocked
            &&& action == Action::SendStatus <==> phase == Phase::Requested && event
                == Event::Responded
            &&& action == Action::SendError <==> phase == Phase::Requested && event
                == Event::RequestFailed
            &&& action == Action::ReadChunk <==> (phase == Phase::Answering && event
                == Event::StatusSent { delivered: true }) || (phase == Phase::Forwarding && event
                == Event::ChunkSent { delivered: true })
            &&& action == Action::SendChunk <==> phase == Phase::Streaming && event
                == Event::ChunkRead
            &&& action == Action::Finish(Ending::Processed) <==> phase == Phase::Streaming && event
                == Event::StreamOver
            &&& action == Action::Finish(Ending::Failed) <==> phase == Phase::Failing && event
                == Event::ErrorSent
            &&& action == Action::Finish(Ending::Abandoned) <==> phase == Phase::Forwarding && event
                == (Event::ChunkSent { delivered: false })
            &&& action == Action::Finish(Ending::Unheard) <==> phase == Phase::Answering && event
                == (Event::StatusSent { delivered: false })
            &&& action == Action::Finish(Ending::Refused) <==> phase == Phase::Selected
                && event is Taken && (blocked || event->client_gone)
            &&& action == Action::SendRequest ==> next == Phase::Requested
            &&& action == Action::SendStatus ==> next == Phase::Answering
            &&& action == Action::SendError ==> next == Phase::Failing
            &&& action == Action::ReadChunk ==> next == Phase::Streaming
            &&& action == Action::SendChunk ==> next == Phase::Forwarding
            &&& action == Action::Ignore ==> next == phase
        }),
{
}

/// What an ending does to the counts, each held as a number under a name and zero without one:
/// the backend has one request less, but not below zero, and one more done, and so for the model
/// where one is known; the user has one request less being processed, but not below zero, unless
/// it never was; nothing else of any backend, and no other user's count, changes.
pub proof fn law_an_ending_settles_the_counts<R>(
    before: AppState<R>,
    after: AppState<R>,
    flight: Flight,
    ending: Ending,
    other: Seq<char>,
)
    requires
        has_effect(before, after, flight, Action::Finish(ending)),
        flight.backend_idx < before.backends@.len(),
        flight.resolved_model is Some ==> tally(
            before.backends@[flight.backend_idx as int].processed_models@,
            flight.resolved_model->0@,
        ) < usize::MAX,
    ensures
        ({
            let was = before.backends@[flight.backend_idx as int];
            let is = after.backends@[flight.backend_idx as int];
            let user = flight.user_id@;
            let held = |counts: Map<Seq<char>, usize>, name: Seq<char>|
                {
                    if counts.contains_key(name) {
                        counts[name] as int
                    } else {
                        0
                    }
                };
            &&& was.active_requests > 0 ==> is.active_requests == was.active_requests - 1
            &&& was.active_requests == 0 ==> is.active_requests == 0
            &&& is.processed_count == was.processed_count + 1
            &&& is.url == was.url
            &&& is.configured_models == was.configured_models
            &&& is.is_online == was.is_online
            &&& is.model_status == was.model_status
            &&& flight.resolved_model matches Some(m) ==> {
                &&& held(was.active_models@, m@) > 0 ==> held(is.active_models@, m@) == held(
                    was.active_models@,
                    m@,
                ) - 1
                &&& held(was.active_models@, m@) == 0 ==> held(is.active_models@, m@) == 0
                &&& held(is.processed_models@, m@) == held(was.processed_models@, m@) + 1
                &&& other != m@ ==> held(is.active_models@, other) == held(
                    was.active_models@,
                    other,
                ) && held(is.processed_models@, other) == held(was.processed_models@, other)
            }
            &&& flight.resolved_model is None ==> is.active_models == was.active_models
                && is.processed_models == was.processed_models
            &&& after.backends@.len() == before.backends@.len()
            &&& forall|i: int|
                0 <= i < before.backends@.len() && i != flight.backend_idx
                    ==> #[trigger] after.backends@[i] == before.backends@[i]
            &&& ending == Ending::Refused ==> held(after.processing_counts@, user) == held(
                before.processing_counts@,
                user,
            )
            &&& ending != Ending::Refused && held(before.processing_counts@, user) > 0 ==> held(
                after.processing_counts@,
                user,
            ) == held(before.processing_counts@, user) - 1
            &&& ending != Ending::Refused && held(before.processing_counts@, user) == 0 ==> held(
                after.processing_counts@,
                user,
            ) == 0
            &&& other != user ==> {
                &&& held(after.processing_counts@, other) == held(before.processing_counts@, other)
                &&& held(after.processed_counts@, other) == held(before.processed_counts@, other)
                &&& held(after.dropped_counts@, other) == held(before.dropped_counts@, other)
            }
            &&& after.queues == before.queues
            &&& after.vip_user == before.vip_user
            &&& after.blocked_users == before.blocked_users
            &&& after.blocked_ips == before.blocked_ips
            &&& after.user_ips == before.user_ips
        }),
{
}

/// As long as a flight is not over, no backend changes and no request counts as done; asking the
/// backend counts one more of the user's requests as being processed, and nothing else counts.
pub proof fn law_nothing_is_settled_before_the_end<R>(
    before: AppState<R>,
    after: AppState<R>,
    flight: Flight,
    action: Action,
)
    requires
        has_effect(before, after, flight, action),
        !(action is Finish),
    ensures
        after.backends == before.backends,
        after.processed_counts == before.processed_counts,
        after.dropped_counts == before.dropped_counts,
        after.queues == before.queues,
        action != Action::SendRequest ==> after.processing_counts == before.processing_counts,
        action == Action::SendRequest && !before.processing_counts@.contains_key(flight.user_id@)
            ==> after.processing_counts@ == before.processing_counts@.insert(flight.user_id@, 1),
        action == Action::SendRequest && before.processing_counts@.contains_key(flight.user_id@)
            ==> after.processing_counts@ == before.processing_counts@.insert(
            flight.user_id@,
            (before.processing_counts@[flight.user_id@] + 1) as usize,
        ),
{
}

/// A duration is told in minutes and seconds that make it up, with fewer than sixty seconds; the
/// minutes are left out where there are none.
pub proof fn law_durations_add_up(minutes: nat, seconds: nat)
    requires
        seconds < 60,
    ensures
        minutes > 0 ==> duration_text(60 * minutes + seconds) == decimal(minutes) + "m "@ + decimal(
            seconds,
        ) + "s"@,
        duration_text(seconds) == decimal(seconds) + "s"@,
{
}

/// A line is logged of a flight that went through or failed, and of no other; it names the user
/// and the model, and ends with how long it took.
pub proof fn law_what_is_logged(
    user: Seq<char>,
    model: Option<Seq<char>>,
    ending: Ending,
    secs: nat,
)
    ensures
        log_text(user, model, ending, secs) is Some <==> ending == Ending::Processed || ending
            == Ending::Failed,
        log_text(user, model, Ending::Processed, secs) == Some(
            "Request finished for user "@ + user + (if model is Some {
                " using "@ + model->0
            } else {
                Seq::empty()
            }) + ", duration "@ + duration_text(secs),
        ),
        log_text(user, model, Ending::Failed, secs) == Some(
            "Request failed for user "@ + user + (if model is Some {
                " using "@ + model->0
            } else {
                Seq::empty()
            }) + ", duration "@ + duration_text(secs),
        ),
{
}

/// Every event can be counted as long as the flight's backend is there and no count of its user
/// and backend is at its limit.
pub proof fn law_events_count_below_the_limits<R>(
    state: AppState<R>,
    flight: Flight,
    event: Event,
)
    requires
        flight.backend_idx < state.backends@.len(),
        state.backends@[flight.backend_idx as int].processed_count < usize::MAX,
        forall|name: Seq<char>|
            (#[trigger] state.backends@[flight.backend_idx as int].processed_models@.contains_key(
                name,
            )) ==> state.backends@[flight.backend_idx as int].processed_models@[name] < usize::MAX,
        state.processing_counts@.contains_key(flight.user_id@)
            ==> state.processing_counts@[flight.user_id@] < usize::MAX,
        state.processed_counts@.contains_key(flight.user_id@)
            ==> state.processed_counts@[flight.user_id@] < usize::MAX,
        state.dropped_counts@.contains_key(flight.user_id@)
            ==> state.dropped_counts@[flight.user_id@] < usize::MAX,
    ensures
        can_count(state, flight, event),
{
}

} // verus!
