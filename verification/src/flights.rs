//! What holds of a flight as a whole, from its selection to its end.

use vstd::prelude::*;

use crate::dispatch::{
    has_effect, in_flight, is_blocked, law_load_is_given_back, same_load, step, was_released,
    Action, Event, Flight, Phase,
};
use crate::fairness::{law_caps_hold, model_of};
use crate::names::{one_more, tally};
use crate::request::{body_model, is_model_path, text_of};
use crate::routing::{first_actionable, online};
use crate::scheduler::{can_act, was_served, SelectionResult};
use crate::state::AppState;

verus! {

/// The course of a flight while nothing else touches the state: the states that it leads through,
/// and its phases there.
pub struct Course<R> {
    pub states: Seq<AppState<R>>,
    pub phases: Seq<Phase>,
    pub events: Seq<Event>,
}

impl<R> Course<R> {
    /// What is done about the event at `i`.
    pub open spec fn action(self, flight: Flight, i: int) -> Action {
        step(is_blocked(self.states[i], flight.user_id@), self.phases[i], self.events[i]).1
    }

    /// Each event leads from one state and phase to the next, beginning as the flight is handed
    /// out.
    pub open spec fn is_of(self, flight: Flight) -> bool {
        &&& self.states.len() == self.events.len() + 1
        &&& self.phases.len() == self.events.len() + 1
        &&& self.phases[0] == Phase::Selected
        &&& forall|i: int|
            0 <= i < self.events.len() ==> {
                &&& self.phases[i + 1] == step(
                    is_blocked(self.states[i], flight.user_id@),
                    self.phases[i],
                    #[trigger] self.events[i],
                ).0
                &&& has_effect(
                    self.states[i],
                    self.states[i + 1],
                    flight,
                    self.action(flight, i),
                )
            }
    }

    /// The flight is over at the end.
    pub open spec fn is_over(self) -> bool {
        self.phases.last() == Phase::Over
    }
}

/// How many more requests of the user count as being processed in a phase.
spec fn counted(phase: Phase) -> int {
    if in_flight(phase) {
        1
    } else {
        0
    }
}

/// Where a flight stands after `n` events, against the state in which it was handed out: as long
/// as it is not over, the backends are as they were, and the user's count of requests being
/// processed is raised while it is in flight; once it is over, its backend alone was released.
spec fn stands<R>(course: Course<R>, flight: Flight, n: int) -> bool {
    let first = course.states[0];
    let now = course.states[n];
    let phase = course.phases[n];
    &&& tally(now.processing_counts@, flight.user_id@) == tally(
        first.processing_counts@,
        flight.user_id@,
    ) + counted(phase)
    &&& forall|user: Seq<char>|
        user != flight.user_id@ ==> #[trigger] tally(now.processing_counts@, user) == tally(
            first.processing_counts@,
            user,
        )
    &&& if phase == Phase::Over {
        was_released(
            first.backends@,
            now.backends@,
            flight.backend_idx as int,
            text_of(flight.resolved_model),
        )
    } else {
        now.backends == first.backends
    }
}

proof fn lemma_stands<R>(course: Course<R>, flight: Flight, n: int)
    requires
        course.is_of(flight),
        tally(course.states[0].processing_counts@, flight.user_id@) < usize::MAX,
        0 <= n <= course.events.len(),
    ensures
        stands(course, flight, n),
    decreases n,
{
    if n > 0 {
        lemma_stands(course, flight, n - 1);
        let event = course.events[n - 1];
        let before = course.states[n - 1];
        let after = course.states[n];
        let phase = course.phases[n - 1];
        assert(course.phases[n - 1 + 1] == step(
            is_blocked(before, flight.user_id@),
            phase,
            event,
        ).0);
        assert(has_effect(before, after, flight, course.action(flight, n - 1)));
        assert forall|user: Seq<char>| user != flight.user_id@ implies #[trigger] tally(
            after.processing_counts@,
            user,
        ) == tally(course.states[0].processing_counts@, user) by {
            assert(tally(before.processing_counts@, user) == tally(
                course.states[0].processing_counts@,
                user,
            ));
        }
    }
}

/// Once over, a flight stays over.
proof fn lemma_stays_over<R>(course: Course<R>, flight: Flight, i: int, j: int)
    requires
        course.is_of(flight),
        0 <= i <= j <= course.events.len(),
        course.phases[i] == Phase::Over,
    ensures
        course.phases[j] == Phase::Over,
    decreases j - i,
{
    if i < j {
        lemma_stays_over(course, flight, i, j - 1);
        let event = course.events[j - 1];
        assert(course.phases[j - 1 + 1] == step(
            is_blocked(course.states[j - 1], flight.user_id@),
            course.phases[j - 1],
            event,
        ).0);
    }
}

/// The event with which a flight gets over.
proof fn find_end<R>(course: Course<R>, flight: Flight, n: int) -> (end: int)
    requires
        course.is_of(flight),
        0 <= n <= course.events.len(),
        course.phases[n] == Phase::Over,
    ensures
        0 <= end < n,
        course.phases[end] != Phase::Over,
        course.phases[end + 1] == Phase::Over,
    decreases n,
{
    if course.phases[n - 1] == Phase::Over {
        find_end(course, flight, n - 1)
    } else {
        n - 1
    }
}

/// A flight that is over was finished once: it freed its backend with one event, and with no
/// other.
pub proof fn law_a_flight_frees_its_backend_once<R>(course: Course<R>, flight: Flight)
    requires
        course.is_of(flight),
        course.is_over(),
    ensures
        exists|end: int|
            0 <= end < course.events.len() && #[trigger] course.action(flight, end) is Finish
                && forall|i: int|
                0 <= i < course.events.len() && i != end ==> !(#[trigger] course.action(
                    flight,
                    i,
                ) is Finish),
{
    let n = course.events.len() as int;
    let end = find_end(course, flight, n);
    assert forall|i: int| 0 <= i < n implies (#[trigger] course.action(flight, i) is Finish <==> i
        == end) by {
        let event = course.events[i];
        assert(course.phases[i + 1] == step(
            is_blocked(course.states[i], flight.user_id@),
            course.phases[i],
            event,
        ).0);
        if i < end && course.phases[i + 1] == Phase::Over {
            lemma_stays_over(course, flight, i + 1, end);
        }
        if i > end {
            lemma_stays_over(course, flight, end + 1, i);
        }
    }
    assert(course.action(flight, end) is Finish);
}

/// A whole flight leaves no trace but in what is counted as done. From before its request was
/// selected to after it is over, however it ended:
/// - every backend has the load that it had;
/// - its backend has one more request done, and one more for the model;
/// - the other backends are as they were;
/// - every user has as many requests being processed as before.
///
/// It is so for requests to paths for models that are in line under the model that their body
/// asks for. Requests to other paths note no model, and leave their backend's count for the model
/// raised.
pub proof fn law_a_whole_flight_leaves_no_trace<R>(
    before: AppState<R>,
    user: Seq<char>,
    r: SelectionResult<R>,
    flight: Flight,
    course: Course<R>,
)
    requires
        before.has_room(),
        can_act(before, user),
        tally(before.processing_counts@, user) < usize::MAX,
        course.is_of(flight),
        course.is_over(),
        was_served(before, course.states[0], user, r),
        r matches SelectionResult::Dispatch(_, task, b, _) && {
            &&& is_model_path(task.path@)
            &&& flight.user_id@ == user
            &&& flight.backend_idx == b
            &&& flight.resolved_model == task.resolved_model
        },
        ({
            let queue = before.queues@[user]@;
            let at = first_actionable(
                before.model_config,
                before.backends@,
                online(before.backends@),
                queue,
            );
            text_of(queue[at].requested_model) == body_model(queue[at].body@)
        }),
    ensures
        ({
            let after = course.states.last();
            let b = flight.backend_idx as int;
            &&& after.backends@.len() == before.backends@.len()
            &&& 0 <= b < before.backends@.len()
            &&& forall|i: int|
                0 <= i < after.backends@.len() ==> same_load(
                    #[trigger] after.backends@[i],
                    before.backends@[i],
                )
            &&& flight.resolved_model is Some
            &&& after.backends@[b].processed_count == before.backends@[b].processed_count + 1
            &&& after.backends@[b].processed_models@ == one_more(
                before.backends@[b].processed_models@,
                flight.resolved_model->0@,
            )
            &&& forall|i: int|
                0 <= i < after.backends@.len() && i != b ==> #[trigger] after.backends@[i]
                    == before.backends@[i]
            &&& forall|u: Seq<char>| #[trigger]
                tally(after.processing_counts@, u) == tally(before.processing_counts@, u)
        }),
{
    let during = course.states[0];
    let n = course.events.len() as int;
    let after = course.states.last();
    let b = flight.backend_idx as int;
    lemma_stands(course, flight, n);
    law_caps_hold(before, during, user, r);
    law_load_is_given_back(before, during, user, r, after.backends@);
    assert(model_of(before.model_config, r->Dispatch_1) is Some);
    assert forall|i: int|
        0 <= i < after.backends@.len() && i != b implies #[trigger] after.backends@[i]
        == before.backends@[i] by {
        assert(after.backends@[i] == during.backends@[i]);
    }
    assert forall|u: Seq<char>| #[trigger] tally(after.processing_counts@, u) == tally(
        before.processing_counts@,
        u,
    ) by {
        if u != flight.user_id@ {
            assert(tally(after.processing_counts@, u) == tally(during.processing_counts@, u));
        }
    }
}

} // verus!
