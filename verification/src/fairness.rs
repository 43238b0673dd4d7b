//! What the scheduler promises: nobody is held up without need, VIPs go first, the others take
//! turns, requests for one model keep their order, and no backend takes more than it may.

use vstd::prelude::*;

use crate::backend::BackendStatus;
use crate::json::{json_bytes, json_document, json_string_of, json_with_member};
use crate::models::{law_a_cap_is_that_of_the_named_model, ModelConfig};
use crate::names::{lemma_names_are_few, lists, tally};
use crate::rendezvous::{ranks_at_or_above, weight};
use crate::request::{body_model, is_model_path, text_of};
use crate::routing::{
    able, below_cap, configured_anywhere, first_actionable, in_range, lemma_first_actionable,
    lemma_ready_in_range, online, route, RouteView,
};
use crate::scheduler::{
    can_act, candidate_order, first_served, has_work, is_service_order,
    law_service_order_is_unique, next_place, round_from, served_sooner, service_order, vip_places,
    was_served, SelectionResult,
};
use crate::sequences::{
    find_filtered, lemma_filter_grows, lemma_filter_holds, lemma_filter_is_part,
    lemma_filter_keeps_all, lemma_filter_place,
};
use crate::state::{AppState, Task};
use crate::text::{text_before, text_before_is_total, text_before_is_transitive};

verus! {

/// The names are in the order in which their users are served.
spec fn in_service_order(processed: Map<Seq<char>, usize>, names: Seq<Seq<char>>) -> bool {
    forall|i: int, j: int|
        0 <= i < j < names.len() ==> served_sooner(
            processed,
            #[trigger] names[i],
            #[trigger] names[j],
        )
}

/// A name put where it belongs in the order.
proof fn put_in_order(
    processed: Map<Seq<char>, usize>,
    names: Seq<Seq<char>>,
    name: Seq<char>,
) -> (r: Seq<Seq<char>>)
    requires
        in_service_order(processed, names),
        !names.contains(name),
    ensures
        in_service_order(processed, r),
        r.len() == names.len() + 1,
        forall|x: Seq<char>| #[trigger] r.contains(x) <==> names.contains(x) || x == name,
    decreases names.len(),
{
    if names.len() == 0 || served_sooner(processed, name, names[0]) {
        let r = seq![name] + names;
        assert forall|i: int, j: int| 0 <= i < j < r.len() implies served_sooner(
            processed,
            #[trigger] r[i],
            #[trigger] r[j],
        ) by {
            assert(r[j] == names[j - 1]);
            if i == 0 && j > 1 {
                assert(served_sooner(processed, names[0], names[j - 1]));
                if text_before(name, names[0]) && text_before(names[0], names[j - 1]) {
                    text_before_is_transitive(name, names[0], names[j - 1]);
                }
            }
            if i > 0 {
                assert(r[i] == names[i - 1]);
            }
        }
        assert forall|x: Seq<char>| #[trigger] r.contains(x) <==> names.contains(x) || x
            == name by {
            if names.contains(x) {
                let i = choose|i: int| 0 <= i < names.len() && names[i] == x;
                assert(r[i + 1] == x);
            }
            if x == name {
                assert(r[0] == x);
            }
        }
        r
    } else {
        let rest = names.drop_first();
        assert forall|i: int, j: int| 0 <= i < j < rest.len() implies served_sooner(
            processed,
            #[trigger] rest[i],
            #[trigger] rest[j],
        ) by {
            assert(served_sooner(processed, names[i + 1], names[j + 1]));
        }
        assert(!rest.contains(name)) by {
            if rest.contains(name) {
                let i = choose|i: int| 0 <= i < rest.len() && rest[i] == name;
                assert(names[i + 1] == name);
            }
        }
        let placed = put_in_order(processed, rest, name);
        let r = seq![names[0]] + placed;
        assert(names[0] != name) by {
            assert(names.contains(names[0]));
        }
        text_before_is_total(name, names[0]);
        assert forall|i: int, j: int| 0 <= i < j < r.len() implies served_sooner(
            processed,
            #[trigger] r[i],
            #[trigger] r[j],
        ) by {
            assert(r[j] == placed[j - 1]);
            if i > 0 {
                assert(r[i] == placed[i - 1]);
            } else {
                assert(placed.contains(placed[j - 1]));
                if rest.contains(r[j]) {
                    let k = choose|k: int| 0 <= k < rest.len() && rest[k] == r[j];
                    assert(served_sooner(processed, names[0], names[k + 1]));
                }
            }
        }
        assert forall|x: Seq<char>| #[trigger] r.contains(x) <==> names.contains(x) || x
            == name by {
            if r.contains(x) {
                let i = choose|i: int| 0 <= i < r.len() && r[i] == x;
                if i > 0 {
                    assert(placed[i - 1] == x);
                    assert(placed.contains(x));
                    if x != name {
                        let k = choose|k: int| 0 <= k < rest.len() && rest[k] == x;
                        assert(names[k + 1] == x);
                    }
                } else {
                    assert(names[0] == x);
                }
            }
            if names.contains(x) || x == name {
                if x == names[0] {
                    assert(r[0] == x);
                } else {
                    if x != name {
                        let k = choose|k: int| 0 <= k < names.len() && names[k] == x;
                        assert(rest[k - 1] == x);
                    }
                    assert(placed.contains(x));
                    let i = choose|i: int| 0 <= i < placed.len() && placed[i] == x;
                    assert(r[i + 1] == x);
                }
            }
        }
        r
    }
}

/// Finitely many names, in order.
proof fn order_names(processed: Map<Seq<char>, usize>, names: Set<Seq<char>>) -> (r: Seq<Seq<char>>)
    requires
        names.finite(),
    ensures
        in_service_order(processed, r),
        r.len() == names.len(),
        forall|x: Seq<char>| #[trigger] r.contains(x) <==> names.contains(x),
    decreases names.len(),
{
    if names.len() == 0 {
        names.lemma_len0_is_empty();
        Seq::empty()
    } else {
        let name = names.choose();
        let rest = order_names(processed, names.remove(name));
        put_in_order(processed, rest, name)
    }
}

/// Every state has its service order, which names each user with a request in line once.
pub proof fn lemma_service_order<R>(state: AppState<R>)
    ensures
        ({
            let users = service_order(state.queues@, state.processed_counts@);
            &&& is_service_order(state.queues@, state.processed_counts@, users)
            &&& users.no_duplicates()
            &&& users.len() <= usize::MAX
        }),
{
    lemma_names_are_few(state.queues);
    let names = state.queues@.dom();
    let busy = names.filter(|u: Seq<char>| has_work(state.queues@, u));
    vstd::set_lib::lemma_len_subset(busy, names);
    let users = order_names(state.processed_counts@, busy);
    assert forall|u: Seq<char>| #[trigger] has_work(state.queues@, u) <==> users.contains(u) by {
        assert(busy.contains(u) <==> has_work(state.queues@, u));
    }
    law_service_order_is_unique(state.queues@, state.processed_counts@, users);
    assert forall|i: int, j: int|
        0 <= i < users.len() && 0 <= j < users.len() && i != j implies users[i] != users[j] by {
        let a = if i < j { i } else { j };
        let b = if i < j { j } else { i };
        assert(served_sooner(state.processed_counts@, users[a], users[b]));
        text_before_is_total(users[a], users[b]);
    }
}

/// Where `first_served` points: nobody ahead has anything to do, that one has.
proof fn lemma_first_served<R>(state: AppState<R>, users: Seq<Seq<char>>, places: Seq<usize>)
    ensures
        ({
            let k = first_served(state, users, places);
            &&& 0 <= k <= places.len()
            &&& k < places.len() ==> can_act(state, users[places[k] as int])
            &&& forall|i: int|
                0 <= i < k ==> !can_act(state, users[(#[trigger] places[i]) as int])
        }),
    decreases places.len(),
{
    if places.len() > 0 && !can_act(state, users[places[0] as int]) {
        let rest = places.drop_first();
        lemma_first_served(state, users, rest);
        let k = first_served(state, users, places);
        assert forall|i: int| 0 <= i < k implies !can_act(
            state,
            users[(#[trigger] places[i]) as int],
        ) by {
            if i > 0 {
                assert(places[i] == rest[i - 1]);
            }
        }
    }
}

/// The VIPs' places are places of VIPs.
proof fn lemma_vip_places(users: Seq<Seq<char>>, vips: Seq<String>)
    requires
        users.len() <= usize::MAX,
    ensures
        forall|i: int|
            0 <= i < vip_places(users, vips).len() ==> {
                &&& (#[trigger] vip_places(users, vips)[i]) < users.len()
                &&& lists(vips, users[vip_places(users, vips)[i] as int])
            },
    decreases vips.len(),
{
    if vips.len() > 0 {
        let fewer = vips.drop_last();
        lemma_vip_places(users, fewer);
        assert forall|i: int| 0 <= i < vip_places(users, vips).len() implies {
            &&& (#[trigger] vip_places(users, vips)[i]) < users.len()
            &&& lists(vips, users[vip_places(users, vips)[i] as int])
        } by {
            let before = vip_places(users, fewer);
            if i < before.len() {
                assert(vip_places(users, vips)[i] == before[i]);
                let j = choose|j: int|
                    0 <= j < fewer.len() && (#[trigger] fewer[j])@ == users[before[i] as int];
                assert(vips[j]@ == users[before[i] as int]);
            } else {
                let vip = vips.last()@;
                assert(users[users.index_of(vip)] == vip);
                assert(vips[vips.len() - 1]@ == vip);
            }
        }
    }
}

/// The first VIPs' places come first.
proof fn lemma_vip_places_grow(users: Seq<Seq<char>>, vips: Seq<String>, n: int)
    requires
        0 <= n <= vips.len(),
    ensures
        vip_places(users, vips.take(n)).is_prefix_of(vip_places(users, vips)),
    decreases vips.len() - n,
{
    if n == vips.len() {
        assert(vips.take(n) =~= vips);
    } else {
        lemma_vip_places_grow(users, vips, n + 1);
        assert(vips.take(n + 1).drop_last() =~= vips.take(n));
        let some = vip_places(users, vips.take(n));
        let more = vip_places(users, vips.take(n + 1));
        let all = vip_places(users, vips);
        assert(more == all.subrange(0, more.len() as int));
        assert(some =~= more.subrange(0, some.len() as int));
        assert(some =~= all.subrange(0, some.len() as int));
    }
}

/// Every user's place is tried.
proof fn lemma_everyone_is_tried(
    users: Seq<Seq<char>>,
    vips: Seq<String>,
    cursor: usize,
    i: usize,
)
    requires
        i < users.len() <= usize::MAX,
    ensures
        candidate_order(users, vips, cursor).contains(i),
{
    let first = vip_places(users, vips);
    let n = users.len() as int;
    let start = cursor as int % n;
    let turns = round_from(users.len(), start);
    let keep = |p: usize| !first.contains(p);
    let order = candidate_order(users, vips, cursor);
    if first.contains(i) {
        let k = choose|k: int| 0 <= k < first.len() && first[k] == i;
        assert(order[k] == i);
    } else {
        let k: int = if i >= start { i - start } else { i - start + n };
        assert((start + k) % n == i) by (nonlinear_arith)
            requires
                0 <= start < n,
                0 <= i < n,
                k == if i >= start { i - start } else { i - start + n },
        ;
        assert(turns[k] == i);
        turns.lemma_filter_contains(keep, k);
        let m = choose|m: int| 0 <= m < turns.filter(keep).len() && turns.filter(keep)[m] == i;
        assert(order[first.len() + m] == i);
    }
}

/// The places tried are users' places.
proof fn lemma_tried_are_users(users: Seq<Seq<char>>, vips: Seq<String>, cursor: usize, k: int)
    requires
        users.len() <= usize::MAX,
        0 <= k < candidate_order(users, vips, cursor).len(),
    ensures
        candidate_order(users, vips, cursor)[k] < users.len(),
{
    let first = vip_places(users, vips);
    if k < first.len() {
        lemma_vip_places(users, vips);
        assert(candidate_order(users, vips, cursor)[k] == first[k]);
    } else {
        let n = users.len() as int;
        let turns = round_from(users.len(), cursor as int % n);
        let keep = |p: usize| !first.contains(p);
        lemma_filter_is_part(turns, keep, k - first.len());
        let p = candidate_order(users, vips, cursor)[k];
        assert(turns.contains(p));
        let m = choose|m: int| 0 <= m < turns.len() && turns[m] == p;
        assert(0 <= (cursor as int % n + m) % n < n) by (nonlinear_arith)
            requires
                n > 0,
        ;
    }
}

/// The user's request at `i` in line could be acted on now: a backend can take it, or none ever
/// will.
pub open spec fn can_run<R>(state: AppState<R>, user: Seq<char>, i: int) -> bool {
    &&& state.queues@.contains_key(user)
    &&& 0 <= i < state.queues@[user]@.len()
    &&& !(route(
        state.model_config,
        state.backends@,
        online(state.backends@),
        text_of(state.queues@[user]@[i].requested_model),
    ) is Busy)
}

proof fn lemma_can_act<R>(state: AppState<R>, user: Seq<char>)
    ensures
        can_act(state, user) <==> exists|i: int| can_run(state, user, i),
{
    if state.queues@.contains_key(user) {
        let config = state.model_config;
        let backends = state.backends@;
        let queue = state.queues@[user]@;
        lemma_first_actionable(config, backends, online(backends), queue);
        let at = first_actionable(config, backends, online(backends), queue);
        if at < queue.len() {
            assert(can_run(state, user, at));
        }
    }
}

/// The scheduler waits only where it must: as long as a backend is online, and anyone's request,
/// wherever in line, can be acted on, somebody is served. A request that waits for a busy model
/// holds up neither other users' requests nor the same user's requests for other models.
pub proof fn law_waits_only_when_nothing_can_run<R>(state: AppState<R>, cursor: usize)
    ensures
        next_place(state, cursor) is Some <==> online(state.backends@).len() > 0 && exists|
            user: Seq<char>,
            i: int,
        |
            can_run(state, user, i),
{
    let users = service_order(state.queues@, state.processed_counts@);
    let places = candidate_order(users, state.vip_user@, cursor);
    lemma_service_order(state);
    lemma_first_served(state, users, places);
    let k = first_served(state, users, places);
    if k < places.len() {
        lemma_can_act(state, users[places[k] as int]);
        let i = choose|i: int| can_run(state, users[places[k] as int], i);
        assert(can_run(state, users[places[k] as int], i));
    }
    if exists|user: Seq<char>, i: int| can_run(state, user, i) {
        let (user, i) = choose|user: Seq<char>, i: int| can_run(state, user, i);
        lemma_can_act(state, user);
        assert(has_work(state.queues@, user));
        let place = users.index_of(user);
        assert(users[place] == user);
        lemma_everyone_is_tried(users, state.vip_user@, cursor, place as usize);
        let m = choose|m: int| 0 <= m < places.len() && places[m] == place as usize;
        assert(can_act(state, users[places[m] as int]));
    }
}

/// Whoever is served is a user with a request that can be acted on.
pub proof fn law_the_served_user_has_a_request<R>(state: AppState<R>, cursor: usize)
    ensures
        next_place(state, cursor) matches Some(place) ==> {
            let users = service_order(state.queues@, state.processed_counts@);
            place < users.len() && can_act(state, users[place as int])
        },
{
    let users = service_order(state.queues@, state.processed_counts@);
    let places = candidate_order(users, state.vip_user@, cursor);
    lemma_service_order(state);
    lemma_first_served(state, users, places);
    let k = first_served(state, users, places);
    if k < places.len() {
        lemma_tried_are_users(users, state.vip_user@, cursor, k);
    }
}

/// VIPs go first, in their order: the first VIP with a request that can be acted on is served,
/// whoever else waits and wherever the cursor is.
pub proof fn law_vips_go_first<R>(state: AppState<R>, cursor: usize, vip: int)
    requires
        online(state.backends@).len() > 0,
        0 <= vip < state.vip_user@.len(),
        can_act(state, state.vip_user@[vip]@),
        forall|i: int| 0 <= i < vip ==> !can_act(state, (#[trigger] state.vip_user@[i])@),
    ensures
        next_place(state, cursor) matches Some(place) && service_order(
            state.queues@,
            state.processed_counts@,
        )[place as int] == state.vip_user@[vip]@,
{
    let users = service_order(state.queues@, state.processed_counts@);
    let vips = state.vip_user@;
    let places = candidate_order(users, vips, cursor);
    lemma_service_order(state);
    lemma_first_served(state, users, places);
    let name = vips[vip]@;
    assert(has_work(state.queues@, name));
    assert(users[users.index_of(name)] == name);
    let ahead = vip_places(users, vips.take(vip));
    lemma_vip_places(users, vips.take(vip));
    assert forall|i: int| 0 <= i < ahead.len() implies !can_act(
        state,
        users[(#[trigger] ahead[i]) as int],
    ) by {
        assert(lists(vips.take(vip), users[ahead[i] as int]));
        let j = choose|j: int|
            0 <= j < vips.take(vip).len() && (#[trigger] vips.take(vip)[j])@
                == users[ahead[i] as int];
        assert(vips[j]@ == users[ahead[i] as int]);
    }
    let place = users.index_of(name) as usize;
    assert(!ahead.contains(place)) by {
        if ahead.contains(place) {
            let i = choose|i: int| 0 <= i < ahead.len() && ahead[i] == place;
            assert(!can_act(state, users[ahead[i] as int]));
        }
    }
    assert(vips.take(vip + 1).drop_last() =~= vips.take(vip));
    let with = vip_places(users, vips.take(vip + 1));
    assert(with == ahead.push(place));
    lemma_vip_places_grow(users, vips, vip + 1);
    let first = vip_places(users, vips);
    assert(with == first.subrange(0, with.len() as int));
    assert forall|i: int| 0 <= i < with.len() implies #[trigger] places[i] == with[i] by {
        assert(first.subrange(0, with.len() as int)[i] == first[i]);
    }
    let k = first_served(state, users, places);
    assert(places[ahead.len() as int] == place);
    assert(k == ahead.len()) by {
        if k < ahead.len() {
            assert(places[k] == with[k]);
            assert(with[k] == ahead[k]);
        }
    }
}

/// Users take turns: where every user with a request in line can be served, and none of them is
/// a VIP, the one under the cursor is served.
pub proof fn law_users_take_turns<R>(state: AppState<R>, cursor: usize)
    requires
        online(state.backends@).len() > 0,
        exists|user: Seq<char>| has_work(state.queues@, user),
        forall|user: Seq<char>| #[trigger]
            has_work(state.queues@, user) ==> can_act(state, user) && !lists(
                state.vip_user@,
                user,
            ),
    ensures
        ({
            let users = service_order(state.queues@, state.processed_counts@);
            &&& users.len() > 0
            &&& next_place(state, cursor) == Some((cursor as int % users.len() as int) as usize)
        }),
{
    let users = service_order(state.queues@, state.processed_counts@);
    let vips = state.vip_user@;
    let places = candidate_order(users, vips, cursor);
    lemma_service_order(state);
    let user = choose|user: Seq<char>| has_work(state.queues@, user);
    assert(users.contains(user));
    let n = users.len() as int;
    let first = vip_places(users, vips);
    lemma_vip_places(users, vips);
    assert(first.len() == 0) by {
        if first.len() > 0 {
            let u = users[first[0] as int];
            assert(users.contains(u));
            assert(has_work(state.queues@, u));
        }
    }
    let turns = round_from(users.len(), cursor as int % n);
    let keep = |p: usize| !first.contains(p);
    lemma_filter_keeps_all(turns, keep);
    assert(places =~= turns);
    assert(0 <= cursor as int % n < n) by (nonlinear_arith)
        requires
            n > 0,
    ;
    assert((cursor as int % n + 0) % n == cursor as int % n) by (nonlinear_arith)
        requires
            n > 0,
    ;
    assert(users.contains(users[places[0] as int]));
    assert(has_work(state.queues@, users[places[0] as int]));
}

/// The configured model that a request asks for.
pub open spec fn model_of<R>(config: ModelConfig, task: Task<R>) -> Option<Seq<char>> {
    match text_of(task.requested_model) {
        Some(name) => config.resolved(name),
        None => None,
    }
}

/// Requests of one user for one model leave the line in the order in which they came, under
/// whatever names they ask for it: none that was ahead of the one that left asks for the same.
pub proof fn law_one_model_keeps_its_order<R>(
    config: ModelConfig,
    backends: Seq<BackendStatus>,
    queue: Seq<Task<R>>,
    i: int,
)
    requires
        0 <= i < first_actionable(config, backends, online(backends), queue) < queue.len(),
    ensures
        ({
            let at = first_actionable(config, backends, online(backends), queue);
            model_of(config, queue[i]) is Some && model_of(config, queue[i]) != model_of(
                config,
                queue[at],
            )
        }),
{
    lemma_first_actionable(config, backends, online(backends), queue);
    assert(route(
        config,
        backends,
        online(backends),
        text_of(queue[i].requested_model),
    ) is Busy);
}

/// No backend has more requests for a model than the model's cap.
pub open spec fn within_caps(config: ModelConfig, backends: Seq<BackendStatus>) -> bool {
    forall|i: int, model: Seq<char>|
        0 <= i < backends.len() ==> tally((#[trigger] backends[i]).active_models@, model)
            <= #[trigger] config.concurrency_cap(model)
}

proof fn lemma_online<R>(state: AppState<R>)
    ensures
        in_range(state.backends@, online(state.backends@)),
        forall|i: int|
            0 <= i < online(state.backends@).len() ==> state.backends@[(#[trigger] online(
                state.backends@,
            )[i]) as int].is_online,
{
    let backends = state.backends@;
    assert(state.backends.len() == backends.len());
    let all = Seq::new(backends.len(), |i: int| i as usize);
    let keep = |i: usize| backends[i as int].is_online;
    assert forall|i: int| 0 <= i < online(backends).len() implies (#[trigger] online(backends)[i])
        < backends.len() && backends[online(backends)[i] as int].is_online by {
        all.lemma_filter_pred(keep, i);
        lemma_filter_is_part(all, keep, i);
    }
}

/// A request goes only to a backend that is online, has its model, and has fewer requests for
/// it than the model's cap; so backends within the caps stay within them.
pub proof fn law_caps_hold<R>(
    before: AppState<R>,
    after: AppState<R>,
    user: Seq<char>,
    r: SelectionResult<R>,
)
    requires
        can_act(before, user),
        was_served(before, after, user, r),
    ensures
        r matches SelectionResult::Dispatch(_, task, b, _) ==> {
            &&& b < before.backends@.len()
            &&& before.backends@[b as int].is_online
            &&& model_of(before.model_config, task) matches Some(model) && {
                &&& before.backends@[b as int].serves(model)
                &&& tally(before.backends@[b as int].active_models@, model)
                    < before.model_config.concurrency_cap(model)
            }
        },
        within_caps(before.model_config, before.backends@) ==> within_caps(
            after.model_config,
            after.backends@,
        ),
{
    let config = before.model_config;
    let backends = before.backends@;
    let indices = online(backends);
    let queue = before.queues@[user]@;
    let at = first_actionable(config, backends, indices, queue);
    lemma_online(before);
    lemma_first_actionable(config, backends, indices, queue);
    lemma_ready_in_range(config, backends, indices, text_of(queue[at].requested_model));
    match route(config, backends, indices, text_of(queue[at].requested_model)) {
        RouteView::Ready(model, free) => {
            match r {
                SelectionResult::Dispatch(_, task, b, _) => {
                    let i = choose|i: int| 0 <= i < free.len() && free[i] == b;
                    assert(indices.contains(free[i]));
                    let j = choose|j: int| 0 <= j < indices.len() && indices[j] == b;
                    assert(backends[indices[j] as int].is_online);
                    if within_caps(config, backends) {
                        assert forall|k: int, name: Seq<char>|
                            0 <= k < after.backends@.len() implies tally(
                            (#[trigger] after.backends@[k]).active_models@,
                            name,
                        ) <= #[trigger] config.concurrency_cap(name) by {
                            assert(tally(backends[k].active_models@, name)
                                <= config.concurrency_cap(name));
                        }
                    }
                },
                _ => {},
            }
        },
        _ => {},
    }
}

/// Of two users with requests in line, the one of whom fewer requests went through comes earlier
/// in the service order, and with as many, the one whose name is earlier. Users with a request in
/// line stand in it once each, and no others do.
pub proof fn law_fewest_processed_come_first<R>(state: AppState<R>, i: int, j: int)
    requires
        0 <= i < service_order(state.queues@, state.processed_counts@).len(),
        0 <= j < service_order(state.queues@, state.processed_counts@).len(),
    ensures
        ({
            let users = service_order(state.queues@, state.processed_counts@);
            let counts = state.processed_counts@;
            let a: int = if counts.contains_key(users[i]) { counts[users[i]] as int } else { 0 };
            let b: int = if counts.contains_key(users[j]) { counts[users[j]] as int } else { 0 };
            &&& a < b ==> i < j
            &&& a == b && text_before(users[i], users[j]) ==> i < j
            &&& users[i] == users[j] ==> i == j
        }),
        forall|user: Seq<char>| #[trigger]
            service_order(state.queues@, state.processed_counts@).contains(user) <==> (
            state.queues@.contains_key(user) && state.queues@[user]@.len() > 0),
{
    lemma_service_order(state);
    let users = service_order(state.queues@, state.processed_counts@);
    text_before_is_total(users[i], users[j]);
    if j < i {
        assert(served_sooner(state.processed_counts@, users[j], users[i]));
    }
    assert forall|user: Seq<char>| #[trigger] users.contains(user) <==> (
    state.queues@.contains_key(user) && state.queues@[user]@.len() > 0) by {
        assert(has_work(state.queues@, user) <==> users.contains(user));
    }
}

/// A model is busy only for a reason. The backends that can take a request for it are those that
/// are online, have it among their configured models, were not found without it, and have fewer
/// requests for it than its cap. Where there is one, the route is ready and names them all and no
/// others. Where there is none, the request waits if some backend is configured for the model,
/// and fails if none is.
pub proof fn law_a_model_is_ready_where_a_backend_is_free(
    config: ModelConfig,
    backends: Vec<BackendStatus>,
    requested: Seq<char>,
    model: Seq<char>,
    at: int,
)
    requires
        config.resolved(requested) == Some(model),
        0 <= at < config.models@.len(),
        config.models@[at].name@ == model,
        forall|j: int| 0 <= j < at ==> (#[trigger] config.models@[j]).name@ != model,
    ensures
        ({
            let way = route(config, backends@, online(backends@), Some(requested));
            let cap = config.models@[at].max_concurrent_requests;
            let has = |b: BackendStatus|
                exists|k: int|
                    0 <= k < b.configured_models@.len() && (#[trigger] b.configured_models@[k])@
                        == model;
            let free = |b: BackendStatus|
                {
                    &&& b.is_online
                    &&& has(b)
                    &&& b.model_status@.contains_key(model) ==> b.model_status@[model]
                    &&& (if b.active_models@.contains_key(model) {
                        b.active_models@[model] as int
                    } else {
                        0
                    }) < cap
                };
            let any_free = exists|i: int| 0 <= i < backends@.len() && free(#[trigger] backends@[i]);
            let any_has = exists|i: int| 0 <= i < backends@.len() && has(#[trigger] backends@[i]);
            &&& way is Ready <==> any_free
            &&& way matches RouteView::Ready(name, indices) ==> {
                &&& name == model
                &&& forall|i: usize| #[trigger]
                    indices.contains(i) <==> i < backends@.len() && free(backends@[i as int])
            }
            &&& way is Busy <==> !any_free && any_has
            &&& way is Unavailable ==> way == RouteView::Unavailable(model)
        }),
{
    let bs = backends@;
    assert(backends.len() == bs.len());
    law_a_cap_is_that_of_the_named_model(config, model, at);
    let cap = config.concurrency_cap(model);
    let all = Seq::new(bs.len(), |i: int| i as usize);
    let up = |i: usize| bs[i as int].is_online;
    let serving = |i: usize| bs[i as int].serves(model);
    let below = |i: usize| tally(bs[i as int].active_models@, model) < cap;
    let indices = online(bs);
    let having = able(bs, indices, model);
    let open = below_cap(bs, having, model, cap);
    let has = |b: BackendStatus|
        exists|k: int|
            0 <= k < b.configured_models@.len() && (#[trigger] b.configured_models@[k])@ == model;
    let free = |b: BackendStatus|
        {
            &&& b.is_online
            &&& has(b)
            &&& b.model_status@.contains_key(model) ==> b.model_status@[model]
            &&& (if b.active_models@.contains_key(model) {
                b.active_models@[model] as int
            } else {
                0
            }) < cap
        };
    assert forall|i: usize| #[trigger] open.contains(i) <==> i < bs.len() && free(
        bs[i as int],
    ) by {
        lemma_filter_holds(all, up, i);
        lemma_filter_holds(indices, serving, i);
        lemma_filter_holds(having, below, i);
        if i < bs.len() {
            assert(all[i as int] == i);
        }
        assert(all.contains(i) <==> i < bs.len());
    }
    if open.len() > 0 {
        assert(open.contains(open[0]));
        assert(free(bs[open[0] as int]));
        lemma_filter_holds(having, below, open[0]);
    }
    if exists|i: int| 0 <= i < bs.len() && free(#[trigger] bs[i]) {
        let i = choose|i: int| 0 <= i < bs.len() && free(#[trigger] bs[i]);
        assert(open.contains(i as usize));
        lemma_filter_holds(having, below, i as usize);
    }
    if having.len() > 0 {
        assert(having.contains(having[0]));
        lemma_filter_holds(indices, serving, having[0]);
        lemma_filter_holds(all, up, having[0]);
        assert(all.contains(having[0]) ==> having[0] < bs.len());
        assert(lists(bs[having[0] as int].configured_models@, model));
        assert(has(bs[having[0] as int]));
    }
    if configured_anywhere(bs, model) {
        let i = choose|i: int|
            0 <= i < bs.len() && lists((#[trigger] bs[i]).configured_models@, model);
        assert(has(bs[i]));
    }
    if exists|i: int| 0 <= i < bs.len() && has(#[trigger] bs[i]) {
        let i = choose|i: int| 0 <= i < bs.len() && has(#[trigger] bs[i]);
        assert(lists(bs[i].configured_models@, model));
    }
}

/// A request for a model that the configuration does not know fails under the name it asked for,
/// one without a model under `unknown`; neither waits.
pub proof fn law_an_unknown_model_fails(
    config: ModelConfig,
    backends: Seq<BackendStatus>,
    indices: Seq<usize>,
    requested: Seq<char>,
)
    ensures
        config.resolved(requested) is None ==> route(config, backends, indices, Some(requested))
            == RouteView::Unavailable(requested),
        route(config, backends, indices, None) == RouteView::Unavailable("unknown"@),
{
}

/// A user can be served exactly where one of the user's requests does not wait for a busy model.
pub proof fn law_a_user_is_served_for_any_request<R>(state: AppState<R>, user: Seq<char>)
    ensures
        can_act(state, user) <==> state.queues@.contains_key(user) && exists|i: int|
            0 <= i < state.queues@[user]@.len() && !(route(
                state.model_config,
                state.backends@,
                online(state.backends@),
                text_of((#[trigger] state.queues@[user]@[i]).requested_model),
            ) is Busy),
{
    lemma_can_act(state, user);
    if can_act(state, user) {
        let i = choose|i: int| can_run(state, user, i);
        assert(!(route(
            state.model_config,
            state.backends@,
            online(state.backends@),
            text_of(state.queues@[user]@[i].requested_model),
        ) is Busy));
    }
    if state.queues@.contains_key(user) && exists|i: int|
        0 <= i < state.queues@[user]@.len() && !(route(
            state.model_config,
            state.backends@,
            online(state.backends@),
            text_of((#[trigger] state.queues@[user]@[i]).requested_model),
        ) is Busy) {
        let i = choose|i: int|
            0 <= i < state.queues@[user]@.len() && !(route(
                state.model_config,
                state.backends@,
                online(state.backends@),
                text_of((#[trigger] state.queues@[user]@[i]).requested_model),
            ) is Busy);
        assert(can_run(state, user, i));
    }
}

/// Every VIP with a request in line has a place among the VIPs.
proof fn lemma_vips_have_places(users: Seq<Seq<char>>, vips: Seq<String>, v: int)
    requires
        0 <= v < vips.len(),
        users.contains(vips[v]@),
    ensures
        vip_places(users, vips).contains(users.index_of(vips[v]@) as usize),
    decreases vips.len(),
{
    let place = users.index_of(vips[v]@) as usize;
    let before = vip_places(users, vips.drop_last());
    let all = vip_places(users, vips);
    if v < vips.len() - 1 {
        lemma_vips_have_places(users, vips.drop_last(), v);
        let k = choose|k: int| 0 <= k < before.len() && before[k] == place;
        assert(all[k] == place);
    } else {
        assert(vips.last() == vips[v]);
        if before.contains(place) {
            let k = choose|k: int| 0 <= k < before.len() && before[k] == place;
            assert(all[k] == place);
        } else {
            assert(all[before.len() as int] == place);
        }
    }
}

/// The others take turns from the cursor on. Where someone is served who is no VIP, no VIP could
/// be; and going round the service order from the cursor, nobody who comes up sooner could be.
pub proof fn law_the_next_in_turn_is_served<R>(state: AppState<R>, cursor: usize, other: int)
    requires
        next_place(state, cursor) matches Some(place) && forall|v: int|
            0 <= v < state.vip_user@.len() ==> (#[trigger] state.vip_user@[v])@ != service_order(
                state.queues@,
                state.processed_counts@,
            )[place as int],
        0 <= other < service_order(state.queues@, state.processed_counts@).len(),
        can_act(state, service_order(state.queues@, state.processed_counts@)[other]),
    ensures
        ({
            let users = service_order(state.queues@, state.processed_counts@);
            let n = users.len() as int;
            let place = next_place(state, cursor)->0 as int;
            let start = cursor as int % n;
            let turn = if place >= start { place - start } else { place - start + n };
            let other_turn = if other >= start { other - start } else { other - start + n };
            &&& turn <= other_turn
            &&& forall|v: int|
                0 <= v < state.vip_user@.len() ==> (#[trigger] state.vip_user@[v])@ != users[other]
        }),
{
    let users = service_order(state.queues@, state.processed_counts@);
    let vips = state.vip_user@;
    let n = users.len() as int;
    let start = cursor as int % n;
    let places = candidate_order(users, vips, cursor);
    let first = vip_places(users, vips);
    let keep = |p: usize| !first.contains(p);
    let round = round_from(users.len(), start);
    lemma_service_order(state);
    lemma_first_served(state, users, places);
    lemma_vip_places(users, vips);
    let k = first_served(state, users, places);
    let place = places[k];
    lemma_tried_are_users(users, vips, cursor, k);
    assert(0 <= start < n) by (nonlinear_arith)
        requires
            n > 0,
            start == cursor as int % n,
    ;
    if k < first.len() {
        assert(places[k] == first[k]);
        assert(lists(vips, users[place as int]));
        let v = choose|v: int| 0 <= v < vips.len() && (#[trigger] vips[v])@ == users[place as int];
        assert(vips[v]@ == users[place as int]);
    }
    let m = k - first.len();
    assert(places[k] == round.filter(keep)[m]);
    let t = find_filtered(round, keep, m);
    lemma_turn(n, start, t, place as int);
    if first.contains(other as usize) {
        let f = choose|f: int| 0 <= f < first.len() && first[f] == other as usize;
        assert(places[f] == first[f]);
    }
    assert forall|v: int| 0 <= v < vips.len() implies (#[trigger] vips[v])@ != users[other] by {
        if vips[v]@ == users[other] {
            assert(users.contains(vips[v]@));
            lemma_vips_have_places(users, vips, v);
            assert(users[users.index_of(vips[v]@)] == users[other]);
            assert(users.index_of(vips[v]@) == other);
        }
    }
    let other_turn = if other >= start { other - start } else { other - start + n };
    assert((start + other_turn) % n == other) by (nonlinear_arith)
        requires
            0 <= start < n,
            0 <= other < n,
            other_turn == if other >= start { other - start } else { other - start + n },
    ;
    assert(round[other_turn] == other as usize);
    if other_turn < t {
        lemma_filter_grows(round, keep, other_turn, t);
        lemma_filter_place(round, keep, other_turn);
        let q = round.take(other_turn).filter(keep).len() as int;
        assert(places[first.len() + q] == round.filter(keep)[q]);
        assert(first.len() + q < k);
    }
}

proof fn lemma_turn(n: int, start: int, t: int, place: int)
    requires
        0 <= start < n,
        0 <= t < n,
        place == (start + t) % n,
    ensures
        t == if place >= start { place - start } else { place - start + n },
{
    if start + t < n {
        assert((start + t) % n == start + t) by (nonlinear_arith)
            requires
                0 <= start + t < n,
        ;
    } else {
        assert((start + t) % n == start + t - n) by (nonlinear_arith)
            requires
                n <= start + t < 2 * n,
        ;
    }
}

/// What serving a user does. The first of the user's requests leaves the line that does not wait
/// for a busy model; the line closes up behind it, and all other lines stay. Where a backend can
/// take it, it is handed out as it was, but for its body and model, for the backend that weighs
/// most for the user, and of equal ones the last. Its body changes only to ask for a known model by
/// its configured name, and its model is that one, or else the one asked for. That backend has one
/// more request, and one more for the model, and nothing else of any backend changes. Else the same
/// request is handed out to be answered that its model is not there.
pub proof fn law_what_serving_does<R>(
    before: AppState<R>,
    after: AppState<R>,
    user: Seq<char>,
    r: SelectionResult<R>,
) -> (at: int)
    requires
        before.has_room(),
        can_act(before, user),
        was_served(before, after, user, r),
    ensures
        ({
            let queue = before.queues@[user]@;
            let way = |i: int|
                route(
                    before.model_config,
                    before.backends@,
                    online(before.backends@),
                    text_of(queue[i].requested_model),
                );
            &&& 0 <= at < queue.len()
            &&& forall|i: int| 0 <= i < at ==> #[trigger] way(i) is Busy
            &&& after.queues@[user]@ == queue.take(at) + queue.skip(at + 1)
            &&& after.queues@.dom() == before.queues@.dom()
            &&& forall|u: Seq<char>|
                u != user && before.queues@.contains_key(u) ==> #[trigger] after.queues@[u]
                    == before.queues@[u]
            &&& after.global_counter == before.global_counter + 1
            &&& after.processing_counts == before.processing_counts
            &&& after.processed_counts == before.processed_counts
            &&& after.dropped_counts == before.dropped_counts
            &&& after.user_ips == before.user_ips
            &&& after.vip_user == before.vip_user
            &&& after.blocked_users == before.blocked_users
            &&& after.blocked_ips == before.blocked_ips
            &&& after.model_config == before.model_config
            &&& after.cached_tags == before.cached_tags
            &&& after.log_lines == before.log_lines
            &&& after.ip_header == before.ip_header
            &&& match r {
                SelectionResult::Dispatch(name, task, b, url) => {
                    let asked = if is_model_path(queue[at].path@) {
                        body_model(queue[at].body@)
                    } else {
                        None
                    };
                    let known = if asked is Some {
                        before.model_config.resolved(asked->0)
                    } else {
                        None
                    };
                    let was = before.backends@[b as int];
                    let is = after.backends@[b as int];
                    let heavy = |c: int|
                        weight(user, before.backends@[c].url@);
                    &&& asked is None ==> task.resolved_model == queue[at].resolved_model
                    &&& asked is Some && known is None ==> text_of(task.resolved_model) == asked
                    &&& known is Some ==> text_of(task.resolved_model) == known
                    &&& known is None || known == asked ==> task.body@ == queue[at].body@
                    &&& known is Some && known != asked ==> task.body@ == json_bytes(
                        json_with_member(
                            json_document(queue[at].body@)->0,
                            "model"@,
                            json_string_of(known->0),
                        ),
                    )
                    &&& way(at) matches RouteView::Ready(model, free) && {
                        &&& free.contains(b)
                        &&& forall|i: int|
                            0 <= i < free.len() ==> {
                                ||| heavy(b as int) > heavy(#[trigger] free[i] as int)
                                ||| heavy(b as int) == heavy(free[i] as int) && b >= free[i]
                            }
                        &&& is.active_models@.contains_key(model)
                        &&& is.active_models@[model] == 1 + (if was.active_models@.contains_key(
                            model,
                        ) {
                            was.active_models@[model] as int
                        } else {
                            0
                        })
                        &&& forall|other: Seq<char>|
                            other != model ==> {
                                &&& (#[trigger] is.active_models@.contains_key(other))
                                    == was.active_models@.contains_key(other)
                                &&& is.active_models@[other] == was.active_models@[other]
                            }
                    }
                    &&& name@ == user
                    &&& url@ == was.url@
                    &&& task.method == queue[at].method
                    &&& task.path == queue[at].path
                    &&& task.headers == queue[at].headers
                    &&& task.responder == queue[at].responder
                    &&& task.requested_model == queue[at].requested_model
                    &&& is.active_requests == was.active_requests + 1
                    &&& is.url == was.url
                    &&& is.configured_models == was.configured_models
                    &&& is.processed_count == was.processed_count
                    &&& is.is_online == was.is_online
                    &&& is.processed_models == was.processed_models
                    &&& is.model_status == was.model_status
                    &&& after.backends@.len() == before.backends@.len()
                    &&& forall|i: int|
                        0 <= i < before.backends@.len() && i != b ==> #[trigger] after.backends@[i]
                            == before.backends@[i]
                },
                SelectionResult::ModelNotFound(task, name) => {
                    &&& way(at) == RouteView::Unavailable(name@)
                    &&& task == queue[at]
                    &&& after.backends == before.backends
                },
                SelectionResult::Wait => false,
            }
        }),
{
    let config = before.model_config;
    let backends = before.backends@;
    let indices = online(backends);
    let queue = before.queues@[user]@;
    let at = first_actionable(config, backends, indices, queue);
    lemma_first_actionable(config, backends, indices, queue);
    lemma_online(before);
    lemma_ready_in_range(config, backends, indices, text_of(queue[at].requested_model));
    assert(queue.remove(at) =~= queue.take(at) + queue.skip(at + 1));
    match r {
        SelectionResult::Dispatch(_, _, b, _) => {
            match route(config, backends, indices, text_of(queue[at].requested_model)) {
                RouteView::Ready(model, free) => {
                    let i = choose|i: int| 0 <= i < free.len() && free[i] == b;
                    assert(tally(backends[free[i] as int].active_models@, model)
                        < config.concurrency_cap(model));
                    assert forall|i: int| 0 <= i < free.len() implies {
                        ||| weight(user, backends[b as int].url@)
                            > weight(
                            user,
                            backends[#[trigger] free[i] as int].url@,
                        )
                        ||| weight(user, backends[b as int].url@)
                            == weight(user, backends[free[i] as int].url@) && b
                            >= free[i]
                    } by {
                        assert(ranks_at_or_above(user, backends, b, free[i]));
                    }
                },
                _ => {},
            }
        },
        _ => {},
    }
    at
}

} // verus!
