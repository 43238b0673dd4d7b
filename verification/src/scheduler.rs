//! Whose request is served next, and by which backend.

use std::collections::VecDeque;

use vstd::prelude::*;

use crate::backend::BackendStatus;
use crate::json::json_document;
use crate::models::{
    law_names_match_up_to_a_missing_latest, model_names_match, names_match, ModelConfig,
};
use crate::names::{list_contains, lists, one_more, tally};
use crate::ranking::{distinctly_named, names_of, sort_ranked, Ranked};
use crate::rendezvous::is_preferred;
use crate::request::{
    body_model, document_for_model, extract_and_resolve_model, is_kept, is_model_path, is_renamed,
    is_reread, rewritten, text_of,
};
use crate::routing::{
    find_dispatchable_task, first_actionable, in_range, is_current, is_pick_at,
    law_a_current_cache_changes_nothing, lemma_first_actionable, lemma_ready_in_range, online,
    online_indices, route, RouteCache, RouteView, TaskPick,
};
use crate::sequences::{lemma_filter_take, lemma_ordered_once};
use crate::state::{AppState, Task};
use crate::text::{same_text, text_before, text_before_is_total};

verus! {

/// What the scheduler found to do.
pub enum SelectionResult<R> {
    /// Send the user's request to the backend at this place and URL.
    Dispatch(String, Task<R>, usize, String),
    /// Answer the request that no backend has this model.
    ModelNotFound(Task<R>, String),
    /// Nothing can be done until a request comes in or a backend is free again.
    Wait,
}

/// The characters of each string.
pub open spec fn texts(list: Seq<String>) -> Seq<Seq<char>> {
    list.map_values(|s: String| s@)
}

/// `user` has a request in line.
pub open spec fn has_work<R>(
    queues: Map<Seq<char>, VecDeque<Task<R>>>,
    user: Seq<char>,
) -> bool {
    queues.contains_key(user) && queues[user]@.len() > 0
}

/// `a` comes before `b` in being served: fewer requests went through, or as many and an
/// earlier name.
pub open spec fn served_sooner(
    processed: Map<Seq<char>, usize>,
    a: Seq<char>,
    b: Seq<char>,
) -> bool {
    tally(processed, a) < tally(processed, b) || (tally(processed, a) == tally(processed, b)
        && text_before(a, b))
}

/// `users` are those with a request in line, those served sooner first.
pub open spec fn is_service_order<R>(
    queues: Map<Seq<char>, VecDeque<Task<R>>>,
    processed: Map<Seq<char>, usize>,
    users: Seq<Seq<char>>,
) -> bool {
    &&& forall|u: Seq<char>| #[trigger] has_work(queues, u) <==> users.contains(u)
    &&& forall|i: int, j: int|
        0 <= i < j < users.len() ==> served_sooner(
            processed,
            #[trigger] users[i],
            #[trigger] users[j],
        )
}

/// The users with a request in line, those served sooner first.
pub open spec fn service_order<R>(
    queues: Map<Seq<char>, VecDeque<Task<R>>>,
    processed: Map<Seq<char>, usize>,
) -> Seq<Seq<char>> {
    choose|users: Seq<Seq<char>>| is_service_order(queues, processed, users)
}

/// There is one service order, whatever order the users' lines are kept in.
pub proof fn law_service_order_is_unique<R>(
    queues: Map<Seq<char>, VecDeque<Task<R>>>,
    processed: Map<Seq<char>, usize>,
    users: Seq<Seq<char>>,
)
    requires
        is_service_order(queues, processed, users),
    ensures
        users == service_order(queues, processed),
{
    let other = service_order(queues, processed);
    let before = |a: Seq<char>, b: Seq<char>| served_sooner(processed, a, b);
    assert forall|x: Seq<char>, y: Seq<char>| #[trigger] before(x, y) implies !before(y, x) by {
        text_before_is_total(x, y);
    }
    assert forall|u: Seq<char>| #[trigger] users.contains(u) <==> other.contains(u) by {
        assert(has_work(queues, u) <==> users.contains(u));
    }
    assert forall|i: int, j: int| 0 <= i < j < users.len() implies before(
        #[trigger] users[i],
        #[trigger] users[j],
    ) by {}
    lemma_ordered_once(users, other, before);
}

/// Those of `names` with a request in line, each with its count of requests gone through.
fn rank_workers<R>(state: &AppState<R>, names: &Vec<String>) -> (r: Vec<Ranked>)
    requires
        forall|a: int, b: int|
            0 <= a < b < names@.len() ==> (#[trigger] names@[a])@ != (#[trigger] names@[b])@,
    ensures
        distinctly_named(r@),
        forall|a: int|
            0 <= a < r@.len() ==> {
                &&& (#[trigger] r@[a]).major == tally(state.processed_counts@, r@[a].name@)
                &&& r@[a].minor == 0
                &&& has_work(state.queues@, r@[a].name@)
            },
        forall|b: int|
            0 <= b < names@.len() && has_work(state.queues@, (#[trigger] names@[b])@)
                ==> exists|a: int|
                0 <= a < r@.len() && (#[trigger] r@[a]).name == names@[b],
{
    let mut r: Vec<Ranked> = Vec::new();
    let ghost mut from: Seq<int> = Seq::empty();
    let mut i: usize = 0;
    while i < names.len()
        invariant
            i <= names@.len(),
            from.len() == r@.len(),
            forall|a: int|
                0 <= a < r@.len() ==> {
                    &&& (#[trigger] r@[a]).major == tally(state.processed_counts@, r@[a].name@)
                    &&& r@[a].minor == 0
                    &&& has_work(state.queues@, r@[a].name@)
                    &&& r@[a].name == names@[from[a]]
                },
            forall|a: int| 0 <= a < from.len() ==> 0 <= #[trigger] from[a] < i,
            forall|a: int, b: int|
                0 <= a < b < from.len() ==> #[trigger] from[a] < #[trigger] from[b],
            forall|b: int|
                0 <= b < i && has_work(state.queues@, (#[trigger] names@[b])@) ==> from.contains(b),
        decreases names@.len() - i,
    {
        let name = &names[i];
        let works = match state.queues.get(name.as_str()) {
            Some(queue) => queue.len() > 0,
            None => false,
        };
        if works {
            let count = state.processed_counts.count(name.as_str());
            r.push(Ranked { major: count as i128, minor: 0, name: name.clone() });
            proof {
                let grown = from.push(i as int);
                assert forall|b: int|
                    0 <= b < i + 1 && has_work(
                        state.queues@,
                        (#[trigger] names@[b])@,
                    ) implies grown.contains(b) by {
                    if b < i {
                        let a = choose|a: int| 0 <= a < from.len() && from[a] == b;
                        assert(grown[a] == b);
                    } else {
                        assert(grown[from.len() as int] == b);
                    }
                }
                from = grown;
            }
        }
        i = i + 1;
    }
    proof {
        assert forall|a: int, b: int| 0 <= a < b < r@.len() implies (#[trigger] r@[a]).name@ != (
        #[trigger] r@[b]).name@ by {
            assert(from[a] < from[b]);
            assert(names@[from[a]]@ != names@[from[b]]@);
        }
        assert forall|b: int|
            0 <= b < names@.len() && has_work(
                state.queues@,
                (#[trigger] names@[b])@,
            ) implies exists|a: int| 0 <= a < r@.len() && (#[trigger] r@[a]).name == names@[b] by {
            let a = choose|a: int| 0 <= a < from.len() && from[a] == b;
            assert(r@[a].name == names@[b]);
        }
    }
    r
}

/// The users with a request in line, those served sooner first.
pub fn active_users<R>(state: &AppState<R>) -> (r: Vec<String>)
    ensures
        texts(r@) == service_order(state.queues@, state.processed_counts@),
        is_service_order(state.queues@, state.processed_counts@, texts(r@)),
{
    let names = state.queues.names();
    let ranked = rank_workers(state, &names);
    let ghost unsorted = ranked@;
    let sorted = sort_ranked(ranked);
    let r = names_of(&sorted);
    proof {
        let users = texts(r@);
        let queues = state.queues@;
        let processed = state.processed_counts@;
        assert forall|a: int| 0 <= a < sorted@.len() implies unsorted.contains(
            #[trigger] sorted@[a],
        ) by {
            assert(sorted@.contains(sorted@[a]));
        }
        assert forall|u: Seq<char>| #[trigger] has_work(queues, u) <==> users.contains(u) by {
            if has_work(queues, u) {
                assert(queues.contains_key(u));
                let b = choose|b: int| 0 <= b < names@.len() && (#[trigger] names@[b])@ == u;
                let a = choose|a: int|
                    0 <= a < unsorted.len() && (#[trigger] unsorted[a]).name == names@[b];
                assert(unsorted.contains(unsorted[a]));
                assert(sorted@.contains(unsorted[a]));
                let c = choose|c: int| 0 <= c < sorted@.len() && sorted@[c] == unsorted[a];
                assert(users[c] == u);
            }
            if users.contains(u) {
                let c = choose|c: int| 0 <= c < users.len() && users[c] == u;
                assert(unsorted.contains(sorted@[c]));
            }
        }
        assert forall|a: int, b: int| 0 <= a < b < users.len() implies served_sooner(
            processed,
            #[trigger] users[a],
            #[trigger] users[b],
        ) by {
            assert(unsorted.contains(sorted@[a]));
            assert(unsorted.contains(sorted@[b]));
            assert(sorted@[a].before(sorted@[b]));
        }
        assert(is_service_order(queues, processed, users));
        law_service_order_is_unique(queues, processed, users);
    }
    r
}

/// The places among `users` of the VIPs with a request in line, in the VIPs' order, each once.
pub open spec fn vip_places(users: Seq<Seq<char>>, vips: Seq<String>) -> Seq<usize>
    decreases vips.len(),
{
    if vips.len() == 0 {
        Seq::empty()
    } else {
        let before = vip_places(users, vips.drop_last());
        let vip = vips.last()@;
        if users.contains(vip) && !before.contains(users.index_of(vip) as usize) {
            before.push(users.index_of(vip) as usize)
        } else {
            before
        }
    }
}

/// The places from 0 to `n`, beginning at `start` and going round.
pub open spec fn round_from(n: nat, start: int) -> Seq<usize> {
    Seq::new(n, |k: int| ((start + k) % n as int) as usize)
}

/// The order in which users are tried, as their places in `users`: VIPs first, then the others
/// in turn, beginning at the cursor.
pub open spec fn candidate_order(
    users: Seq<Seq<char>>,
    vips: Seq<String>,
    cursor: usize,
) -> Seq<usize> {
    let first = vip_places(users, vips);
    first + round_from(users.len(), cursor as int % users.len() as int).filter(
        |i: usize| !first.contains(i),
    )
}

fn place_of(users: &Vec<String>, name: &str) -> (r: Option<usize>)
    requires
        texts(users@).no_duplicates(),
    ensures
        r is Some == texts(users@).contains(name@),
        r is Some ==> r->0 < users@.len() && r->0 == texts(users@).index_of(name@),
{
    let mut i: usize = 0;
    while i < users.len()
        invariant
            i <= users@.len(),
            texts(users@).no_duplicates(),
            forall|j: int| 0 <= j < i ==> texts(users@)[j] != name@,
        decreases users@.len() - i,
    {
        assert(texts(users@)[i as int] == users@[i as int]@);
        if same_text(users[i].as_str(), name) {
            assert(texts(users@).contains(name@));
            assert(texts(users@)[texts(users@).index_of(name@)] == name@);
            return Some(i);
        }
        i = i + 1;
    }
    None
}

fn holds_place(places: &Vec<usize>, place: usize) -> (r: bool)
    ensures
        r == places@.contains(place),
{
    let mut i: usize = 0;
    while i < places.len()
        invariant
            i <= places@.len(),
            forall|j: int| 0 <= j < i ==> places@[j] != place,
        decreases places@.len() - i,
    {
        if places[i] == place {
            return true;
        }
        i = i + 1;
    }
    false
}

/// Every place is one among `n`.
pub open spec fn places_below(places: Seq<usize>, n: nat) -> bool {
    forall|i: int| 0 <= i < places.len() ==> (#[trigger] places[i]) < n
}

fn find_vips(users: &Vec<String>, vips: &Vec<String>) -> (r: Vec<usize>)
    requires
        texts(users@).no_duplicates(),
    ensures
        r@ == vip_places(texts(users@), vips@),
        places_below(r@, users@.len()),
{
    let mut r: Vec<usize> = Vec::new();
    let mut i: usize = 0;
    assert(vips@.take(0) =~= Seq::<String>::empty());
    while i < vips.len()
        invariant
            i <= vips@.len(),
            texts(users@).no_duplicates(),
            r@ == vip_places(texts(users@), vips@.take(i as int)),
            places_below(r@, users@.len()),
        decreases vips@.len() - i,
    {
        proof {
            assert(vips@.take(i + 1).drop_last() =~= vips@.take(i as int));
            assert(vips@.take(i + 1).last() == vips@[i as int]);
        }
        match place_of(users, vips[i].as_str()) {
            Some(place) => {
                if !holds_place(&r, place) {
                    r.push(place);
                }
            },
            None => {},
        }
        i = i + 1;
    }
    assert(vips@.take(vips@.len() as int) =~= vips@);
    r
}

/// The order in which users are tried, as their places in `users`: VIPs first, then the others
/// in turn, beginning at the cursor.
pub fn order_candidates(users: &Vec<String>, vips: &Vec<String>, cursor: usize) -> (r: Vec<usize>)
    requires
        users@.len() > 0,
        texts(users@).no_duplicates(),
    ensures
        r@ == candidate_order(texts(users@), vips@, cursor),
        places_below(r@, users@.len()),
{
    let first = find_vips(users, vips);
    let n: usize = users.len();
    let start: usize = cursor % n;
    let ghost all = round_from(n as nat, start as int);
    let ghost keep = |i: usize| !first@.contains(i);
    let mut turns: Vec<usize> = Vec::new();
    let mut k: usize = 0;
    proof {
        reveal(Seq::filter);
        assert(all.take(0).filter(keep) =~= Seq::<usize>::empty());
    }
    while k < n
        invariant
            k <= n,
            start < n,
            n == users@.len(),
            all == round_from(n as nat, start as int),
            keep == (|i: usize| !first@.contains(i)),
            turns@ == all.take(k as int).filter(keep),
            places_below(turns@, n as nat),
        decreases n - k,
    {
        let i: usize = if k < n - start {
            start + k
        } else {
            k - (n - start)
        };
        proof {
            assert(i == (start + k) % n as int) by (nonlinear_arith)
                requires
                    start < n,
                    k < n,
                    i == if k < n - start {
                        start + k
                    } else {
                        k - (n - start)
                    },
            ;
            assert(all[k as int] == i);
            lemma_filter_take(all, keep, k as int);
        }
        if !holds_place(&first, i) {
            turns.push(i);
        }
        k = k + 1;
    }
    proof {
        assert(all.take(all.len() as int) =~= all);
    }
    let mut r = first;
    r.append(&mut turns);
    r
}

/// `user` has a request in line that can be acted on now.
pub open spec fn can_act<R>(state: AppState<R>, user: Seq<char>) -> bool {
    state.queues@.contains_key(user) && first_actionable(
        state.model_config,
        state.backends@,
        online(state.backends@),
        state.queues@[user]@,
    ) < state.queues@[user]@.len()
}

/// The first of the users at `places` with a request that can be acted on now, as an index into
/// `places`; their number without one.
pub open spec fn first_served<R>(
    state: AppState<R>,
    users: Seq<Seq<char>>,
    places: Seq<usize>,
) -> int
    decreases places.len(),
{
    if places.len() == 0 || can_act(state, users[places[0] as int]) {
        0
    } else {
        1 + first_served(state, users, places.drop_first())
    }
}

/// The place, in the service order, of the user who is served next; nothing where no backend is
/// online, or no request in line can be acted on now.
pub open spec fn next_place<R>(state: AppState<R>, cursor: usize) -> Option<usize> {
    let users = service_order(state.queues@, state.processed_counts@);
    let places = candidate_order(users, state.vip_user@, cursor);
    let k = first_served(state, users, places);
    if online(state.backends@).len() == 0 || k >= places.len() {
        None
    } else {
        Some(places[k])
    }
}

/// The request that is served next, of the user at `place` in the service order.
pub open spec fn next_request<R>(state: AppState<R>, place: usize) -> Task<R> {
    let user = service_order(state.queues@, state.processed_counts@)[place as int];
    let queue = state.queues@[user]@;
    queue[first_actionable(
        state.model_config,
        state.backends@,
        online(state.backends@),
        queue,
    )]
}

/// The user's request at `at` left the line; it alone, and nothing but backends changed besides.
pub open spec fn took_out<R>(
    before: AppState<R>,
    after: AppState<R>,
    user: Seq<char>,
    at: int,
) -> bool {
    &&& after.queues@.dom() == before.queues@.dom()
    &&& forall|u: Seq<char>|
        u != user && before.queues@.contains_key(u) ==> #[trigger] after.queues@[u]
            == before.queues@[u]
    &&& after.queues@[user]@ == before.queues@[user]@.remove(at)
    &&& after.global_counter == before.global_counter + 1
    &&& after.processing_counts == before.processing_counts
    &&& after.processed_counts == before.processed_counts
    &&& after.dropped_counts == before.dropped_counts
    &&& after.user_ips == before.user_ips
    &&& after.blocked_ips == before.blocked_ips
    &&& after.blocked_users == before.blocked_users
    &&& after.vip_user == before.vip_user
    &&& after.model_config == before.model_config
    &&& after.cached_tags == before.cached_tags
    &&& after.log_lines == before.log_lines
    &&& after.ip_header == before.ip_header
}

/// The backend at `at` has one more request, for `model`; nothing else changed.
pub open spec fn took_on(
    before: Seq<BackendStatus>,
    after: Seq<BackendStatus>,
    at: int,
    model: Seq<char>,
) -> bool {
    &&& after.len() == before.len()
    &&& forall|i: int| 0 <= i < before.len() && i != at ==> #[trigger] after[i] == before[i]
    &&& after[at].url == before[at].url
    &&& after[at].configured_models == before[at].configured_models
    &&& after[at].active_requests == before[at].active_requests + 1
    &&& after[at].processed_count == before[at].processed_count
    &&& after[at].is_online == before[at].is_online
    &&& after[at].active_models@ == one_more(before[at].active_models@, model)
    &&& after[at].processed_models == before[at].processed_models
    &&& after[at].model_status == before[at].model_status
}

/// `sent` is the request `queued`, made ready for a backend: its body asks for the model by its
/// configured name, and that name is noted.
pub open spec fn is_prepared<R>(queued: Task<R>, sent: Task<R>, config: ModelConfig) -> bool {
    let (body, model) = rewritten(queued.body@, queued.path@, config);
    &&& sent.method == queued.method
    &&& sent.path == queued.path
    &&& sent.headers == queued.headers
    &&& sent.responder == queued.responder
    &&& sent.requested_model == queued.requested_model
    &&& sent.body@ == body
    &&& if model is Some {
        text_of(sent.resolved_model) == model
    } else {
        sent.resolved_model == queued.resolved_model
    }
}

/// `user` was served: the first request in line that could be acted on left it, and is either to
/// be sent to the backend that the user prefers among those that can take it, or to be answered
/// that no backend has its model.
pub open spec fn was_served<R>(
    before: AppState<R>,
    after: AppState<R>,
    user: Seq<char>,
    r: SelectionResult<R>,
) -> bool {
    let config = before.model_config;
    let backends = before.backends@;
    let indices = online(backends);
    let queue = before.queues@[user]@;
    let at = first_actionable(config, backends, indices, queue);
    &&& took_out(before, after, user, at)
    &&& match route(config, backends, indices, text_of(queue[at].requested_model)) {
        RouteView::Unavailable(missing) => {
            &&& r matches SelectionResult::ModelNotFound(task, name)
            &&& task == queue[at]
            &&& name@ == missing
            &&& after.backends == before.backends
        },
        RouteView::Ready(model, free) => {
            &&& r matches SelectionResult::Dispatch(name, task, backend_idx, url)
            &&& name@ == user
            &&& is_prepared(queue[at], task, config)
            &&& is_preferred(user, backends, free, backend_idx)
            &&& url@ == backends[backend_idx as int].url@
            &&& took_on(backends, after.backends@, backend_idx as int, model)
        },
        RouteView::Busy => false,
    }
}

impl<R> AppState<R> {
    /// One more request can be counted, and taken on by any backend.
    pub open spec fn has_room(self) -> bool {
        &&& self.global_counter < usize::MAX
        &&& forall|i: int|
            0 <= i < self.backends@.len() ==> (#[trigger] self.backends@[i]).active_requests
                < usize::MAX
    }

    /// Whether one more request can be counted, and taken on by any backend.
    pub fn room_for_one(&self) -> (r: bool)
        ensures
            r == self.has_room(),
    {
        if self.global_counter == usize::MAX {
            return false;
        }
        let mut i: usize = 0;
        while i < self.backends.len()
            invariant
                i <= self.backends@.len(),
                forall|j: int|
                    0 <= j < i ==> (#[trigger] self.backends@[j]).active_requests < usize::MAX,
            decreases self.backends@.len() - i,
        {
            if self.backends[i].active_requests == usize::MAX {
                return false;
            }
            i = i + 1;
        }
        true
    }
}

/// Finds the next user to serve and what to do with that user's request.
///
/// All users with a request in line are tried, not only the first one: a user whose requests
/// wait for a busy model does not hold up the others.
fn find_pick<R>(
    state: &AppState<R>,
    online: &Vec<usize>,
    users: &Vec<String>,
    places: &Vec<usize>,
) -> (r: Option<(usize, TaskPick)>)
    requires
        online@ == crate::routing::online(state.backends@),
        in_range(state.backends@, online@),
        places_below(places@, users@.len()),
    ensures
        ({
            let k = first_served(*state, texts(users@), places@);
            &&& 0 <= k
            &&& r is None <==> k >= places@.len()
            &&& r matches Some((place, pick)) ==> {
                let user = texts(users@)[places@[k] as int];
                let queue = state.queues@[user]@;
                let at = first_actionable(state.model_config, state.backends@, online@, queue);
                &&& place == places@[k]
                &&& can_act(*state, user)
                &&& is_pick_at(
                    pick,
                    route(
                        state.model_config,
                        state.backends@,
                        online@,
                        text_of(queue[at].requested_model),
                    ),
                    state.backends@,
                    user,
                    at,
                )
            }
        }),
{
    let mut routes = RouteCache::new();
    let mut k: usize = 0;
    assert(places@.skip(0) =~= places@);
    while k < places.len()
        invariant
            k <= places@.len(),
            online@ == crate::routing::online(state.backends@),
            in_range(state.backends@, online@),
            places_below(places@, users@.len()),
            is_current(routes@, state.model_config, state.backends@, online@),
            first_served(*state, texts(users@), places@) == k + first_served(
                *state,
                texts(users@),
                places@.skip(k as int),
            ),
        decreases places@.len() - k,
    {
        let place: usize = places[k];
        proof {
            assert(places@.skip(k as int)[0] == place);
            assert(places@.skip(k as int).drop_first() =~= places@.skip(k + 1));
            assert(texts(users@)[place as int] == users@[place as int]@);
        }
        let user = users[place].as_str();
        match state.queues.get(user) {
            Some(queue) => {
                proof {
                    law_a_current_cache_changes_nothing(
                        routes@,
                        state.model_config,
                        state.backends@,
                        online@,
                        queue@,
                    );
                    let at = first_actionable(
                        state.model_config,
                        state.backends@,
                        online@,
                        queue@,
                    );
                    lemma_ready_in_range(
                        state.model_config,
                        state.backends@,
                        online@,
                        text_of(queue@[at].requested_model),
                    );
                }
                match find_dispatchable_task(
                    &state.model_config,
                    &state.backends,
                    online,
                    queue,
                    user,
                    &mut routes,
                ) {
                    Some(pick) => {
                        return Some((place, pick));
                    },
                    None => {},
                }
            },
            None => {},
        }
        k = k + 1;
    }
    None
}

/// The user who is served next, with the place in the service order, and what is done with which
/// of the user's requests.
fn find_next<R>(state: &AppState<R>, cursor: usize) -> (r: Option<(usize, String, TaskPick)>)
    ensures
        match next_place(*state, cursor) {
            None => r is None,
            Some(next) => r matches Some((place, user, pick)) && {
                let queue = state.queues@[user@]@;
                let indices = online(state.backends@);
                let at = first_actionable(state.model_config, state.backends@, indices, queue);
                &&& place == next
                &&& user@ == service_order(state.queues@, state.processed_counts@)[next as int]
                &&& place < usize::MAX
                &&& can_act(*state, user@)
                &&& in_range(state.backends@, indices)
                &&& is_pick_at(
                    pick,
                    route(
                        state.model_config,
                        state.backends@,
                        indices,
                        text_of(queue[at].requested_model),
                    ),
                    state.backends@,
                    user@,
                    at,
                )
            },
        },
{
    let online = online_indices(&state.backends);
    if online.len() == 0 {
        return None;
    }
    let users = active_users(state);
    if users.len() == 0 {
        proof {
            reveal(Seq::filter);
            let names = service_order(state.queues@, state.processed_counts@);
            assert(texts(users@).len() == 0);
            lemma_no_vip_places(names, state.vip_user@);
            assert(round_from(0, cursor as int % 0).len() == 0);
            assert(candidate_order(names, state.vip_user@, cursor).len() == 0);
            lemma_first_served_bounds(
                *state,
                names,
                candidate_order(names, state.vip_user@, cursor),
            );
        }
        return None;
    }
    proof {
        lemma_service_order_once(state.queues@, state.processed_counts@, texts(users@));
    }
    let places = order_candidates(&users, &state.vip_user, cursor);
    match find_pick(state, &online, &users, &places) {
        Some((place, pick)) => {
            let user = users[place].clone();
            assert(texts(users@)[place as int] == user@);
            Some((place, user, pick))
        },
        None => None,
    }
}

/// Whether anyone is served next.
pub fn has_next<R>(state: &AppState<R>, current_idx: usize) -> (r: bool)
    ensures
        r == next_place(*state, current_idx) is Some,
{
    find_next(state, current_idx).is_some()
}

/// Takes the next request out of line that can be acted on now.
///
/// VIPs are tried first, in their order, then the other users in turn from the cursor on. The
/// cursor moves on behind the user who was served, unless that is a VIP. A request that is sent
/// on asks for its model by the configured name, which is noted as the one it was resolved to,
/// unless its body is one that is not read again as it is printed.
pub fn select_and_prepare_task<R>(state: &mut AppState<R>, current_idx: &mut usize) -> (r:
    SelectionResult<R>)
    requires
        next_place(*old(state), *old(current_idx)) is Some ==> old(state).has_room(),
    ensures
        match next_place(*old(state), *old(current_idx)) {
            None => {
                &&& r is Wait
                &&& *final(state) == *old(state)
                &&& *final(current_idx) == *old(current_idx)
            },
            Some(place) => {
                let user = service_order(old(state).queues@, old(state).processed_counts@)[
                    place as int
                ];
                &&& was_served(*old(state), *final(state), user, r)
                &&& *final(current_idx) == if lists(old(state).vip_user@, user) {
                    *old(current_idx)
                } else {
                    (place + 1) as usize
                }
            },
        },
        next_place(*old(state), *old(current_idx)) matches Some(place) ==> {
            let queued = next_request(*old(state), place);
            let renamed = is_renamed(queued.body@, queued.path@, old(state).model_config);
            r matches SelectionResult::Dispatch(_, task, _, _) ==> {
                &&& is_model_path(queued.path@) && body_model(queued.body@) is Some && (renamed
                    ==> is_reread(queued.body@)) ==> body_model(task.body@) == text_of(
                    task.resolved_model,
                )
                &&& renamed && is_kept(queued.body@) ==> json_document(task.body@) == Some(
                    document_for_model(queued.body@, task.resolved_model->0@),
                )
            }
        },
{
    let (place, user, pick) = match find_next(state, *current_idx) {
        Some(found) => found,
        None => return SelectionResult::Wait,
    };
    if !list_contains(&state.vip_user, user.as_str()) {
        *current_idx = place + 1;
    }
    let ghost indices = online(state.backends@);
    let ghost queue0 = state.queues@[user@]@;
    let ghost at = first_actionable(state.model_config, state.backends@, indices, queue0);
    proof {
        lemma_first_actionable(state.model_config, state.backends@, indices, queue0);
        lemma_ready_in_range(
            state.model_config,
            state.backends@,
            indices,
            text_of(queue0[at].requested_model),
        );
    }
    let queue_idx: usize = match &pick {
        TaskPick::Dispatch { queue_idx, .. } => *queue_idx,
        TaskPick::Fail { queue_idx, .. } => *queue_idx,
    };
    let mut queue = match state.queues.take(user.as_str()) {
        Some(queue) => queue,
        None => return SelectionResult::Wait,
    };
    let mut task = match queue.remove(queue_idx) {
        Some(task) => task,
        None => return SelectionResult::Wait,
    };
    state.queues.insert(user.clone(), queue);
    state.global_counter = state.global_counter + 1;
    assert(state.queues@.dom() =~= old(state).queues@.dom());
    match pick {
        TaskPick::Fail { model_name, .. } => SelectionResult::ModelNotFound(task, model_name),
        TaskPick::Dispatch { model, backend_idx, .. } => {
            let resolved = extract_and_resolve_model(
                &mut task.body,
                task.path.as_str(),
                &state.model_config,
            );
            if resolved.is_some() {
                task.resolved_model = resolved;
            }
            let url = state.backends[backend_idx].url.clone();
            let backend = &mut state.backends[backend_idx];
            backend.active_requests = backend.active_requests + 1;
            backend.active_models.add_one(model.as_str());
            SelectionResult::Dispatch(user, task, backend_idx, url)
        },
    }
}

/// What is logged of a request that is sent on under another model's name than it asked for. A
/// difference in the tag `latest` alone is none.
pub open spec fn mapping_text(
    user: Seq<char>,
    requested: Option<Seq<char>>,
    resolved: Option<Seq<char>>,
) -> Option<Seq<char>> {
    match (requested, resolved) {
        (Some(from), Some(to)) => if names_match(from, to) {
            None
        } else {
            Some(
                "Mapped requested model "@ + from + " to "@ + to + " for user "@ + user,
            )
        },
        _ => None,
    }
}

/// The log line of a request that is sent on under another model's name than it asked for.
pub fn mapping_line<R>(user_id: &str, task: &Task<R>) -> (r: Option<String>)
    ensures
        text_of(r) == mapping_text(
            user_id@,
            text_of(task.requested_model),
            text_of(task.resolved_model),
        ),
{
    match (&task.requested_model, &task.resolved_model) {
        (Some(from), Some(to)) => {
            if model_names_match(from.as_str(), to.as_str()) {
                return None;
            }
            let mut line = "Mapped requested model ".to_owned();
            line.append(from.as_str());
            line.append(" to ");
            line.append(to.as_str());
            line.append(" for user ");
            line.append(user_id);
            Some(line)
        },
        _ => None,
    }
}

/// Without users there are no VIPs among them.
proof fn lemma_no_vip_places(users: Seq<Seq<char>>, vips: Seq<String>)
    requires
        users.len() == 0,
    ensures
        vip_places(users, vips).len() == 0,
    decreases vips.len(),
{
    if vips.len() > 0 {
        lemma_no_vip_places(users, vips.drop_last());
    }
}

proof fn lemma_first_served_bounds<R>(
    state: AppState<R>,
    users: Seq<Seq<char>>,
    places: Seq<usize>,
)
    ensures
        0 <= first_served(state, users, places) <= places.len(),
    decreases places.len(),
{
    if places.len() > 0 {
        lemma_first_served_bounds(state, users, places.drop_first());
    }
}

/// The service order names each user once.
proof fn lemma_service_order_once<R>(
    queues: Map<Seq<char>, VecDeque<Task<R>>>,
    processed: Map<Seq<char>, usize>,
    users: Seq<Seq<char>>,
)
    requires
        is_service_order(queues, processed, users),
    ensures
        users.no_duplicates(),
{
    assert forall|i: int, j: int|
        0 <= i < users.len() && 0 <= j < users.len() && i != j implies users[i] != users[j] by {
        let a = if i < j { i } else { j };
        let b = if i < j { j } else { i };
        assert(served_sooner(processed, users[a], users[b]));
        text_before_is_total(users[a], users[b]);
    }
}

/// A request is told of as mapped exactly where it is sent on for another model than it asked
/// for, a missing tag `latest` aside; and then both models and the user are named.
pub proof fn law_mappings_name_both_models(user: Seq<char>, from: Seq<char>, to: Seq<char>)
    ensures
        ({
            let same = {
                ||| from == to
                ||| !from.contains(':') && to == from + ":latest"@
                ||| !to.contains(':') && from == to + ":latest"@
            };
            &&& same ==> mapping_text(user, Some(from), Some(to)) is None
            &&& !same ==> mapping_text(user, Some(from), Some(to)) == Some(
                "Mapped requested model "@ + from + " to "@ + to + " for user "@ + user,
            )
            &&& mapping_text(user, None, Some(to)) is None
            &&& mapping_text(user, Some(from), None) is None
        }),
{
    law_names_match_up_to_a_missing_latest(from, to);
}

/// There is room for one more request wherever the counter of requests, and every backend's count
/// of them, is below its limit.
pub proof fn law_there_is_room_below_the_limits<R>(state: AppState<R>)
    ensures
        state.has_room() <==> state.global_counter < usize::MAX && forall|i: int|
            0 <= i < state.backends@.len() ==> (#[trigger] state.backends@[i]).active_requests
                != usize::MAX,
{
}

} // verus!
