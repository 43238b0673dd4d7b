//! Where a request can go now.

use std::collections::VecDeque;

use vstd::prelude::*;

use crate::backend::BackendStatus;
use crate::models::ModelConfig;
use crate::names::{list_contains, lists, tally};
use crate::rendezvous::{is_preferred, preferred_backend};
use crate::request::text_of;
use crate::sequences::{lemma_filter_is_part, lemma_filter_take};
use crate::state::Task;
use crate::text::same_text;

verus! {

/// How a model can be served at this instant, whoever asks.
pub enum ModelRoute {
    /// The configuration does not know the model, or no backend is configured for it. Waiting
    /// cannot help; a request for it fails under the given name.
    Unavailable(String),
    /// Backends are configured for it, and none can take a request now: they are offline, miss
    /// the model, or have as many requests for it as they take.
    Busy,
    /// These backends can take a request for `model` now.
    Ready { model: String, backend_indices: Vec<usize> },
}

/// A route, over characters and sequences.
pub enum RouteView {
    Unavailable(Seq<char>),
    Busy,
    Ready(Seq<char>, Seq<usize>),
}

impl View for ModelRoute {
    type V = RouteView;

    open spec fn view(&self) -> RouteView {
        match *self {
            ModelRoute::Unavailable(name) => RouteView::Unavailable(name@),
            ModelRoute::Busy => RouteView::Busy,
            ModelRoute::Ready { model, backend_indices } => RouteView::Ready(
                model@,
                backend_indices@,
            ),
        }
    }
}

/// The places of the backends that are online.
pub open spec fn online(backends: Seq<BackendStatus>) -> Seq<usize> {
    Seq::new(backends.len(), |i: int| i as usize).filter(|i: usize| backends[i as int].is_online)
}

/// Those of `indices` whose backend has `model`.
pub open spec fn able(
    backends: Seq<BackendStatus>,
    indices: Seq<usize>,
    model: Seq<char>,
) -> Seq<usize> {
    indices.filter(|i: usize| backends[i as int].serves(model))
}

/// Those of `indices` whose backend has fewer than `cap` requests for `model`.
pub open spec fn below_cap(
    backends: Seq<BackendStatus>,
    indices: Seq<usize>,
    model: Seq<char>,
    cap: usize,
) -> Seq<usize> {
    indices.filter(|i: usize| tally(backends[i as int].active_models@, model) < cap)
}

/// Some backend is configured for `model`.
pub open spec fn configured_anywhere(backends: Seq<BackendStatus>, model: Seq<char>) -> bool {
    exists|i: int|
        0 <= i < backends.len() && lists((#[trigger] backends[i]).configured_models@, model)
}

/// The route of a request for `requested`, where `indices` are the backends to choose from.
pub open spec fn route(
    config: ModelConfig,
    backends: Seq<BackendStatus>,
    indices: Seq<usize>,
    requested: Option<Seq<char>>,
) -> RouteView {
    match requested {
        None => RouteView::Unavailable("unknown"@),
        Some(name) => match config.resolved(name) {
            None => RouteView::Unavailable(name),
            Some(model) => {
                let having = able(backends, indices, model);
                let free = below_cap(backends, having, model, config.concurrency_cap(model));
                if having.len() == 0 && !configured_anywhere(backends, model) {
                    RouteView::Unavailable(model)
                } else if free.len() == 0 {
                    RouteView::Busy
                } else {
                    RouteView::Ready(model, free)
                }
            },
        },
    }
}

/// Every index is the place of a backend.
pub open spec fn in_range(backends: Seq<BackendStatus>, indices: Seq<usize>) -> bool {
    forall|i: int| 0 <= i < indices.len() ==> (#[trigger] indices[i]) < backends.len()
}

proof fn lemma_filter_in_range(
    backends: Seq<BackendStatus>,
    indices: Seq<usize>,
    keep: spec_fn(usize) -> bool,
)
    requires
        in_range(backends, indices),
    ensures
        in_range(backends, indices.filter(keep)),
    decreases indices.len(),
{
    reveal(Seq::filter);
    if indices.len() > 0 {
        lemma_filter_in_range(backends, indices.drop_last(), keep);
    }
}

/// The places of the backends that are online.
pub fn online_indices(backends: &Vec<BackendStatus>) -> (r: Vec<usize>)
    ensures
        r@ == online(backends@),
        in_range(backends@, r@),
{
    let ghost all = Seq::new(backends@.len(), |i: int| i as usize);
    let ghost keep = |i: usize| backends@[i as int].is_online;
    let mut r: Vec<usize> = Vec::new();
    let mut i: usize = 0;
    proof {
        reveal(Seq::filter);
        assert(all.take(0).filter(keep) =~= Seq::<usize>::empty());
    }
    while i < backends.len()
        invariant
            i <= backends@.len(),
            all == Seq::new(backends@.len(), |i: int| i as usize),
            keep == (|i: usize| backends@[i as int].is_online),
            r@ == all.take(i as int).filter(keep),
        decreases backends@.len() - i,
    {
        proof {
            lemma_filter_take(all, keep, i as int);
        }
        if backends[i].is_online {
            r.push(i);
        }
        i = i + 1;
    }
    proof {
        assert(all.take(all.len() as int) =~= all);
        lemma_filter_in_range(backends@, all, keep);
    }
    r
}

fn able_backends(backends: &Vec<BackendStatus>, indices: &Vec<usize>, model: &str) -> (r: Vec<
    usize,
>)
    requires
        in_range(backends@, indices@),
    ensures
        r@ == able(backends@, indices@, model@),
        in_range(backends@, r@),
{
    let ghost keep = |i: usize| backends@[i as int].serves(model@);
    let mut r: Vec<usize> = Vec::new();
    let mut i: usize = 0;
    proof {
        reveal(Seq::filter);
        assert(indices@.take(0).filter(keep) =~= Seq::<usize>::empty());
    }
    while i < indices.len()
        invariant
            i <= indices@.len(),
            in_range(backends@, indices@),
            keep == (|i: usize| backends@[i as int].serves(model@)),
            r@ == indices@.take(i as int).filter(keep),
        decreases indices@.len() - i,
    {
        proof {
            lemma_filter_take(indices@, keep, i as int);
        }
        if backends[indices[i]].can_serve_model(model) {
            r.push(indices[i]);
        }
        i = i + 1;
    }
    proof {
        assert(indices@.take(indices@.len() as int) =~= indices@);
        lemma_filter_in_range(backends@, indices@, keep);
    }
    r
}

fn free_backends(
    backends: &Vec<BackendStatus>,
    indices: &Vec<usize>,
    model: &str,
    cap: usize,
) -> (r: Vec<usize>)
    requires
        in_range(backends@, indices@),
    ensures
        r@ == below_cap(backends@, indices@, model@, cap),
        in_range(backends@, r@),
{
    let ghost keep = |i: usize| tally(backends@[i as int].active_models@, model@) < cap;
    let mut r: Vec<usize> = Vec::new();
    let mut i: usize = 0;
    proof {
        reveal(Seq::filter);
        assert(indices@.take(0).filter(keep) =~= Seq::<usize>::empty());
    }
    while i < indices.len()
        invariant
            i <= indices@.len(),
            in_range(backends@, indices@),
            keep == (|i: usize| tally(backends@[i as int].active_models@, model@) < cap),
            r@ == indices@.take(i as int).filter(keep),
        decreases indices@.len() - i,
    {
        proof {
            lemma_filter_take(indices@, keep, i as int);
        }
        if backends[indices[i]].active_models.count(model) < cap {
            r.push(indices[i]);
        }
        i = i + 1;
    }
    proof {
        assert(indices@.take(indices@.len() as int) =~= indices@);
        lemma_filter_in_range(backends@, indices@, keep);
    }
    r
}

fn any_configured(backends: &Vec<BackendStatus>, model: &str) -> (r: bool)
    ensures
        r == configured_anywhere(backends@, model@),
{
    let mut i: usize = 0;
    while i < backends.len()
        invariant
            i <= backends@.len(),
            forall|j: int|
                0 <= j < i ==> !lists((#[trigger] backends@[j]).configured_models@, model@),
        decreases backends@.len() - i,
    {
        if list_contains(&backends[i].configured_models, model) {
            return true;
        }
        i = i + 1;
    }
    false
}

/// Where a request for `requested_model` can go, out of the given backends.
pub fn route_model(
    config: &ModelConfig,
    backends: &Vec<BackendStatus>,
    online_indices: &Vec<usize>,
    requested_model: &Option<String>,
) -> (r: ModelRoute)
    requires
        in_range(backends@, online_indices@),
    ensures
        r@ == route(*config, backends@, online_indices@, text_of(*requested_model)),
        r matches ModelRoute::Ready { model, backend_indices } ==> in_range(
            backends@,
            backend_indices@,
        ),
{
    let requested = match requested_model {
        Some(requested) => requested,
        None => return ModelRoute::Unavailable("unknown".to_owned()),
    };
    let model = match config.resolve_alias(requested.as_str()) {
        Some(model) => model,
        None => return ModelRoute::Unavailable(requested.clone()),
    };
    let cap: usize = match config.get_model(model.as_str()) {
        Some(m) => m.max_concurrent_requests,
        None => 1,
    };
    let having = able_backends(backends, online_indices, model.as_str());
    if having.len() == 0 {
        proof {
            reveal(Seq::filter);
            assert(having@ =~= Seq::<usize>::empty());
        }
        return if any_configured(backends, model.as_str()) {
            ModelRoute::Busy
        } else {
            ModelRoute::Unavailable(model)
        };
    }
    let free = free_backends(backends, &having, model.as_str(), cap);
    if free.len() == 0 {
        ModelRoute::Busy
    } else {
        ModelRoute::Ready { model, backend_indices: free }
    }
}

/// The routes found so far, by the model asked for.
pub struct RouteCache {
    pub entries: Vec<(Option<String>, ModelRoute)>,
}

/// The first entry for `requested`, as an index; their number without one.
pub open spec fn first_entry(
    entries: Seq<(Option<String>, ModelRoute)>,
    requested: Option<Seq<char>>,
) -> int
    decreases entries.len(),
{
    if entries.len() == 0 || text_of(entries[0].0) == requested {
        0
    } else {
        1 + first_entry(entries.drop_first(), requested)
    }
}

proof fn lemma_first_entry(
    entries: Seq<(Option<String>, ModelRoute)>,
    requested: Option<Seq<char>>,
    at: int,
)
    requires
        0 <= at <= entries.len(),
        at < entries.len() ==> text_of(entries[at].0) == requested,
        forall|j: int| 0 <= j < at ==> text_of((#[trigger] entries[j]).0) != requested,
    ensures
        first_entry(entries, requested) == at,
    decreases entries.len(),
{
    if at > 0 {
        let rest = entries.drop_first();
        assert(text_of(entries[0].0) != requested);
        assert forall|j: int| 0 <= j < at - 1 implies text_of((#[trigger] rest[j]).0)
            != requested by {
            assert(rest[j] == entries[j + 1]);
        }
        lemma_first_entry(rest, requested, at - 1);
    }
}

proof fn lemma_first_entry_of_more(
    entries: Seq<(Option<String>, ModelRoute)>,
    entry: (Option<String>, ModelRoute),
    requested: Option<Seq<char>>,
)
    ensures
        0 <= first_entry(entries, requested) <= entries.len(),
        first_entry(entries.push(entry), requested) == if first_entry(entries, requested)
            < entries.len() || text_of(entry.0) == requested {
            first_entry(entries, requested)
        } else {
            entries.len() as int + 1
        },
    decreases entries.len(),
{
    let more = entries.push(entry);
    if entries.len() == 0 {
        assert(more.drop_first().len() == 0);
        reveal_with_fuel(first_entry, 2);
    } else {
        assert(more.drop_first() =~= entries.drop_first().push(entry));
        lemma_first_entry_of_more(entries.drop_first(), entry, requested);
    }
}

impl View for RouteCache {
    type V = Map<Option<Seq<char>>, RouteView>;

    open spec fn view(&self) -> Map<Option<Seq<char>>, RouteView> {
        Map::new(
            |requested: Option<Seq<char>>|
                first_entry(self.entries@, requested) < self.entries@.len(),
            |requested: Option<Seq<char>>|
                self.entries@[first_entry(self.entries@, requested)].1@,
        )
    }
}

/// The route of a request for `requested`: the one in the cache, where there is one, else the
/// one that is found now.
pub open spec fn cached_route(
    cache: Map<Option<Seq<char>>, RouteView>,
    config: ModelConfig,
    backends: Seq<BackendStatus>,
    indices: Seq<usize>,
    requested: Option<Seq<char>>,
) -> RouteView {
    if cache.contains_key(requested) {
        cache[requested]
    } else {
        route(config, backends, indices, requested)
    }
}

/// The cache with the routes of all of `requests`, as they are found now where it had none.
pub open spec fn cache_after<R>(
    cache: Map<Option<Seq<char>>, RouteView>,
    config: ModelConfig,
    backends: Seq<BackendStatus>,
    indices: Seq<usize>,
    requests: Seq<Task<R>>,
) -> Map<Option<Seq<char>>, RouteView> {
    Map::new(
        |requested: Option<Seq<char>>|
            cache.contains_key(requested) || exists|j: int|
                0 <= j < requests.len() && text_of((#[trigger] requests[j]).requested_model)
                    == requested,
        |requested: Option<Seq<char>>| cached_route(cache, config, backends, indices, requested),
    )
}

/// Every route in the cache is the one that would be found now.
pub open spec fn is_current(
    cache: Map<Option<Seq<char>>, RouteView>,
    config: ModelConfig,
    backends: Seq<BackendStatus>,
    indices: Seq<usize>,
) -> bool {
    forall|requested: Option<Seq<char>>| #[trigger]
        cache.contains_key(requested) ==> cache[requested] == route(
            config,
            backends,
            indices,
            requested,
        )
}

proof fn lemma_cache_after_one_more<R>(
    cache: Map<Option<Seq<char>>, RouteView>,
    config: ModelConfig,
    backends: Seq<BackendStatus>,
    indices: Seq<usize>,
    requests: Seq<Task<R>>,
    i: int,
)
    requires
        0 <= i < requests.len(),
    ensures
        ({
            let before = cache_after(cache, config, backends, indices, requests.take(i));
            let after = cache_after(cache, config, backends, indices, requests.take(i + 1));
            let requested = text_of(requests[i].requested_model);
            after == if before.contains_key(requested) {
                before
            } else {
                before.insert(requested, route(config, backends, indices, requested))
            }
        }),
{
    let some = requests.take(i);
    let more = requests.take(i + 1);
    let before = cache_after(cache, config, backends, indices, some);
    let after = cache_after(cache, config, backends, indices, more);
    let requested = text_of(requests[i].requested_model);
    assert forall|k: Option<Seq<char>>| #[trigger]
        after.contains_key(k) <==> before.contains_key(k) || k == requested by {
        if before.contains_key(k) && !cache.contains_key(k) {
            let j = choose|j: int|
                0 <= j < some.len() && text_of((#[trigger] some[j]).requested_model) == k;
            assert(more[j] == some[j]);
        }
        if k == requested {
            assert(text_of(more[i].requested_model) == k);
        }
        if after.contains_key(k) && !cache.contains_key(k) {
            let j = choose|j: int|
                0 <= j < more.len() && text_of((#[trigger] more[j]).requested_model) == k;
            if j < i {
                assert(some[j] == more[j]);
            }
        }
    }
    if before.contains_key(requested) {
        assert(after =~= before);
    } else {
        assert(after =~= before.insert(
            requested,
            route(config, backends, indices, requested),
        ));
    }
}

impl RouteCache {
    /// An empty cache.
    pub fn new() -> (r: Self)
        ensures
            r@ == Map::<Option<Seq<char>>, RouteView>::empty(),
    {
        let r = RouteCache { entries: Vec::new() };
        assert(r@ =~= Map::<Option<Seq<char>>, RouteView>::empty());
        r
    }

    /// The place of the first route found for `requested`; nothing where none was found yet.
    fn position(&self, requested: &Option<String>) -> (r: Option<usize>)
        ensures
            match r {
                Some(at) => {
                    &&& at < self.entries@.len()
                    &&& text_of(self.entries@[at as int].0) == text_of(*requested)
                    &&& forall|j: int|
                        0 <= j < at ==> text_of((#[trigger] self.entries@[j]).0) != text_of(
                            *requested,
                        )
                },
                None => forall|j: int|
                    0 <= j < self.entries@.len() ==> text_of((#[trigger] self.entries@[j]).0)
                        != text_of(*requested),
            },
            r is Some == self@.contains_key(text_of(*requested)),
            r is Some ==> self.entries@[r->0 as int].1@ == self@[text_of(*requested)],
    {
        let mut i: usize = 0;
        while i < self.entries.len()
            invariant
                i <= self.entries@.len(),
                forall|j: int|
                    0 <= j < i ==> text_of((#[trigger] self.entries@[j]).0) != text_of(*requested),
            decreases self.entries@.len() - i,
        {
            let same = match (&self.entries[i].0, requested) {
                (Some(a), Some(b)) => same_text(a.as_str(), b.as_str()),
                (None, None) => true,
                _ => false,
            };
            if same {
                proof {
                    lemma_first_entry(self.entries@, text_of(*requested), i as int);
                }
                return Some(i);
            }
            i = i + 1;
        }
        proof {
            lemma_first_entry(self.entries@, text_of(*requested), i as int);
        }
        None
    }

    /// Keeps the route of a request for which there was none.
    fn remember(&mut self, requested: Option<String>, found: ModelRoute)
        requires
            !old(self)@.contains_key(text_of(requested)),
        ensures
            final(self)@ == old(self)@.insert(text_of(requested), found@),
            final(self).entries@ == old(self).entries@.push((requested, found)),
    {
        self.entries.push((requested, found));
        proof {
            let entries = old(self).entries@;
            assert forall|k: Option<Seq<char>>|
                #![trigger first_entry(self.entries@, k)]
                0 <= first_entry(entries, k) <= entries.len() && first_entry(self.entries@, k)
                    == (if first_entry(entries, k) < entries.len() || k == text_of(requested) {
                    first_entry(entries, k)
                } else {
                    entries.len() as int + 1
                }) by {
                lemma_first_entry_of_more(entries, (requested, found), k);
            }
            assert(self@ =~= old(self)@.insert(text_of(requested), found@));
        }
    }
}

/// A request in line that can be acted on now.
pub enum TaskPick {
    /// It goes to the backend at `backend_idx`.
    Dispatch { queue_idx: usize, model: String, backend_idx: usize },
    /// Its model can never be served.
    Fail { queue_idx: usize, model_name: String },
}

/// The first request in line that can be acted on now, as an index; their number without one.
pub open spec fn first_actionable<R>(
    config: ModelConfig,
    backends: Seq<BackendStatus>,
    indices: Seq<usize>,
    queue: Seq<Task<R>>,
) -> int
    decreases queue.len(),
{
    if queue.len() == 0 || !(route(
        config,
        backends,
        indices,
        text_of(queue[0].requested_model),
    ) is Busy) {
        0
    } else {
        1 + first_actionable(config, backends, indices, queue.drop_first())
    }
}

/// Where `first_actionable` points: all requests ahead wait for a busy model, that one does not.
pub proof fn lemma_first_actionable<R>(
    config: ModelConfig,
    backends: Seq<BackendStatus>,
    indices: Seq<usize>,
    queue: Seq<Task<R>>,
)
    ensures
        ({
            let at = first_actionable(config, backends, indices, queue);
            &&& 0 <= at <= queue.len()
            &&& at < queue.len() ==> !(route(
                config,
                backends,
                indices,
                text_of(queue[at].requested_model),
            ) is Busy)
            &&& forall|i: int|
                0 <= i < at ==> route(
                    config,
                    backends,
                    indices,
                    text_of((#[trigger] queue[i]).requested_model),
                ) is Busy
        }),
    decreases queue.len(),
{
    if queue.len() > 0 && route(
        config,
        backends,
        indices,
        text_of(queue[0].requested_model),
    ) is Busy {
        let rest = queue.drop_first();
        lemma_first_actionable(config, backends, indices, rest);
        let at = first_actionable(config, backends, indices, queue);
        assert forall|i: int| 0 <= i < at implies route(
            config,
            backends,
            indices,
            text_of((#[trigger] queue[i]).requested_model),
        ) is Busy by {
            if i > 0 {
                assert(queue[i] == rest[i - 1]);
            }
        }
    }
}

/// What is done with a user's request at `at` in line that has the given route.
pub open spec fn is_pick_at(
    pick: TaskPick,
    way: RouteView,
    backends: Seq<BackendStatus>,
    user: Seq<char>,
    at: int,
) -> bool {
    match way {
        RouteView::Unavailable(name) => pick matches TaskPick::Fail { queue_idx, model_name }
            && queue_idx == at && model_name@ == name,
        RouteView::Ready(served, free) => pick matches TaskPick::Dispatch {
            queue_idx,
            model,
            backend_idx,
        } && queue_idx == at && model@ == served && is_preferred(
            user,
            backends,
            free,
            backend_idx,
        ),
        RouteView::Busy => false,
    }
}

/// A request with this route is passed over: its model is busy, or no backend is named for it.
pub open spec fn is_passed_over(way: RouteView) -> bool {
    way is Busy || (way matches RouteView::Ready(_, free) && free.len() == 0)
}

/// The first request in line that is not passed over, as an index, where routes are taken from
/// the cache as far as it has them; their number without one.
pub open spec fn first_pick<R>(
    cache: Map<Option<Seq<char>>, RouteView>,
    config: ModelConfig,
    backends: Seq<BackendStatus>,
    indices: Seq<usize>,
    queue: Seq<Task<R>>,
) -> int
    decreases queue.len(),
{
    if queue.len() == 0 || !is_passed_over(
        cached_route(cache, config, backends, indices, text_of(queue[0].requested_model)),
    ) {
        0
    } else {
        1 + first_pick(cache, config, backends, indices, queue.drop_first())
    }
}

/// How many requests in line are looked at: all up to the one that is picked.
pub open spec fn looked_at<R>(
    cache: Map<Option<Seq<char>>, RouteView>,
    config: ModelConfig,
    backends: Seq<BackendStatus>,
    indices: Seq<usize>,
    queue: Seq<Task<R>>,
) -> int {
    let at = first_pick(cache, config, backends, indices, queue);
    if at < queue.len() {
        at + 1
    } else {
        queue.len() as int
    }
}

/// A current cache changes nothing: the routes are those that would be found now, so is the
/// request picked, and the cache stays current as routes are added.
pub proof fn law_a_current_cache_changes_nothing<R>(
    cache: Map<Option<Seq<char>>, RouteView>,
    config: ModelConfig,
    backends: Seq<BackendStatus>,
    indices: Seq<usize>,
    queue: Seq<Task<R>>,
)
    requires
        is_current(cache, config, backends, indices),
    ensures
        forall|requested: Option<Seq<char>>| #[trigger]
            cached_route(cache, config, backends, indices, requested) == route(
                config,
                backends,
                indices,
                requested,
            ),
        first_pick(cache, config, backends, indices, queue) == first_actionable(
            config,
            backends,
            indices,
            queue,
        ),
        forall|requests: Seq<Task<R>>|
            is_current(
                #[trigger] cache_after(cache, config, backends, indices, requests),
                config,
                backends,
                indices,
            ),
    decreases queue.len(),
{
    if queue.len() > 0 {
        law_a_current_cache_changes_nothing(cache, config, backends, indices, queue.drop_first());
    }
}

/// The first request in a user's line that can be acted on now, and what is done with it.
///
/// A request whose model is busy is passed over, so that a line behind one model does not hold
/// up requests for others. The line is always read from the front, so requests for one model
/// keep their order.
///
/// Routes are taken from `routes` as far as it has them. Those of the requests looked at that it
/// lacks are found and added; nothing that it has changes.
pub fn find_dispatchable_task<R>(
    config: &ModelConfig,
    backends: &Vec<BackendStatus>,
    online_indices: &Vec<usize>,
    queue: &VecDeque<Task<R>>,
    user_id: &str,
    routes: &mut RouteCache,
) -> (r: Option<TaskPick>)
    requires
        in_range(backends@, online_indices@),
        ({
            let at = first_pick(old(routes)@, *config, backends@, online_indices@, queue@);
            let requested = text_of(queue@[at].requested_model);
            at < queue@.len() && old(routes)@.contains_key(requested) ==> (
            old(routes)@[requested] matches RouteView::Ready(_, free) ==> free.len() > 1
                ==> in_range(backends@, free))
        }),
    ensures
        ({
            let at = first_pick(old(routes)@, *config, backends@, online_indices@, queue@);
            &&& r is Some == (at < queue@.len())
            &&& r is Some ==> is_pick_at(
                r->0,
                cached_route(
                    old(routes)@,
                    *config,
                    backends@,
                    online_indices@,
                    text_of(queue@[at].requested_model),
                ),
                backends@,
                user_id@,
                at,
            )
        }),
        final(routes)@ == cache_after(
            old(routes)@,
            *config,
            backends@,
            online_indices@,
            queue@.take(
                looked_at(old(routes)@, *config, backends@, online_indices@, queue@),
            ),
        ),
{
    let ghost cache = routes@;
    let mut i: usize = 0;
    proof {
        assert(queue@.skip(0) =~= queue@);
        assert(cache_after(cache, *config, backends@, online_indices@, queue@.take(0)) =~= cache);
    }
    while i < queue.len()
        invariant
            i <= queue@.len(),
            cache == old(routes)@,
            in_range(backends@, online_indices@),
            ({
                let at = first_pick(cache, *config, backends@, online_indices@, queue@);
                let requested = text_of(queue@[at].requested_model);
                at < queue@.len() && cache.contains_key(requested) ==> (
                cache[requested] matches RouteView::Ready(_, free) ==> free.len() > 1
                    ==> in_range(backends@, free))
            }),
            first_pick(cache, *config, backends@, online_indices@, queue@) == i + first_pick(
                cache,
                *config,
                backends@,
                online_indices@,
                queue@.skip(i as int),
            ),
            routes@ == cache_after(
                cache,
                *config,
                backends@,
                online_indices@,
                queue@.take(i as int),
            ),
        decreases queue@.len() - i,
    {
        let ghost requested = text_of(queue@[i as int].requested_model);
        let ghost here = cached_route(cache, *config, backends@, online_indices@, requested);
        proof {
            assert(queue@.skip(i as int)[0] == queue@[i as int]);
            lemma_cache_after_one_more(
                cache,
                *config,
                backends@,
                online_indices@,
                queue@,
                i as int,
            );
            lemma_ready_in_range(*config, backends@, online_indices@, requested);
        }
        let asked = &queue[i].requested_model;
        let at: usize = match routes.position(asked) {
            Some(at) => at,
            None => {
                let found = route_model(config, backends, online_indices, asked);
                routes.remember(asked.clone(), found);
                routes.entries.len() - 1
            },
        };
        assert(routes.entries@[at as int].1@ == here);
        assert(routes@ == cache_after(
            cache,
            *config,
            backends@,
            online_indices@,
            queue@.take(i + 1),
        ));
        match &routes.entries[at].1 {
            ModelRoute::Unavailable(name) => {
                return Some(TaskPick::Fail { queue_idx: i, model_name: name.clone() });
            },
            ModelRoute::Busy => {},
            ModelRoute::Ready { model, backend_indices } => {
                match preferred_backend(user_id, backends, backend_indices) {
                    Some(backend_idx) => {
                        return Some(
                            TaskPick::Dispatch { queue_idx: i, model: model.clone(), backend_idx },
                        );
                    },
                    None => {},
                }
            },
        }
        assert(queue@.skip(i as int).drop_first() =~= queue@.skip(i + 1));
        i = i + 1;
    }
    None
}

/// A route that is ready has backends, each of them among those to choose from, having the
/// model, and below the cap.
pub proof fn lemma_ready_in_range(
    config: ModelConfig,
    backends: Seq<BackendStatus>,
    indices: Seq<usize>,
    requested: Option<Seq<char>>,
)
    requires
        in_range(backends, indices),
    ensures
        route(config, backends, indices, requested) matches RouteView::Ready(model, free) ==> {
            &&& free.len() > 0
            &&& in_range(backends, free)
            &&& forall|i: int|
                0 <= i < free.len() ==> {
                    &&& indices.contains(#[trigger] free[i])
                    &&& backends[free[i] as int].serves(model)
                    &&& tally(backends[free[i] as int].active_models@, model)
                        < config.concurrency_cap(model)
                }
        },
{
    if route(config, backends, indices, requested) is Ready {
        let model = config.resolved(requested->0)->0;
        let cap = config.concurrency_cap(model);
        let has = |i: usize| backends[i as int].serves(model);
        let below = |i: usize| tally(backends[i as int].active_models@, model) < cap;
        let having = able(backends, indices, model);
        let free = below_cap(backends, having, model, cap);
        lemma_filter_in_range(backends, indices, has);
        lemma_filter_in_range(backends, having, below);
        assert forall|i: int| 0 <= i < free.len() implies {
            &&& indices.contains(#[trigger] free[i])
            &&& backends[free[i] as int].serves(model)
            &&& tally(backends[free[i] as int].active_models@, model) < cap
        } by {
            having.lemma_filter_pred(below, i);
            lemma_filter_is_part(having, below, i);
            let j = choose|j: int| 0 <= j < having.len() && having[j] == free[i];
            indices.lemma_filter_pred(has, j);
            lemma_filter_is_part(indices, has, j);
        }
    }
}

/// The cache keeps every route that it has as it is. Added are the routes of the requests looked
/// at, each under the model that the request asks for, as found now; and no others.
pub proof fn law_the_cache_only_grows<R>(
    cache: Map<Option<Seq<char>>, RouteView>,
    config: ModelConfig,
    backends: Seq<BackendStatus>,
    indices: Seq<usize>,
    requests: Seq<Task<R>>,
    key: Option<Seq<char>>,
)
    ensures
        ({
            let after = cache_after(cache, config, backends, indices, requests);
            &&& cache.contains_key(key) ==> after.contains_key(key) && after[key] == cache[key]
            &&& !cache.contains_key(key) && after.contains_key(key) ==> after[key] == route(
                config,
                backends,
                indices,
                key,
            )
            &&& !cache.contains_key(key) ==> (after.contains_key(key) <==> exists|j: int|
                0 <= j < requests.len() && text_of((#[trigger] requests[j]).requested_model)
                    == key)
        }),
{
}

/// The request picked is the first whose route is neither busy nor ready without a backend; all
/// ahead of it are, and all up to it were looked at. Where there is none, all were.
pub proof fn law_the_first_fitting_request_is_picked<R>(
    cache: Map<Option<Seq<char>>, RouteView>,
    config: ModelConfig,
    backends: Seq<BackendStatus>,
    indices: Seq<usize>,
    queue: Seq<Task<R>>,
)
    ensures
        ({
            let at = first_pick(cache, config, backends, indices, queue);
            let way = |task: Task<R>|
                {
                    let key = text_of(task.requested_model);
                    if cache.contains_key(key) {
                        cache[key]
                    } else {
                        route(config, backends, indices, key)
                    }
                };
            &&& 0 <= at <= queue.len()
            &&& forall|i: int|
                0 <= i < at ==> way(#[trigger] queue[i]) is Busy || (way(
                    queue[i],
                ) matches RouteView::Ready(_, free) && free.len() == 0)
            &&& at < queue.len() ==> !(way(queue[at]) is Busy) && !(way(
                queue[at],
            ) matches RouteView::Ready(_, free) && free.len() == 0)
            &&& looked_at(cache, config, backends, indices, queue) == if at < queue.len() {
                at + 1
            } else {
                queue.len() as int
            }
        }),
    decreases queue.len(),
{
    if queue.len() > 0 && is_passed_over(
        cached_route(cache, config, backends, indices, text_of(queue[0].requested_model)),
    ) {
        let rest = queue.drop_first();
        law_the_first_fitting_request_is_picked(cache, config, backends, indices, rest);
        let at = first_pick(cache, config, backends, indices, queue);
        assert forall|i: int| 0 <= i < at implies is_passed_over(
            cached_route(
                cache,
                config,
                backends,
                indices,
                text_of((#[trigger] queue[i]).requested_model),
            ),
        ) by {
            if i > 0 {
                assert(queue[i] == rest[i - 1]);
            }
        }
        if at < queue.len() {
            assert(queue[at] == rest[at - 1]);
        }
    }
}

} // verus!
