//! Rendezvous hashing: which backend a user is best served by.
//!
//! Each user gives each backend a weight, by a hash of the user's name and the backend's URL.
//! A user goes to the backend of the highest weight that can take the request, and so meets the
//! same one again, while users as a whole spread over all.

use std::collections::hash_map::DefaultHasher;
use std::hash::{Hash, Hasher};

use vstd::prelude::*;
use vstd::std_specs::hash::DefaultHasherAdditionalSpecFns;

use crate::backend::BackendStatus;

verus! {

/// What hashing a string writes to the hasher.
pub uninterp spec fn hashed_text(text: Seq<char>) -> Seq<Seq<u8>>;

/// `Hash::hash` of a `str`: writes to the hasher, and writes the same for the same characters.
#[verifier::external_body]
fn hash_text(text: &str, hasher: &mut DefaultHasher)
    ensures
        final(hasher)@ == old(hasher)@ + hashed_text(text@),
{
    text.hash(hasher);
}

/// The weight that `user` gives the backend at `url`.
pub open spec fn weight(user: Seq<char>, url: Seq<char>) -> u64 {
    DefaultHasher::spec_finish(hashed_text(user) + hashed_text(url))
}

/// The weight that a user gives a backend. It rests on the two names alone, so it outlasts
/// restarts, and backends coming and going.
pub fn rendezvous_weight(user_id: &str, backend_url: &str) -> (r: u64)
    ensures
        r == weight(user_id@, backend_url@),
{
    let mut hasher = DefaultHasher::new();
    hash_text(user_id, &mut hasher);
    hash_text(backend_url, &mut hasher);
    assert(hasher@ =~= hashed_text(user_id@) + hashed_text(backend_url@));
    hasher.finish()
}

/// For `user`, backend `a` ranks at or above backend `b`: by weight, then by place.
pub open spec fn ranks_at_or_above(
    user: Seq<char>,
    backends: Seq<BackendStatus>,
    a: usize,
    b: usize,
) -> bool {
    let wa = weight(user, backends[a as int].url@);
    let wb = weight(user, backends[b as int].url@);
    wa > wb || (wa == wb && a >= b)
}

/// `best` is the candidate that ranks highest for `user`.
pub open spec fn is_preferred(
    user: Seq<char>,
    backends: Seq<BackendStatus>,
    candidates: Seq<usize>,
    best: usize,
) -> bool {
    &&& candidates.contains(best)
    &&& forall|i: int|
        0 <= i < candidates.len() ==> ranks_at_or_above(
            user,
            backends,
            best,
            #[trigger] candidates[i],
        )
}

/// The candidate that ranks highest for a user; nothing without candidates.
pub fn preferred_backend(
    user_id: &str,
    backends: &Vec<BackendStatus>,
    candidates: &Vec<usize>,
) -> (r: Option<usize>)
    requires
        candidates@.len() > 1 ==> forall|i: int|
            0 <= i < candidates@.len() ==> (#[trigger] candidates@[i]) < backends@.len(),
    ensures
        r is None <==> candidates@.len() == 0,
        r is Some ==> is_preferred(user_id@, backends@, candidates@, r->0),
{
    if candidates.len() == 0 {
        return None;
    }
    let mut best: usize = candidates[0];
    if candidates.len() == 1 {
        return Some(best);
    }
    let mut best_weight = rendezvous_weight(user_id, backends[best].url.as_str());
    let mut i: usize = 1;
    while i < candidates.len()
        invariant
            1 <= i <= candidates@.len(),
            forall|j: int|
                0 <= j < candidates@.len() ==> (#[trigger] candidates@[j]) < backends@.len(),
            candidates@.contains(best),
            best < backends@.len(),
            best_weight == weight(user_id@, backends@[best as int].url@),
            forall|j: int|
                0 <= j < i ==> ranks_at_or_above(
                    user_id@,
                    backends@,
                    best,
                    #[trigger] candidates@[j],
                ),
        decreases candidates@.len() - i,
    {
        let other: usize = candidates[i];
        let other_weight = rendezvous_weight(user_id, backends[other].url.as_str());
        if other_weight > best_weight || (other_weight == best_weight && other >= best) {
            assert(candidates@[i as int] == other);
            best = other;
            best_weight = other_weight;
        }
        i = i + 1;
    }
    Some(best)
}

/// At most one candidate is the preferred one: a user always goes to the same backend, in
/// whatever order the candidates come.
pub proof fn law_preference_is_unique(
    user: Seq<char>,
    backends: Seq<BackendStatus>,
    some: Seq<usize>,
    same: Seq<usize>,
    a: usize,
    b: usize,
)
    requires
        some.to_set() == same.to_set(),
        is_preferred(user, backends, some, a),
        is_preferred(user, backends, same, b),
    ensures
        a == b,
{
    assert(some.to_set().contains(b));
    assert(same.to_set().contains(a));
    let i = choose|i: int| 0 <= i < some.len() && some[i] == b;
    let j = choose|j: int| 0 <= j < same.len() && same[j] == a;
    assert(ranks_at_or_above(user, backends, a, some[i]));
    assert(ranks_at_or_above(user, backends, b, same[j]));
}

/// A user whose preferred backend stays does not move when others go.
pub proof fn law_preference_survives_other_backends(
    user: Seq<char>,
    backends: Seq<BackendStatus>,
    all: Seq<usize>,
    fewer: Seq<usize>,
    best: usize,
)
    requires
        is_preferred(user, backends, all, best),
        forall|i: int| 0 <= i < fewer.len() ==> all.contains(#[trigger] fewer[i]),
        fewer.contains(best),
    ensures
        is_preferred(user, backends, fewer, best),
{
    assert forall|i: int| 0 <= i < fewer.len() implies ranks_at_or_above(
        user,
        backends,
        best,
        #[trigger] fewer[i],
    ) by {
        let j = choose|j: int| 0 <= j < all.len() && all[j] == fewer[i];
        assert(ranks_at_or_above(user, backends, best, all[j]));
    }
}

/// One of the candidates has this URL.
pub open spec fn has_url(
    backends: Seq<BackendStatus>,
    candidates: Seq<usize>,
    url: Seq<char>,
) -> bool {
    exists|i: int|
        0 <= i < candidates.len() && backends[(#[trigger] candidates[i]) as int].url@ == url
}

/// A user's preference follows URLs, whatever place in the list the backends are at: as backends
/// come and go, a user stays with the URL of the preferred one for as long as it is there and no
/// other comes in. URLs of equal weight alone could be taken for one another.
pub proof fn law_preference_follows_the_url(
    user: Seq<char>,
    before: Seq<BackendStatus>,
    candidates: Seq<usize>,
    best: usize,
    after: Seq<BackendStatus>,
    remaining: Seq<usize>,
    chosen: usize,
)
    requires
        is_preferred(user, before, candidates, best),
        is_preferred(user, after, remaining, chosen),
        has_url(after, remaining, before[best as int].url@),
        forall|url: Seq<char>| #[trigger]
            has_url(after, remaining, url) ==> has_url(before, candidates, url),
    ensures
        weight(user, after[chosen as int].url@) == weight(user, before[best as int].url@),
        (forall|url: Seq<char>|
            has_url(before, candidates, url) && #[trigger] weight(user, url) == weight(
                user,
                before[best as int].url@,
            ) ==> url == before[best as int].url@) ==> after[chosen as int].url@
            == before[best as int].url@,
{
    let k = choose|k: int| 0 <= k < remaining.len() && remaining[k] == chosen;
    let url = after[chosen as int].url@;
    assert(after[remaining[k] as int].url@ == url);
    assert(has_url(after, remaining, url));
    let i = choose|i: int|
        0 <= i < candidates.len() && before[(#[trigger] candidates[i]) as int].url@ == url;
    assert(ranks_at_or_above(user, before, best, candidates[i]));
    let j = choose|j: int|
        0 <= j < remaining.len() && after[(#[trigger] remaining[j]) as int].url@
            == before[best as int].url@;
    assert(ranks_at_or_above(user, after, chosen, remaining[j]));
}

/// The preferred backend is a candidate, weighs at least as much for the user as every other, and
/// of those that weigh as much it is the last in the list.
pub proof fn law_the_preferred_backend_weighs_most(
    user: Seq<char>,
    backends: Seq<BackendStatus>,
    candidates: Seq<usize>,
    best: usize,
    i: int,
)
    requires
        is_preferred(user, backends, candidates, best),
        0 <= i < candidates.len(),
    ensures
        exists|k: int| 0 <= k < candidates.len() && candidates[k] == best,
        weight(user, backends[best as int].url@) >= weight(
            user,
            backends[candidates[i] as int].url@,
        ),
        weight(user, backends[best as int].url@) == weight(
            user,
            backends[candidates[i] as int].url@,
        ) ==> candidates[i] <= best,
{
    assert(ranks_at_or_above(user, backends, best, candidates[i]));
}

} // verus!
