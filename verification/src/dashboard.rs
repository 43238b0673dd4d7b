//! What the dashboard is shown, and what it may command.

use std::collections::VecDeque;

use vstd::prelude::*;

use crate::backend::BackendStatus;
use crate::dispatch::{is_blocked, step, Action, Ending, Event, Phase};
use crate::models::ParsedModel;
use crate::names::{
    clone_texts, law_a_list_holds_its_strings, list_contains, lists, tally, NameMap,
};
use crate::protocol::{
    big_endian, bincode_bytes, bincode_pair, consumed_len, decode_command, is_framed,
    law_message_reads_back, BackendSnapshot, DashboardCmd, DashboardSnapshot, WireError,
    MAX_MESSAGE_LEN,
};
use crate::ranking::{names_of, sort_ranked, Ranked};
use crate::scheduler::texts;
use crate::sequences::{
    lemma_filter_is_part, lemma_filter_keeps_all, lemma_filter_take, lemma_ordered_once,
};
use crate::state::{AppState, Task};
use crate::text::{same_text, text_before, text_before_is_total};

verus! {

/// How many bytes are read from a dashboard at a time.
pub const CHUNK_SIZE: usize = 8192;

/// How many log lines a dashboard is shown.
pub const SHOWN_LOG_LINES: usize = 10;

/// The user's requests in line and with backends.
pub open spec fn present_load<R>(state: AppState<R>, user: Seq<char>) -> int {
    state.queues@[user]@.len() + tally(state.processing_counts@, user)
}

/// The user's requests that are over.
pub open spec fn past_load<R>(state: AppState<R>, user: Seq<char>) -> int {
    tally(state.processed_counts@, user) + tally(state.dropped_counts@, user)
}

/// `a` is shown above `b`: it has more requests on the way, or as many and more that are over,
/// or as many of both and an earlier name.
pub open spec fn shown_above<R>(state: AppState<R>, a: Seq<char>, b: Seq<char>) -> bool {
    ||| present_load(state, a) > present_load(state, b)
    ||| present_load(state, a) == present_load(state, b) && past_load(state, a) > past_load(
        state,
        b,
    )
    ||| present_load(state, a) == present_load(state, b) && past_load(state, a) == past_load(
        state,
        b,
    ) && text_before(a, b)
}

/// `users` are all users with a line, be it empty, in the order in which they are shown.
pub open spec fn is_shown_order<R>(state: AppState<R>, users: Seq<Seq<char>>) -> bool {
    &&& forall|u: Seq<char>| #[trigger] state.queues@.contains_key(u) <==> users.contains(u)
    &&& forall|i: int, j: int|
        0 <= i < j < users.len() ==> shown_above(state, #[trigger] users[i], #[trigger] users[j])
}

/// The name that a model is shown under: its public name, where it has one.
pub open spec fn shown_name(model: ParsedModel) -> String {
    match model.public_name {
        Some(name) => name,
        None => model.name,
    }
}

/// The names that models are shown under, by their own; of two models of one name, the later
/// counts.
pub open spec fn public_names(models: Seq<ParsedModel>) -> Map<Seq<char>, String>
    decreases models.len(),
{
    if models.len() == 0 {
        Map::empty()
    } else {
        public_names(models.drop_last()).insert(models.last().name@, shown_name(models.last()))
    }
}

/// The last `n` items, or all where there are fewer.
pub open spec fn last_of<A>(items: Seq<A>, n: int) -> Seq<A> {
    if items.len() <= n {
        items
    } else {
        items.skip(items.len() - n)
    }
}

/// `shot` shows the backend as it is.
pub open spec fn shows_backend(shot: BackendSnapshot, backend: BackendStatus) -> bool {
    &&& shot.url == backend.url
    &&& shot.active_requests == backend.active_requests
    &&& shot.processed_count == backend.processed_count
    &&& shot.is_online == backend.is_online
    &&& shot.active_models@ == backend.active_models@
    &&& shot.processed_models@ == backend.processed_models@
    &&& shot.configured_models@ == backend.configured_models@
    &&& shot.model_status@ == backend.model_status@
}

/// `shot` shows the state as it is.
pub open spec fn shows<R>(shot: DashboardSnapshot, state: AppState<R>) -> bool {
    &&& shot.queues_len@.dom() == state.queues@.dom()
    &&& forall|u: Seq<char>| #[trigger]
        shot.queues_len@.contains_key(u) ==> shot.queues_len@[u] == state.queues@[u]@.len()
    &&& shot.processing_counts@ == state.processing_counts@
    &&& shot.processed_counts@ == state.processed_counts@
    &&& shot.dropped_counts@ == state.dropped_counts@
    &&& shot.user_ips@ == state.user_ips@
    &&& shot.blocked_ips@ == state.blocked_ips@
    &&& shot.blocked_users@ == state.blocked_users@
    &&& shot.vip_list@ == state.vip_user@
    &&& is_shown_order(state, texts(shot.user_ids@))
    &&& shot.backends@.len() == state.backends@.len()
    &&& forall|i: int|
        0 <= i < shot.backends@.len() ==> shows_backend(
            #[trigger] shot.backends@[i],
            state.backends@[i],
        )
    &&& shot.model_public_names@ == public_names(state.model_config.models@)
    &&& shot.log_lines@ == last_of(state.log_lines@, SHOWN_LOG_LINES as int)
}

/// The order in which users are shown is settled: there is one for each state.
pub proof fn law_shown_order_is_unique<R>(
    state: AppState<R>,
    a: Seq<Seq<char>>,
    b: Seq<Seq<char>>,
)
    requires
        is_shown_order(state, a),
        is_shown_order(state, b),
    ensures
        a == b,
{
    let above = |x: Seq<char>, y: Seq<char>| shown_above(state, x, y);
    assert forall|x: Seq<char>, y: Seq<char>| #[trigger] above(x, y) implies !above(y, x) by {
        text_before_is_total(x, y);
    }
    assert forall|u: Seq<char>| #[trigger] a.contains(u) <==> b.contains(u) by {
        assert(state.queues@.contains_key(u) <==> a.contains(u));
    }
    assert forall|i: int, j: int| 0 <= i < j < a.len() implies above(
        #[trigger] a[i],
        #[trigger] a[j],
    ) by {}
    assert forall|i: int, j: int| 0 <= i < j < b.len() implies above(
        #[trigger] b[i],
        #[trigger] b[j],
    ) by {}
    lemma_ordered_once(a, b, above);
}

fn line_lengths<R>(queues: &NameMap<VecDeque<Task<R>>>) -> (r: NameMap<usize>)
    ensures
        r@.dom() == queues@.dom(),
        forall|u: Seq<char>| #[trigger] r@.contains_key(u) ==> r@[u] == queues@[u]@.len(),
{
    let names = queues.names();
    let mut r: NameMap<usize> = NameMap::new();
    let mut i: usize = 0;
    while i < names.len()
        invariant
            i <= names@.len(),
            forall|j: int| 0 <= j < names@.len() ==> queues@.contains_key((#[trigger] names@[j])@),
            forall|u: Seq<char>| #[trigger]
                r@.contains_key(u) ==> queues@.contains_key(u) && r@[u] == queues@[u]@.len(),
            forall|j: int| 0 <= j < i ==> r@.contains_key((#[trigger] names@[j])@),
        decreases names@.len() - i,
    {
        match queues.get(names[i].as_str()) {
            Some(queue) => {
                r.insert(names[i].clone(), queue.len());
            },
            None => {},
        }
        i = i + 1;
    }
    assert forall|u: Seq<char>| r@.dom().contains(u) <==> queues@.dom().contains(u) by {
        if queues@.contains_key(u) {
            let j = choose|j: int| 0 <= j < names@.len() && (#[trigger] names@[j])@ == u;
            assert(r@.contains_key(names@[j]@));
        }
        if r@.dom().contains(u) {
            assert(r@.contains_key(u));
        }
    }
    assert(r@.dom() =~= queues@.dom());
    r
}

/// Each of `names` with the two loads that its user is ordered by, the greater ones first.
fn rank_users<R>(state: &AppState<R>, names: &Vec<String>) -> (r: Vec<Ranked>)
    requires
        forall|i: int|
            0 <= i < names@.len() ==> state.queues@.contains_key((#[trigger] names@[i])@),
    ensures
        r@.len() == names@.len(),
        forall|i: int|
            0 <= i < r@.len() ==> {
                &&& (#[trigger] r@[i]).name == names@[i]
                &&& r@[i].major == -present_load(*state, names@[i]@)
                &&& r@[i].minor == -past_load(*state, names@[i]@)
            },
{
    let mut r: Vec<Ranked> = Vec::new();
    let mut i: usize = 0;
    while i < names.len()
        invariant
            i <= names@.len(),
            r@.len() == i,
            forall|j: int|
                0 <= j < names@.len() ==> state.queues@.contains_key((#[trigger] names@[j])@),
            forall|j: int|
                0 <= j < i ==> {
                    &&& (#[trigger] r@[j]).name == names@[j]
                    &&& r@[j].major == -present_load(*state, names@[j]@)
                    &&& r@[j].minor == -past_load(*state, names@[j]@)
                },
        decreases names@.len() - i,
    {
        let name = names[i].as_str();
        assert(state.queues@.contains_key(names@[i as int]@));
        let in_line: usize = match state.queues.get(name) {
            Some(queue) => queue.len(),
            None => 0,
        };
        let present: i128 = in_line as i128 + state.processing_counts.count(name) as i128;
        let past: i128 = state.processed_counts.count(name) as i128 + state.dropped_counts.count(
            name,
        ) as i128;
        r.push(Ranked { major: -present, minor: -past, name: names[i].clone() });
        i = i + 1;
    }
    r
}

/// All users with a line, in the order in which they are shown.
fn shown_users<R>(state: &AppState<R>) -> (r: Vec<String>)
    ensures
        is_shown_order(*state, texts(r@)),
{
    let names = state.queues.names();
    let ranked = rank_users(state, &names);
    let ghost unsorted = ranked@;
    let sorted = sort_ranked(ranked);
    let r = names_of(&sorted);
    proof {
        let users = texts(r@);
        assert forall|i: int| 0 <= i < sorted@.len() implies {
            &&& (#[trigger] sorted@[i]).major == -present_load(*state, users[i])
            &&& sorted@[i].minor == -past_load(*state, users[i])
            &&& state.queues@.contains_key(users[i])
            &&& sorted@[i].name@ == users[i]
        } by {
            assert(sorted@.contains(sorted@[i]));
            let k = choose|k: int| 0 <= k < unsorted.len() && unsorted[k] == sorted@[i];
            assert(unsorted[k].name == names@[k]);
        }
        assert forall|u: Seq<char>| #[trigger]
            state.queues@.contains_key(u) <==> users.contains(u) by {
            if state.queues@.contains_key(u) {
                let k = choose|k: int| 0 <= k < names@.len() && (#[trigger] names@[k])@ == u;
                assert(unsorted.contains(unsorted[k]) && sorted@.contains(unsorted[k]));
                let i = choose|i: int| 0 <= i < sorted@.len() && sorted@[i] == unsorted[k];
                assert(users[i] == u);
            }
            if users.contains(u) {
                let i = choose|i: int| 0 <= i < users.len() && users[i] == u;
                assert(sorted@[i].name@ == u);
            }
        }
        assert forall|i: int, j: int| 0 <= i < j < users.len() implies shown_above(
            *state,
            #[trigger] users[i],
            #[trigger] users[j],
        ) by {
            assert(sorted@[i].before(sorted@[j]));
        }
    }
    r
}

fn name_models(models: &Vec<ParsedModel>) -> (r: NameMap<String>)
    ensures
        r@ == public_names(models@),
{
    let mut r: NameMap<String> = NameMap::new();
    let mut i: usize = 0;
    while i < models.len()
        invariant
            i <= models@.len(),
            r@ == public_names(models@.take(i as int)),
        decreases models@.len() - i,
    {
        let model = &models[i];
        let shown = match &model.public_name {
            Some(name) => name.clone(),
            None => model.name.clone(),
        };
        proof {
            assert(models@.take(i + 1).drop_last() =~= models@.take(i as int));
            assert(models@.take(i + 1).last() == *model);
        }
        r.insert(model.name.clone(), shown);
        i = i + 1;
    }
    assert(models@.take(models@.len() as int) =~= models@);
    r
}

fn last_lines(lines: &Vec<(String, i64, String)>, n: usize) -> (r: Vec<(String, i64, String)>)
    ensures
        r@ == last_of(lines@, n as int),
{
    let mut r: Vec<(String, i64, String)> = Vec::new();
    let start: usize = if lines.len() <= n {
        0
    } else {
        lines.len() - n
    };
    let mut i: usize = start;
    while i < lines.len()
        invariant
            start <= i <= lines@.len(),
            r@ == lines@.subrange(start as int, i as int),
        decreases lines@.len() - i,
    {
        let line = &lines[i];
        r.push((line.0.clone(), line.1, line.2.clone()));
        i = i + 1;
        assert(lines@.subrange(start as int, i as int) =~= lines@.subrange(
            start as int,
            i - 1,
        ).push(lines@[i - 1]));
    }
    assert(r@ =~= last_of(lines@, n as int));
    r
}

fn snapshot_of(backend: &BackendStatus) -> (r: BackendSnapshot)
    ensures
        shows_backend(r, *backend),
{
    let r = BackendSnapshot {
        url: backend.url.clone(),
        active_requests: backend.active_requests,
        processed_count: backend.processed_count,
        is_online: backend.is_online,
        active_models: backend.active_models.duplicate(),
        processed_models: backend.processed_models.duplicate(),
        configured_models: clone_texts(&backend.configured_models),
        model_status: backend.model_status.duplicate(),
    };
    proof {
        assert(r.active_models@ =~= backend.active_models@);
        assert(r.processed_models@ =~= backend.processed_models@);
        assert(r.model_status@ =~= backend.model_status@);
    }
    r
}

/// The state, as the dashboard is shown it.
pub fn capture_snapshot<R>(state: &AppState<R>) -> (r: DashboardSnapshot)
    ensures
        shows(r, *state),
{
    let mut backends: Vec<BackendSnapshot> = Vec::new();
    let mut i: usize = 0;
    while i < state.backends.len()
        invariant
            i <= state.backends@.len(),
            backends@.len() == i,
            forall|j: int|
                0 <= j < i ==> shows_backend(#[trigger] backends@[j], state.backends@[j]),
        decreases state.backends@.len() - i,
    {
        backends.push(snapshot_of(&state.backends[i]));
        i = i + 1;
    }
    let r = DashboardSnapshot {
        queues_len: line_lengths(&state.queues),
        processing_counts: state.processing_counts.duplicate(),
        processed_counts: state.processed_counts.duplicate(),
        dropped_counts: state.dropped_counts.duplicate(),
        user_ips: state.user_ips.duplicate(),
        blocked_ips: state.blocked_ips.duplicate(),
        blocked_users: state.blocked_users.duplicate(),
        vip_list: clone_texts(&state.vip_user),
        user_ids: shown_users(state),
        backends,
        model_public_names: name_models(&state.model_config.models),
        log_lines: last_lines(&state.log_lines, SHOWN_LOG_LINES),
    };
    proof {
        assert(r.processing_counts@ =~= state.processing_counts@);
        assert(r.processed_counts@ =~= state.processed_counts@);
        assert(r.dropped_counts@ =~= state.dropped_counts@);
        assert(r.user_ips@ =~= state.user_ips@);
    }
    r
}

/// `vips` after a change of `user`'s rank: without the user, or with the user at the end.
pub open spec fn toggled(vips: Seq<String>, user: String) -> Seq<String> {
    if lists(vips, user@) {
        vips.filter(|vip: String| vip@ != user@)
    } else {
        vips.push(user)
    }
}

/// What a command changes. `address` is the IP address that it is about, in its usual form;
/// nothing where it is about none.
pub open spec fn was_applied<R>(
    before: AppState<R>,
    after: AppState<R>,
    cmd: DashboardCmd,
    address: Option<String>,
) -> bool {
    &&& after.queues == before.queues
    &&& after.processing_counts == before.processing_counts
    &&& after.processed_counts == before.processed_counts
    &&& after.dropped_counts == before.dropped_counts
    &&& after.user_ips == before.user_ips
    &&& after.global_counter == before.global_counter
    &&& after.backends == before.backends
    &&& after.model_config == before.model_config
    &&& after.cached_tags == before.cached_tags
    &&& after.log_lines == before.log_lines
    &&& after.ip_header == before.ip_header
    &&& after.vip_user@ == match cmd {
        DashboardCmd::ToggleVip(user) => toggled(before.vip_user@, user),
        _ => before.vip_user@,
    }
    &&& after.blocked_users@ == match cmd {
        DashboardCmd::BlockUser(user) => before.blocked_users@.insert(user@),
        DashboardCmd::UnblockUser(user) => before.blocked_users@.remove(user@),
        _ => before.blocked_users@,
    }
    &&& after.blocked_ips@ == match (cmd, address) {
        (DashboardCmd::BlockIp(_), Some(ip)) => before.blocked_ips@.insert(ip@),
        (DashboardCmd::UnblockIp(_), Some(ip)) => before.blocked_ips@.remove(ip@),
        _ => before.blocked_ips@,
    }
}

fn without(vips: &Vec<String>, user: &str) -> (r: Vec<String>)
    ensures
        r@ == vips@.filter(|vip: String| vip@ != user@),
{
    let ghost keep = |vip: String| vip@ != user@;
    let mut r: Vec<String> = Vec::new();
    let mut i: usize = 0;
    proof {
        reveal(Seq::filter);
        assert(vips@.take(0).filter(keep) =~= Seq::<String>::empty());
    }
    while i < vips.len()
        invariant
            i <= vips@.len(),
            keep == (|vip: String| vip@ != user@),
            r@ == vips@.take(i as int).filter(keep),
        decreases vips@.len() - i,
    {
        proof {
            lemma_filter_take(vips@, keep, i as int);
        }
        if !same_text(vips[i].as_str(), user) {
            r.push(vips[i].clone());
        }
        i = i + 1;
    }
    assert(vips@.take(vips@.len() as int) =~= vips@);
    r
}

/// Does what the dashboard commands. `address` is the IP address that the command is about, in
/// its usual form; without one, nothing is blocked or unblocked.
pub fn apply_cmd<R>(state: &mut AppState<R>, cmd: DashboardCmd, address: Option<String>)
    ensures
        was_applied(*old(state), *final(state), cmd, address),
{
    match cmd {
        DashboardCmd::ToggleVip(user_id) => {
            if list_contains(&state.vip_user, user_id.as_str()) {
                state.vip_user = without(&state.vip_user, user_id.as_str());
            } else {
                state.vip_user.push(user_id);
            }
        },
        DashboardCmd::BlockUser(user_id) => {
            let _ = state.blocked_users.insert(user_id);
        },
        DashboardCmd::UnblockUser(user_id) => {
            let _ = state.blocked_users.remove(user_id.as_str());
        },
        DashboardCmd::BlockIp(_) => match address {
            Some(ip) => {
                let _ = state.blocked_ips.insert(ip);
            },
            None => {},
        },
        DashboardCmd::UnblockIp(_) => match address {
            Some(ip) => {
                let _ = state.blocked_ips.remove(ip.as_str());
            },
            None => {},
        },
    }
}

/// Toggling makes a user a VIP who was none, and none who was one; the others stay what they
/// are.
pub proof fn law_toggle_changes_one_rank(vips: Seq<String>, user: String)
    ensures
        lists(toggled(vips, user), user@) == !lists(vips, user@),
        forall|other: Seq<char>|
            other != user@ ==> #[trigger] lists(toggled(vips, user), other) == lists(vips, other),
{
    let keep = |vip: String| vip@ != user@;
    let after = toggled(vips, user);
    if lists(vips, user@) {
        assert forall|i: int| 0 <= i < after.len() implies (#[trigger] after[i])@ != user@
            && vips.contains(after[i]) by {
            vips.lemma_filter_pred(keep, i);
            lemma_filter_is_part(vips, keep, i);
        }
        assert forall|other: Seq<char>| other != user@ implies #[trigger] lists(after, other)
            == lists(vips, other) by {
            if lists(after, other) {
                let i = choose|i: int| 0 <= i < after.len() && (#[trigger] after[i])@ == other;
                let j = choose|j: int| 0 <= j < vips.len() && vips[j] == after[i];
                assert(vips[j]@ == other);
            }
            if lists(vips, other) {
                let j = choose|j: int| 0 <= j < vips.len() && (#[trigger] vips[j])@ == other;
                vips.lemma_filter_contains(keep, j);
                let i = choose|i: int| 0 <= i < after.len() && after[i] == vips[j];
                assert(after[i]@ == other);
            }
        }
    } else {
        assert(after[vips.len() as int]@ == user@);
        assert forall|other: Seq<char>| other != user@ implies #[trigger] lists(after, other)
            == lists(vips, other) by {
            if lists(vips, other) {
                let j = choose|j: int| 0 <= j < vips.len() && (#[trigger] vips[j])@ == other;
                assert(after[j]@ == other);
            }
            if lists(after, other) {
                let i = choose|i: int| 0 <= i < after.len() && (#[trigger] after[i])@ == other;
                assert(vips[i]@ == other);
            }
        }
    }
}

/// Toggling twice gives a user who was no VIP that rank and takes it back: the list is as before.
pub proof fn law_toggle_twice_gives_back(vips: Seq<String>, user: String)
    requires
        !lists(vips, user@),
    ensures
        toggled(toggled(vips, user), user) == vips,
{
    let keep = |vip: String| vip@ != user@;
    let with = vips.push(user);
    assert(with[vips.len() as int]@ == user@);
    assert(lists(with, user@));
    reveal(Seq::filter);
    assert(with.drop_last() =~= vips);
    assert forall|i: int| 0 <= i < vips.len() implies keep(#[trigger] vips[i]) by {}
    lemma_filter_keeps_all(vips, keep);
}

/// A block takes hold of requests already in line: once a user, or the address that a user was
/// last seen at, is blocked, none of the user's requests gets to a backend.
pub proof fn law_a_block_takes_hold_at_once<R>(
    before: AppState<R>,
    after: AppState<R>,
    cmd: DashboardCmd,
    address: Option<String>,
    user: Seq<char>,
)
    requires
        was_applied(before, after, cmd, address),
        ({
            ||| cmd matches DashboardCmd::BlockUser(name) && name@ == user
            ||| cmd is BlockIp && address is Some && before.user_ips@.contains_key(user)
                && before.user_ips@[user]@ == address->0@
        }),
    ensures
        is_blocked(after, user),
        after.blocked_users@.contains(user) || (after.user_ips@.contains_key(user)
            && after.blocked_ips@.contains(after.user_ips@[user]@)),
        step(
            is_blocked(after, user),
            Phase::Selected,
            Event::Taken { client_gone: false },
        ).1 == Action::Finish(Ending::Refused),
{
}

/// Unblocking takes back a block, where there was none before.
pub proof fn law_unblock_takes_back_a_block<R>(
    before: AppState<R>,
    during: AppState<R>,
    after: AppState<R>,
    user: String,
    ip: String,
    address: Option<String>,
)
    ensures
        was_applied(before, during, DashboardCmd::BlockUser(user), address) && was_applied(
            during,
            after,
            DashboardCmd::UnblockUser(user),
            address,
        ) && !before.blocked_users@.contains(user@) ==> after.blocked_users@
            == before.blocked_users@,
        was_applied(before, during, DashboardCmd::BlockIp(ip), address) && was_applied(
            during,
            after,
            DashboardCmd::UnblockIp(ip),
            address,
        ) && (address is Some ==> !before.blocked_ips@.contains(address->0@))
            ==> after.blocked_ips@ == before.blocked_ips@,
{
    assert(!before.blocked_users@.contains(user@) ==> before.blocked_users@.insert(user@).remove(
        user@,
    ) =~= before.blocked_users@);
    if address is Some {
        let a = address->0@;
        assert(!before.blocked_ips@.contains(a) ==> before.blocked_ips@.insert(a).remove(a)
            =~= before.blocked_ips@);
    }
}

/// What is found in the bytes from a dashboard.
pub struct Stream {
    /// The commands in whole messages, as numbers and subjects.
    pub commands: Seq<(u32, Seq<char>)>,
    /// The bytes behind them.
    pub rest: Seq<u8>,
    /// These announce a message that is too long.
    pub refused: bool,
}

/// The command in a message's body; nothing where it holds none.
pub open spec fn command_in(body: Seq<u8>) -> Seq<(u32, Seq<char>)> {
    match bincode_pair(body) {
        Ok((tag, subject)) => if tag < 5 {
            seq![(tag, subject)]
        } else {
            Seq::empty()
        },
        Err(_) => Seq::empty(),
    }
}

/// What is found in bytes from a dashboard: message after message, as long as they are whole.
pub open spec fn read_stream(bytes: Seq<u8>) -> Stream
    decreases bytes.len(),
{
    if bytes.len() < 4 {
        Stream { commands: Seq::empty(), rest: bytes, refused: false }
    } else if big_endian(bytes) > MAX_MESSAGE_LEN {
        Stream { commands: Seq::empty(), rest: bytes, refused: true }
    } else if bytes.len() < 4 + big_endian(bytes) {
        Stream { commands: Seq::empty(), rest: bytes, refused: false }
    } else {
        let end = 4 + big_endian(bytes);
        let later = read_stream(bytes.skip(end));
        Stream { commands: command_in(bytes.subrange(4, end)) + later.commands, ..later }
    }
}

/// The commands' numbers and subjects.
pub open spec fn commands_view(commands: Seq<DashboardCmd>) -> Seq<(u32, Seq<char>)> {
    commands.map_values(|c: DashboardCmd| (c.tag(), c.subject()))
}

/// The bodies of the whole messages in bytes from a dashboard, one after the other.
pub open spec fn bodies_in(bytes: Seq<u8>) -> Seq<Seq<u8>>
    decreases bytes.len(),
{
    if bytes.len() < 4 || big_endian(bytes) > MAX_MESSAGE_LEN || bytes.len() < 4 + big_endian(
        bytes,
    ) {
        Seq::empty()
    } else {
        let end = 4 + big_endian(bytes);
        seq![bytes.subrange(4, end)] + bodies_in(bytes.skip(end))
    }
}

/// Where a body is what was written for a command, that command is read from it.
pub open spec fn reads_back(body: Seq<u8>) -> bool {
    forall|command: DashboardCmd|
        body == #[trigger] bincode_bytes(command.tag(), command.subject()) ==> command_in(body)
            == seq![(command.tag(), command.subject())]
}

/// Takes in bytes from a dashboard, and hands out the commands that are whole; what follows them
/// waits in `buffer`. A message without a command in it is passed over. One that is announced as
/// too long is refused: the dashboard is then to be cut off.
///
/// Every message that was written for a command reads back as that command. One that comes first
/// gives the first command handed out.
pub fn receive(buffer: &mut Vec<u8>, chunk: &[u8]) -> (r: (Vec<DashboardCmd>, Option<WireError>))
    ensures
        ({
            let found = read_stream(old(buffer)@ + chunk@);
            &&& commands_view(r.0@) == found.commands
            &&& final(buffer)@ == found.rest
            &&& r.1 == if found.refused {
                Some(WireError::AnnouncedTooLong(big_endian(found.rest) as usize))
            } else {
                None
            }
        }),
        forall|i: int|
            0 <= i < bodies_in(old(buffer)@ + chunk@).len() ==> reads_back(
                #[trigger] bodies_in(old(buffer)@ + chunk@)[i],
            ),
        forall|command: DashboardCmd|
            bodies_in(old(buffer)@ + chunk@).len() > 0 && bodies_in(old(buffer)@ + chunk@)[0]
                == #[trigger] bincode_bytes(command.tag(), command.subject()) ==> {
                &&& r.0@.len() > 0
                &&& r.0@[0].tag() == command.tag()
                &&& r.0@[0].subject() == command.subject()
            },
{
    buffer.extend_from_slice(chunk);
    let ghost all = old(buffer)@ + chunk@;
    assert(buffer@ =~= all);
    let mut commands: Vec<DashboardCmd> = Vec::new();
    let ghost mut done: Seq<Seq<u8>> = Seq::empty();
    assert(commands_view(commands@) + read_stream(buffer@).commands =~= read_stream(all).commands);
    assert(done + bodies_in(buffer@) =~= bodies_in(all));
    while buffer.len() >= 4
        invariant
            commands_view(commands@) + read_stream(buffer@).commands == read_stream(all).commands,
            read_stream(buffer@).rest == read_stream(all).rest,
            read_stream(buffer@).refused == read_stream(all).refused,
            all == old(buffer)@ + chunk@,
            done + bodies_in(buffer@) == bodies_in(all),
            forall|i: int| 0 <= i < done.len() ==> reads_back(#[trigger] done[i]),
        decreases buffer@.len(),
    {
        let ghost before = buffer@;
        match consumed_len(buffer.as_slice()) {
            Ok(Some(consumed)) => {
                let rest = buffer.split_off(consumed);
                let ghost taken = commands_view(commands@);
                proof {
                    assert(rest@ =~= before.skip(consumed as int));
                    assert(buffer@.subrange(4, consumed as int) =~= before.subrange(
                        4,
                        consumed as int,
                    ));
                }
                match decode_command(buffer.as_slice()) {
                    Ok(Some(command)) => {
                        commands.push(command);
                        assert(commands_view(commands@) =~= taken + command_in(
                            before.subrange(4, consumed as int),
                        ));
                    },
                    Ok(None) => {},
                    Err(_) => {
                        assert(commands_view(commands@) =~= taken + command_in(
                            before.subrange(4, consumed as int),
                        ));
                    },
                }
                proof {
                    let body = before.subrange(4, consumed as int);
                    assert forall|command: DashboardCmd|
                        body == #[trigger] bincode_bytes(
                            command.tag(),
                            command.subject(),
                        ) implies command_in(body) == seq![
                        (command.tag(), command.subject()),
                    ] by {}
                    assert(done.push(body) + bodies_in(rest@) =~= done + bodies_in(before));
                    done = done.push(body);
                }
                *buffer = rest;
                assert(commands_view(commands@) + read_stream(buffer@).commands =~= taken
                    + read_stream(before).commands);
            },
            Ok(None) => {
                assert(commands_view(commands@) =~= read_stream(all).commands);
                proof {
                    assert(done =~= bodies_in(all));
                    lemma_first_command(all, commands@);
                }
                return (commands, None);
            },
            Err(e) => {
                assert(commands_view(commands@) =~= read_stream(all).commands);
                proof {
                    assert(done =~= bodies_in(all));
                    lemma_first_command(all, commands@);
                }
                return (commands, Some(e));
            },
        }
    }
    assert(commands_view(commands@) =~= read_stream(all).commands);
    proof {
        assert(done =~= bodies_in(all));
        lemma_first_command(all, commands@);
    }
    (commands, None)
}

proof fn lemma_first_command(bytes: Seq<u8>, commands: Seq<DashboardCmd>)
    requires
        commands_view(commands) == read_stream(bytes).commands,
        forall|i: int|
            0 <= i < bodies_in(bytes).len() ==> reads_back(#[trigger] bodies_in(bytes)[i]),
    ensures
        forall|command: DashboardCmd|
            bodies_in(bytes).len() > 0 && bodies_in(bytes)[0] == #[trigger] bincode_bytes(
                command.tag(),
                command.subject(),
            ) ==> {
                &&& commands.len() > 0
                &&& commands[0].tag() == command.tag()
                &&& commands[0].subject() == command.subject()
            },
{
    assert forall|command: DashboardCmd|
        bodies_in(bytes).len() > 0 && bodies_in(bytes)[0] == #[trigger] bincode_bytes(
            command.tag(),
            command.subject(),
        ) implies {
        &&& commands.len() > 0
        &&& commands[0].tag() == command.tag()
        &&& commands[0].subject() == command.subject()
    } by {
        let body = bodies_in(bytes)[0];
        assert(reads_back(body));
        assert(command_in(body) == seq![(command.tag(), command.subject())]);
        assert(read_stream(bytes).commands == command_in(body) + read_stream(
            bytes.skip(4 + big_endian(bytes)),
        ).commands);
        assert(commands_view(commands)[0] == (command.tag(), command.subject()));
        assert(commands_view(commands).len() == commands.len());
    }
}

/// The bytes that wait for more stay fewer than the longest message has, however many come in.
pub proof fn law_the_buffer_stays_bounded(bytes: Seq<u8>)
    ensures
        !read_stream(bytes).refused ==> read_stream(bytes).rest.len() < 4 + MAX_MESSAGE_LEN,
    decreases bytes.len(),
{
    if bytes.len() >= 4 && big_endian(bytes) <= MAX_MESSAGE_LEN && bytes.len() >= 4 + big_endian(
        bytes,
    ) {
        law_the_buffer_stays_bounded(bytes.skip(4 + big_endian(bytes)));
    }
}

/// The commands found are those in the messages' bodies, in their order, and no others.
pub proof fn law_commands_come_from_the_bodies(bytes: Seq<u8>)
    ensures
        read_stream(bytes).commands == bodies_in(bytes).map_values(
            |body: Seq<u8>| command_in(body),
        ).flatten(),
    decreases bytes.len(),
{
    let found = |body: Seq<u8>| command_in(body);
    let bodies = bodies_in(bytes);
    if bodies.len() > 0 {
        let end = 4 + big_endian(bytes);
        law_commands_come_from_the_bodies(bytes.skip(end));
        assert(bodies.drop_first() =~= bodies_in(bytes.skip(end)));
        assert(bodies.map_values(found).drop_first() =~= bodies.drop_first().map_values(found));
    }
}

/// A message is read before what follows it, and hides nothing of that.
pub proof fn law_messages_are_read_in_order(message: Seq<u8>, body: Seq<u8>, rest: Seq<u8>)
    requires
        is_framed(message, body),
        body.len() <= MAX_MESSAGE_LEN,
    ensures
        read_stream(message + rest) == (Stream {
            commands: command_in(body) + read_stream(rest).commands,
            ..read_stream(rest)
        }),
{
    law_message_reads_back(message, body, rest);
}

/// Where the bytes are cut as they come in does not matter: what is found is the same.
pub proof fn law_cuts_do_not_matter(first: Seq<u8>, second: Seq<u8>)
    requires
        !read_stream(first).refused,
    ensures
        ({
            let begun = read_stream(first);
            let ended = read_stream(begun.rest + second);
            read_stream(first + second) == (Stream {
                commands: begun.commands + ended.commands,
                ..ended
            })
        }),
    decreases first.len(),
{
    if first.len() >= 4 && big_endian(first) <= MAX_MESSAGE_LEN && first.len() >= 4 + big_endian(
        first,
    ) {
        let end = 4 + big_endian(first);
        let all = first + second;
        let later = first.skip(end);
        law_cuts_do_not_matter(later, second);
        assert(all.subrange(4, end) =~= first.subrange(4, end));
        assert(all.skip(end) =~= later + second);
        let begun = read_stream(first);
        let ended = read_stream(begun.rest + second);
        assert(begun.commands + ended.commands =~= command_in(first.subrange(4, end)) + (
        read_stream(later).commands + ended.commands));
    } else {
        let begun = read_stream(first);
        let ended = read_stream(begun.rest + second);
        assert(begun.commands + ended.commands =~= ended.commands);
    }
}

/// The users with more requests on the way, in line or with backends, are shown above the others;
/// with as many, those with more that are over, processed or dropped; with as many of both, those
/// whose name is earlier. Every user with a line is shown, and nobody else.
pub proof fn law_the_busiest_are_shown_first<R>(
    state: AppState<R>,
    users: Seq<Seq<char>>,
    i: int,
    j: int,
)
    requires
        is_shown_order(state, users),
        0 <= i < users.len(),
        0 <= j < users.len(),
    ensures
        ({
            let held = |counts: Map<Seq<char>, usize>, name: Seq<char>|
                {
                    if counts.contains_key(name) {
                        counts[name] as int
                    } else {
                        0
                    }
                };
            let present = |u: Seq<char>|
                state.queues@[u]@.len() + held(state.processing_counts@, u);
            let past = |u: Seq<char>|
                held(state.processed_counts@, u) + held(state.dropped_counts@, u);
            let a = users[i];
            let b = users[j];
            &&& present(a) > present(b) ==> i < j
            &&& present(a) == present(b) && past(a) > past(b) ==> i < j
            &&& present(a) == present(b) && past(a) == past(b) && text_before(a, b) ==> i < j
        }),
        forall|u: Seq<char>| #[trigger] users.contains(u) <==> state.queues@.contains_key(u),
{
    text_before_is_total(users[i], users[j]);
    if j < i {
        assert(shown_above(state, users[j], users[i]));
    }
    assert forall|u: Seq<char>| #[trigger] users.contains(u) <==> state.queues@.contains_key(
        u,
    ) by {
        assert(state.queues@.contains_key(u) <==> users.contains(u));
    }
}

/// A model is shown under its public name, where it has one, else under its own; of several
/// models of one name, the last counts, and names of no model are not shown.
pub proof fn law_models_are_shown_under_their_public_names(models: Seq<ParsedModel>, at: int)
    requires
        0 <= at < models.len(),
        forall|j: int| at < j < models.len() ==> (#[trigger] models[j]).name@ != models[at].name@,
    ensures
        public_names(models).contains_key(models[at].name@),
        models[at].public_name matches Some(name) ==> public_names(models)[models[at].name@]
            == name,
        models[at].public_name is None ==> public_names(models)[models[at].name@]
            == models[at].name,
        forall|name: Seq<char>| #[trigger]
            public_names(models).contains_key(name) ==> exists|j: int|
                0 <= j < models.len() && (#[trigger] models[j]).name@ == name,
    decreases models.len(),
{
    lemma_shown_are_models(models);
    if at < models.len() - 1 {
        let fewer = models.drop_last();
        assert forall|j: int| at < j < fewer.len() implies (#[trigger] fewer[j]).name@
            != fewer[at].name@ by {
            assert(fewer[j] == models[j]);
        }
        law_models_are_shown_under_their_public_names(fewer, at);
        assert(models[models.len() - 1].name@ != models[at].name@);
    }
}

proof fn lemma_shown_are_models(models: Seq<ParsedModel>)
    ensures
        forall|name: Seq<char>| #[trigger]
            public_names(models).contains_key(name) ==> exists|j: int|
                0 <= j < models.len() && (#[trigger] models[j]).name@ == name,
    decreases models.len(),
{
    if models.len() > 0 {
        let fewer = models.drop_last();
        lemma_shown_are_models(fewer);
        assert forall|name: Seq<char>| #[trigger] public_names(models).contains_key(
            name,
        ) implies exists|j: int| 0 <= j < models.len() && (#[trigger] models[j]).name@ == name by {
            if name == models.last().name@ {
                assert(models[models.len() - 1].name@ == name);
            } else {
                assert(public_names(fewer).contains_key(name));
                let j = choose|j: int|
                    0 <= j < fewer.len() && (#[trigger] fewer[j]).name@ == name;
                assert(models[j].name@ == name);
            }
        }
    }
}

/// A snapshot is the state, part by part: lines by their length, and of the log the latest ten
/// lines, in their order.
pub proof fn law_a_snapshot_is_the_state<R>(shot: DashboardSnapshot, state: AppState<R>)
    requires
        shows(shot, state),
    ensures
        forall|u: Seq<char>|
            (#[trigger] shot.queues_len@.contains_key(u)) == state.queues@.contains_key(u),
        forall|u: Seq<char>| #[trigger]
            shot.queues_len@.contains_key(u) ==> shot.queues_len@[u] == state.queues@[u]@.len(),
        shot.processing_counts@ == state.processing_counts@,
        shot.processed_counts@ == state.processed_counts@,
        shot.dropped_counts@ == state.dropped_counts@,
        shot.user_ips@ == state.user_ips@,
        shot.blocked_ips@ == state.blocked_ips@,
        shot.blocked_users@ == state.blocked_users@,
        shot.vip_list@ == state.vip_user@,
        shot.backends@.len() == state.backends@.len(),
        forall|i: int|
            0 <= i < state.backends@.len() ==> {
                let b = state.backends@[i];
                let s = #[trigger] shot.backends@[i];
                &&& s.url == b.url
                &&& s.active_requests == b.active_requests
                &&& s.processed_count == b.processed_count
                &&& s.is_online == b.is_online
                &&& s.active_models@ == b.active_models@
                &&& s.processed_models@ == b.processed_models@
                &&& s.configured_models@ == b.configured_models@
                &&& s.model_status@ == b.model_status@
            },
        state.log_lines@.len() <= 10 ==> shot.log_lines@ == state.log_lines@,
        state.log_lines@.len() > 10 ==> shot.log_lines@.len() == 10 && state.log_lines@
            == state.log_lines@.take(state.log_lines@.len() - 10) + shot.log_lines@,
{
    if state.log_lines@.len() > 10 {
        let n = state.log_lines@.len() - 10;
        assert(state.log_lines@ =~= state.log_lines@.take(n) + state.log_lines@.skip(n));
    }
    assert forall|u: Seq<char>|
        (#[trigger] shot.queues_len@.contains_key(u)) == state.queues@.contains_key(u) by {
        assert(shot.queues_len@.dom().contains(u) == state.queues@.dom().contains(u));
    }
    assert forall|i: int| 0 <= i < state.backends@.len() implies shows_backend(
        #[trigger] shot.backends@[i],
        state.backends@[i],
    ) by {}
}

/// A command changes what it names, and nothing else: one user's rank, one user's block, or one
/// address's block, and the last only where it is about an address.
pub proof fn law_a_command_changes_what_it_names<R>(
    before: AppState<R>,
    after: AppState<R>,
    cmd: DashboardCmd,
    address: Option<String>,
    other: Seq<char>,
)
    requires
        was_applied(before, after, cmd, address),
    ensures
        match cmd {
            DashboardCmd::BlockUser(u) => after.blocked_users@.contains(u@) && (other != u@
                ==> after.blocked_users@.contains(other) == before.blocked_users@.contains(other)),
            DashboardCmd::UnblockUser(u) => !after.blocked_users@.contains(u@) && (other != u@
                ==> after.blocked_users@.contains(other) == before.blocked_users@.contains(other)),
            _ => after.blocked_users@ == before.blocked_users@,
        },
        match (cmd, address) {
            (DashboardCmd::BlockIp(_), Some(ip)) => after.blocked_ips@.contains(ip@) && (other
                != ip@ ==> after.blocked_ips@.contains(other) == before.blocked_ips@.contains(
                other,
            )),
            (DashboardCmd::UnblockIp(_), Some(ip)) => !after.blocked_ips@.contains(ip@) && (other
                != ip@ ==> after.blocked_ips@.contains(other) == before.blocked_ips@.contains(
                other,
            )),
            _ => after.blocked_ips@ == before.blocked_ips@,
        },
        match cmd {
            DashboardCmd::ToggleVip(u) => {
                let names = before.vip_user@.map_values(|s: String| s@);
                let now = after.vip_user@.map_values(|s: String| s@);
                &&& now.contains(u@) == !names.contains(u@)
                &&& !names.contains(u@) ==> now == names.push(u@)
                &&& other != u@ ==> now.contains(other) == names.contains(other)
            },
            _ => after.vip_user@ == before.vip_user@,
        },
        after.queues == before.queues,
        after.backends == before.backends,
        after.processing_counts == before.processing_counts,
        after.processed_counts == before.processed_counts,
        after.dropped_counts == before.dropped_counts,
        after.user_ips == before.user_ips,
{
    match cmd {
        DashboardCmd::ToggleVip(u) => {
            let names = before.vip_user@.map_values(|s: String| s@);
            let now = after.vip_user@.map_values(|s: String| s@);
            law_toggle_changes_one_rank(before.vip_user@, u);
            law_a_list_holds_its_strings(before.vip_user@, u@);
            law_a_list_holds_its_strings(after.vip_user@, u@);
            law_a_list_holds_its_strings(before.vip_user@, other);
            law_a_list_holds_its_strings(after.vip_user@, other);
            if !names.contains(u@) {
                assert(now =~= names.push(u@));
            }
        },
        _ => {},
    }
}

/// Taking a VIP's rank keeps the order of the other VIPs: what is left is what the list holds
/// before and behind the user, wherever the user stood, without the user.
pub proof fn law_the_other_vips_keep_their_order(
    front: Seq<String>,
    user: String,
    back: Seq<String>,
)
    requires
        forall|i: int| 0 <= i < front.len() ==> (#[trigger] front[i])@ != user@,
        forall|i: int| 0 <= i < back.len() ==> (#[trigger] back[i])@ != user@,
    ensures
        toggled(front.push(user) + back, user) == front + back,
{
    let vips = front.push(user) + back;
    let keep = |vip: String| vip@ != user@;
    assert(vips[front.len() as int]@ == user@);
    assert(lists(vips, user@));
    Seq::filter_distributes_over_add(front.push(user), back, keep);
    lemma_filter_keeps_all(front, keep);
    lemma_filter_keeps_all(back, keep);
    reveal(Seq::filter);
    assert(front.push(user).drop_last() =~= front);
}

/// A body holds one command at most: that of the number and the string it is read as, where the
/// number is one of the five.
pub proof fn law_a_body_holds_one_command(body: Seq<u8>, tag: u32, subject: Seq<char>)
    ensures
        command_in(body).len() <= 1,
        command_in(body).contains((tag, subject)) <==> tag < 5 && bincode_pair(body) == Ok::<
            (u32, Seq<char>),
            Seq<char>,
        >((tag, subject)),
{
    let found = command_in(body);
    if found.len() > 0 && found[0] == (tag, subject) {
        assert(found.contains((tag, subject)));
    }
}

/// A message that is announced as longer than allowed is refused as soon as its length is there,
/// and not read; one that is not all there is neither refused nor read, and waits whole.
pub proof fn law_a_stream_stops_at_what_it_cannot_read(bytes: Seq<u8>)
    ensures
        bytes.len() >= 4 && big_endian(bytes) > MAX_MESSAGE_LEN ==> read_stream(bytes).refused
            && read_stream(bytes).rest == bytes && read_stream(bytes).commands.len() == 0,
        bytes.len() < 4 || (big_endian(bytes) <= MAX_MESSAGE_LEN && bytes.len() < 4 + big_endian(
            bytes,
        )) ==> !read_stream(bytes).refused && read_stream(bytes).rest == bytes && read_stream(
            bytes,
        ).commands.len() == 0,
{
}

} // verus!
