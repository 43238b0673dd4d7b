//! Who may send requests, and how a request gets in line.

use std::collections::VecDeque;

use axum::http::{HeaderMap, HeaderValue, Method};
use vstd::prelude::*;

use crate::headers::{forward_headers, header_values};
use crate::request::{
    backend_path, body_model, law_one_path_alone_is_renamed, normalize_path, peek_model_from_body,
    text_of,
};
use crate::scheduler::took_out;
use crate::state::{AppState, Task};

verus! {

/// What becomes of a request at the door.
pub enum Admission {
    /// It carries no known token.
    Unauthorized,
    /// It comes from a blocked address.
    IpBlocked,
    /// It comes from a blocked user.
    UserBlocked,
    /// It is let in for this user.
    Admitted(String),
}

impl<R> AppState<R> {
    /// Whether the address is blocked.
    pub fn is_ip_blocked(&self, ip: &str) -> (r: bool)
        ensures
            r == self.blocked_ips@.contains(ip@),
    {
        self.blocked_ips.contains(ip)
    }

    /// Whether the user is blocked.
    pub fn is_user_blocked(&self, user_id: &str) -> (r: bool)
        ensures
            r == self.blocked_users@.contains(user_id@),
    {
        self.blocked_users.contains(user_id)
    }
}

/// Decides on a request from the given address, for the user that its token belongs to.
pub fn screen<R>(state: &AppState<R>, user_id: Option<String>, ip: &str) -> (r: Admission)
    ensures
        r == match user_id {
            None => Admission::Unauthorized,
            Some(user) => if state.blocked_ips@.contains(ip@) {
                Admission::IpBlocked
            } else if state.blocked_users@.contains(user@) {
                Admission::UserBlocked
            } else {
                Admission::Admitted(user)
            },
        },
{
    let user = match user_id {
        Some(user) => user,
        None => return Admission::Unauthorized,
    };
    if state.is_ip_blocked(ip) {
        return Admission::IpBlocked;
    }
    if state.is_user_blocked(user.as_str()) {
        return Admission::UserBlocked;
    }
    Admission::Admitted(user)
}

/// The status and text that a request is turned away with; nothing where it is let in.
pub fn refusal(admission: &Admission) -> (r: Option<(u16, &'static str)>)
    ensures
        match *admission {
            Admission::Unauthorized => r matches Some((status, text)) && status == 401 && text@
                == "Unauthorized"@,
            Admission::IpBlocked => r matches Some((status, text)) && status == 403 && text@
                == "IP blocked"@,
            Admission::UserBlocked => r matches Some((status, text)) && status == 403 && text@
                == "User blocked"@,
            Admission::Admitted(_) => r is None,
        },
{
    match admission {
        Admission::Unauthorized => Some((401, "Unauthorized")),
        Admission::IpBlocked => Some((403, "IP blocked")),
        Admission::UserBlocked => Some((403, "User blocked")),
        Admission::Admitted(_) => None,
    }
}

/// A request as it came in.
pub struct Incoming<R> {
    pub method: Method,
    pub path: String,
    pub headers: HeaderMap<HeaderValue>,
    pub body: Vec<u8>,
    pub responder: R,
}

/// `task` is the request `incoming`, as it gets in line: under the backends' path, without the
/// headers that are not sent on, with the model that its body asks for.
pub open spec fn is_filed<R>(incoming: Incoming<R>, task: Task<R>) -> bool {
    &&& task.method == incoming.method
    &&& task.path@ == backend_path(incoming.path@)
    &&& header_values(task.headers) == header_values(incoming.headers).remove("host"@).remove(
        "authorization"@,
    ).remove("content-length"@)
    &&& task.body == incoming.body
    &&& task.responder == incoming.responder
    &&& text_of(task.requested_model) == body_model(incoming.body@)
    &&& task.resolved_model is None
}

/// The requests of `user` in line; none for a user not known yet.
pub open spec fn line_of<R>(
    queues: Map<Seq<char>, VecDeque<Task<R>>>,
    user: Seq<char>,
) -> Seq<Task<R>> {
    if queues.contains_key(user) {
        queues[user]@
    } else {
        Seq::empty()
    }
}

/// The request got in line behind the user's others, and the user was seen at `ip`.
pub open spec fn was_accepted<R>(
    before: AppState<R>,
    after: AppState<R>,
    user: String,
    ip: String,
    incoming: Incoming<R>,
) -> bool {
    let line = line_of(after.queues@, user@);
    &&& after.queues@.dom() == before.queues@.dom().insert(user@)
    &&& forall|u: Seq<char>|
        u != user@ && before.queues@.contains_key(u) ==> #[trigger] after.queues@[u]
            == before.queues@[u]
    &&& line.len() > 0
    &&& line.drop_last() == line_of(before.queues@, user@)
    &&& is_filed(incoming, line.last())
    &&& after.user_ips@ == before.user_ips@.insert(user@, ip)
    &&& after.processing_counts == before.processing_counts
    &&& after.processed_counts == before.processed_counts
    &&& after.dropped_counts == before.dropped_counts
    &&& after.blocked_ips == before.blocked_ips
    &&& after.blocked_users == before.blocked_users
    &&& after.vip_user == before.vip_user
    &&& after.global_counter == before.global_counter
    &&& after.backends == before.backends
    &&& after.model_config == before.model_config
    &&& after.cached_tags == before.cached_tags
    &&& after.log_lines == before.log_lines
    &&& after.ip_header == before.ip_header
}

/// Takes a request in for a user: it gets in line behind the user's others.
pub fn accept_request<R>(
    state: &mut AppState<R>,
    user_id: String,
    ip: String,
    incoming: Incoming<R>,
)
    ensures
        was_accepted(*old(state), *final(state), user_id, ip, incoming),
{
    state.user_ips.insert(user_id.clone(), ip);
    let task = Task {
        method: incoming.method,
        path: normalize_path(incoming.path.as_str()).to_owned(),
        headers: forward_headers(incoming.headers),
        requested_model: peek_model_from_body(incoming.body.as_slice()),
        body: incoming.body,
        responder: incoming.responder,
        resolved_model: None,
    };
    let mut line = match state.queues.take(user_id.as_str()) {
        Some(line) => line,
        None => VecDeque::new(),
    };
    let ghost before = line@;
    line.push_back(task);
    assert(line@.drop_last() =~= before);
    state.queues.insert(user_id, line);
    proof {
        assert(state.queues@.dom() =~= old(state).queues@.dom().insert(user_id@));
    }
}

/// Every request in line is there under the model that its body asks for.
pub open spec fn models_are_noted<R>(queues: Map<Seq<char>, VecDeque<Task<R>>>) -> bool {
    forall|user: Seq<char>, i: int|
        queues.contains_key(user) && 0 <= i < queues[user]@.len() ==> text_of(
            (#[trigger] queues[user]@[i]).requested_model,
        ) == body_model(queues[user]@[i].body@)
}

/// Requests are in line under the models that their bodies ask for: an accepted request gets in
/// line so.
pub proof fn law_accepted_requests_note_their_model<R>(
    before: AppState<R>,
    after: AppState<R>,
    user: String,
    ip: String,
    incoming: Incoming<R>,
)
    requires
        models_are_noted(before.queues@),
        was_accepted(before, after, user, ip, incoming),
    ensures
        models_are_noted(after.queues@),
{
    assert forall|u: Seq<char>, i: int|
        after.queues@.contains_key(u) && 0 <= i < after.queues@[u]@.len() implies text_of(
        (#[trigger] after.queues@[u]@[i]).requested_model,
    ) == body_model(after.queues@[u]@[i].body@) by {
        if u == user@ {
            let line = line_of(after.queues@, user@);
            if i < line.len() - 1 {
                assert(line == after.queues@[u]@);
                assert(line.drop_last().len() > i);
                assert(line.drop_last()[i] == line[i]);
                assert(before.queues@[u]@[i] == line[i]);
            }
        } else {
            assert(before.queues@.dom().contains(u));
            assert(after.queues@[u] == before.queues@[u]);
        }
    }
}

/// Requests are in line under the models that their bodies ask for: it stays so as one leaves.
pub proof fn law_served_requests_leave_models_noted<R>(
    before: AppState<R>,
    after: AppState<R>,
    user: Seq<char>,
    at: int,
)
    requires
        models_are_noted(before.queues@),
        before.queues@.contains_key(user),
        0 <= at < before.queues@[user]@.len(),
        took_out(before, after, user, at),
    ensures
        models_are_noted(after.queues@),
{
    assert forall|u: Seq<char>, i: int|
        after.queues@.contains_key(u) && 0 <= i < after.queues@[u]@.len() implies text_of(
        (#[trigger] after.queues@[u]@[i]).requested_model,
    ) == body_model(after.queues@[u]@[i].body@) by {
        assert(before.queues@.dom().contains(u));
        if u == user {
            let j = if i < at { i } else { i + 1 };
            assert(after.queues@[u]@[i] == before.queues@[u]@[j]);
        } else {
            assert(after.queues@[u] == before.queues@[u]);
        }
    }
}

/// A request gets in line under its own path, unless that is `/chat/completions`, which it gets
/// in line under `/v1` for; and never under that path itself.
pub proof fn law_requests_are_filed_under_their_path<R>(incoming: Incoming<R>, task: Task<R>)
    requires
        is_filed(incoming, task),
    ensures
        incoming.path@ != "/chat/completions"@ ==> task.path@ == incoming.path@,
        incoming.path@ == "/chat/completions"@ ==> task.path@ == "/v1"@ + incoming.path@,
        task.path@ != "/chat/completions"@,
{
    law_one_path_alone_is_renamed(incoming.path@);
}

/// What accepting a request does: it is added to the user's line behind all others, whole, but
/// for the headers that are not sent on; the address that it came from is the one that the user
/// was last seen at. Lines and addresses of other users stay.
pub proof fn law_what_accepting_does<R>(
    before: AppState<R>,
    after: AppState<R>,
    user: String,
    ip: String,
    incoming: Incoming<R>,
    other: Seq<char>,
)
    requires
        was_accepted(before, after, user, ip, incoming),
    ensures
        ({
            let line = after.queues@[user@]@;
            let task = line[line.len() - 1];
            &&& after.queues@.contains_key(user@)
            &&& before.queues@.contains_key(user@) ==> line == before.queues@[user@]@.push(task)
            &&& !before.queues@.contains_key(user@) ==> line == seq![task]
            &&& task.method == incoming.method
            &&& task.body == incoming.body
            &&& task.responder == incoming.responder
            &&& task.resolved_model is None
            &&& text_of(task.requested_model) == body_model(incoming.body@)
            &&& !header_values(task.headers).contains_key("host"@)
            &&& !header_values(task.headers).contains_key("authorization"@)
            &&& !header_values(task.headers).contains_key("content-length"@)
            &&& forall|name: Seq<char>|
                name != "host"@ && name != "authorization"@ && name != "content-length"@ ==> (
                #[trigger] header_values(task.headers).contains_key(name)) == header_values(
                    incoming.headers,
                ).contains_key(name) && header_values(task.headers)[name] == header_values(
                    incoming.headers,
                )[name]
            &&& after.user_ips@.contains_key(user@) && after.user_ips@[user@] == ip
            &&& other != user@ ==> {
                &&& after.queues@.contains_key(other) == before.queues@.contains_key(other)
                &&& before.queues@.contains_key(other) ==> after.queues@[other]
                    == before.queues@[other]
                &&& after.user_ips@.contains_key(other) == before.user_ips@.contains_key(other)
                &&& before.user_ips@.contains_key(other) ==> after.user_ips@[other]
                    == before.user_ips@[other]
            }
        }),
{
    let line = line_of(after.queues@, user@);
    assert(after.queues@.dom().contains(user@));
    assert(line =~= line.drop_last().push(line.last()));
    assert(after.queues@.dom().contains(other) == before.queues@.dom().insert(user@).contains(
        other,
    ));
}

} // verus!
