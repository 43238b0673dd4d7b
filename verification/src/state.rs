//! What the proxy holds: requests in line, counts, backends, users and their rights.

use std::collections::VecDeque;

use axum::http::{HeaderMap, HeaderValue, Method};
use vstd::prelude::*;

use crate::backend::BackendStatus;
use crate::catalog::CachedTags;
use crate::models::ModelConfig;
use crate::names::{NameMap, NameSet};

verus! {

/// A request's method, of the `http` crate.
#[verifier::external_type_specification]
#[verifier::external_body]
pub struct ExMethod(Method);

/// A request in line for a backend. `R` is the way back to the client.
pub struct Task<R> {
    pub method: Method,
    pub path: String,
    pub headers: HeaderMap<HeaderValue>,
    pub body: Vec<u8>,
    pub responder: R,
    /// The model that the body asks for.
    pub requested_model: Option<String>,
    /// The model that the body sent on asks for, once a backend was found.
    pub resolved_model: Option<String>,
}

/// The state of the proxy. Addresses are held in the text form of the IP address.
pub struct AppState<R> {
    /// The requests of each user, first in line first.
    pub queues: NameMap<VecDeque<Task<R>>>,
    /// Requests of each user that a backend works on.
    pub processing_counts: NameMap<usize>,
    /// Requests of each user that went through.
    pub processed_counts: NameMap<usize>,
    /// Requests of each user that did not.
    pub dropped_counts: NameMap<usize>,
    /// The address that each user was last seen at.
    pub user_ips: NameMap<String>,
    pub blocked_ips: NameSet,
    pub blocked_users: NameSet,
    /// Users who are served first, in this order.
    pub vip_user: Vec<String>,
    /// Requests taken out of line.
    pub global_counter: usize,
    pub backends: Vec<BackendStatus>,
    pub model_config: ModelConfig,
    pub cached_tags: Option<CachedTags>,
    /// Log lines, the latest last: level, time, text.
    pub log_lines: Vec<(String, i64, String)>,
    /// The header that names the client's address, where one is trusted to.
    pub ip_header: Option<String>,
}

impl<R> AppState<R> {
    /// A state without users, requests or backends.
    pub fn new(model_config: ModelConfig, ip_header: Option<String>) -> (r: Self)
        ensures
            r.queues@ == Map::<Seq<char>, VecDeque<Task<R>>>::empty(),
            r.processing_counts@ == Map::<Seq<char>, usize>::empty(),
            r.processed_counts@ == Map::<Seq<char>, usize>::empty(),
            r.dropped_counts@ == Map::<Seq<char>, usize>::empty(),
            r.user_ips@ == Map::<Seq<char>, String>::empty(),
            r.blocked_ips@ == Set::<Seq<char>>::empty(),
            r.blocked_users@ == Set::<Seq<char>>::empty(),
            r.vip_user@ == Seq::<String>::empty(),
            r.global_counter == 0,
            r.backends@ == Seq::<BackendStatus>::empty(),
            r.model_config == model_config,
            r.cached_tags is None,
            r.log_lines@ == Seq::<(String, i64, String)>::empty(),
            r.ip_header == ip_header,
    {
        AppState {
            queues: NameMap::new(),
            processing_counts: NameMap::new(),
            processed_counts: NameMap::new(),
            dropped_counts: NameMap::new(),
            user_ips: NameMap::new(),
            blocked_ips: NameSet::new(),
            blocked_users: NameSet::new(),
            vip_user: Vec::new(),
            global_counter: 0,
            backends: Vec::new(),
            model_config,
            cached_tags: None,
            log_lines: Vec::new(),
            ip_header,
        }
    }
}

} // verus!
