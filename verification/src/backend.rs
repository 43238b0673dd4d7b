//! What the proxy knows of one backend.

use vstd::prelude::*;

use crate::names::{list_contains, lists, NameMap};

verus! {

/// A backend and the requests it holds.
pub struct BackendStatus {
    pub url: String,
    /// The models it is meant to serve, in the spelling of the configuration.
    pub configured_models: Vec<String>,
    /// Requests it works on now.
    pub active_requests: usize,
    /// Requests it is done with.
    pub processed_count: usize,
    pub is_online: bool,
    /// Requests it works on now, by model.
    pub active_models: NameMap<usize>,
    /// Requests it is done with, by model.
    pub processed_models: NameMap<usize>,
    /// Whether a model was there when last looked for, by model.
    pub model_status: NameMap<bool>,
}

impl BackendStatus {
    /// `model` is configured here, and was not missing when last looked for.
    pub open spec fn serves(self, model: Seq<char>) -> bool {
        &&& lists(self.configured_models@, model)
        &&& self.model_status@.contains_key(model) ==> self.model_status@[model]
    }

    /// A backend that is online, without models or requests.
    pub fn new(url: String) -> (r: Self)
        ensures
            r.url == url,
            r.configured_models@ == Seq::<String>::empty(),
            r.active_requests == 0,
            r.processed_count == 0,
            r.is_online,
            r.active_models@ == Map::<Seq<char>, usize>::empty(),
            r.processed_models@ == Map::<Seq<char>, usize>::empty(),
            r.model_status@ == Map::<Seq<char>, bool>::empty(),
    {
        BackendStatus {
            url,
            configured_models: Vec::new(),
            active_requests: 0,
            processed_count: 0,
            is_online: true,
            active_models: NameMap::new(),
            processed_models: NameMap::new(),
            model_status: NameMap::new(),
        }
    }

    /// Whether `model` is configured here and was not missing when last looked for.
    pub fn can_serve_model(&self, model: &str) -> (r: bool)
        ensures
            r == self.serves(model@),
    {
        if !list_contains(&self.configured_models, model) {
            return false;
        }
        match self.model_status.get(model) {
            Some(present) => *present,
            None => true,
        }
    }
}

} // verus!
