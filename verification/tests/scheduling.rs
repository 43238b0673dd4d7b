use std::collections::hash_map::DefaultHasher;
use std::collections::VecDeque;
use std::hash::{Hash, Hasher};

use all_llama_proxy::admission::{accept_request, Incoming};
use all_llama_proxy::backend::BackendStatus;
use all_llama_proxy::models::{ModelConfig, ParsedModel};
use all_llama_proxy::rendezvous::{preferred_backend, rendezvous_weight};
use all_llama_proxy::routing::{
    find_dispatchable_task, online_indices, route_model, ModelRoute, RouteCache, TaskPick,
};
use all_llama_proxy::scheduler::{
    active_users, has_next, mapping_line, order_candidates, select_and_prepare_task, SelectionResult,
};
use all_llama_proxy::state::AppState;
use axum::http::{HeaderMap, Method};

fn model(name: &str, aliases: &[&str], cap: usize) -> ParsedModel {
    ParsedModel {
        name: name.to_string(),
        public_name: None,
        backends: vec![],
        aliases: aliases.iter().map(|s| s.to_string()).collect(),
        max_concurrent_requests: cap,
        keep_alive: false,
    }
}

fn backend(url: &str, models: &[&str]) -> BackendStatus {
    let mut b = BackendStatus::new(url.to_string());
    b.configured_models = models.iter().map(|s| s.to_string()).collect();
    b
}

fn state_of(models: Vec<ParsedModel>, backends: Vec<BackendStatus>) -> AppState<u32> {
    let mut state = AppState::new(ModelConfig { models }, None);
    state.backends = backends;
    state
}

fn ask(state: &mut AppState<u32>, user: &str, path: &str, model: &str, id: u32) {
    accept_request(
        state,
        user.to_string(),
        "10.0.0.1".to_string(),
        Incoming {
            method: Method::POST,
            path: path.to_string(),
            headers: HeaderMap::new(),
            body: format!(r#"{{"model":"{}","prompt":"hi"}}"#, model).into_bytes(),
            responder: id,
        },
    );
}

fn served(state: &mut AppState<u32>, cursor: &mut usize) -> Option<(String, u32)> {
    match select_and_prepare_task(state, cursor) {
        SelectionResult::Dispatch(user, task, _, _) => Some((user, task.responder)),
        _ => None,
    }
}

#[test]
fn users_are_served_in_turn() {
    let mut state = state_of(vec![model("m", &[], 100)], vec![backend("b", &["m"])]);
    for n in 0..3 {
        for (i, user) in ["ann", "bob", "cid"].iter().enumerate() {
            ask(&mut state, user, "/api/chat", "m", 10 * n + i as u32);
        }
    }
    let mut cursor = 0;
    let order: Vec<String> = (0..6).map(|_| served(&mut state, &mut cursor).unwrap().0).collect();
    assert_eq!(order, ["ann", "bob", "cid", "ann", "bob", "cid"]);
    assert_eq!(state.global_counter, 6);
    assert_eq!(state.backends[0].active_requests, 6);
    assert_eq!(state.backends[0].active_models.count("m"), 6);
}

#[test]
fn users_with_fewer_processed_requests_come_first() {
    let mut state = state_of(vec![model("m", &[], 100)], vec![backend("b", &["m"])]);
    state.processed_counts.insert("ann".to_string(), 3);
    ask(&mut state, "ann", "/api/chat", "m", 1);
    ask(&mut state, "bob", "/api/chat", "m", 2);
    assert_eq!(active_users(&state), ["bob", "ann"]);
    let mut cursor = 0;
    assert_eq!(served(&mut state, &mut cursor), Some(("bob".to_string(), 2)));
    assert_eq!(cursor, 1);
}

#[test]
fn vips_go_first_and_do_not_move_the_cursor() {
    let mut state = state_of(vec![model("m", &[], 100)], vec![backend("b", &["m"])]);
    state.vip_user = vec!["zoe".to_string(), "yan".to_string()];
    for (i, user) in ["ann", "yan", "zoe"].iter().enumerate() {
        ask(&mut state, user, "/api/chat", "m", i as u32);
    }
    let mut cursor = 0;
    assert_eq!(served(&mut state, &mut cursor).unwrap().0, "zoe");
    assert_eq!(served(&mut state, &mut cursor).unwrap().0, "yan");
    assert_eq!(cursor, 0);
    assert_eq!(served(&mut state, &mut cursor).unwrap().0, "ann");
    assert_eq!(cursor, 1);
}

#[test]
fn candidates_are_vips_and_then_the_others_round() {
    let users: Vec<String> = ["a", "b", "c", "d"].iter().map(|s| s.to_string()).collect();
    let vips: Vec<String> = ["c", "x", "c"].iter().map(|s| s.to_string()).collect();
    assert_eq!(order_candidates(&users, &vips, 7), [2, 3, 0, 1]);
    assert_eq!(order_candidates(&users, &vec![], 5), [1, 2, 3, 0]);
}

#[test]
fn requests_for_one_model_keep_their_order() {
    let mut state =
        state_of(vec![model("m", &["mm"], 1), model("n", &[], 9)], vec![backend("b", &["m", "n"])]);
    ask(&mut state, "ann", "/api/chat", "m", 1);
    ask(&mut state, "ann", "/api/chat", "mm", 2);
    ask(&mut state, "ann", "/api/chat", "n", 3);
    let mut cursor = 0;
    assert_eq!(served(&mut state, &mut cursor).unwrap().1, 1);
    assert_eq!(served(&mut state, &mut cursor).unwrap().1, 3);
    assert!(served(&mut state, &mut cursor).is_none());
    assert_eq!(state.queues.get("ann").unwrap()[0].responder, 2);
    state.backends[0].active_models.take_one("m");
    assert_eq!(served(&mut state, &mut cursor).unwrap().1, 2);
}

#[test]
fn no_backend_gets_more_than_the_cap() {
    let mut state = state_of(
        vec![model("m", &[], 2)],
        vec![backend("b1", &["m"]), backend("b2", &["m"]), backend("b3", &["n"])],
    );
    for i in 0..10 {
        ask(&mut state, "ann", "/api/chat", "m", i);
    }
    let mut cursor = 0;
    let mut n = 0;
    while served(&mut state, &mut cursor).is_some() {
        n += 1;
    }
    assert_eq!(n, 4);
    let counts: Vec<usize> = state.backends.iter().map(|b| b.active_models.count("m")).collect();
    assert_eq!(counts, [2, 2, 0]);
}

#[test]
fn the_preferred_backend_takes_the_request() {
    let urls = ["http://gpu1:11434", "http://gpu2:11434", "http://gpu3:11434"];
    for n in 0..20 {
        let user = format!("user{}", n);
        let mut state = state_of(
            vec![model("m", &[], 1)],
            urls.iter().map(|u| backend(u, &["m"])).collect(),
        );
        let best = preferred_backend(&user, &state.backends, &vec![0, 1, 2]).unwrap();
        assert_eq!(preferred_backend(&user, &state.backends, &vec![2, 1, 0]), Some(best));
        ask(&mut state, &user, "/api/chat", "m", 1);
        let mut cursor = 0;
        match select_and_prepare_task(&mut state, &mut cursor) {
            SelectionResult::Dispatch(_, _, at, url) => {
                assert_eq!(at, best);
                assert_eq!(url, urls[best]);
            }
            _ => panic!("expected a dispatch"),
        }
    }
    assert_eq!(preferred_backend("ann", &vec![], &vec![]), None);
}

#[test]
fn weights_are_those_of_the_default_hasher() {
    let mut hasher = DefaultHasher::new();
    "alice".hash(&mut hasher);
    "http://gpu1:11434".hash(&mut hasher);
    assert_eq!(rendezvous_weight("alice", "http://gpu1:11434"), hasher.finish());
}

#[test]
fn equal_weights_go_to_the_later_backend() {
    let backends = vec![backend("same", &["m"]), backend("same", &["m"])];
    assert_eq!(preferred_backend("ann", &backends, &vec![0, 1]), Some(1));
}

#[test]
fn offline_backends_are_waited_for() {
    let mut b = backend("b", &["m"]);
    b.is_online = false;
    let mut state = state_of(vec![model("m", &[], 1)], vec![b, backend("c", &[])]);
    ask(&mut state, "ann", "/api/chat", "m", 1);
    let mut cursor = 0;
    assert!(matches!(select_and_prepare_task(&mut state, &mut cursor), SelectionResult::Wait));
    state.backends[0].is_online = true;
    assert_eq!(served(&mut state, &mut cursor).unwrap().1, 1);
}

#[test]
fn nothing_is_done_while_no_backend_is_online() {
    let mut state = state_of(vec![], vec![]);
    ask(&mut state, "ann", "/api/chat", "ghost", 1);
    let mut cursor = 3;
    assert!(matches!(select_and_prepare_task(&mut state, &mut cursor), SelectionResult::Wait));
    assert_eq!(cursor, 3);
    assert_eq!(state.queues.get("ann").unwrap().len(), 1);
}

#[test]
fn requests_without_a_known_model_fail_under_their_name() {
    let mut state = state_of(vec![], vec![backend("b", &["m"])]);
    ask(&mut state, "ann", "/api/chat", "ghost", 1);
    accept_request(
        &mut state,
        "ann".to_string(),
        "10.0.0.1".to_string(),
        Incoming {
            method: Method::GET,
            path: "/".to_string(),
            headers: HeaderMap::new(),
            body: vec![],
            responder: 2,
        },
    );
    let mut cursor = 0;
    let mut names = vec![];
    while let SelectionResult::ModelNotFound(task, name) =
        select_and_prepare_task(&mut state, &mut cursor)
    {
        names.push((task.responder, name));
    }
    assert_eq!(names, [(1, "ghost".to_string()), (2, "unknown".to_string())]);
    assert_eq!(state.global_counter, 2);
    assert_eq!(state.backends[0].active_requests, 0);
}

#[test]
fn a_missing_model_is_busy_and_an_unconfigured_one_unavailable() {
    let config = ModelConfig { models: vec![model("m", &[], 1), model("n", &["nn"], 1)] };
    let mut b = backend("b", &["m"]);
    b.model_status.insert("m".to_string(), false);
    let backends = vec![b];
    let online = online_indices(&backends);
    assert_eq!(online, [0]);
    let route = |name: &str| route_model(&config, &backends, &online, &Some(name.to_string()));
    assert!(matches!(route("m"), ModelRoute::Busy));
    assert!(matches!(route("nn"), ModelRoute::Unavailable(name) if name == "n"));
    assert!(matches!(route("zz"), ModelRoute::Unavailable(name) if name == "zz"));
    assert!(
        matches!(route_model(&config, &backends, &online, &None), ModelRoute::Unavailable(n) if n == "unknown")
    );
}

#[test]
fn a_dispatched_request_asks_for_the_configured_name() {
    let mut state = state_of(vec![model("qwen3:35b", &["big"], 1)], vec![backend("b", &["qwen3:35b"])]);
    ask(&mut state, "ann", "/chat/completions", "big", 1);
    let mut cursor = 0;
    match select_and_prepare_task(&mut state, &mut cursor) {
        SelectionResult::Dispatch(user, task, _, _) => {
            assert_eq!(task.path, "/v1/chat/completions");
            assert_eq!(task.body, br#"{"model":"qwen3:35b","prompt":"hi"}"#);
            assert_eq!(task.requested_model.as_deref(), Some("big"));
            assert_eq!(task.resolved_model.as_deref(), Some("qwen3:35b"));
            assert_eq!(
                mapping_line(&user, &task).as_deref(),
                Some("Mapped requested model big to qwen3:35b for user ann")
            );
        }
        _ => panic!("expected a dispatch"),
    }
}

#[test]
fn a_latest_tag_alone_is_no_mapping() {
    let mut state = state_of(vec![model("m", &[], 1)], vec![backend("b", &["m"])]);
    ask(&mut state, "ann", "/api/chat", "m:latest", 1);
    let mut cursor = 0;
    match select_and_prepare_task(&mut state, &mut cursor) {
        SelectionResult::Dispatch(user, task, _, _) => {
            assert_eq!(task.resolved_model.as_deref(), Some("m"));
            assert_eq!(mapping_line(&user, &task), None);
        }
        _ => panic!("expected a dispatch"),
    }
}

#[test]
fn a_request_to_another_path_notes_no_model() {
    let mut state = state_of(vec![model("m", &["mm"], 1)], vec![backend("b", &["m"])]);
    ask(&mut state, "ann", "/api/show", "mm", 1);
    let mut cursor = 0;
    match select_and_prepare_task(&mut state, &mut cursor) {
        SelectionResult::Dispatch(_, task, _, _) => {
            assert_eq!(task.resolved_model, None);
            assert_eq!(task.body, br#"{"model":"mm","prompt":"hi"}"#);
        }
        _ => panic!("expected a dispatch"),
    }
    assert_eq!(state.backends[0].active_models.count("m"), 1);
}

#[test]
fn room_is_needed_to_count_a_request() {
    let mut state: AppState<u32> = state_of(vec![], vec![backend("b", &[])]);
    assert!(state.room_for_one());
    state.backends[0].active_requests = usize::MAX;
    assert!(!state.room_for_one());
    state.backends[0].active_requests = 0;
    state.global_counter = usize::MAX;
    assert!(!state.room_for_one());
}

#[test]
fn an_empty_line_is_no_work() {
    let mut state = state_of(vec![], vec![backend("b", &[])]);
    state.queues.insert("ann".to_string(), VecDeque::new());
    assert!(active_users(&state).is_empty());
    let mut cursor = 0;
    assert!(matches!(select_and_prepare_task(&mut state, &mut cursor), SelectionResult::Wait));
}

#[test]
fn a_preference_follows_the_url_as_places_shift() {
    let all = vec![backend("http://gpu1", &[]), backend("http://gpu2", &[]), backend("http://gpu3", &[])];
    for n in 0..50 {
        let user = format!("user{}", n);
        let best = preferred_backend(&user, &all, &vec![0, 1, 2]).unwrap();
        if best > 0 {
            let fewer = vec![backend("http://gpu2", &[]), backend("http://gpu3", &[])];
            let chosen = preferred_backend(&user, &fewer, &vec![0, 1]).unwrap();
            assert_eq!(fewer[chosen].url, all[best].url);
        }
    }
}

#[test]
fn a_route_in_the_cache_is_taken_as_it_is() {
    let mut state = state_of(vec![], vec![backend("http://a", &[]), backend("http://a", &[])]);
    ask(&mut state, "alice", "/api/chat", "m", 1);
    let mut routes = RouteCache::new();
    routes.entries.push((
        Some("m".to_string()),
        ModelRoute::Ready { model: "m".to_string(), backend_indices: vec![0, 1] },
    ));
    let queue = state.queues.get("alice").unwrap();
    let pick = find_dispatchable_task(
        &state.model_config,
        &state.backends,
        &vec![0, 1],
        queue,
        "alice",
        &mut routes,
    );
    assert!(matches!(
        pick,
        Some(TaskPick::Dispatch { queue_idx: 0, model, backend_idx: 1 }) if model == "m"
    ));
    assert_eq!(routes.entries.len(), 1);
}

#[test]
fn routes_of_the_requests_looked_at_are_kept() {
    let mut state = state_of(
        vec![model("busy", &[], 0), model("free", &[], 1), model("late", &[], 1)],
        vec![backend("b", &["busy", "free", "late"])],
    );
    for (id, name) in ["busy", "old", "busy", "free", "late"].iter().enumerate() {
        ask(&mut state, "ann", "/api/chat", name, id as u32);
    }
    let mut routes = RouteCache::new();
    routes.entries.push((Some("old".to_string()), ModelRoute::Busy));
    let queue = state.queues.get("ann").unwrap();
    let online = online_indices(&state.backends);
    let pick = find_dispatchable_task(
        &state.model_config,
        &state.backends,
        &online,
        queue,
        "ann",
        &mut routes,
    );
    assert!(matches!(pick, Some(TaskPick::Dispatch { queue_idx: 3, backend_idx: 0, .. })));
    let known: Vec<&str> = routes.entries.iter().map(|e| e.0.as_deref().unwrap()).collect();
    assert_eq!(known, ["old", "busy", "free"]);
    assert!(matches!(routes.entries[0].1, ModelRoute::Busy));
    assert!(matches!(routes.entries[1].1, ModelRoute::Busy));
    assert!(matches!(routes.entries[2].1, ModelRoute::Ready { .. }));
}

#[test]
fn a_ready_route_without_backends_is_passed_over() {
    let mut state = state_of(vec![], vec![backend("b", &[])]);
    ask(&mut state, "ann", "/api/chat", "m", 1);
    let mut routes = RouteCache::new();
    routes.entries.push((
        Some("m".to_string()),
        ModelRoute::Ready { model: "m".to_string(), backend_indices: vec![] },
    ));
    let queue = state.queues.get("ann").unwrap();
    let pick = find_dispatchable_task(
        &state.model_config,
        &state.backends,
        &vec![0],
        queue,
        "ann",
        &mut routes,
    );
    assert!(pick.is_none());
}

#[test]
fn it_is_told_whether_anyone_is_next() {
    let mut state = state_of(vec![model("m", &[], 1)], vec![backend("b", &["m"])]);
    assert!(!has_next(&state, 0));
    ask(&mut state, "ann", "/api/chat", "m", 1);
    ask(&mut state, "ann", "/api/chat", "m", 2);
    assert!(has_next(&state, 5));
    let mut cursor = 5;
    assert!(served(&mut state, &mut cursor).is_some());
    assert!(!has_next(&state, cursor));
}
