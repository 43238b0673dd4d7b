use std::collections::HashSet;
use std::collections::VecDeque;

use all_llama_proxy::backend::BackendStatus;
use all_llama_proxy::models::{ModelConfig, ParsedModel};
use all_llama_proxy::rendezvous::{preferred_backend, rendezvous_weight};
use all_llama_proxy::request::{extract_and_resolve_model, peek_model_from_body};
use all_llama_proxy::scheduler::{select_and_prepare_task, SelectionResult};
use all_llama_proxy::state::{AppState, Task};
use axum::http::{HeaderMap, Method};

fn create_test_state() -> AppState<()> {
    AppState::new(ModelConfig { models: vec![] }, None)
}

#[test]
fn test_worker_doesnt_deadlock() {
    let mut state = create_test_state();
    state.backends.push(BackendStatus::new("http://localhost:11434".to_string()));
    let mut idx = 0;
    assert!(matches!(select_and_prepare_task(&mut state, &mut idx), SelectionResult::Wait));
    assert!(state.backends.len() == 1);
}

fn parsed_model(name: &str, aliases: &[&str]) -> ParsedModel {
    ParsedModel {
        name: name.to_string(),
        public_name: None,
        backends: vec!["http://localhost:11434".to_string()],
        aliases: aliases.iter().map(|s| s.to_string()).collect(),
        max_concurrent_requests: 1,
        keep_alive: true,
    }
}

fn resolve(config: &ModelConfig, requested: &str) -> (Option<String>, String) {
    let mut body = format!(r#"{{"model":"{}"}}"#, requested).into_bytes();
    let resolved = extract_and_resolve_model(&mut body, "/api/chat", config);
    let sent_model: String = serde_json::from_slice::<serde_json::Value>(&body)
        .unwrap()
        .get("model")
        .unwrap()
        .as_str()
        .unwrap()
        .to_string();
    (resolved, sent_model)
}

fn test_backend(configured: &[&str]) -> BackendStatus {
    let mut backend = BackendStatus::new("http://localhost:11434".to_string());
    backend.configured_models = configured.iter().map(|s| s.to_string()).collect();
    backend
}

#[test]
fn test_untagged_config_model_is_routable() {
    // An untagged name must not be rewritten to `:latest`, otherwise it never matches
    // configured_models.
    let config = ModelConfig { models: vec![parsed_model("muse-glimmer", &[])] };
    let backend = test_backend(&["muse-glimmer"]);

    let (resolved, sent) = resolve(&config, "muse-glimmer");
    assert_eq!(resolved.as_deref(), Some("muse-glimmer"));
    assert_eq!(sent, "muse-glimmer");
    assert!(backend.can_serve_model(&resolved.unwrap()));
}

#[test]
fn test_explicit_latest_resolves_to_config_spelling() {
    let config = ModelConfig { models: vec![parsed_model("muse-glimmer", &[])] };
    let backend = test_backend(&["muse-glimmer"]);

    let (resolved, sent) = resolve(&config, "muse-glimmer:latest");
    assert_eq!(resolved.as_deref(), Some("muse-glimmer"));
    assert_eq!(sent, "muse-glimmer", "body must carry the config spelling");
    assert!(backend.can_serve_model(&resolved.unwrap()));
}

#[test]
fn test_tagged_config_model_keeps_its_tag() {
    let config = ModelConfig { models: vec![parsed_model("qwen3:35b", &["qwen3"])] };
    let backend = test_backend(&["qwen3:35b"]);

    let (resolved, sent) = resolve(&config, "qwen3:35b");
    assert_eq!(resolved.as_deref(), Some("qwen3:35b"));
    assert_eq!(sent, "qwen3:35b");
    assert!(backend.can_serve_model(&resolved.unwrap()));

    // Reachable via the explicit alias, which rewrites the body.
    let (resolved, sent) = resolve(&config, "qwen3");
    assert_eq!(resolved.as_deref(), Some("qwen3:35b"));
    assert_eq!(sent, "qwen3:35b");
}

#[test]
fn test_bare_name_does_not_match_unrelated_tag() {
    // `foo` means `foo:latest`, never `foo:7b`.
    let config = ModelConfig { models: vec![parsed_model("qwen3:35b", &[])] };
    let (resolved, sent) = resolve(&config, "qwen3");
    assert_eq!(resolved.as_deref(), Some("qwen3"));
    assert_eq!(sent, "qwen3", "unknown model body must stay untouched");
}

fn queue_task(state: &mut AppState<()>, user: &str, model: &str) {
    let body = format!(r#"{{"model":"{}"}}"#, model).into_bytes();
    let task = Task {
        method: Method::POST,
        path: "/api/chat".to_string(),
        headers: HeaderMap::new(),
        requested_model: peek_model_from_body(&body),
        body,
        responder: (),
        resolved_model: None,
    };
    let mut queue = state.queues.take(user).unwrap_or_else(VecDeque::new);
    queue.push_back(task);
    state.queues.insert(user.to_string(), queue);
}

/// A backend serving `busy:1b` (saturated at its cap of 1) and `idle:1b`.
fn saturated_backend() -> BackendStatus {
    let mut backend = test_backend(&["busy:1b", "idle:1b"]);
    backend.active_models.insert("busy:1b".to_string(), 1);
    backend.active_requests = 1;
    backend
}

fn two_model_config() -> ModelConfig {
    ModelConfig { models: vec![parsed_model("busy:1b", &[]), parsed_model("idle:1b", &[])] }
}

#[test]
fn test_model_without_any_backend_is_failed_not_queued() {
    // A task that no backend is configured for must be popped and answered, otherwise it blocks
    // the head of the user's queue forever.
    let mut state = create_test_state();
    state.model_config = ModelConfig { models: vec![parsed_model("ghost:1b", &[])] };
    state.backends.push(test_backend(&["other:1b"]));

    queue_task(&mut state, "alice", "ghost:1b");

    let mut idx = 0;
    match select_and_prepare_task(&mut state, &mut idx) {
        SelectionResult::ModelNotFound(_, model) => assert_eq!(model, "ghost:1b"),
        _ => panic!("expected ModelNotFound for a model without any backend"),
    }
    assert!(
        state.queues.get("alice").unwrap().is_empty(),
        "task must be removed from the queue"
    );
}

#[test]
fn test_busy_model_does_not_block_other_users() {
    let mut state = create_test_state();
    state.model_config = two_model_config();
    state.backends.push(saturated_backend());

    // alice sorts first (equal processed counts, alphabetical).
    queue_task(&mut state, "alice", "busy:1b");
    queue_task(&mut state, "bob", "idle:1b");

    let mut idx = 0;
    match select_and_prepare_task(&mut state, &mut idx) {
        SelectionResult::Dispatch(user, task, _, _) => {
            assert_eq!(user, "bob");
            assert_eq!(task.resolved_model.as_deref(), Some("idle:1b"));
        }
        _ => panic!("bob's request for an idle model must be dispatched"),
    }

    // alice keeps her place in line until busy:1b frees up.
    assert_eq!(state.queues.get("alice").unwrap().len(), 1);
    assert!(state.queues.get("bob").unwrap().is_empty());
}

#[test]
fn test_busy_model_does_not_block_later_task_of_same_user() {
    let mut state = create_test_state();
    state.model_config = two_model_config();
    state.backends.push(saturated_backend());

    queue_task(&mut state, "alice", "busy:1b");
    queue_task(&mut state, "alice", "idle:1b");

    let mut idx = 0;
    match select_and_prepare_task(&mut state, &mut idx) {
        SelectionResult::Dispatch(user, task, _, _) => {
            assert_eq!(user, "alice");
            assert_eq!(task.resolved_model.as_deref(), Some("idle:1b"));
        }
        _ => panic!("the second queued request must be dispatched"),
    }

    // The skipped request stays at the head, so it runs first once free.
    let queue = state.queues.get("alice").unwrap();
    assert_eq!(queue.len(), 1);
    assert_eq!(queue[0].requested_model.as_deref(), Some("busy:1b"));
}

#[test]
fn test_blocked_vip_does_not_stall_other_users() {
    // VIPs are tried first, but a VIP waiting on a saturated model must not starve everyone else
    // indefinitely.
    let mut state = create_test_state();
    state.model_config = two_model_config();
    state.backends.push(saturated_backend());
    state.vip_user.push("vip".to_string());

    queue_task(&mut state, "vip", "busy:1b");
    queue_task(&mut state, "bob", "idle:1b");

    let mut idx = 0;
    match select_and_prepare_task(&mut state, &mut idx) {
        SelectionResult::Dispatch(user, _, _, _) => assert_eq!(user, "bob"),
        _ => panic!("bob must be dispatched while the VIP waits"),
    }
}

#[test]
fn test_vip_user_is_served_first() {
    let mut state = create_test_state();
    state.model_config = two_model_config();
    state.backends.push(test_backend(&["busy:1b", "idle:1b"]));
    state.vip_user.push("zoe".to_string());

    queue_task(&mut state, "alice", "idle:1b");
    queue_task(&mut state, "zoe", "busy:1b");

    let mut idx = 0;
    match select_and_prepare_task(&mut state, &mut idx) {
        SelectionResult::Dispatch(user, _, _, _) => assert_eq!(user, "zoe"),
        _ => panic!("the VIP must be dispatched first"),
    }
}

#[test]
fn test_all_models_busy_waits() {
    // With nothing runnable the worker must still park instead of spinning.
    let mut state = create_test_state();
    state.model_config = two_model_config();
    state.backends.push(saturated_backend());

    queue_task(&mut state, "alice", "busy:1b");
    queue_task(&mut state, "bob", "busy:1b");

    let mut idx = 0;
    assert!(
        matches!(select_and_prepare_task(&mut state, &mut idx), SelectionResult::Wait),
        "expected Wait when every model is at capacity"
    );
    assert_eq!(state.queues.get("alice").unwrap().len(), 1);
    assert_eq!(state.queues.get("bob").unwrap().len(), 1);
}

#[test]
fn test_rendezvous_weight_deterministic() {
    let a = rendezvous_weight("alice", "http://gpu1:11434");
    let b = rendezvous_weight("alice", "http://gpu1:11434");
    assert_eq!(a, b);
    // Different inputs should (almost certainly) differ.
    assert_ne!(a, rendezvous_weight("bob", "http://gpu1:11434"));
    assert_ne!(a, rendezvous_weight("alice", "http://gpu2:11434"));
}

fn pick_backend(user: &str, urls: &[&str]) -> usize {
    let backends: Vec<BackendStatus> =
        urls.iter().map(|u| BackendStatus::new(u.to_string())).collect();
    let candidates: Vec<usize> = (0..urls.len()).collect();
    preferred_backend(user, &backends, &candidates).unwrap()
}

#[test]
fn test_rendezvous_sticky_per_user() {
    let urls = ["http://gpu1:11434", "http://gpu2:11434", "http://gpu3:11434"];
    let first = pick_backend("alice", &urls);
    // Same user always maps to the same backend.
    for _ in 0..100 {
        assert_eq!(pick_backend("alice", &urls), first);
    }
}

#[test]
fn test_rendezvous_spreads_users() {
    let urls = ["http://gpu1:11434", "http://gpu2:11434", "http://gpu3:11434"];
    let mut seen = HashSet::new();
    for n in 0..200 {
        seen.insert(pick_backend(&format!("user{}", n), &urls));
    }
    // With 200 users over 3 backends, every backend should be used.
    assert_eq!(seen.len(), urls.len());
}

#[test]
fn test_rendezvous_stable_when_unrelated_backend_removed() {
    let full = ["http://gpu1:11434", "http://gpu2:11434", "http://gpu3:11434"];
    // Find a user not pinned to the last backend, then remove that last backend and confirm the
    // user's pick is unchanged.
    let user = (0..1000)
        .map(|n| format!("user{}", n))
        .find(|u| pick_backend(u, &full) != full.len() - 1)
        .expect("expected some user not pinned to the last backend");

    let pick_full = pick_backend(&user, &full);
    let reduced = &full[..full.len() - 1];
    assert_eq!(pick_backend(&user, reduced), pick_full);
}
