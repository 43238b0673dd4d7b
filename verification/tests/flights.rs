use all_llama_proxy::admission::{accept_request, Incoming};
use all_llama_proxy::backend::BackendStatus;
use all_llama_proxy::dispatch::{
    advance, format_duration_short, log_line, next_step, room_to_count, target_url, Action,
    Ending, Event, Flight, Phase,
};
use all_llama_proxy::models::{ModelConfig, ParsedModel};
use all_llama_proxy::scheduler::{select_and_prepare_task, SelectionResult};
use all_llama_proxy::state::AppState;
use axum::http::{HeaderMap, Method};

fn state() -> AppState<()> {
    let mut state = AppState::new(ModelConfig { models: vec![] }, None);
    let mut b = BackendStatus::new("http://b".to_string());
    b.active_requests = 1;
    b.active_models.insert("m".to_string(), 1);
    state.backends.push(b);
    state
}

fn flight() -> Flight {
    Flight::new("ann".to_string(), 0, Some("m".to_string()))
}

fn run(state: &mut AppState<()>, flight: &mut Flight, events: &[Event]) -> Vec<Action> {
    let mut actions = vec![];
    for event in events {
        assert!(room_to_count(state, flight, *event));
        actions.push(advance(state, flight, *event));
    }
    actions
}

fn counts(state: &AppState<()>) -> (usize, usize, usize) {
    (
        state.processing_counts.count("ann"),
        state.processed_counts.count("ann"),
        state.dropped_counts.count("ann"),
    )
}

fn assert_released(state: &AppState<()>) {
    let b = &state.backends[0];
    assert_eq!(b.active_requests, 0);
    assert_eq!(b.active_models.count("m"), 0);
    assert_eq!(b.processed_count, 1);
    assert_eq!(b.processed_models.count("m"), 1);
}

#[test]
fn an_answer_that_goes_through_counts_as_processed() {
    let mut s = state();
    let mut f = flight();
    let actions = run(&mut s, &mut f, &[Event::Taken { client_gone: false }]);
    assert_eq!(actions, [Action::SendRequest]);
    assert_eq!(counts(&s), (1, 0, 0));
    let actions = run(
        &mut s,
        &mut f,
        &[
            Event::Responded,
            Event::StatusSent { delivered: true },
            Event::ChunkRead,
            Event::ChunkSent { delivered: true },
            Event::StreamOver,
        ],
    );
    assert_eq!(
        actions,
        [
            Action::SendStatus,
            Action::ReadChunk,
            Action::SendChunk,
            Action::ReadChunk,
            Action::Finish(Ending::Processed),
        ]
    );
    assert_eq!(counts(&s), (0, 1, 0));
    assert_eq!(f.phase, Phase::Over);
    assert_released(&s);
}

#[test]
fn a_client_that_leaves_amid_the_answer_counts_as_dropped() {
    let mut s = state();
    let mut f = flight();
    let actions = run(
        &mut s,
        &mut f,
        &[
            Event::Taken { client_gone: false },
            Event::Responded,
            Event::StatusSent { delivered: true },
            Event::ChunkRead,
            Event::ChunkSent { delivered: false },
        ],
    );
    assert_eq!(actions.last(), Some(&Action::Finish(Ending::Abandoned)));
    assert_eq!(counts(&s), (0, 0, 1));
    assert_released(&s);
}

#[test]
fn a_client_that_leaves_before_the_status_counts_for_nothing() {
    let mut s = state();
    let mut f = flight();
    let actions = run(
        &mut s,
        &mut f,
        &[
            Event::Taken { client_gone: false },
            Event::Responded,
            Event::StatusSent { delivered: false },
        ],
    );
    assert_eq!(actions.last(), Some(&Action::Finish(Ending::Unheard)));
    assert_eq!(counts(&s), (0, 0, 0));
    assert_released(&s);
}

#[test]
fn a_failed_request_counts_as_dropped() {
    let mut s = state();
    let mut f = flight();
    let actions = run(
        &mut s,
        &mut f,
        &[Event::Taken { client_gone: false }, Event::RequestFailed, Event::ErrorSent],
    );
    assert_eq!(
        actions,
        [Action::SendRequest, Action::SendError, Action::Finish(Ending::Failed)]
    );
    assert_eq!(counts(&s), (0, 0, 1));
    assert_released(&s);
}

#[test]
fn blocked_users_and_addresses_are_refused() {
    let mut s = state();
    s.blocked_users.insert("ann".to_string());
    let mut f = flight();
    let actions = run(&mut s, &mut f, &[Event::Taken { client_gone: false }]);
    assert_eq!(actions, [Action::Finish(Ending::Refused)]);
    assert_eq!(counts(&s), (0, 0, 1));
    assert_released(&s);

    let mut s = state();
    s.user_ips.insert("ann".to_string(), "10.0.0.9".to_string());
    s.blocked_ips.insert("10.0.0.9".to_string());
    let mut f = flight();
    let actions = run(&mut s, &mut f, &[Event::Taken { client_gone: false }]);
    assert_eq!(actions, [Action::Finish(Ending::Refused)]);

    let mut s = state();
    let mut f = flight();
    let actions = run(&mut s, &mut f, &[Event::Taken { client_gone: true }]);
    assert_eq!(actions, [Action::Finish(Ending::Refused)]);
}

#[test]
fn refused_flights_leave_other_flights_counted() {
    let mut s = state();
    s.processing_counts.insert("ann".to_string(), 4);
    let mut f = flight();
    run(&mut s, &mut f, &[Event::Taken { client_gone: true }]);
    assert_eq!(counts(&s), (4, 0, 1));
}

#[test]
fn nothing_happens_after_the_end_or_out_of_place() {
    let mut s = state();
    let mut f = flight();
    run(&mut s, &mut f, &[Event::Taken { client_gone: true }]);
    let actions = run(
        &mut s,
        &mut f,
        &[Event::Taken { client_gone: false }, Event::Responded, Event::StreamOver],
    );
    assert_eq!(actions, [Action::Ignore; 3]);
    assert_eq!(counts(&s), (0, 0, 1));
    assert_eq!(s.backends[0].processed_count, 1);
    assert_eq!(
        next_step(false, Phase::Selected, Event::StreamOver),
        (Phase::Selected, Action::Ignore)
    );
}

#[test]
fn counts_at_their_limit_are_told() {
    let mut s = state();
    s.dropped_counts.insert("ann".to_string(), usize::MAX);
    let f = flight();
    assert!(room_to_count(&s, &f, Event::Taken { client_gone: false }));
    assert!(!room_to_count(&s, &f, Event::Taken { client_gone: true }));
    let far = Flight::new("bob".to_string(), 1, None);
    assert!(!room_to_count(&s, &far, Event::Taken { client_gone: true }));
    assert!(room_to_count(&s, &far, Event::Responded));
}

fn dispatching_state() -> AppState<()> {
    let model = ParsedModel {
        name: "m".to_string(),
        public_name: None,
        backends: vec![],
        aliases: vec!["mm".to_string()],
        max_concurrent_requests: 3,
        keep_alive: false,
    };
    let mut s: AppState<()> = AppState::new(ModelConfig { models: vec![model] }, None);
    let mut b = BackendStatus::new("http://b".to_string());
    b.configured_models.push("m".to_string());
    b.active_requests = 2;
    b.active_models.insert("m".to_string(), 1);
    b.processed_count = 6;
    b.processed_models.insert("m".to_string(), 4);
    s.backends.push(b);
    s.backends.push(BackendStatus::new("http://c".to_string()));
    s.processing_counts.insert("ann".to_string(), 1);
    accept_request(
        &mut s,
        "ann".to_string(),
        "10.0.0.1".to_string(),
        Incoming {
            method: Method::POST,
            path: "/api/chat".to_string(),
            headers: HeaderMap::new(),
            body: br#"{"model":"mm"}"#.to_vec(),
            responder: (),
        },
    );
    s
}

#[test]
fn a_whole_flight_leaves_no_trace_but_in_what_is_done() {
    let flying = Event::Taken { client_gone: false };
    let courses: [&[Event]; 5] = [
        &[Event::Taken { client_gone: true }],
        &[flying, Event::RequestFailed, Event::ErrorSent],
        &[flying, Event::Responded, Event::StatusSent { delivered: false }],
        &[flying, Event::Responded, Event::StatusSent { delivered: true }, Event::StreamOver],
        &[
            flying,
            Event::Responded,
            Event::StatusSent { delivered: true },
            Event::ChunkRead,
            Event::ChunkSent { delivered: false },
            Event::StreamOver,
        ],
    ];
    for course in courses {
        let mut s = dispatching_state();
        let mut cursor = 0;
        match select_and_prepare_task(&mut s, &mut cursor) {
            SelectionResult::Dispatch(user, task, at, _) => {
                assert_eq!(at, 0);
                assert_eq!(s.backends[0].active_requests, 3);
                assert_eq!(s.backends[0].active_models.count("m"), 2);
                let mut f = Flight::new(user, at, task.resolved_model);
                let actions = run(&mut s, &mut f, course);
                let finished = actions.iter().filter(|a| matches!(a, Action::Finish(_))).count();
                assert_eq!(finished, 1);
            }
            _ => panic!("expected a dispatch"),
        }
        assert_eq!(s.backends[0].active_requests, 2);
        assert_eq!(s.backends[0].active_models.count("m"), 1);
        assert_eq!(s.backends[0].processed_count, 7);
        assert_eq!(s.backends[0].processed_models.count("m"), 5);
        assert_eq!(s.backends[1].processed_count, 0);
        assert_eq!(s.processing_counts.count("ann"), 1);
    }
}

#[test]
fn a_flight_without_a_model_frees_the_backend_alone() {
    let mut s = state();
    let mut f = Flight::new("ann".to_string(), 0, None);
    run(&mut s, &mut f, &[Event::Taken { client_gone: true }]);
    assert_eq!(s.backends[0].active_requests, 0);
    assert_eq!(s.backends[0].active_models.count("m"), 1);
    assert_eq!(s.backends[0].processed_count, 1);
    assert!(!s.backends[0].processed_models.contains_name("m"));
}

#[test]
fn durations_are_short() {
    assert_eq!(format_duration_short(0), "0s");
    assert_eq!(format_duration_short(59), "59s");
    assert_eq!(format_duration_short(60), "1m 0s");
    assert_eq!(format_duration_short(125), "2m 5s");
    assert_eq!(format_duration_short(u64::MAX), "307445734561825860m 15s");
}

#[test]
fn flights_that_were_answered_or_failed_are_logged() {
    let f = flight();
    assert_eq!(
        log_line(&f, Ending::Processed, 75).as_deref(),
        Some("Request finished for user ann using m, duration 1m 15s")
    );
    let plain = Flight::new("bob".to_string(), 0, None);
    assert_eq!(
        log_line(&plain, Ending::Failed, 3).as_deref(),
        Some("Request failed for user bob, duration 3s")
    );
    assert_eq!(log_line(&f, Ending::Refused, 3), None);
    assert_eq!(log_line(&f, Ending::Unheard, 3), None);
    assert_eq!(log_line(&f, Ending::Abandoned, 3), None);
}

#[test]
fn requests_go_to_the_path_under_the_backend() {
    assert_eq!(target_url("http://b:11434", "/api/chat"), "http://b:11434/api/chat");
}
