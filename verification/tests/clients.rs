use all_llama_proxy::admission::{accept_request, refusal, screen, Admission, Incoming};
use all_llama_proxy::catalog::{
    build_models_list, find_model_by_name, first_reading, parse_created_timestamp, tags_to_show,
    CachedModel, CachedTags,
};
use all_llama_proxy::headers::{
    bearer_token, extract_client_ip, forward_headers, header_str, response_headers,
    stated_client_ip,
};
use all_llama_proxy::models::{ModelConfig, ParsedModel};
use all_llama_proxy::replies::{
    backend_error, body_piece, model_not_found, model_unavailable, no_response, opening, Opening,
    ResponsePart,
};
use all_llama_proxy::request::{
    extract_and_resolve_model, names_a_model, normalize_path, peek_model_from_body,
    resolve_request, Resolution,
};
use all_llama_proxy::state::AppState;
use axum::http::{HeaderMap, HeaderValue, Method};

fn headers(pairs: &[(&'static str, &str)]) -> HeaderMap<HeaderValue> {
    let mut map = HeaderMap::new();
    for (name, value) in pairs {
        map.append(*name, HeaderValue::from_str(value).unwrap());
    }
    map
}

fn config() -> ModelConfig {
    ModelConfig {
        models: vec![ParsedModel {
            name: "qwen3:35b".to_string(),
            public_name: Some("Qwen".to_string()),
            backends: vec![],
            aliases: vec!["big".to_string()],
            max_concurrent_requests: 1,
            keep_alive: false,
        }],
    }
}

#[test]
fn the_first_stated_address_counts() {
    let name = Some("X-Forwarded-For".to_string());
    let map = headers(&[("x-forwarded-for", " 10.0.0.1\t, 10.0.0.2"), ("x-forwarded-for", "1.1.1.1")]);
    assert_eq!(stated_client_ip(&map, &name), Some("10.0.0.1"));
    assert_eq!(stated_client_ip(&map, &None), None);
    assert_eq!(stated_client_ip(&map, &Some("no such".to_string())), None);
    assert_eq!(stated_client_ip(&headers(&[("x-forwarded-for", "")]), &name), Some(""));
    let mut odd = HeaderMap::new();
    odd.insert("x-forwarded-for", HeaderValue::from_bytes(b"10.0.0.1\xff").unwrap());
    assert_eq!(stated_client_ip(&odd, &name), None);
    assert_eq!(extract_client_ip(Some("a".to_string()), "b".to_string()), "a");
    assert_eq!(extract_client_ip(None, "b".to_string()), "b");
}

#[test]
fn tokens_are_bearer_tokens() {
    assert_eq!(bearer_token(&headers(&[("authorization", "Bearer abc d")])), Some("abc d"));
    assert_eq!(bearer_token(&headers(&[("authorization", "bearer abc")])), None);
    assert_eq!(bearer_token(&headers(&[("authorization", "Bearer")])), None);
    assert_eq!(bearer_token(&headers(&[("x-other", "Bearer abc")])), None);
    assert_eq!(bearer_token(&headers(&[])), None);
}

#[test]
fn some_headers_are_not_passed_on() {
    let map = headers(&[
        ("host", "h"),
        ("authorization", "Bearer t"),
        ("content-length", "3"),
        ("transfer-encoding", "chunked"),
        ("x-kept", "1"),
        ("x-kept", "2"),
    ]);
    let sent = forward_headers(map.clone());
    let mut names: Vec<&str> = sent.keys().map(|k| k.as_str()).collect();
    names.sort();
    assert_eq!(names, ["transfer-encoding", "x-kept"]);
    assert_eq!(sent.get_all("x-kept").iter().count(), 2);
    let back = response_headers(map);
    let mut names: Vec<&str> = back.keys().map(|k| k.as_str()).collect();
    names.sort();
    assert_eq!(names, ["authorization", "host", "x-kept"]);
    assert_eq!(header_str(&back, "X-KEPT"), Some("1"));
}

#[test]
fn requests_are_screened() {
    let mut state: AppState<()> = AppState::new(config(), None);
    state.blocked_ips.insert("6.6.6.6".to_string());
    state.blocked_users.insert("eve".to_string());
    let user = |name: &str| Some(name.to_string());
    let told = |a: Admission| refusal(&a);
    assert_eq!(told(screen(&state, None, "6.6.6.6")), Some((401, "Unauthorized")));
    assert_eq!(told(screen(&state, user("eve"), "6.6.6.6")), Some((403, "IP blocked")));
    assert_eq!(told(screen(&state, user("eve"), "1.1.1.1")), Some((403, "User blocked")));
    let admission = screen(&state, user("ann"), "1.1.1.1");
    assert_eq!(refusal(&admission), None);
    assert!(matches!(admission, Admission::Admitted(name) if name == "ann"));
}

#[test]
fn accepted_requests_get_in_line_last() {
    let mut state: AppState<u8> = AppState::new(config(), None);
    for (id, model) in [(1u8, "big"), (2, "other")] {
        accept_request(
            &mut state,
            "ann".to_string(),
            format!("10.0.0.{}", id),
            Incoming {
                method: Method::POST,
                path: "/chat/completions".to_string(),
                headers: headers(&[("authorization", "Bearer t"), ("x-kept", "1")]),
                body: format!(r#"{{"model":"{}"}}"#, model).into_bytes(),
                responder: id,
            },
        );
    }
    let line = state.queues.get("ann").unwrap();
    assert_eq!(line.len(), 2);
    assert_eq!((line[0].responder, line[1].responder), (1, 2));
    assert_eq!(line[0].method, Method::POST);
    assert_eq!(line[0].path, "/v1/chat/completions");
    assert_eq!(line[0].requested_model.as_deref(), Some("big"));
    assert_eq!(line[0].resolved_model, None);
    assert_eq!(line[0].headers.len(), 1);
    assert_eq!(line[1].requested_model.as_deref(), Some("other"));
    assert_eq!(state.user_ips.get("ann").map(|s| s.as_str()), Some("10.0.0.2"));
}

#[test]
fn answers_open_with_their_first_part() {
    type Part = ResponsePart<u8, String>;
    assert!(matches!(opening(Some(Part::Status(200, 7))), Opening::Answer(200, 7)));
    assert!(
        matches!(opening(Some(Part::Error("e".to_string()))), Opening::BackendError(e) if e == "e")
    );
    assert!(matches!(opening(Some(Part::Chunk(vec![1]))), Opening::NoResponse));
    assert!(matches!(opening(Some(Part::ModelNotFound("m".to_string()))), Opening::NoResponse));
    assert!(matches!(opening::<u8, String>(None), Opening::NoResponse));
    assert_eq!(body_piece(Part::Chunk(vec![1, 2])), Ok(vec![1, 2]));
    assert_eq!(body_piece(Part::Error("e".to_string())), Err("e".to_string()));
    assert_eq!(body_piece(Part::Status(200, 7)), Ok(vec![]));
    assert_eq!(body_piece(Part::ModelNotFound("m".to_string())), Ok(vec![]));
}

#[test]
fn failures_are_told_in_words() {
    let reply = backend_error("refused");
    assert_eq!((reply.status, reply.text.as_str()), (500, "Backend error: refused"));
    let reply = no_response();
    assert_eq!((reply.status, reply.text.as_str()), (500, "Worker failed to respond"));
    let reply = model_unavailable("gh\"ost");
    assert_eq!(reply.status, 503);
    assert_eq!(
        String::from_utf8(reply.body).unwrap(),
        r#"{"error":"Model 'gh\"ost' not available on any backend"}"#
    );
    let reply = model_not_found("ghost");
    assert_eq!(reply.status, 404);
    assert_eq!(
        String::from_utf8(reply.body).unwrap(),
        r#"{"error":{"code":"model_not_found","message":"Model 'ghost' not found"}}"#
    );
}

#[test]
fn one_path_is_known_otherwise_to_backends() {
    assert_eq!(normalize_path("/chat/completions"), "/v1/chat/completions");
    assert_eq!(normalize_path("/chat/completions/"), "/chat/completions/");
    assert_eq!(normalize_path("/api/chat"), "/api/chat");
}

#[test]
fn model_paths_are_told_by_their_beginning() {
    for path in [
        "/api/generate",
        "/api/chat",
        "/api/embed",
        "/api/embeddings",
        "/chat/completions",
        "/v1/chat/completions",
        "/v1/completions",
        "/v1/embeddings",
        "/v1/responses",
        "/v1/images/generations",
        "/api/chatter",
        "/v1/responses/5",
    ] {
        assert!(names_a_model(path), "{}", path);
    }
    for path in ["/", "/api/show", "/v1/models", "api/chat", "/API/chat", ""] {
        assert!(!names_a_model(path), "{}", path);
    }
}

#[test]
fn bodies_are_peeked_at() {
    assert_eq!(peek_model_from_body(br#"{"model":"m"}"#).as_deref(), Some("m"));
    for body in
        [&b""[..], b"{", b"[]", b"{}", br#"{"model":3}"#, br#"{"model":null}"#, br#""model""#]
    {
        assert_eq!(peek_model_from_body(body), None);
    }
    let deep = format!("{}{}", "[".repeat(200), "]".repeat(200));
    let body = format!(r#"{{"model":"m","x":{}}}"#, deep);
    assert_eq!(peek_model_from_body(body.as_bytes()), None);
}

#[test]
fn rewriting_touches_the_model_alone() {
    let text = r#"{"a":{"model":"big"},"model":"big","stream":true}"#;
    let mut body = text.as_bytes().to_vec();
    let resolved = extract_and_resolve_model(&mut body, "/v1/completions", &config());
    assert_eq!(resolved.as_deref(), Some("qwen3:35b"));
    assert_eq!(body, br#"{"a":{"model":"big"},"model":"qwen3:35b","stream":true}"#);

    let mut body = text.as_bytes().to_vec();
    assert_eq!(extract_and_resolve_model(&mut body, "/api/show", &config()), None);
    assert_eq!(body, text.as_bytes());

    let mut body = b"no json".to_vec();
    assert_eq!(extract_and_resolve_model(&mut body, "/api/chat", &config()), None);
    assert_eq!(body, b"no json");

    let known = br#"{ "model": "qwen3:35b" }"#.to_vec();
    let mut body = known.clone();
    let resolved = extract_and_resolve_model(&mut body, "/api/chat", &config());
    assert_eq!(resolved.as_deref(), Some("qwen3:35b"));
    assert_eq!(body, known);
}

#[test]
fn the_deepest_readable_body_is_still_rewritten() {
    let deep = format!("{}{}", "[".repeat(126), "]".repeat(126));
    let mut body = format!(r#"{{"model":"big","x":{}}}"#, deep).into_bytes();
    let resolved = extract_and_resolve_model(&mut body, "/api/chat", &config());
    assert_eq!(resolved.as_deref(), Some("qwen3:35b"));
    assert_eq!(peek_model_from_body(&body).as_deref(), Some("qwen3:35b"));
    let deeper = format!("{}{}", "[".repeat(127), "]".repeat(127));
    let body = format!(r#"{{"model":"big","x":{}}}"#, deeper).into_bytes();
    assert_eq!(peek_model_from_body(&body), None);
}

#[test]
fn a_body_with_the_reserved_key_is_rewritten_and_not_read_again() {
    let text = r#"{"model":"big","$serde_json::private::RawValue":"x"}"#;
    let mut body = text.as_bytes().to_vec();
    let resolved = extract_and_resolve_model(&mut body, "/api/chat", &config());
    assert_eq!(resolved.as_deref(), Some("qwen3:35b"));
    assert_eq!(body, br#"{"$serde_json::private::RawValue":"x","model":"qwen3:35b"}"#);
    assert_eq!(peek_model_from_body(&body), None);
}

#[test]
fn rewriting_keeps_members_of_every_kind() {
    let mut body = br#"{"a":1,"b":[true,null],"model":"big","n":0.5,"z":{}}"#.to_vec();
    extract_and_resolve_model(&mut body, "/api/chat", &config());
    assert_eq!(body, br#"{"a":1,"b":[true,null],"model":"qwen3:35b","n":0.5,"z":{}}"#);
}

#[test]
fn a_rewritten_body_reads_as_the_document_with_the_model_replaced() {
    let text = r#"{"messages":[{"role":"user","content":"hi"},[1,-2]],"model":"big","n":999999999999999999,"stream":false,"x":null}"#;
    let mut wanted: serde_json::Value = serde_json::from_str(text).unwrap();
    wanted["model"] = serde_json::Value::from("qwen3:35b");
    let mut body = text.as_bytes().to_vec();
    let resolved = extract_and_resolve_model(&mut body, "/api/chat", &config());
    assert_eq!(resolved.as_deref(), Some("qwen3:35b"));
    let read: serde_json::Value = serde_json::from_slice(&body).unwrap();
    assert_eq!(read, wanted);
    assert_eq!(peek_model_from_body(&body), resolved);
}

#[test]
fn texts_in_arrays_stay_beside_fractions() {
    let text = r#"{"messages":[{"content":"a\"b"}],"model":"big","temperature":0.7}"#;
    let mut body = text.as_bytes().to_vec();
    extract_and_resolve_model(&mut body, "/api/chat", &config());
    let read: serde_json::Value = serde_json::from_slice(&body).unwrap();
    assert_eq!(read["messages"][0]["content"].as_str(), Some("a\"b"));
    assert_eq!(read["model"].as_str(), Some("qwen3:35b"));
}

#[test]
fn requests_resolve_against_the_configuration() {
    let asked = |path: &str, name: Option<&str>| {
        resolve_request(path, name.map(|n| n.to_string()), &config())
    };
    assert!(matches!(asked("/api/show", Some("big")), Resolution::NoModel));
    assert!(matches!(asked("/api/chat", None), Resolution::NoModel));
    assert!(matches!(asked("/api/chat", Some("x")), Resolution::Unknown(n) if n == "x"));
    assert!(
        matches!(asked("/api/chat", Some("qwen3:35b")), Resolution::Known(n) if n == "qwen3:35b")
    );
    assert!(matches!(asked("/api/chat", Some("big")), Resolution::Renamed(n) if n == "qwen3:35b"));
}

fn cached(pairs: &[(&str, &str)]) -> Option<CachedTags> {
    Some(CachedTags {
        models: pairs
            .iter()
            .map(|(name, at)| CachedModel { name: name.to_string(), modified_at: at.to_string() })
            .collect(),
    })
}

#[test]
fn times_are_read_in_two_forms() {
    assert_eq!(parse_created_timestamp("2024-01-15T10:30:00Z"), 1705314600);
    assert_eq!(parse_created_timestamp("2024-01-15T10:30:00.123456789+02:00"), 1705307400);
    assert_eq!(parse_created_timestamp("2024-01-15 10:30:00.5+02"), 1705307400);
    let before = parse_created_timestamp("never");
    assert!(before > 1705314600);
    assert!(parse_created_timestamp("") >= before);
}

#[test]
fn the_first_reading_of_a_time_counts() {
    assert_eq!(first_reading(Some(1), Some(2)), Some(1));
    assert_eq!(first_reading(None, Some(2)), Some(2));
    assert_eq!(first_reading(None, None), None);
}

#[test]
fn offered_models_are_listed() {
    let tags = cached(&[("a", "1970-01-01T00:00:05Z"), ("b:7b", "1970-01-01T00:01:00Z")]);
    let list = build_models_list(&tags);
    assert_eq!(list.object, "list");
    let shown: Vec<(&str, &str, i64, &str)> = list
        .data
        .iter()
        .map(|m| (m.id.as_str(), m.object, m.created, m.owned_by.as_str()))
        .collect();
    assert_eq!(
        shown,
        [("a", "model", 5, "all-llama-proxy"), ("b:7b", "model", 60, "all-llama-proxy")]
    );
    assert!(build_models_list(&None).data.is_empty());
    assert_eq!(tags_to_show(&tags).models[1].name, "b:7b");
    assert_eq!(tags_to_show(&tags).models[1].modified_at, "1970-01-01T00:01:00Z");
    assert!(tags_to_show(&None).models.is_empty());
}

#[test]
fn offered_models_are_found_by_any_of_their_names() {
    let tags = cached(&[
        ("other", "1970-01-01T00:00:01Z"),
        ("qwen3:35b", "1970-01-01T00:00:02Z"),
        ("other:latest", "1970-01-01T00:00:03Z"),
    ]);
    let found = |name: &str| find_model_by_name(&tags, &config(), name).map(|m| (m.id, m.created));
    assert_eq!(found("other:latest"), Some(("other".to_string(), 1)));
    assert_eq!(found("qwen3:35b"), Some(("qwen3:35b".to_string(), 2)));
    assert_eq!(found("big"), Some(("qwen3:35b".to_string(), 2)));
    assert_eq!(found("Qwen"), Some(("qwen3:35b".to_string(), 2)));
    assert_eq!(found("qwen3"), None);
    assert!(find_model_by_name(&None, &config(), "big").is_none());
}
