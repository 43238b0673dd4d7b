use all_llama_proxy::backend::BackendStatus;
use all_llama_proxy::dashboard::{
    apply_cmd, capture_snapshot, receive, CHUNK_SIZE, SHOWN_LOG_LINES,
};
use all_llama_proxy::dispatch::{advance, Action, Ending, Event, Flight};
use all_llama_proxy::models::{ModelConfig, ParsedModel};
use all_llama_proxy::protocol::{
    command_of, consumed_len, decode, decode_command, encode, encode_command, prefix_len,
    DashboardCmd, WireError, MAX_MESSAGE_LEN,
};
use all_llama_proxy::state::{AppState, Task};
use axum::http::{HeaderMap, Method};
use std::collections::VecDeque;

fn commands() -> Vec<DashboardCmd> {
    vec![
        DashboardCmd::ToggleVip("ann".to_string()),
        DashboardCmd::BlockUser("bob".to_string()),
        DashboardCmd::UnblockUser("".to_string()),
        DashboardCmd::BlockIp("10.0.0.1".to_string()),
        DashboardCmd::UnblockIp("\u{fc}\u{20ac}".to_string()),
    ]
}

#[test]
fn messages_read_back() {
    for body in [&b""[..], b"x", b"hello", &[7u8; 300]] {
        let mut message = encode(body).unwrap();
        assert_eq!(message.len(), 4 + body.len());
        assert_eq!(message[..4], (body.len() as u32).to_be_bytes());
        assert_eq!(consumed_len(&message).unwrap(), Some(message.len()));
        assert_eq!(decode(&message).unwrap(), Some(body));
        message.push(9);
        assert_eq!(decode(&message).unwrap(), Some(body));
    }
}

#[test]
fn the_longest_body_is_taken_and_no_longer_one() {
    let longest = vec![0u8; MAX_MESSAGE_LEN];
    let message = encode(&longest).unwrap();
    assert_eq!(message[..4], [0, 0x40, 0, 0]);
    assert_eq!(decode(&message).unwrap().map(|b| b.len()), Some(MAX_MESSAGE_LEN));
    let e = encode(&vec![0u8; MAX_MESSAGE_LEN + 1]).unwrap_err();
    assert_eq!(
        e.message(),
        "encoded message of 4194305 bytes exceeds the 4194304-byte wire limit"
    );
    assert!(matches!(e, WireError::BodyTooLong(4194305)));
}

#[test]
fn partial_messages_wait() {
    let message = encode(b"hello").unwrap();
    for n in 0..message.len() {
        assert_eq!(consumed_len(&message[..n]).unwrap(), None);
        assert_eq!(decode(&message[..n]).unwrap(), None);
    }
    assert_eq!(prefix_len(&message[..3]).unwrap(), None);
    assert_eq!(prefix_len(&message[..4]).unwrap(), Some(5));
}

#[test]
fn an_oversized_announcement_is_refused_on_sight() {
    let header = [0, 0x40, 0, 1];
    for e in [
        prefix_len(&header).unwrap_err(),
        consumed_len(&header).unwrap_err(),
        decode(&header).unwrap_err(),
        decode_command(&header).unwrap_err(),
    ] {
        assert_eq!(
            e.message(),
            "peer advertised a 4194305-byte message, exceeding the 4194304-byte limit"
        );
    }
    assert!(matches!(
        consumed_len(&[0xff; 4]).unwrap_err(),
        WireError::AnnouncedTooLong(0xffff_ffff)
    ));
}

#[test]
fn commands_read_back() {
    for command in commands() {
        let message = encode_command(&command).unwrap();
        let back = decode_command(&message).unwrap().unwrap();
        assert_eq!(back.parts(), command.parts());
        let mut longer = message.clone();
        longer.extend([0, 0, 0, 1]);
        let back = decode_command(&longer).unwrap().unwrap();
        assert_eq!(back.parts(), command.parts());
    }
}

#[test]
fn commands_have_the_shape_of_an_enum_on_the_wire() {
    let message = encode_command(&DashboardCmd::BlockIp("ab".to_string())).unwrap();
    assert_eq!(message, [0, 0, 0, 4, 3, 2, b'a', b'b']);
}

#[test]
fn what_is_no_command_is_malformed() {
    let e = decode_command(&[0, 0, 0, 2, 5, 0]).unwrap_err();
    assert!(matches!(e, WireError::Malformed(_)));
    assert!(e.message().starts_with("bincode decode error: "));
    assert!(e.message().contains("invalid value: integer `5`, expected variant index 0 <= i < 5"));
    for body in [&[0, 0, 0, 1, 5][..], &[0, 0, 0, 2, 7, 9], &[0, 0, 0, 3, 200, 1, 0xff]] {
        let wanted = format!(
            "bincode decode error: OtherString(\"invalid value: integer `{}`, expected variant index 0 <= i < 5\")",
            body[4]
        );
        assert_eq!(decode_command(body).unwrap_err().message(), wanted);
    }
    let e = decode_command(&[0, 0, 0, 0]).unwrap_err();
    assert!(!e.message().contains("invalid value"));
    let e = decode_command(&[0, 0, 0, 2, 0, 9]).unwrap_err();
    assert!(!e.message().contains("invalid value"));
    assert!(e.message().starts_with("bincode decode error: "));
    let e = decode_command(&[0, 0, 0, 3, 0, 1, 0xff]).unwrap_err();
    assert!(matches!(e, WireError::Malformed(_)));
    assert!(matches!(
        command_of(Err("why".to_string()), None),
        Err(WireError::Malformed(reason)) if reason == "why"
    ));
    assert!(matches!(
        command_of(Err("why".to_string()), Some(4)),
        Err(WireError::Malformed(reason)) if reason == "why"
    ));
    assert!(matches!(
        command_of(Err("why".to_string()), Some(5)),
        Err(WireError::Malformed(reason)) if reason.contains("`5`")
    ));
    assert!(matches!(
        command_of(Ok((1, "ann".to_string())), Some(1)),
        Ok(DashboardCmd::BlockUser(user)) if user == "ann"
    ));
}

#[test]
fn commands_are_found_wherever_the_stream_is_cut() {
    let mut stream = vec![];
    for command in commands() {
        stream.extend(encode_command(&command).unwrap());
    }
    let tail = stream.len();
    stream.extend([0, 0, 0, 9, 1]);
    for step in [1, 2, 3, 5, 8, CHUNK_SIZE] {
        let mut buffer = vec![];
        let mut found = vec![];
        for chunk in stream.chunks(step) {
            let (commands, refused) = receive(&mut buffer, chunk);
            assert!(refused.is_none());
            found.extend(commands);
        }
        assert_eq!(buffer, stream[tail..]);
        let wanted = commands();
        assert_eq!(found.len(), wanted.len());
        for (a, b) in found.iter().zip(&wanted) {
            assert_eq!(a.parts(), b.parts());
        }
    }
}

#[test]
fn messages_without_a_command_are_passed_over() {
    let mut stream = encode(&[200]).unwrap();
    stream.extend(encode(b"").unwrap());
    stream.extend(encode_command(&DashboardCmd::BlockUser("ann".to_string())).unwrap());
    let mut buffer = vec![];
    let (found, refused) = receive(&mut buffer, &stream);
    assert_eq!(found.len(), 1);
    assert_eq!(found[0].parts(), (1, "ann"));
    assert!(refused.is_none());
    assert!(buffer.is_empty());
}

#[test]
fn commands_ahead_of_a_bad_announcement_are_found() {
    let mut stream = encode_command(&DashboardCmd::ToggleVip("ann".to_string())).unwrap();
    stream.extend([1, 0, 0, 0, 5]);
    let mut buffer = vec![];
    let (found, refused) = receive(&mut buffer, &stream);
    assert_eq!(found.len(), 1);
    assert!(matches!(refused, Some(WireError::AnnouncedTooLong(0x1000000))));
}

fn state() -> AppState<u8> {
    let named = |name: &str, public: Option<&str>| ParsedModel {
        name: name.to_string(),
        public_name: public.map(|p| p.to_string()),
        backends: vec![],
        aliases: vec![],
        max_concurrent_requests: 1,
        keep_alive: false,
    };
    let config = ModelConfig {
        models: vec![named("a", None), named("b", Some("Bee")), named("a", Some("Again"))],
    };
    AppState::new(config, None)
}

fn line(n: usize) -> VecDeque<Task<u8>> {
    (0..n)
        .map(|_| Task {
            method: Method::GET,
            path: "/".to_string(),
            headers: HeaderMap::new(),
            body: vec![],
            responder: 0,
            requested_model: None,
            resolved_model: None,
        })
        .collect()
}

#[test]
fn a_snapshot_shows_the_state() {
    let mut s = state();
    s.queues.insert("ann".to_string(), line(2));
    s.queues.insert("bob".to_string(), line(0));
    s.processing_counts.insert("bob".to_string(), 5);
    s.processed_counts.insert("ann".to_string(), 7);
    s.dropped_counts.insert("ann".to_string(), 1);
    s.user_ips.insert("ann".to_string(), "10.0.0.1".to_string());
    s.blocked_ips.insert("10.0.0.2".to_string());
    s.blocked_users.insert("eve".to_string());
    s.vip_user.push("ann".to_string());
    let mut b = BackendStatus::new("http://b".to_string());
    b.active_requests = 3;
    b.processed_count = 4;
    b.is_online = false;
    b.active_models.insert("a".to_string(), 1);
    b.processed_models.insert("b".to_string(), 2);
    b.configured_models.push("a".to_string());
    b.model_status.insert("a".to_string(), true);
    s.backends.push(b);
    for i in 0..12 {
        s.log_lines.push(("INFO".to_string(), i, format!("line {}", i)));
    }

    let shot = capture_snapshot(&s);
    assert_eq!(shot.queues_len.get("ann"), Some(&2));
    assert_eq!(shot.queues_len.get("bob"), Some(&0));
    assert_eq!(shot.queues_len.names().len(), 2);
    assert_eq!(shot.processing_counts.get("bob"), Some(&5));
    assert_eq!(shot.processed_counts.get("ann"), Some(&7));
    assert_eq!(shot.dropped_counts.get("ann"), Some(&1));
    assert_eq!(shot.user_ips.get("ann").map(|s| s.as_str()), Some("10.0.0.1"));
    assert!(shot.blocked_ips.contains("10.0.0.2"));
    assert_eq!(shot.blocked_users.names(), ["eve"]);
    assert_eq!(shot.vip_list, ["ann"]);
    assert_eq!(shot.user_ids, ["bob", "ann"]);
    let b = &shot.backends[0];
    assert_eq!((b.url.as_str(), b.active_requests, b.processed_count), ("http://b", 3, 4));
    assert!(!b.is_online);
    assert_eq!(b.active_models.get("a"), Some(&1));
    assert_eq!(b.processed_models.get("b"), Some(&2));
    assert_eq!(b.configured_models, ["a"]);
    assert_eq!(b.model_status.get("a"), Some(&true));
    assert_eq!(shot.model_public_names.get("a").map(|s| s.as_str()), Some("Again"));
    assert_eq!(shot.model_public_names.get("b").map(|s| s.as_str()), Some("Bee"));
    assert_eq!(shot.log_lines.len(), SHOWN_LOG_LINES);
    assert_eq!(shot.log_lines[0], ("INFO".to_string(), 2, "line 2".to_string()));
    assert_eq!(shot.log_lines[9].1, 11);
}

#[test]
fn users_are_shown_by_load_history_and_name() {
    let mut s = state();
    for user in ["d", "c", "b", "a"] {
        s.queues.insert(user.to_string(), line(1));
    }
    s.processing_counts.insert("d".to_string(), 1);
    s.processed_counts.insert("c".to_string(), 1);
    s.dropped_counts.insert("c".to_string(), 1);
    s.processed_counts.insert("b".to_string(), 1);
    assert_eq!(capture_snapshot(&s).user_ids, ["d", "c", "b", "a"]);
    s.processed_counts.insert("a".to_string(), 1);
    assert_eq!(capture_snapshot(&s).user_ids, ["d", "c", "a", "b"]);
}

#[test]
fn a_model_without_a_public_name_is_shown_under_its_own() {
    let mut s = state();
    s.model_config.models.truncate(1);
    let shot = capture_snapshot(&s);
    assert_eq!(shot.model_public_names.get("a").map(|s| s.as_str()), Some("a"));
}

#[test]
fn toggling_gives_and_takes_the_rank() {
    let mut s = state();
    s.vip_user = ["x", "y", "x"].iter().map(|v| v.to_string()).collect();
    apply_cmd(&mut s, DashboardCmd::ToggleVip("ann".to_string()), None);
    assert_eq!(s.vip_user, ["x", "y", "x", "ann"]);
    apply_cmd(&mut s, DashboardCmd::ToggleVip("ann".to_string()), None);
    assert_eq!(s.vip_user, ["x", "y", "x"]);
    apply_cmd(&mut s, DashboardCmd::ToggleVip("x".to_string()), None);
    assert_eq!(s.vip_user, ["y"]);
}

#[test]
fn users_are_blocked_and_unblocked() {
    let mut s = state();
    apply_cmd(&mut s, DashboardCmd::BlockUser("ann".to_string()), None);
    apply_cmd(&mut s, DashboardCmd::BlockUser("ann".to_string()), None);
    assert!(s.is_user_blocked("ann"));
    apply_cmd(&mut s, DashboardCmd::UnblockUser("ann".to_string()), None);
    assert!(!s.is_user_blocked("ann"));
}

#[test]
fn addresses_are_blocked_and_unblocked_where_they_are_addresses() {
    let mut s = state();
    let ip = Some("10.0.0.1".to_string());
    apply_cmd(&mut s, DashboardCmd::BlockIp("10.0.0.1".to_string()), ip.clone());
    assert!(s.is_ip_blocked("10.0.0.1"));
    apply_cmd(&mut s, DashboardCmd::UnblockIp("nonsense".to_string()), None);
    assert!(s.is_ip_blocked("10.0.0.1"));
    apply_cmd(&mut s, DashboardCmd::UnblockIp("10.0.0.1".to_string()), ip);
    assert!(!s.is_ip_blocked("10.0.0.1"));
    apply_cmd(&mut s, DashboardCmd::BlockIp("nonsense".to_string()), None);
    assert!(!s.is_ip_blocked("nonsense"));
}

#[test]
fn a_block_takes_hold_of_requests_in_line() {
    let taken = Event::Taken { client_gone: false };
    let mut s = state();
    s.backends.push(BackendStatus::new("http://b".to_string()));
    s.user_ips.insert("ann".to_string(), "10.0.0.1".to_string());
    let mut f = Flight::new("ann".to_string(), 0, None);
    assert_eq!(advance(&mut s, &mut f, taken), Action::SendRequest);
    let ip = Some("10.0.0.1".to_string());
    apply_cmd(&mut s, DashboardCmd::BlockIp("10.0.0.1".to_string()), ip);
    let mut f = Flight::new("ann".to_string(), 0, None);
    assert_eq!(advance(&mut s, &mut f, taken), Action::Finish(Ending::Refused));
}

#[test]
fn the_buffer_stays_below_the_longest_message() {
    let message = encode(&vec![200u8; MAX_MESSAGE_LEN]).unwrap();
    let mut buffer = vec![];
    let mut largest = 0;
    for chunk in message.chunks(CHUNK_SIZE) {
        let (found, refused) = receive(&mut buffer, chunk);
        assert!(found.is_empty() && refused.is_none());
        largest = largest.max(buffer.len());
    }
    assert!(largest < 4 + MAX_MESSAGE_LEN);
    assert!(buffer.is_empty());
}

#[test]
fn commands_are_cloned_whole() {
    for command in commands() {
        assert_eq!(command.clone().parts(), command.parts());
    }
}
