use all_llama_proxy::models::{model_names_match, ModelConfig, ParsedModel};
use all_llama_proxy::names::{list_contains, NameMap, NameSet};
use all_llama_proxy::ranking::{names_of, sort_ranked, Ranked};
use all_llama_proxy::text::{
    comes_before, has_char, join, push_decimal, same_text, starts_with, strip_prefix,
    text_before_first, trim_blanks,
};

fn model(name: &str, public_name: Option<&str>, aliases: &[&str]) -> ParsedModel {
    ParsedModel {
        name: name.to_string(),
        public_name: public_name.map(|s| s.to_string()),
        backends: vec![],
        aliases: aliases.iter().map(|s| s.to_string()).collect(),
        max_concurrent_requests: 4,
        keep_alive: false,
    }
}

#[test]
fn the_latest_tag_is_optional() {
    assert!(model_names_match("foo", "foo:latest"));
    assert!(model_names_match("foo:latest", "foo"));
    assert!(model_names_match("foo:7b", "foo:7b"));
    assert!(!model_names_match("foo", "foo:7b"));
    assert!(!model_names_match("foo", "Foo"));
}

#[test]
fn models_resolve_to_their_configured_names() {
    let config = ModelConfig {
        models: vec![
            model("qwen3:35b", Some("Qwen"), &["big", "huge"]),
            model("muse", None, &["small"]),
        ],
    };
    for (asked, name) in [
        ("qwen3:35b", Some("qwen3:35b")),
        ("Qwen", Some("qwen3:35b")),
        ("huge", Some("qwen3:35b")),
        ("muse:latest", Some("muse")),
        ("small", Some("muse")),
        ("qwen3", None),
        ("", None),
    ] {
        assert_eq!(config.resolve_alias(asked).as_deref(), name, "{}", asked);
    }
    assert_eq!(config.get_model("muse").unwrap().max_concurrent_requests, 4);
    assert!(config.get_model("none").is_none());
}

#[test]
fn maps_hold_each_name_once() {
    let mut map: NameMap<usize> = NameMap::new();
    map.insert("a".to_string(), 1);
    map.insert("b".to_string(), 2);
    map.insert("a".to_string(), 3);
    assert_eq!(map.get("a"), Some(&3));
    assert_eq!(map.names().len(), 2);
    map.add_one("c");
    assert_eq!(map.count("c"), 1);
    map.take_one("c");
    map.take_one("c");
    assert_eq!(map.get("c"), Some(&0));
    assert_eq!(map.count("d"), 0);
    assert!(!map.contains_name("d"));
    assert_eq!(map.duplicate().get("b"), Some(&2));
    assert_eq!(map.take("a"), Some(3));
    assert_eq!(map.take("a"), None);
}

#[test]
fn sets_hold_each_name_once() {
    let mut set = NameSet::new();
    assert!(set.insert("a".to_string()));
    assert!(!set.insert("a".to_string()));
    assert!(set.insert("b".to_string()));
    assert_eq!(set.names().len(), 2);
    assert!(set.duplicate().contains("b"));
    assert!(set.remove("a"));
    assert!(!set.remove("a"));
    assert!(!set.contains("a"));
    assert!(list_contains(&vec!["x".to_string()], "x"));
}

#[test]
fn names_are_put_in_order() {
    let item = |major: i128, minor: i128, name: &str| Ranked { major, minor, name: name.to_string() };
    let sorted = sort_ranked(vec![
        item(2, 0, "a"),
        item(1, 5, "z"),
        item(1, 5, "b"),
        item(1, -1, "y"),
    ]);
    assert_eq!(names_of(&sorted), ["y", "b", "z", "a"]);
}

#[test]
fn texts_are_taken_apart_and_put_together() {
    assert!(same_text("\u{e4}b", "\u{e4}b"));
    assert!(!same_text("a", "ab"));
    assert!(starts_with("abc", "ab"));
    assert_eq!(strip_prefix("Bearer x", "Bearer "), Some("x"));
    assert_eq!(strip_prefix("Bear", "Bearer "), None);
    assert_eq!(text_before_first("a,b,c", ','), "a");
    assert_eq!(text_before_first("abc", ','), "abc");
    assert!(has_char("a:b", ':'));
    assert_eq!(trim_blanks(" \ta b\t "), "a b");
    assert_eq!(join("a", "b"), "ab");
    let mut out = String::from("n=");
    push_decimal(&mut out, 18446744073709551615);
    assert_eq!(out, "n=18446744073709551615");
}

#[test]
fn texts_are_ordered_as_strings_are() {
    let words = ["", "a", "aa", "ab", "b", "\u{e4}", "\u{20ac}", "\u{ffff}", "\u{1f600}"];
    for a in words {
        for b in words {
            assert_eq!(comes_before(a, b), a < b, "{} {}", a, b);
        }
    }
}
