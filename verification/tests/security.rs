//! Glob lists and configuration.
use rosbridge::config::{parse_glob_string, Config};
use rosbridge::glob::{allowed, fnmatch};

#[test]
fn star_matches_slashes() {
    assert!(fnmatch("/rosapi/topics", "/rosapi/*"));
    assert!(fnmatch("/a/b/c", "/a/*"));
    assert!(fnmatch("anything", "*"));
}

#[test]
fn exact_and_question() {
    assert!(fnmatch("/foo", "/foo"));
    assert!(!fnmatch("/foo", "/bar"));
    assert!(fnmatch("/foo", "/fo?"));
    assert!(!fnmatch("/foo", "/fo"));
}

#[test]
fn char_classes() {
    assert!(fnmatch("/cam1", "/cam[0-9]"));
    assert!(!fnmatch("/camX", "/cam[0-9]"));
    assert!(fnmatch("/camX", "/cam[!0-9]"));
}

#[test]
fn allowed_semantics() {
    assert!(allowed(&None, "/anything"));
    assert!(!allowed(&Some(vec![]), "/anything"));
    assert!(allowed(&Some(vec!["/ok/*".into()]), "/ok/x"));
    assert!(!allowed(&Some(vec!["/ok/*".into()]), "/no"));
}

#[test]
fn further_patterns_only_allow_more() {
    let one = Some(vec!["/a".to_string()]);
    let two = Some(vec!["/a".to_string(), "/b*".to_string()]);
    assert!(allowed(&one, "/a") && allowed(&two, "/a"));
    assert!(!allowed(&one, "/bc") && allowed(&two, "/bc"));
}

#[test]
fn stars_match_any_sequence() {
    assert!(fnmatch("", "*"));
    assert!(fnmatch("abc", "a*c"));
    assert!(fnmatch("ac", "a*c"));
    assert!(fnmatch("axbxc", "a*b*c"));
    assert!(!fnmatch("axbx", "a*b*c"));
    assert!(!fnmatch("", "?"));
    // A class without an end is a plain bracket.
    assert!(fnmatch("[x", "[x"));
    assert!(!fnmatch("x", "[x"));
}

#[test]
fn glob_parsing() {
    assert_eq!(parse_glob_string(""), None);
    assert_eq!(parse_glob_string("[]"), Some(vec![]));
    assert_eq!(
        parse_glob_string("['/foo/*', \"/bar\"]"),
        Some(vec!["/foo/*".to_string(), "/bar".to_string()])
    );
}

#[test]
fn finalize_merges_legacy_and_rosapi() {
    let mut c = Config {
        topics_glob: Some(vec!["/a".into()]),
        topics_pub_glob: Some(vec!["/b".into()]),
        services_glob: Some(vec!["/svc".into()]),
        ..Default::default()
    };
    c.finalize_globs();
    assert!(c.topics_pub_glob.as_ref().unwrap().contains(&"/a".to_string()));
    assert!(c.topics_sub_glob.as_ref().unwrap().contains(&"/a".to_string()));
    assert!(c.services_glob.as_ref().unwrap().contains(&"/rosapi/*".to_string()));
}

#[test]
fn finalizing_twice_changes_nothing() {
    let mut c = Config {
        topics_glob: Some(vec!["/a".into()]),
        topics_pub_glob: Some(vec!["/b".into()]),
        services_glob: Some(vec!["/svc".into()]),
        ..Default::default()
    };
    c.finalize_globs();
    let lists = (c.topics_pub_glob.clone(), c.topics_sub_glob.clone(), c.services_glob.clone());
    assert_eq!(lists.0, Some(vec!["/b".to_string(), "/a".to_string()]));
    assert_eq!(lists.1, Some(vec!["/a".to_string()]));
    c.finalize_globs();
    assert_eq!(lists, (c.topics_pub_glob, c.topics_sub_glob, c.services_glob));
}

#[test]
fn defaults_match_parity() {
    let c = Config::default();
    assert_eq!(c.port, 9090);
    assert_eq!(c.max_message_size, 1_000_000);
    assert_eq!(f64::from_bits(c.default_call_service_timeout.bits), 5.0);
    assert!(c.call_services_in_new_thread);
}

#[test]
fn the_other_defaults() {
    let c = Config::default();
    assert_eq!(f64::from_bits(c.retry_startup_delay.bits), 2.0);
    assert_eq!(f64::from_bits(c.websocket_ping_interval.bits), 0.0);
    assert_eq!(f64::from_bits(c.websocket_ping_timeout.bits), 30.0);
    assert_eq!(f64::from_bits(c.delay_between_messages.bits), 0.0);
    assert_eq!(f64::from_bits(c.unregister_timeout.bits), 10.0);
    assert_eq!((c.fragment_timeout, c.url_path.as_str(), c.address.as_str()), (600, "/", ""));
    assert!(!c.use_compression && c.send_action_goals_in_new_thread);
}

#[test]
fn tls_needs_both_files() {
    let mut c = Config::default();
    assert!(!c.ssl_enabled());
    c.certfile = "cert.pem".to_string();
    assert!(!c.ssl_enabled());
    c.keyfile = "key.pem".to_string();
    assert!(c.ssl_enabled());
}

#[test]
fn patterns_match_in_parts() {
    for (name, a, b) in [("/x/yy/z", "/?", "z"), ("/x/yy/z", "/x/y", "y/[a-z]"), ("ab", "ab", "b"), ("", "", "")] {
        let split = (0..=name.len()).any(|i| {
            (i..=name.len()).any(|j| fnmatch(&name[..i], a) && fnmatch(&name[j..], b))
        });
        assert_eq!(fnmatch(name, &format!("{a}*{b}")), split);
    }
    for (name, a) in [("/foo", "/fo"), ("/foo", "/f*"), ("", ""), ("x", "")] {
        let cut = !name.is_empty() && fnmatch(&name[..name.len() - 1], a);
        assert_eq!(fnmatch(name, &format!("{a}?")), cut);
    }
}
