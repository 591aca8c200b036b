use tagami::json::{field_text, parse_json, Json};
use tagami::slack_api::{
    auth_line, cache_path, load_cache, remember, remembered_creds, save_cache, team_matches,
    ConnectStage, Request, SlackClient,
};

fn json(s: &str) -> Json {
    parse_json(s).unwrap()
}

fn client() -> SlackClient {
    SlackClient::new(
        "https://vegibushq.slack.com".to_string(),
        "xoxc-1".to_string(),
        "xoxd-2".to_string(),
    )
}

fn pairs(list: &[(String, String)]) -> Vec<(&str, &str)> {
    list.iter().map(|p| (p.0.as_str(), p.1.as_str())).collect()
}

fn check(q: &Request, method: &str, fields: &[(&str, &str)]) {
    assert_eq!(q.url, format!("https://vegibushq.slack.com/api/{}", method));
    assert_eq!(
        pairs(&q.headers),
        vec![
            ("Cookie", "d=xoxd-2"),
            ("Origin", "https://app.slack.com"),
            ("User-Agent", "Mozilla/5.0"),
        ]
    );
    let mut form = vec![("token", "xoxc-1")];
    form.extend_from_slice(fields);
    assert_eq!(pairs(&q.form), form);
}

#[test]
fn calls_are_forms() {
    let c = client();
    check(&c.call("a.b", &[("x", "1"), ("y", "2")]), "a.b", &[("x", "1"), ("y", "2")]);
    check(&c.auth_test(), "auth.test", &[]);
    check(
        &c.conversations_history("C1", 30),
        "conversations.history",
        &[("channel", "C1"), ("limit", "30")],
    );
    check(
        &c.conversations(),
        "users.conversations",
        &[
            ("types", "public_channel,private_channel,im,mpim"),
            ("limit", "200"),
            ("exclude_archived", "true"),
        ],
    );
    check(
        &c.post_message("C1", "こんにちは", Some("1.5")),
        "chat.postMessage",
        &[("channel", "C1"), ("text", "こんにちは"), ("thread_ts", "1.5")],
    );
    check(
        &c.post_message("C1", "hi", None),
        "chat.postMessage",
        &[("channel", "C1"), ("text", "hi")],
    );
}

#[test]
fn documents_are_read() {
    let j = json("{\"b\": [1, \"x\", true], \"a\": {\"k\": null}, \"t\": \"語\"}");
    assert_eq!(j.text_at("t"), Some("語".to_string()));
    assert_eq!(j.text_at("b"), None);
    assert_eq!(j.text_or_empty_at("none"), "");
    assert_eq!(j.bool_at("t"), None);
    assert_eq!(j.list_at("b").unwrap().len(), 3);
    assert!(j.list_at("a").is_none());
    assert!(matches!(j.get("a").unwrap().get("k"), Some(Json::Null)));
    assert!(j.get("c").is_none());
    assert!(json("[1]").get("a").is_none());
    assert!(parse_json("{").is_none());
    assert!(parse_json("").is_none());
}

#[test]
fn fields_as_text() {
    let j = json("{\"ok\": true, \"no\": false, \"s\": \"x\", \"n\": 1.5, \"l\": [1,2]}");
    assert_eq!(field_text(&j, "ok"), "true");
    assert_eq!(field_text(&j, "no"), "false");
    assert_eq!(field_text(&j, "s"), "\"x\"");
    assert_eq!(field_text(&j, "n"), "1.5");
    assert_eq!(field_text(&j, "l"), "[1,2]");
    assert_eq!(field_text(&j, "none"), "null");
}

#[test]
fn replies_to_auth_test() {
    assert!(SlackClient::ok(&Some(json("{\"ok\": true}"))));
    assert!(!SlackClient::ok(&Some(json("{\"ok\": false}"))));
    assert!(!SlackClient::ok(&Some(json("{\"ok\": \"true\"}"))));
    assert!(!SlackClient::ok(&Some(json("{}"))));
    assert!(!SlackClient::ok(&None));
    assert_eq!(auth_line(&json("{\"ok\":true}")), "auth.test => {\n  \"ok\": true\n}");
}

#[test]
fn a_session_belongs_to_a_workspace() {
    let j = json("{\"ok\": true, \"url\": \"https://vegibushq.slack.com/\"}");
    assert!(team_matches(&j, "vegibushq"));
    assert!(!team_matches(&j, "m2labo"));
    assert!(!team_matches(&json("{\"ok\": false, \"url\": \"https://a.slack.com/\"}"), "a"));
    assert!(!team_matches(&json("{\"ok\": true}"), "a"));
    let at = |url: &str| team_matches(&json(&format!("{{\"ok\": true, \"url\": \"{}\"}}", url)), "vegibushq");
    assert!(at("https://vegibushq.slack.com"));
    assert!(at("https://me@vegibushq.slack.com:443/x?y#z"));
    assert!(at("https://vegibushq.slack.com?y"));
    assert!(!at("https://notvegibushq.slack.com/"));
    assert!(!at("https://vegibushq.slack.com.example.com/"));
    assert!(!at("https://example.com/vegibushq.slack.com"));
    assert!(!at("https://example.com/?u=https://vegibushq.slack.com/"));
    assert!(at("vegibushq.slack.com"));
    assert!(at("vegibushq.slack.com/x"));
    assert!(!at("notvegibushq.slack.com"));
    assert!(!at("example.com/?u=https://vegibushq.slack.com/"));
    assert!(!at("example.com?u=https://vegibushq.slack.com/"));
    assert!(!at(""));
}

#[test]
fn remembered_credentials_come_first() {
    let c = SlackClient::connect("w", Some(("t".to_string(), "c".to_string())));
    assert!(matches!(c.stage, ConnectStage::Cached));
    let s = c.client();
    assert_eq!((s.host.as_str(), s.token.as_str(), s.cookie.as_str()), ("https://w.slack.com", "t", "c"));
    let mut works = SlackClient::connect("w", Some(("t".to_string(), "c".to_string())));
    works.on_reply(&Some(json("{\"ok\": true, \"url\": \"https://w.slack.com\"}")));
    assert!(matches!(works.stage, ConnectStage::Connected { save: false }));
    let mut stale = SlackClient::connect("w", Some(("t".to_string(), "c".to_string())));
    stale.on_reply(&None);
    assert!(matches!(stale.stage, ConnectStage::Scan));
    assert!(matches!(SlackClient::connect("w", None).stage, ConnectStage::Scan));
}

#[test]
fn pairs_are_tried_in_order() {
    let t1 = format!("t1{}", "x".repeat(80));
    let t2 = format!("t2{}", "x".repeat(78));
    let c1 = format!("c1{}", "x".repeat(118));
    let c2 = format!("c2{}", "x".repeat(119));
    let mut c = SlackClient::connect("w", None);
    c.on_scan(
        vec![t1.clone(), "x".repeat(79), t2.clone()],
        vec!["x".repeat(119), c1.clone(), c2.clone()],
    );
    let mut tried = Vec::new();
    while matches!(c.stage, ConnectStage::Pair { .. }) {
        tried.push((c.current.0.clone(), c.current.1.clone()));
        c.on_reply(&Some(json("{\"ok\": false}")));
    }
    assert_eq!(
        tried,
        vec![
            (t1.clone(), c1.clone()),
            (t1.clone(), c2.clone()),
            (t2.clone(), c1.clone()),
            (t2.clone(), c2.clone()),
        ]
    );
    assert!(matches!(c.stage, ConnectStage::Failed));
    assert_eq!(
        c.failure(),
        "no working Slack creds for 'w' (tokens=2, cookies=2). Is Slack running and logged in to that workspace?"
    );
}

#[test]
fn a_pair_that_works_is_kept() {
    let t = "t".repeat(80);
    let c1 = "c".repeat(120);
    let c2 = "d".repeat(120);
    let mut c = SlackClient::connect("w", None);
    c.on_scan(vec![t.clone()], vec![c1, c2.clone()]);
    c.on_reply(&None);
    c.on_reply(&Some(json("{\"ok\": true, \"url\": \"https://w.slack.com/\"}")));
    assert!(matches!(c.stage, ConnectStage::Connected { save: true }));
    let s = c.client();
    assert_eq!(s.token, t);
    assert_eq!(s.cookie, c2);
}

#[test]
fn nothing_to_try() {
    let mut c = SlackClient::connect("w", None);
    c.on_scan(vec!["t".repeat(80)], Vec::new());
    assert!(matches!(c.stage, ConnectStage::Failed));
}

#[test]
fn saved_credentials_load() {
    let first = save_cache(None, "b", "tok", "ck\"\n語").unwrap();
    assert_eq!(
        first,
        "{\n  \"b\": {\n    \"cookie\": \"ck\\\"\\n語\",\n    \"token\": \"tok\"\n  }\n}"
    );
    assert_eq!(load_cache(&first, "b"), Some(("tok".to_string(), "ck\"\n語".to_string())));
    let second = save_cache(Some(first.as_str()), "a", "t2", "c2").unwrap();
    assert_eq!(load_cache(&second, "b"), Some(("tok".to_string(), "ck\"\n語".to_string())));
    assert_eq!(load_cache(&second, "a"), Some(("t2".to_string(), "c2".to_string())));
    let third = save_cache(Some(second.as_str()), "b", "t3", "c3").unwrap();
    assert_eq!(load_cache(&third, "b"), Some(("t3".to_string(), "c3".to_string())));
    assert_eq!(load_cache(&third, "a"), Some(("t2".to_string(), "c2".to_string())));
    assert_eq!(load_cache(&third, "c"), None);
}

#[test]
fn the_rest_of_the_file_is_kept() {
    let rest = "\"n\": [0, 18446744073709551615, -1, -9223372036854775808, true, null, \"x\"]";
    let saved = save_cache(Some(&format!("{{{}}}", rest)), "a", "t", "c").unwrap();
    let j = json(&saved);
    assert_eq!(remembered_creds(&j, "a"), Some(("t".to_string(), "c".to_string())));
    assert_eq!(
        field_text(&j, "n"),
        "[0,18446744073709551615,-1,-9223372036854775808,true,null,\"x\"]"
    );
    assert!(matches!(&j.list_at("n").unwrap()[1], Json::Unsigned(u64::MAX)));
    assert!(matches!(&j.list_at("n").unwrap()[3], Json::Negative(i64::MIN)));
    assert!(matches!(json("1.5"), Json::Fraction(_)));
    assert!(matches!(json("18446744073709551616"), Json::Fraction(_)));
    let half = save_cache(Some("{\"b\": {\"token\": \"1\", \"cookie\": \"2\"}, \"z\": [0.1, 1.7976931348623157e308, -5e-324, 1e16]}"), "a", "t", "c").unwrap();
    assert_eq!(load_cache(&half, "a"), Some(("t".to_string(), "c".to_string())));
    assert_eq!(load_cache(&half, "b"), Some(("1".to_string(), "2".to_string())));
    assert!(json(&half).list_at("z").unwrap().iter().all(|n| matches!(n, Json::Fraction(_))));
    let nested = |n: usize| format!("{}{}", "[".repeat(n), "]".repeat(n));
    let deep = save_cache(Some(&format!("{{\"z\": {}}}", nested(126))), "a", "t", "c").unwrap();
    assert_eq!(field_text(&json(&deep), "z"), nested(126));
    assert!(parse_json(&nested(127)).is_some());
    assert!(parse_json(&nested(128)).is_none());
}

#[test]
fn files_that_hold_no_credentials() {
    assert_eq!(load_cache("garbage", "a"), None);
    assert_eq!(load_cache("{\"a\": {\"token\": \"t\"}}", "a"), None);
    assert_eq!(load_cache("{\"a\": 5}", "a"), None);
    assert!(save_cache(Some("garbage"), "a", "t", "c").is_some());
    assert!(save_cache(Some("null"), "a", "t", "c").is_some());
    assert!(save_cache(Some("[1]"), "a", "t", "c").is_none());
    assert!(save_cache(Some("\"x\""), "a", "t", "c").is_none());
}

#[test]
fn remembering_keeps_the_rest() {
    let j = remember(json("{\"a\": {\"token\": \"1\", \"cookie\": \"2\"}, \"z\": 7}"), "m", "3", "4");
    assert_eq!(remembered_creds(&j, "a"), Some(("1".to_string(), "2".to_string())));
    assert_eq!(remembered_creds(&j, "m"), Some(("3".to_string(), "4".to_string())));
    assert_eq!(field_text(&j, "z"), "7");
}

#[test]
fn place_of_the_credentials() {
    let p = cache_path(Some("/local".to_string()));
    assert_eq!(std::path::Path::new(&p), std::path::Path::new("/local/tagami/slack_creds.json"));
}
