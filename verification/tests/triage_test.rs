use tagami::json::{parse_json, Json};
use tagami::slack_api::SlackClient;
use tagami::triage::{
    channels_to_scan, find_latest_target, incoming_messages, judge, prepare_reply, reply, reply_request,
    Channel, Incoming, IncomingTarget, Prepared, ReplyPlan, TsKey,
};

fn json(s: &str) -> Json {
    parse_json(s).unwrap()
}

fn incoming(text: &str, mentioned: bool, is_dm: bool) -> Incoming {
    Incoming {
        channel: "C1".to_string(),
        text: text.to_string(),
        thread_ts: "10.5".to_string(),
        ts: "11.5".to_string(),
        mentioned,
        is_dm,
    }
}

fn client() -> SlackClient {
    SlackClient::new("h".to_string(), "t".to_string(), "c".to_string())
}

#[test]
fn conversations_to_look_into() {
    let conv = json(
        "{\"channels\": [{\"id\": \"C1\"}, {\"name\": \"x\"}, {\"id\": \"D1\", \"is_im\": true}, {\"id\": \"G1\", \"is_mpim\": true, \"is_im\": false}]}",
    );
    let got: Vec<(String, bool)> =
        channels_to_scan(&conv, 50).into_iter().map(|c| (c.id, c.is_dm)).collect();
    assert_eq!(
        got,
        vec![("C1".to_string(), false), ("D1".to_string(), true), ("G1".to_string(), true)]
    );
    assert_eq!(channels_to_scan(&conv, 2).len(), 1);
    assert!(channels_to_scan(&json("{\"ok\": false}"), 50).is_empty());
}

#[test]
fn only_messages_for_me() {
    let history = json(
        "{\"messages\": [
            {\"user\": \"ME\", \"text\": \"my own <@ME>\", \"ts\": \"1\"},
            {\"user\": \"U1\", \"text\": \"chatter\", \"ts\": \"2\"},
            {\"user\": \"U1\", \"text\": \"hi <@ME|me> there\", \"ts\": \"3\", \"thread_ts\": \"0.5\"},
            {\"user\": \"U1\", \"text\": \"  \", \"ts\": \"4\"},
            {\"text\": \"<@ME> bot\", \"ts\": \"5\"},
            {\"user\": \"U2\", \"text\": \"<@ME>\"}
        ]}",
    );
    let public = Channel { id: "C1".to_string(), is_dm: false };
    let got = incoming_messages(&history, &public, "ME");
    assert_eq!(got.len(), 2);
    assert_eq!(got[0].text, "hi <@ME|me> there");
    assert_eq!(got[0].thread_ts, "0.5");
    assert_eq!(got[0].ts, "3");
    assert_eq!(got[0].channel, "C1");
    assert!(got[0].mentioned && !got[0].is_dm);
    assert_eq!(got[1].thread_ts, "");
    let direct = Channel { id: "D1".to_string(), is_dm: true };
    let got = incoming_messages(&history, &direct, "ME");
    assert_eq!(got.len(), 3);
    assert_eq!(got[0].text, "chatter");
    assert_eq!(got[0].thread_ts, "2");
    assert!(got[0].is_dm && !got[0].mentioned);
    assert!(incoming_messages(&json("{}"), &direct, "ME").is_empty());
}

#[test]
fn a_mention_names_the_whole_identifier() {
    let c1 = Channel { id: "C1".to_string(), is_dm: false };
    let at = |text: &str, me: &str| {
        let history = json(&format!(
            "{{\"messages\": [{{\"user\": \"U9\", \"text\": \"{}\", \"ts\": \"1.0\"}}]}}",
            text
        ));
        incoming_messages(&history, &c1, me).len()
    };
    assert_eq!(at("<@U123> hi", "U12"), 0);
    assert_eq!(at("<@U123> hi", "U123"), 1);
    assert_eq!(at("hi <@U123|name>", "U123"), 1);
    assert_eq!(at("hi <@U123|name>", "U12"), 0);
    assert_eq!(at("hi @U123", "U123"), 0);
}

#[test]
fn the_latest_message_is_answered() {
    let at = |text: &str, ordered: bool, key: i64| IncomingTarget {
        message: incoming(text, true, false),
        ts: TsKey { ordered, key },
    };
    let list = vec![at("a", true, 5), at("b", true, 9), at("c", true, 9), at("d", true, -1)];
    assert_eq!(find_latest_target(list).unwrap().message.text, "b");
    let list = vec![at("a", false, 5), at("b", true, 9)];
    assert_eq!(find_latest_target(list).unwrap().message.text, "a");
    let list = vec![at("a", true, 5), at("b", false, 9), at("c", true, 6)];
    assert_eq!(find_latest_target(list).unwrap().message.text, "c");
    assert!(find_latest_target(Vec::new()).is_none());
}

#[test]
fn kinds_of_messages() {
    assert_eq!(incoming("x", true, true).kind_name(), "メンション");
    assert_eq!(incoming("x", false, true).kind_name(), "DM");
    assert_eq!(incoming("x", false, false).kind_name(), "メッセージ");
}

#[test]
fn the_prompt_for_a_mention() {
    let p = incoming("お時間 ありますか\n？", true, false).prompt("田上", " 予定: 金曜は休み \n");
    assert_eq!(
        p,
        "【田上に関する前提情報（これに反する推測はしない。ここに無い事実は断定しない）】\n予定: 金曜は休み\n\nあなたは『田上』本人です。次のSlackメッセージへの対応を決めてください。（これはあなた（本人）宛の@メンションです。基本的に何らかの返信をしてください）返信すべきでない（挨拶のみ・雑談・自動通知・どうでもいい内容）なら、出力は『返信不要』だけにしてください。返信すべきなら、1行目に『返信必要』と書き、2行目以降に返信本文だけを書いてください（前置き・解説・引用符なし。予定・可否・事実など自分が確実に知らないことは推測で断定せず、『確認して折り返します』等の確認形に）。\n\nメッセージ:\nお時間 ありますか ？"
    );
}

#[test]
fn the_prompt_without_knowledge() {
    let p = incoming("x", false, true).prompt("P", "  \n");
    assert!(p.starts_with("あなたは『P』本人です。"));
    assert!(p.contains("（これはあなた宛のダイレクトメッセージです）返信すべきでない"));
    assert!(p.ends_with("\n\nメッセージ:\nx"));
    let q = incoming("x", false, false).prompt("P", "");
    assert!(q.contains("決めてください。返信すべきでない"));
}

#[test]
fn a_long_message_is_shortened() {
    let m = incoming(&"あ".repeat(600), true, false);
    assert_eq!(m.excerpt().chars().count(), 500);
}

#[test]
fn a_declined_reply_is_empty() {
    for a in ["返信不要", "  返信不要です", "これは返信不要と考えます", "返信不要\n返信必要"] {
        assert_eq!(judge(a), ("返信不要".to_string(), String::new()), "{}", a);
    }
}

#[test]
fn a_proposed_reply_is_taken() {
    for a in [
        "返信必要\n承知しました。",
        "返信必要：承知しました。",
        "返信必要。 - 承知しました。 ",
        "判断: 返信必要\n\n承知しました。",
        "承知しました。",
    ] {
        assert_eq!(judge(a), ("返信必要".to_string(), "承知しました。".to_string()), "{}", a);
    }
    assert_eq!(judge("返信必要 返信不要の件").1, "返信不要の件");
    assert_eq!(judge("返信必要a返信必要b").1, "a返信必要b");
    assert_eq!(judge(""), ("返信必要".to_string(), String::new()));
}

#[test]
fn a_reply_is_prepared() {
    let p = prepare_reply(client(), incoming("a  b", true, false), "返信必要\n了解です");
    assert_eq!(p.channel, "C1");
    assert_eq!(p.thread_ts, "10.5");
    assert_eq!(p.incoming, "a b");
    assert_eq!(p.judgment, "返信必要");
    assert_eq!(p.draft, "了解です");
    assert_eq!(p.sc.token, "t");
}

#[test]
fn nothing_is_posted_unasked() {
    let with = |draft: &str| Prepared {
        sc: client(),
        channel: String::new(),
        thread_ts: String::new(),
        incoming: String::new(),
        judgment: String::new(),
        draft: draft.to_string(),
    };
    assert!(matches!(reply(&with("x"), false), ReplyPlan::ShowDraft));
    assert!(matches!(reply(&with("x"), true), ReplyPlan::Send));
    assert!(matches!(reply(&with(" \n"), true), ReplyPlan::Skip));
    assert!(matches!(reply(&with(""), false), ReplyPlan::Skip));
    for (draft, send) in [("x", false), (" \n", true), ("", false)] {
        assert!(reply_request(&with(draft), send).is_none());
    }
}

#[test]
fn what_is_posted_goes_to_the_thread() {
    let p = prepare_reply(client(), incoming("a", true, false), "返信必要\n了解です");
    let q = reply_request(&p, true).unwrap();
    assert_eq!(q.url, "h/api/chat.postMessage");
    let form: Vec<(&str, &str)> = q.form.iter().map(|f| (f.0.as_str(), f.1.as_str())).collect();
    assert_eq!(
        form,
        vec![("token", "t"), ("channel", "C1"), ("text", "了解です"), ("thread_ts", "10.5")]
    );
    assert!(reply_request(&p, false).is_none());
}
