use tagami::cli::{parse_command, Command};
use tagami::gui::{prep_msg, GuiApp, Page, PrepMsg, ReplyPage, ReportMsg, Stage};
use tagami::json::parse_json;
use tagami::slack_api::SlackClient;
use tagami::triage::Prepared;
use tagami::updater::{
    current_version, download_message, read_release, release_url, up_to_date_message,
    update_if_newer, Update, UpdateError,
};
use tagami::watch::{pause_secs, start_message, update_due, Outcome, Watcher};

fn command(list: &[&str]) -> Result<Command, &'static str> {
    parse_command(&list.iter().map(|s| s.to_string()).collect())
}

fn prepared(draft: &str) -> Prepared {
    Prepared {
        sc: SlackClient::new("https://w.slack.com".to_string(), "t".to_string(), "c".to_string()),
        channel: "C1".to_string(),
        thread_ts: "1.5".to_string(),
        incoming: "question".to_string(),
        judgment: "返信必要".to_string(),
        draft: draft.to_string(),
    }
}

fn window(auto: bool) -> GuiApp {
    GuiApp::reply_gui("田上", "w", "/k.md", auto, "2026-06-19".to_string(), 180)
}

#[test]
fn commands() {
    assert!(matches!(command(&["tagami"]), Ok(Command::Home)));
    assert!(matches!(command(&[]), Ok(Command::Home)));
    assert!(matches!(command(&["tagami", "nonsense"]), Ok(Command::Home)));
    assert!(matches!(command(&["tagami", "slack-read"]), Ok(Command::SlackRead)));
    assert!(matches!(command(&["tagami", "copilot-read"]), Ok(Command::CopilotRead)));
    assert!(matches!(command(&["tagami", "copilot-type", "x"]), Ok(Command::CopilotType { text }) if text == "x"));
    assert!(matches!(command(&["tagami", "copilot-ask", "y"]), Ok(Command::CopilotAsk { text }) if text == "y"));
    assert!(matches!(command(&["tagami", "slack-auth"]), Ok(Command::SlackAuth)));
    assert!(matches!(command(&["tagami", "reply-gui"]), Ok(Command::ReplyGui)));
    assert!(matches!(command(&["tagami", "watch"]), Ok(Command::Watch)));
    assert!(matches!(command(&["tagami", "activity"]), Ok(Command::Activity)));
    assert!(matches!(command(&["tagami", "learn"]), Ok(Command::Learn)));
    assert!(matches!(command(&["tagami", "copilot-show"]), Ok(Command::CopilotShow)));
    assert!(matches!(command(&["tagami", "update"]), Ok(Command::Update)));
    assert!(matches!(command(&["tagami", "version"]), Ok(Command::Version)));
    for h in ["help", "-h", "--help"] {
        assert!(matches!(command(&["tagami", h]), Ok(Command::Help)));
    }
}

#[test]
fn commands_that_lack_a_text() {
    assert_eq!(command(&["tagami", "copilot-type"]).err(), Some("usage: tagami copilot-type \"text\""));
    assert_eq!(command(&["tagami", "copilot-ask"]).err(), Some("usage: tagami copilot-ask \"prompt\""));
}

#[test]
fn sending_is_asked_for() {
    assert!(matches!(command(&["tagami", "reply"]), Ok(Command::Reply { send: false })));
    assert!(matches!(command(&["tagami", "reply", "x", "--send"]), Ok(Command::Reply { send: true })));
}

#[test]
fn commands_with_options() {
    assert!(matches!(command(&["tagami", "autostart"]), Ok(Command::Autostart { on: true })));
    assert!(matches!(command(&["tagami", "autostart", "on"]), Ok(Command::Autostart { on: true })));
    assert!(matches!(command(&["tagami", "autostart", "off"]), Ok(Command::Autostart { on: false })));
    assert!(matches!(command(&["tagami", "report"]), Ok(Command::Report { date: None, ai: false })));
    assert!(matches!(command(&["tagami", "report", "--ai"]), Ok(Command::Report { date: None, ai: true })));
    assert!(matches!(
        command(&["tagami", "report", "2026-06-19", "--ai"]),
        Ok(Command::Report { date: Some(d), ai: true }) if d == "2026-06-19"
    ));
}

#[test]
fn the_version() {
    assert_eq!(current_version(), "0.1.0");
    assert_eq!(up_to_date_message(), "最新版です（v0.1.0）。");
    assert_eq!(download_message("v2"), "新バージョン v2 を取得します（現在 v0.1.0）…");
    assert_eq!(release_url(), "https://api.github.com/repos/VegibusIT/tagamiAi/releases/latest");
}

#[test]
fn releases() {
    let asset = "{\"name\": \"other\", \"browser_download_url\": \"u0\"}, {\"name\": \"tagami.exe\", \"browser_download_url\": \"u1\"}, {\"name\": \"tagami.exe\", \"browser_download_url\": \"u2\"}";
    let body = format!("{{\"tag_name\": \"v9.9.9\", \"assets\": [{}]}}", asset);
    assert!(matches!(read_release(&body), Ok(Update::Download { tag, url }) if tag == "v9.9.9" && url == "u1"));
    let same = format!("{{\"tag_name\": \"v0.1.0\", \"assets\": [{}]}}", asset);
    assert!(matches!(read_release(&same), Ok(Update::UpToDate)));
    let j = parse_json(&body).unwrap();
    assert!(matches!(update_if_newer(&j), Ok(Update::Download { .. })));
    let plan = |tag: &str| {
        read_release(&format!("{{\"tag_name\": \"{}\", \"assets\": [{}]}}", tag, asset))
    };
    for tag in ["v0.0.1", "v0.0.99", "0.1.0", "v0.1", "v0.1.0.0", "v0.1.0-rc.1", "v0.0.9+7", "0.1.0+1"] {
        assert!(matches!(plan(tag), Ok(Update::UpToDate)), "{}", tag);
    }
    for tag in [
        "v0.1.1", "v0.2", "v0.10.0", "1", "v0.1.0.1", "v0.2.0-rc.1", "v0.2.0-hotfix", "v0.2.0+1",
        "latest", "v", "v0..2", "v+9.0.0", "v9.x",
    ] {
        assert!(matches!(plan(tag), Ok(Update::Download { tag: t, url }) if t == tag && url == "u1"));
    }
}

#[test]
fn releases_that_cannot_be_used() {
    let e = read_release("{}").err().unwrap();
    assert!(matches!(e, UpdateError::NoRelease));
    assert_eq!(
        e.message(),
        "GitHubにリリースが見つかりません（VegibusIT/tagamiAi）。先に v タグでリリースしてください。"
    );
    let e = read_release("{\"tag_name\": \"v2\", \"assets\": [{\"name\": \"x\"}]}").err().unwrap();
    assert!(matches!(e, UpdateError::NoAsset { .. }));
    assert_eq!(e.message(), "リリース v2 に tagami.exe が見つかりません");
    assert!(read_release("{\"tag_name\": \"v2\"}").is_err());
    for tag in ["v0.2.0-rc.1", "v9.x", "latest"] {
        let e = read_release(&format!("{{\"tag_name\": \"{}\"}}", tag)).err().unwrap();
        assert!(matches!(e, UpdateError::NoAsset { tag: t } if t == tag));
    }
    assert!(read_release("{\"tag_name\": \"v2\", \"assets\": [{\"name\": \"tagami.exe\"}]}").is_err());
    let e = read_release("<html>").err().unwrap();
    assert!(matches!(e, UpdateError::Unreadable));
    assert!(!e.message().is_empty());
}

#[test]
fn pauses() {
    assert_eq!(pause_secs(5), 30);
    assert_eq!(pause_secs(180), 180);
    assert!(!update_due(21599));
    assert!(update_due(21600));
    assert_eq!(start_message("vegibushq"), "常駐を開始 v0.1.0（vegibushq）");
}

#[test]
fn the_backlog_is_not_answered() {
    let mut w = Watcher::new();
    assert!(matches!(w.on_look(false), (Outcome::Remember, false)));
    assert!(matches!(w.on_look(false), (Outcome::Nothing, false)));
    assert!(matches!(w.on_look(true), (Outcome::Open, false)));
}

#[test]
fn a_message_from_after_the_start_is_answered() {
    let mut w = Watcher::new();
    w.on_error("offline".to_string());
    assert!(matches!(w.on_look(true), (Outcome::Open, true)));
    assert!(w.initialized);
    assert!(matches!(w.on_look(false), (Outcome::Nothing, false)));
}

#[test]
fn failures_are_logged_once() {
    let mut w = Watcher::new();
    assert_eq!(w.on_error("offline".to_string()), Some("Slack確認に失敗: offline".to_string()));
    assert_eq!(w.on_error("offline".to_string()), None);
    assert!(w.on_error("denied".to_string()).is_some());
    assert!(w.on_error("offline".to_string()).is_some());
    assert!(matches!(w.on_look(false), (Outcome::Remember, true)));
    assert!(w.on_error("offline".to_string()).is_some());
    assert!(matches!(w.on_look(false), (Outcome::Nothing, true)));
}

#[test]
fn the_window_opens() {
    let home = window(false);
    assert!(matches!(home.page, Page::Home));
    assert!(!home.asked && !home.awaits_reply());
    assert_eq!(home.s_interval, "180");
    assert_eq!(home.r_date, "2026-06-19");
    assert!(matches!(home.reply_page(), ReplyPage::Ask));
    let auto = window(true);
    assert!(matches!(auto.page, Page::Reply));
    assert!(auto.awaits_reply());
    assert!(matches!(auto.reply_page(), ReplyPage::Waiting));
}

#[test]
fn a_prepared_reply_is_shown() {
    let mut g = window(true);
    assert!(g.on_prep(prep_msg(Ok(prepared("draft")))));
    assert!(matches!(g.reply_page(), ReplyPage::Review { open: true }));
    assert_eq!((g.incoming.as_str(), g.draft.as_str()), ("question", "draft"));
    g.draft = "edited".to_string();
    let q = g.send().unwrap();
    assert_eq!(q.url, "https://w.slack.com/api/chat.postMessage");
    assert_eq!(q.form[2], ("text".to_string(), "edited".to_string()));
    assert_eq!(q.form[3], ("thread_ts".to_string(), "1.5".to_string()));
    assert_eq!(g.sent_note(), "返信を送信（ch=C1）");
}

#[test]
fn a_reply_is_posted_once() {
    let mut g = window(true);
    g.on_prep(prep_msg(Ok(prepared("draft"))));
    g.on_sent("true");
    assert_eq!(g.status, "送信しました（ok=true）");
    assert!(g.send().is_none());
    assert!(matches!(g.reply_page(), ReplyPage::Review { open: false }));
    g.show(Page::Home);
    assert!(!g.open_reply());
    assert!(g.send().is_none());
    g.start_reply_load();
    assert!(g.send().is_none());
    assert!(g.status.is_empty());
}

#[test]
fn a_reply_that_is_not_posted() {
    let mut g = window(true);
    g.on_prep(prep_msg(Ok(prepared("draft"))));
    g.on_send_failed("offline");
    assert_eq!(g.status, "送信エラー: offline");
    assert!(g.done);
    let mut g = window(true);
    g.on_prep(prep_msg(Ok(prepared("draft"))));
    g.decline();
    assert_eq!(g.status, "送信しませんでした。");
    assert!(g.send().is_none());
}

#[test]
fn replies_that_are_not_there() {
    let mut g = window(true);
    assert!(!g.on_prep(prep_msg(Ok(prepared("  ")))));
    assert!(matches!(g.stage, Stage::NoReply));
    assert_eq!(g.judgment, "返信必要");
    assert!(matches!(g.reply_page(), ReplyPage::NotNeeded));
    let mut g = window(true);
    g.on_prep(prep_msg(Err("boom".to_string())));
    assert!(matches!(g.reply_page(), ReplyPage::Failed));
    assert_eq!(g.error, "boom");
    g.start_reply_load();
    assert!(g.error.is_empty() && g.awaits_reply());
    g.on_prep(PrepMsg::Lost);
    assert_eq!(g.error, "準備処理が異常終了しました");
}

#[test]
fn pages_are_chosen() {
    let mut g = window(false);
    assert!(g.open_reply());
    assert!(matches!(g.page, Page::Reply));
    assert!(!g.open_reply());
    g.open_report("R".to_string());
    assert!(matches!(g.page, Page::Report));
    assert_eq!(g.shown_report(), "R");
    g.open_log("L".to_string());
    assert!(matches!(g.page, Page::Log));
    g.refresh_log("M".to_string());
    assert_eq!(g.log_text, "M");
    g.show(Page::Settings);
    assert!(matches!(g.page, Page::Settings));
}

#[test]
fn the_page_of_the_report() {
    let mut g = window(false);
    assert!(g.lacks_report());
    assert!(g.shown_report().starts_with("「集計」を押すと"));
    g.fill_report("R".to_string());
    g.start_report_ai();
    assert!(g.r_loading);
    assert_eq!(g.r_msg, "Copilotで自動化候補を抽出中…（30〜60秒）");
    assert!(g.on_report(ReportMsg::Ready("idea".to_string())));
    assert!(!g.r_loading && g.r_msg.is_empty());
    assert_eq!(g.r_ai, "idea");
    g.on_aggregate("R2".to_string());
    assert!(g.r_ai.is_empty());
    g.start_report_ai();
    assert!(!g.on_report(ReportMsg::Error("x".to_string())));
    assert_eq!(g.r_msg, "エラー: x");
    g.start_report_ai();
    assert!(!g.on_report(ReportMsg::Lost));
    assert_eq!(g.r_msg, "処理が異常終了しました");
    g.r_date = " 2026-01-01 ".to_string();
    assert_eq!(g.report_date(), "2026-01-01");
}

#[test]
fn the_page_of_the_settings() {
    let mut g = window(false);
    g.s_persona = " 安河内 ".to_string();
    g.s_interval = "x".to_string();
    let c = g.edited_settings();
    assert_eq!(c.persona, "安河内");
    assert_eq!(c.slack_subdomain, "w");
    assert_eq!(c.knowledge_path, "/k.md");
    assert_eq!(c.watch_interval_secs, 180);
    g.on_saved(None);
    assert_eq!(g.settings_msg, "保存しました（次回起動から反映）");
    g.on_saved(Some("denied".to_string()));
    assert_eq!(g.settings_msg, "保存失敗: denied");
    g.on_autostart(true, None);
    assert_eq!(g.settings_msg, "自動起動を設定しました（次回ログインから有効）");
    g.on_autostart(false, None);
    assert_eq!(g.settings_msg, "自動起動を解除しました");
    g.on_autostart(true, Some("e".to_string()));
    assert_eq!(g.settings_msg, "自動起動の設定に失敗: e");
}
