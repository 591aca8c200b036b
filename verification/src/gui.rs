//! What the desktop window shows, and what each click and each result does to it.

use vstd::prelude::*;

use crate::autostart::autostart_message;
use crate::config;
use crate::config::Config;
use crate::number;
use crate::slack_api::{Request, SlackClient};
use crate::text;
use crate::triage::{is_empty_draft, Prepared};

verus! {

/// How far a reply is.
#[derive(Clone, Copy)]
pub enum Stage {
    /// It is being prepared.
    Loading,
    /// It can be looked at.
    Ready,
    /// None is needed.
    NoReply,
    /// It could not be prepared.
    Error,
}

/// The pages of the window.
#[derive(Clone, Copy)]
pub enum Page {
    /// The menu.
    Home,
    /// The reply.
    Reply,
    /// The report on a day's work.
    Report,
    /// The logs.
    Log,
    /// The settings.
    Settings,
}

/// What came of preparing a reply.
pub enum PrepMsg {
    /// It can be looked at.
    Ready(Prepared),
    /// None is needed, as this judgment says.
    NoReply(String),
    /// It could not be prepared, for this reason.
    Error(String),
    /// Whoever prepared it is gone.
    Lost,
}

/// What came of asking what could be automated.
pub enum ReportMsg {
    /// This.
    Ready(String),
    /// It could not be asked, for this reason.
    Error(String),
    /// Whoever asked is gone.
    Lost,
}

/// What the page of the reply shows.
#[derive(Clone, Copy)]
pub enum ReplyPage {
    /// A button to ask for a reply.
    Ask,
    /// That the reply is being prepared.
    Waiting,
    /// Why it could not be prepared, and a button to try again.
    Failed,
    /// That none is needed, and a button to look again.
    NotNeeded,
    /// The reply, with buttons to post and to drop it as long as it is `open`, and one to close
    /// the window afterwards.
    Review { open: bool },
}

/// The state of the window.
pub struct GuiApp {
    /// Whose voice the assistant replies in.
    pub persona: String,
    /// The subdomain of the chat workspace.
    pub subdomain: String,
    /// The knowledge base.
    pub knowledge_path: String,
    /// The page that is shown.
    pub page: Page,
    /// Whether a reply was asked for.
    pub asked: bool,
    /// How far the reply is.
    pub stage: Stage,
    /// The message that the reply answers.
    pub incoming: String,
    /// The judgment that was given.
    pub judgment: String,
    /// The reply, as the user edits it.
    pub draft: String,
    /// The session to post it in.
    pub sc: Option<SlackClient>,
    /// The conversation to post it to.
    pub channel: String,
    /// The thread to post it in.
    pub thread_ts: String,
    /// What became of the reply.
    pub status: String,
    /// Why no reply could be prepared.
    pub error: String,
    /// Whether the reply was posted or dropped.
    pub done: bool,
    /// The day that the report is about.
    pub r_date: String,
    /// The report.
    pub r_text: String,
    /// What could be automated.
    pub r_ai: String,
    /// Whether it is being asked what could be automated.
    pub r_loading: bool,
    /// What is said about that.
    pub r_msg: String,
    /// The last lines of the logs.
    pub log_text: String,
    /// The persona, as the user edits it.
    pub s_persona: String,
    /// The subdomain, as the user edits it.
    pub s_subdomain: String,
    /// The knowledge base, as the user edits it.
    pub s_knowledge: String,
    /// The seconds between two looks at the chat, as the user edits them.
    pub s_interval: String,
    /// What became of the settings.
    pub settings_msg: String,
}

/// What is seen of a session.
pub open spec fn client_view(sc: Option<SlackClient>) -> Option<(Seq<char>, Seq<char>, Seq<char>)> {
    match sc {
        Some(c) => Some((c.host@, c.token@, c.cookie@)),
        None => None,
    }
}

/// What is seen of the state of the window.
pub struct GuiView {
    /// Whose voice the assistant replies in.
    pub persona: Seq<char>,
    /// The subdomain of the chat workspace.
    pub subdomain: Seq<char>,
    /// The knowledge base.
    pub knowledge_path: Seq<char>,
    /// The page that is shown.
    pub page: Page,
    /// Whether a reply was asked for.
    pub asked: bool,
    /// How far the reply is.
    pub stage: Stage,
    /// The message that the reply answers.
    pub incoming: Seq<char>,
    /// The judgment that was given.
    pub judgment: Seq<char>,
    /// The reply, as the user edits it.
    pub draft: Seq<char>,
    /// The session to post it in.
    pub sc: Option<(Seq<char>, Seq<char>, Seq<char>)>,
    /// The conversation to post it to.
    pub channel: Seq<char>,
    /// The thread to post it in.
    pub thread_ts: Seq<char>,
    /// What became of the reply.
    pub status: Seq<char>,
    /// Why no reply could be prepared.
    pub error: Seq<char>,
    /// Whether the reply was posted or dropped.
    pub done: bool,
    /// The day that the report is about.
    pub r_date: Seq<char>,
    /// The report.
    pub r_text: Seq<char>,
    /// What could be automated.
    pub r_ai: Seq<char>,
    /// Whether it is being asked what could be automated.
    pub r_loading: bool,
    /// What is said about that.
    pub r_msg: Seq<char>,
    /// The last lines of the logs.
    pub log_text: Seq<char>,
    /// The persona, as the user edits it.
    pub s_persona: Seq<char>,
    /// The subdomain, as the user edits it.
    pub s_subdomain: Seq<char>,
    /// The knowledge base, as the user edits it.
    pub s_knowledge: Seq<char>,
    /// The seconds between two looks at the chat, as the user edits them.
    pub s_interval: Seq<char>,
    /// What became of the settings.
    pub settings_msg: Seq<char>,
}

/// What is seen of a window that was just opened.
pub open spec fn opened(
    persona: Seq<char>,
    subdomain: Seq<char>,
    knowledge_path: Seq<char>,
    auto: bool,
    date: Seq<char>,
    interval_secs: u64,
) -> GuiView {
    GuiView {
        persona,
        subdomain,
        knowledge_path,
        page: if auto {
            Page::Reply
        } else {
            Page::Home
        },
        asked: auto,
        stage: Stage::Loading,
        incoming: Seq::empty(),
        judgment: Seq::empty(),
        draft: Seq::empty(),
        sc: None,
        channel: Seq::empty(),
        thread_ts: Seq::empty(),
        status: Seq::empty(),
        error: Seq::empty(),
        done: false,
        r_date: date,
        r_text: Seq::empty(),
        r_ai: Seq::empty(),
        r_loading: false,
        r_msg: Seq::empty(),
        log_text: Seq::empty(),
        s_persona: persona,
        s_subdomain: subdomain,
        s_knowledge: knowledge_path,
        s_interval: number::decimal(interval_secs as nat),
        settings_msg: Seq::empty(),
    }
}

impl GuiView {
    /// A reply is asked for: what became of the last one is forgotten.
    pub open spec fn with_reply_asked(self) -> GuiView {
        GuiView {
            asked: true,
            stage: Stage::Loading,
            error: Seq::empty(),
            status: Seq::empty(),
            done: false,
            ..self
        }
    }

    /// A reply was prepared, or not.
    pub open spec fn with_prep(self, msg: PrepMsg) -> GuiView {
        match msg {
            PrepMsg::Ready(p) => GuiView {
                incoming: p.incoming@,
                judgment: p.judgment@,
                draft: p.draft@,
                channel: p.channel@,
                thread_ts: p.thread_ts@,
                sc: client_view(Some(p.sc)),
                stage: Stage::Ready,
                ..self
            },
            PrepMsg::NoReply(j) => GuiView { judgment: j@, stage: Stage::NoReply, ..self },
            PrepMsg::Error(e) => GuiView { error: e@, stage: Stage::Error, ..self },
            PrepMsg::Lost => GuiView {
                error: "準備処理が異常終了しました"@,
                stage: Stage::Error,
                ..self
            },
        }
    }

    /// It is asked what could be automated.
    pub open spec fn with_report_asked(self) -> GuiView {
        GuiView {
            r_loading: true,
            r_msg: "Copilotで自動化候補を抽出中…（30〜60秒）"@,
            ..self
        }
    }

    /// It was found what could be automated, or not.
    pub open spec fn with_report(self, msg: ReportMsg) -> GuiView {
        match msg {
            ReportMsg::Ready(a) => GuiView {
                r_ai: a@,
                r_loading: false,
                r_msg: Seq::empty(),
                ..self
            },
            ReportMsg::Error(e) => GuiView { r_loading: false, r_msg: "エラー: "@ + e@, ..self },
            ReportMsg::Lost => GuiView {
                r_loading: false,
                r_msg: "処理が異常終了しました"@,
                ..self
            },
        }
    }

    /// The reply was posted or dropped.
    pub open spec fn with_reply_done(self, status: Seq<char>) -> GuiView {
        GuiView { status, done: true, ..self }
    }
}

/// What came of preparing a reply: one is there only where it says something.
pub fn prep_msg(result: Result<Prepared, String>) -> (r: PrepMsg)
    ensures
        match result {
            Ok(p) => if is_empty_draft(p.draft@) {
                r == PrepMsg::NoReply(p.judgment)
            } else {
                r == PrepMsg::Ready(p)
            },
            Err(e) => r == PrepMsg::Error(e),
        },
{
    match result {
        Ok(p) => {
            if text::blank(p.draft.as_str()) {
                PrepMsg::NoReply(p.judgment)
            } else {
                PrepMsg::Ready(p)
            }
        },
        Err(e) => PrepMsg::Error(e),
    }
}

impl GuiApp {
    /// What is seen of the state.
    pub open spec fn view(&self) -> GuiView {
        GuiView {
            persona: self.persona@,
            subdomain: self.subdomain@,
            knowledge_path: self.knowledge_path@,
            page: self.page,
            asked: self.asked,
            stage: self.stage,
            incoming: self.incoming@,
            judgment: self.judgment@,
            draft: self.draft@,
            sc: client_view(self.sc),
            channel: self.channel@,
            thread_ts: self.thread_ts@,
            status: self.status@,
            error: self.error@,
            done: self.done,
            r_date: self.r_date@,
            r_text: self.r_text@,
            r_ai: self.r_ai@,
            r_loading: self.r_loading,
            r_msg: self.r_msg@,
            log_text: self.log_text@,
            s_persona: self.s_persona@,
            s_subdomain: self.s_subdomain@,
            s_knowledge: self.s_knowledge@,
            s_interval: self.s_interval@,
            settings_msg: self.settings_msg@,
        }
    }

    /// The window as it opens: with the menu or, where a new message is to be answered, with the
    /// page of the reply, which is then asked for.
    pub fn reply_gui(
        persona: &str,
        subdomain: &str,
        knowledge_path: &str,
        auto: bool,
        date: String,
        interval_secs: u64,
    ) -> (r: GuiApp)
        ensures
            r@ == opened(persona@, subdomain@, knowledge_path@, auto, date@, interval_secs),
    {
        let mut app: GuiApp = GuiApp {
            persona: text::copy(persona),
            subdomain: text::copy(subdomain),
            knowledge_path: text::copy(knowledge_path),
            page: if auto {
                Page::Reply
            } else {
                Page::Home
            },
            asked: false,
            stage: Stage::Loading,
            incoming: String::new(),
            judgment: String::new(),
            draft: String::new(),
            sc: None,
            channel: String::new(),
            thread_ts: String::new(),
            status: String::new(),
            error: String::new(),
            done: false,
            r_date: date,
            r_text: String::new(),
            r_ai: String::new(),
            r_loading: false,
            r_msg: String::new(),
            log_text: String::new(),
            s_persona: text::copy(persona),
            s_subdomain: text::copy(subdomain),
            s_knowledge: text::copy(knowledge_path),
            s_interval: number::decimal_text(interval_secs),
            settings_msg: String::new(),
        };
        if auto {
            app.start_reply_load();
        }
        app
    }

    /// A reply is asked for.
    pub fn start_reply_load(&mut self)
        ensures
            final(self)@ == old(self)@.with_reply_asked(),
    {
        self.asked = true;
        self.stage = Stage::Loading;
        self.error = String::new();
        self.status = String::new();
        self.done = false;
    }

    /// Whether a reply is waited for.
    pub fn awaits_reply(&self) -> (r: bool)
        ensures
            r == (self.asked && self.stage is Loading),
    {
        match self.stage {
            Stage::Loading => self.asked,
            _ => false,
        }
    }

    /// Takes what came of preparing a reply, and says whether the window is to come to the front.
    pub fn on_prep(&mut self, msg: PrepMsg) -> (focus: bool)
        requires
            old(self).asked,
            old(self).stage is Loading,
        ensures
            final(self)@ == old(self)@.with_prep(msg),
            focus == (msg is Ready),
    {
        match msg {
            PrepMsg::Ready(p) => {
                self.incoming = p.incoming;
                self.judgment = p.judgment;
                self.draft = p.draft;
                self.channel = p.channel;
                self.thread_ts = p.thread_ts;
                self.sc = Some(p.sc);
                self.stage = Stage::Ready;
                true
            },
            PrepMsg::NoReply(j) => {
                self.judgment = j;
                self.stage = Stage::NoReply;
                false
            },
            PrepMsg::Error(e) => {
                self.error = e;
                self.stage = Stage::Error;
                false
            },
            PrepMsg::Lost => {
                self.error = text::copy("準備処理が異常終了しました");
                self.stage = Stage::Error;
                false
            },
        }
    }

    /// It is asked what could be automated.
    pub fn start_report_ai(&mut self)
        ensures
            final(self)@ == old(self)@.with_report_asked(),
    {
        self.r_loading = true;
        self.r_msg = text::copy("Copilotで自動化候補を抽出中…（30〜60秒）");
    }

    /// Takes what could be automated, and says whether the report is to be shared and the window to
    /// come to the front.
    pub fn on_report(&mut self, msg: ReportMsg) -> (share: bool)
        requires
            old(self).r_loading,
        ensures
            final(self)@ == old(self)@.with_report(msg),
            share == (msg is Ready),
    {
        self.r_loading = false;
        match msg {
            ReportMsg::Ready(a) => {
                self.r_ai = a;
                self.r_msg = String::new();
                true
            },
            ReportMsg::Error(e) => {
                self.r_msg = text::concat("エラー: ", e.as_str());
                false
            },
            ReportMsg::Lost => {
                self.r_msg = text::copy("処理が異常終了しました");
                false
            },
        }
    }

    /// The day that the report is about, without the white space round it.
    pub fn report_date(&self) -> (r: String)
        ensures
            r@ == text::trim(self.r_date@),
    {
        text::trimmed(self.r_date.as_str())
    }

    /// A page is chosen.
    pub fn show(&mut self, page: Page)
        ensures
            final(self)@ == (GuiView { page, ..old(self)@ }),
    {
        self.page = page;
    }

    /// The page of the reply is chosen in the menu. Says whether a reply is asked for by that: it
    /// is, unless one was asked for before.
    pub fn open_reply(&mut self) -> (start: bool)
        ensures
            start == !old(self).asked,
            final(self)@ == if start {
                (GuiView { page: Page::Reply, ..old(self)@ }).with_reply_asked()
            } else {
                GuiView { page: Page::Reply, ..old(self)@ }
            },
    {
        self.page = Page::Reply;
        if self.asked {
            false
        } else {
            self.start_reply_load();
            true
        }
    }

    /// The page of the report is chosen in the menu, with this report on it.
    pub fn open_report(&mut self, report: String)
        ensures
            final(self)@ == (GuiView { page: Page::Report, r_text: report@, ..old(self)@ }),
    {
        self.page = Page::Report;
        self.r_text = report;
    }

    /// The page of the logs is chosen, with these lines on it.
    pub fn open_log(&mut self, lines: String)
        ensures
            final(self)@ == (GuiView { page: Page::Log, log_text: lines@, ..old(self)@ }),
    {
        self.page = Page::Log;
        self.log_text = lines;
    }

    /// The logs are read again.
    pub fn refresh_log(&mut self, lines: String)
        ensures
            final(self)@ == (GuiView { log_text: lines@, ..old(self)@ }),
    {
        self.log_text = lines;
    }

    /// A report is made: what could be automated in the last one is forgotten.
    pub fn on_aggregate(&mut self, report: String)
        ensures
            final(self)@ == (GuiView { r_text: report@, r_ai: Seq::empty(), ..old(self)@ }),
    {
        self.r_text = report;
        self.r_ai = String::new();
    }

    /// Whether a report must be made before it can be asked what could be automated.
    pub fn lacks_report(&self) -> (r: bool)
        ensures
            r == (self.r_text@.len() == 0),
    {
        self.r_text.as_str().is_empty()
    }

    /// A report is made so that it can be asked what could be automated.
    pub fn fill_report(&mut self, report: String)
        requires
            old(self).r_text@.len() == 0,
        ensures
            final(self)@ == (GuiView { r_text: report@, ..old(self)@ }),
    {
        self.r_text = report;
    }

    /// The settings as the user edited them.
    pub fn edited_settings(&self) -> (r: Config)
        ensures
            r.persona@ == text::trim(self.s_persona@),
            r.slack_subdomain@ == text::trim(self.s_subdomain@),
            r.knowledge_path@ == text::trim(self.s_knowledge@),
            r.watch_interval_secs == config::interval(self.s_interval@),
    {
        Config {
            persona: text::trimmed(self.s_persona.as_str()),
            slack_subdomain: text::trimmed(self.s_subdomain.as_str()),
            knowledge_path: text::trimmed(self.s_knowledge.as_str()),
            watch_interval_secs: config::parse_interval(self.s_interval.as_str()),
        }
    }

    /// The settings were saved, or could not be for this reason.
    pub fn on_saved(&mut self, failure: Option<String>)
        ensures
            final(self)@ == (GuiView {
                settings_msg: match failure {
                    Some(e) => "保存失敗: "@ + e@,
                    None => "保存しました（次回起動から反映）"@,
                },
                ..old(self)@
            }),
    {
        self.settings_msg = match failure {
            Some(e) => text::concat("保存失敗: ", e.as_str()),
            None => text::copy("保存しました（次回起動から反映）"),
        };
    }

    /// It was set whether the program starts at logon, or could not be for this reason.
    pub fn on_autostart(&mut self, enabled: bool, failure: Option<String>)
        ensures
            final(self)@ == (GuiView {
                settings_msg: match failure {
                    Some(e) => "自動起動の設定に失敗: "@ + e@,
                    None => if enabled {
                        "自動起動を設定しました（次回ログインから有効）"@
                    } else {
                        "自動起動を解除しました"@
                    },
                },
                ..old(self)@
            }),
    {
        self.settings_msg = match failure {
            Some(e) => text::concat("自動起動の設定に失敗: ", e.as_str()),
            None => text::copy(autostart_message(enabled)),
        };
    }

    /// What the page of the reply shows.
    pub open spec fn shown_page(self) -> ReplyPage {
        if !self.asked {
            ReplyPage::Ask
        } else {
            match self.stage {
                Stage::Loading => ReplyPage::Waiting,
                Stage::Error => ReplyPage::Failed,
                Stage::NoReply => ReplyPage::NotNeeded,
                Stage::Ready => ReplyPage::Review { open: !self.done },
            }
        }
    }

    /// What the page of the reply shows.
    pub fn reply_page(&self) -> (r: ReplyPage)
        ensures
            r == self.shown_page(),
    {
        if !self.asked {
            ReplyPage::Ask
        } else {
            match self.stage {
                Stage::Loading => ReplyPage::Waiting,
                Stage::Error => ReplyPage::Failed,
                Stage::NoReply => ReplyPage::NotNeeded,
                Stage::Ready => ReplyPage::Review { open: !self.done },
            }
        }
    }

    /// The report that the page shows, and how to get one where there is none.
    pub fn shown_report(&self) -> (r: &str)
        ensures
            r@ == if self.r_text@.len() == 0 {
                "「集計」を押すと、その日の作業内訳（アプリ別・上位の作業）が出ます。\n「🤖 自動化候補を出す」でCopilotが自動化できそうな作業を提案します。"@
            } else {
                self.r_text@
            },
    {
        if self.r_text.as_str().is_empty() {
            "「集計」を押すと、その日の作業内訳（アプリ別・上位の作業）が出ます。\n「🤖 自動化候補を出す」でCopilotが自動化できそうな作業を提案します。"
        } else {
            self.r_text.as_str()
        }
    }

    /// What to post where the user sends the reply: the reply as the user edited it, in its thread,
    /// and nothing unless the page shows a reply that was neither posted nor dropped.
    pub fn send(&self) -> (r: Option<Request>)
        ensures
            match r {
                Some(q) => self.shown_page() == (ReplyPage::Review { open: true }) && (self.sc
                    matches Some(sc) && q.is_call(
                    sc,
                    "chat.postMessage"@,
                    seq![
                        ("channel"@, self.channel@),
                        ("text"@, self.draft@),
                        ("thread_ts"@, self.thread_ts@),
                    ],
                )),
                None => self.shown_page() != (ReplyPage::Review { open: true }) || self.sc is None,
            },
    {
        match self.reply_page() {
            ReplyPage::Review { open } => {
                if !open {
                    return None;
                }
            },
            _ => {
                return None;
            },
        }
        match &self.sc {
            Some(sc) => Some(
                sc.post_message(
                    self.channel.as_str(),
                    self.draft.as_str(),
                    Some(self.thread_ts.as_str()),
                ),
            ),
            None => None,
        }
    }

    /// The reply was posted, and the chat said this about it.
    pub fn on_sent(&mut self, ok: &str)
        ensures
            final(self)@ == old(self)@.with_reply_done("送信しました（ok="@ + ok@ + "）"@),
    {
        let mut status: String = text::copy("送信しました（ok=");
        status.push_str(ok);
        status.push_str("）");
        self.status = status;
        self.done = true;
    }

    /// The reply could not be posted, for this reason.
    pub fn on_send_failed(&mut self, reason: &str)
        ensures
            final(self)@ == old(self)@.with_reply_done("送信エラー: "@ + reason@),
    {
        self.status = text::concat("送信エラー: ", reason);
        self.done = true;
    }

    /// The user drops the reply.
    pub fn decline(&mut self)
        ensures
            final(self)@ == old(self)@.with_reply_done("送信しませんでした。"@),
    {
        self.status = text::copy("送信しませんでした。");
        self.done = true;
    }

    /// What to log once the reply was posted.
    pub fn sent_note(&self) -> (r: String)
        ensures
            r@ == "返信を送信（ch="@ + self.channel@ + "）"@,
    {
        let mut out: String = text::copy("返信を送信（ch=");
        out.push_str(self.channel.as_str());
        out.push_str("）");
        out
    }
}

/// A reply is posted at most once: once it was posted or dropped, the page says so, and no choice
/// of a page, no report, no look at the logs and no change of the settings takes that back. Only
/// another reply that is asked for does.
pub proof fn law_reply_is_posted_once(was: GuiView, status: Seq<char>, msg: ReportMsg, page: Page)
    ensures
        was.with_reply_done(status).done,
        was.with_reply_done(status).draft == was.draft,
        (GuiView { page, ..was.with_reply_done(status) }).done,
        was.with_reply_done(status).with_report_asked().done,
        was.with_reply_done(status).with_report(msg).done,
        !was.with_reply_done(status).with_reply_asked().done,
{
}

/// The buttons to post and to drop a reply are there just as long as a reply was asked for, is
/// there and was neither posted nor dropped.
pub proof fn law_only_a_shown_reply_is_open(app: GuiApp)
    ensures
        app.shown_page() == (ReplyPage::Review { open: true }) <==> app.asked && app.stage is Ready
            && !app.done,
{
}

/// What was prepared is what is shown: where a reply is there, the window shows it, the message it
/// answers and the judgment, and would post it where the message stands. Where none is needed, none
/// is shown in the place of an earlier one, and the page says so.
pub proof fn law_prepared_reply_is_shown(was: GuiView, p: Prepared)
    ensures
        ({
            let now = was.with_prep(PrepMsg::Ready(p));
            &&& now.stage is Ready
            &&& now.draft == p.draft@
            &&& now.incoming == p.incoming@
            &&& now.judgment == p.judgment@
            &&& now.channel == p.channel@
            &&& now.thread_ts == p.thread_ts@
            &&& now.done == was.done
        }),
        was.with_prep(PrepMsg::NoReply(p.judgment)).stage is NoReply,
{
}

// ---------------------------------------------------------------------------------------------
// What each event changes, and that it changes nothing else
// ---------------------------------------------------------------------------------------------
/// What is seen of the window is what it holds, each thing in its own place.
pub proof fn law_window_shows_what_it_holds(app: GuiApp)
    ensures
        app@.persona == app.persona@ && app@.subdomain == app.subdomain@ && app@.knowledge_path
            == app.knowledge_path@,
        app@.page == app.page && app@.asked == app.asked && app@.stage == app.stage && app@.done
            == app.done,
        app@.incoming == app.incoming@ && app@.judgment == app.judgment@ && app@.draft
            == app.draft@,
        app.sc is None <==> app@.sc is None,
        app.sc matches Some(c) ==> app@.sc == Some((c.host@, c.token@, c.cookie@)),
        app@.channel == app.channel@ && app@.thread_ts == app.thread_ts@,
        app@.status == app.status@ && app@.error == app.error@,
        app@.r_date == app.r_date@ && app@.r_text == app.r_text@ && app@.r_ai == app.r_ai@,
        app@.r_loading == app.r_loading && app@.r_msg == app.r_msg@,
        app@.log_text == app.log_text@,
        app@.s_persona == app.s_persona@ && app@.s_subdomain == app.s_subdomain@
            && app@.s_knowledge == app.s_knowledge@ && app@.s_interval == app.s_interval@,
        app@.settings_msg == app.settings_msg@,
{
}

/// A window opens with the settings on its pages and nothing else: with the menu, or with the page
/// of a reply that is asked for.
pub proof fn law_window_opens(
    persona: Seq<char>,
    subdomain: Seq<char>,
    knowledge_path: Seq<char>,
    auto: bool,
    date: Seq<char>,
    secs: u64,
)
    ensures
        ({
            let w = opened(persona, subdomain, knowledge_path, auto, date, secs);
            &&& w.persona == persona && w.s_persona == persona
            &&& w.subdomain == subdomain && w.s_subdomain == subdomain
            &&& w.knowledge_path == knowledge_path && w.s_knowledge == knowledge_path
            &&& w.s_interval == number::decimal(secs as nat)
            &&& w.r_date == date
            &&& auto ==> w.page is Reply && w.asked
            &&& !auto ==> w.page is Home && !w.asked
            &&& w.stage is Loading && !w.done && !w.r_loading && w.sc is None
            &&& w.incoming.len() == 0 && w.judgment.len() == 0 && w.draft.len() == 0
            &&& w.channel.len() == 0 && w.thread_ts.len() == 0
            &&& w.status.len() == 0 && w.error.len() == 0
            &&& w.r_text.len() == 0 && w.r_ai.len() == 0 && w.r_msg.len() == 0
            &&& w.log_text.len() == 0 && w.settings_msg.len() == 0
        }),
{
}

/// To ask for a reply forgets what became of the last one, and touches nothing else: with that put
/// back the window is as it was.
pub proof fn law_reply_is_asked_for(was: GuiView)
    ensures
        ({
            let now = was.with_reply_asked();
            &&& now.asked && now.stage is Loading && !now.done
            &&& now.error.len() == 0 && now.status.len() == 0
            &&& was == GuiView {
                asked: was.asked,
                stage: was.stage,
                error: was.error,
                status: was.status,
                done: was.done,
                ..now
            }
        }),
{
}

/// What came of preparing a reply is shown, and nothing else changes: a reply with what it answers
/// and where it goes, a judgment, or the reason why there is none.
pub proof fn law_preparation_is_shown(was: GuiView, p: Prepared, s: String)
    ensures
        ({
            let now = was.with_prep(PrepMsg::Ready(p));
            &&& now.stage is Ready
            &&& now.incoming == p.incoming@ && now.judgment == p.judgment@ && now.draft == p.draft@
            &&& now.channel == p.channel@ && now.thread_ts == p.thread_ts@
            &&& now.sc == Some((p.sc.host@, p.sc.token@, p.sc.cookie@))
            &&& was == GuiView {
                stage: was.stage,
                incoming: was.incoming,
                judgment: was.judgment,
                draft: was.draft,
                channel: was.channel,
                thread_ts: was.thread_ts,
                sc: was.sc,
                ..now
            }
        }),
        ({
            let now = was.with_prep(PrepMsg::NoReply(s));
            &&& now.stage is NoReply && now.judgment == s@
            &&& was == GuiView { stage: was.stage, judgment: was.judgment, ..now }
        }),
        ({
            let now = was.with_prep(PrepMsg::Error(s));
            &&& now.stage is Error && now.error == s@
            &&& was == GuiView { stage: was.stage, error: was.error, ..now }
        }),
        ({
            let now = was.with_prep(PrepMsg::Lost);
            &&& now.stage is Error && now.error == "準備処理が異常終了しました"@
            &&& was == GuiView { stage: was.stage, error: was.error, ..now }
        }),
{
}

/// While it is asked what could be automated the window says so. What comes of it is shown, and
/// nothing else changes: what could be automated, or the reason why it is not known, which leaves
/// what was known before.
pub proof fn law_report_is_asked_and_shown(was: GuiView, s: String)
    ensures
        ({
            let now = was.with_report_asked();
            &&& now.r_loading && now.r_msg == "Copilotで自動化候補を抽出中…（30〜60秒）"@
            &&& was == GuiView { r_loading: was.r_loading, r_msg: was.r_msg, ..now }
        }),
        ({
            let now = was.with_report(ReportMsg::Ready(s));
            &&& !now.r_loading && now.r_ai == s@ && now.r_msg.len() == 0
            &&& was == GuiView {
                r_loading: was.r_loading,
                r_ai: was.r_ai,
                r_msg: was.r_msg,
                ..now
            }
        }),
        ({
            let now = was.with_report(ReportMsg::Error(s));
            &&& !now.r_loading && now.r_msg == "エラー: "@ + s@
            &&& was == GuiView { r_loading: was.r_loading, r_msg: was.r_msg, ..now }
        }),
        ({
            let now = was.with_report(ReportMsg::Lost);
            &&& !now.r_loading && now.r_msg == "処理が異常終了しました"@
            &&& was == GuiView { r_loading: was.r_loading, r_msg: was.r_msg, ..now }
        }),
{
}

/// Once a reply was posted or dropped the window says what became of it, and nothing else changes.
/// The page of the reply shows how far it is.
pub proof fn law_end_of_a_reply_is_shown(was: GuiView, status: Seq<char>, app: GuiApp)
    ensures
        ({
            let now = was.with_reply_done(status);
            &&& now.done && now.status == status
            &&& was == GuiView { done: was.done, status: was.status, ..now }
        }),
        app.shown_page() is Ask <==> !app.asked,
        app.shown_page() is Waiting <==> app.asked && app.stage is Loading,
        app.shown_page() is Failed <==> app.asked && app.stage is Error,
        app.shown_page() is NotNeeded <==> app.asked && app.stage is NoReply,
        app.shown_page() == (ReplyPage::Review { open: false }) <==> app.asked && app.stage is Ready
            && app.done,
{
}

} // verus!
