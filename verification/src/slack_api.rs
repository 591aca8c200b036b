//! The chat service's Web API, used through the session of the local desktop client.
//!
//! Each call is a form that is posted to `https://<workspace>.slack.com/api/<method>`, with the
//! workspace's token as its first field and the `d` cookie in a header. What to post, what a
//! reply means and which credentials to try next is decided here; the caller posts.

use vstd::prelude::*;
use vstd::utf8::encode_utf8;

use crate::json;
use crate::json::{
    as_bool, as_text, entry, field, is_whole, member, regular, same_but_fractions, Json, JsonView,
};
use crate::number;
use crate::order;
use crate::order::before;
use crate::paths;
use crate::text;

verus! {

/// A form to post.
pub struct Request {
    /// Where to post it.
    pub url: String,
    /// The headers that go with it.
    pub headers: Vec<(String, String)>,
    /// The fields of the form.
    pub form: Vec<(String, String)>,
}

/// What is seen of a list of pairs of texts.
pub open spec fn pairs(v: Seq<(String, String)>) -> Seq<(Seq<char>, Seq<char>)> {
    Seq::new(v.len(), |i: int| (v[i].0@, v[i].1@))
}

/// What is seen of a list of pairs of texts.
pub open spec fn str_pairs(v: Seq<(&str, &str)>) -> Seq<(Seq<char>, Seq<char>)> {
    Seq::new(v.len(), |i: int| (v[i].0@, v[i].1@))
}

/// A session with a workspace.
pub struct SlackClient {
    /// The address of the workspace, such as `https://vegibushq.slack.com`.
    pub host: String,
    /// The workspace's token.
    pub token: String,
    /// The value of the `d` cookie.
    pub cookie: String,
}

impl Request {
    /// This is the call of the method with these fields, in this session.
    pub open spec fn is_call(
        self,
        client: SlackClient,
        method: Seq<char>,
        params: Seq<(Seq<char>, Seq<char>)>,
    ) -> bool {
        &&& self.url@ == client.host@ + "/api/"@ + method
        &&& pairs(self.headers@) == seq![
            ("Cookie"@, "d="@ + client.cookie@),
            ("Origin"@, "https://app.slack.com"@),
            ("User-Agent"@, "Mozilla/5.0"@),
        ]
        &&& pairs(self.form@) == seq![("token"@, client.token@)] + params
    }
}

fn pair(a: &str, b: &str) -> (r: (String, String))
    ensures
        r.0@ == a@,
        r.1@ == b@,
{
    (text::copy(a), text::copy(b))
}

/// The address of a workspace.
pub open spec fn host_of(subdomain: Seq<char>) -> Seq<char> {
    "https://"@ + subdomain + ".slack.com"@
}

impl SlackClient {
    /// A session with these credentials.
    pub fn new(host: String, token: String, cookie: String) -> (r: SlackClient)
        ensures
            r.host == host,
            r.token == token,
            r.cookie == cookie,
    {
        SlackClient { host, token, cookie }
    }

    /// The call of a method with these fields.
    pub fn call(&self, method: &str, params: &[(&str, &str)]) -> (r: Request)
        ensures
            r.is_call(*self, method@, str_pairs(params@)),
    {
        let mut url: String = text::copy(self.host.as_str());
        url.push_str("/api/");
        url.push_str(method);
        let mut headers: Vec<(String, String)> = Vec::new();
        headers.push((text::copy("Cookie"), text::concat("d=", self.cookie.as_str())));
        headers.push(pair("Origin", "https://app.slack.com"));
        headers.push(pair("User-Agent", "Mozilla/5.0"));
        let mut form: Vec<(String, String)> = Vec::new();
        form.push(pair("token", self.token.as_str()));
        let ghost all = seq![("token"@, self.token@)] + str_pairs(params@);
        let mut i: usize = 0;
        while i < params.len()
            invariant
                i <= params@.len(),
                all == seq![("token"@, self.token@)] + str_pairs(params@),
                pairs(form@) =~= all.take(i + 1),
            decreases params@.len() - i,
        {
            let ghost was = form@;
            form.push(pair(params[i].0, params[i].1));
            proof {
                assert(pairs(was).len() == i + 1);
                assert(pairs(form@) =~= pairs(was).push(str_pairs(params@)[i as int]));
                assert(all.take(i + 2) =~= all.take(i + 1).push(all[i + 1]));
            }
            i = i + 1;
        }
        assert(all.take(all.len() as int) =~= all);
        assert(pairs(headers@) =~= seq![
            ("Cookie"@, "d="@ + self.cookie@),
            ("Origin"@, "https://app.slack.com"@),
            ("User-Agent"@, "Mozilla/5.0"@),
        ]);
        Request { url, headers, form }
    }

    /// Asks who the session belongs to.
    pub fn auth_test(&self) -> (r: Request)
        ensures
            r.is_call(*self, "auth.test"@, Seq::empty()),
    {
        let params: [(&str, &str); 0] = [];
        let r: Request = self.call("auth.test", params.as_slice());
        assert(str_pairs(params@) =~= Seq::<(Seq<char>, Seq<char>)>::empty());
        r
    }

    /// Whether the reply to `auth_test` says that the session works; none means that no reply was
    /// had.
    pub fn ok(reply: &Option<Json>) -> (r: bool)
        ensures
            r == (reply matches Some(j) && as_bool(field(j@, "ok"@)) == Some(true)),
    {
        match reply {
            Some(j) => match j.bool_at("ok") {
                Some(b) => b,
                None => false,
            },
            None => false,
        }
    }

    /// Asks for the last messages of a channel.
    pub fn conversations_history(&self, channel: &str, limit: u32) -> (r: Request)
        ensures
            r.is_call(
                *self,
                "conversations.history"@,
                seq![("channel"@, channel@), ("limit"@, number::decimal(limit as nat))],
            ),
    {
        let l: String = number::decimal_text(limit as u64);
        let params: [(&str, &str); 2] = [("channel", channel), ("limit", l.as_str())];
        let r: Request = self.call("conversations.history", params.as_slice());
        assert(str_pairs(params@) =~= seq![
            ("channel"@, channel@),
            ("limit"@, number::decimal(limit as nat)),
        ]);
        r
    }

    /// Posts a message, as a reply within a thread where one is named.
    pub fn post_message(&self, channel: &str, text: &str, thread_ts: Option<&str>) -> (r: Request)
        ensures
            r.is_call(
                *self,
                "chat.postMessage"@,
                match thread_ts {
                    Some(t) => seq![
                        ("channel"@, channel@),
                        ("text"@, text@),
                        ("thread_ts"@, t@),
                    ],
                    None => seq![("channel"@, channel@), ("text"@, text@)],
                },
            ),
    {
        match thread_ts {
            Some(t) => {
                let params: [(&str, &str); 3] = [
                    ("channel", channel),
                    ("text", text),
                    ("thread_ts", t),
                ];
                let r: Request = self.call("chat.postMessage", params.as_slice());
                assert(str_pairs(params@) =~= seq![
                    ("channel"@, channel@),
                    ("text"@, text@),
                    ("thread_ts"@, t@),
                ]);
                r
            },
            None => {
                let params: [(&str, &str); 2] = [("channel", channel), ("text", text)];
                let r: Request = self.call("chat.postMessage", params.as_slice());
                assert(str_pairs(params@) =~= seq![("channel"@, channel@), ("text"@, text@)]);
                r
            },
        }
    }

    /// Asks for the conversations that the user is in.
    pub fn conversations(&self) -> (r: Request)
        ensures
            r.is_call(
                *self,
                "users.conversations"@,
                seq![
                    ("types"@, "public_channel,private_channel,im,mpim"@),
                    ("limit"@, "200"@),
                    ("exclude_archived"@, "true"@),
                ],
            ),
    {
        let params: [(&str, &str); 3] = [
            ("types", "public_channel,private_channel,im,mpim"),
            ("limit", "200"),
            ("exclude_archived", "true"),
        ];
        let r: Request = self.call("users.conversations", params.as_slice());
        assert(str_pairs(params@) =~= seq![
            ("types"@, "public_channel,private_channel,im,mpim"@),
            ("limit"@, "200"@),
            ("exclude_archived"@, "true"@),
        ]);
        r
    }
}

// ---------------------------------------------------------------------------------------------
// Which credentials belong to a workspace
// ---------------------------------------------------------------------------------------------
/// What stands before the path, the query and the fragment of an address.
pub open spec fn authority(address: Seq<char>) -> Seq<char> {
    text::up_to(text::up_to(text::up_to(address, '/'), '?'), '#')
}

/// The address without its scheme, where it has one: a name, a colon and two slashes.
pub open spec fn without_scheme(url: Seq<char>) -> Seq<char> {
    let n = authority(url).len() as int;
    if n > 0 && url[n - 1] == ':' && text::occurs_at(url, "//"@, n) {
        url.skip(n + 2)
    } else {
        url
    }
}

/// The host that an address names, without a user before it and without a port behind it.
pub open spec fn host(url: Seq<char>) -> Seq<char> {
    text::up_to(text::behind_last(authority(without_scheme(url)), '@'), ':')
}

fn read_authority(address: &Vec<char>) -> (r: Vec<char>)
    ensures
        r@ == authority(address@),
        r@.len() <= address@.len(),
{
    let path: Vec<char> = text::up_to_char(address, '/');
    let query: Vec<char> = text::up_to_char(&path, '?');
    proof {
        text::lemma_run_before(address@, '/');
        text::lemma_run_before(path@, '?');
        text::lemma_run_before(query@, '#');
    }
    text::up_to_char(&query, '#')
}

fn read_host(url: &str) -> (r: Vec<char>)
    ensures
        r@ == host(url@),
{
    let cs: Vec<char> = text::to_chars(url);
    let n: usize = read_authority(&cs).len();
    proof {
        reveal_strlit("//");
        if n + 2 <= cs@.len() {
            let part = cs@.subrange(n as int, n + 2);
            assert(part[0] == cs@[n as int] && part[1] == cs@[n + 1]);
            if cs@[n as int] == '/' && cs@[n + 1] == '/' {
                assert(part =~= "//"@);
            }
        }
    }
    let start: usize = if n > 0 && cs[n - 1] == ':' && cs.len() - n >= 2 && cs[n] == '/' && cs[n + 1]
        == '/' {
        n + 2
    } else {
        0
    };
    let rest: Vec<char> = text::part(&cs, start, cs.len());
    assert(rest@ =~= without_scheme(url@));
    text::up_to_char(&text::behind_last_char(&read_authority(&rest), '@'), ':')
}

/// The reply to `auth_test` says that the session works and is one with this workspace: its
/// address names the host of the workspace.
pub open spec fn is_team(j: JsonView, subdomain: Seq<char>) -> bool {
    &&& as_bool(field(j, "ok"@)) == Some(true)
    &&& as_text(field(j, "url"@)) matches Some(u) && host(u) == subdomain + ".slack.com"@
}

/// Whether the reply to `auth_test` says that the session works and is one with this workspace.
pub fn team_matches(j: &Json, subdomain: &str) -> (r: bool)
    ensures
        r == is_team(j@, subdomain@),
{
    let name: String = text::concat(subdomain, ".slack.com");
    match j.bool_at("ok") {
        Some(b) => {
            if b {
                match j.text_at("url") {
                    Some(u) => text::same_chars(
                        &read_host(u.as_str()),
                        &text::to_chars(name.as_str()),
                    ),
                    None => false,
                }
            } else {
                false
            }
        },
        None => false,
    }
}

/// A token has at least this many bytes.
pub const MIN_TOKEN: usize = 80;

/// A cookie has at least this many bytes.
pub const MIN_COOKIE: usize = 120;

/// The texts among these that have at least `min` bytes, in order.
pub open spec fn long_ones(list: Seq<Seq<char>>, min: usize) -> Seq<Seq<char>>
    decreases list.len(),
{
    if list.len() == 0 {
        Seq::empty()
    } else {
        let rest = long_ones(list.drop_last(), min);
        if encode_utf8(list.last()).len() as usize >= min {
            rest.push(list.last())
        } else {
            rest
        }
    }
}

fn keep_long(list: Vec<String>, min: usize) -> (r: Vec<String>)
    ensures
        text::texts(r@) == long_ones(text::texts(list@), min),
{
    let mut out: Vec<String> = Vec::new();
    let ghost all = text::texts(list@);
    let mut i: usize = 0;
    assert(all.take(0) =~= Seq::<Seq<char>>::empty());
    assert(text::texts(out@) =~= Seq::<Seq<char>>::empty());
    while i < list.len()
        invariant
            i <= list.len(),
            all == text::texts(list@),
            text::texts(out@) == long_ones(all.take(i as int), min),
        decreases list.len() - i,
    {
        let ghost was = out@;
        assert(all.take(i + 1).drop_last() =~= all.take(i as int));
        assert(all.take(i + 1).last() == list@[i as int]@);
        if list[i].as_str().len() >= min {
            out.push(list[i].clone());
            assert(text::texts(out@) =~= text::texts(was).push(list@[i as int]@));
        }
        i = i + 1;
    }
    assert(all.take(all.len() as int) =~= all);
    out
}

/// What the search for credentials is at.
#[derive(Clone, Copy)]
pub enum ConnectStage {
    /// The remembered credentials are to be tried.
    Cached,
    /// The memory of the client is to be scanned.
    Scan,
    /// This token is to be tried with this cookie.
    Pair { token: usize, cookie: usize },
    /// The credentials work; they are new, and to be remembered, where `save` says so.
    Connected { save: bool },
    /// No credentials work.
    Failed,
}

/// The search for credentials that work for a workspace: the remembered ones first, then each
/// token that the scan found with each cookie that it found.
pub struct Connector {
    /// The subdomain of the workspace.
    pub subdomain: String,
    /// What the search is at.
    pub stage: ConnectStage,
    /// The credentials that are tried, or that work.
    pub current: (String, String),
    /// The tokens that the scan found and that are long enough.
    pub tokens: Vec<String>,
    /// The cookies that the scan found and that are long enough.
    pub cookies: Vec<String>,
}

/// The pair that is tried after this one: the next cookie, or the first with the next token.
pub open spec fn next_pair(token: int, cookie: int, tokens: int, cookies: int) -> Option<
    (int, int),
> {
    if cookie + 1 < cookies {
        Some((token, cookie + 1))
    } else if token + 1 < tokens {
        Some((token + 1, 0))
    } else {
        None
    }
}

/// Every token is tried with every cookie, in order and once: the pairs are numbered by
/// `token * cookies + cookie`, each try is followed by that with the next number, and only that
/// with the last number by none.
pub proof fn law_pairs_are_tried_in_order(token: int, cookie: int, tokens: int, cookies: int)
    requires
        0 <= token < tokens,
        0 <= cookie < cookies,
    ensures
        match next_pair(token, cookie, tokens, cookies) {
            Some((t, c)) => {
                &&& 0 <= t < tokens
                &&& 0 <= c < cookies
                &&& t * cookies + c == token * cookies + cookie + 1
            },
            None => token * cookies + cookie + 1 == tokens * cookies,
        },
{
    assert((token + 1) * cookies == token * cookies + cookies) by (nonlinear_arith);
}

impl Connector {
    /// The search is in order: the pair that is tried is there.
    pub open spec fn valid(self) -> bool {
        self.stage matches ConnectStage::Pair { token, cookie } ==> {
            &&& token < self.tokens@.len()
            &&& cookie < self.cookies@.len()
            &&& self.current.0@ == self.tokens@[token as int]@
            &&& self.current.1@ == self.cookies@[cookie as int]@
        }
    }

    /// The search is at this pair, and where there is none it has failed.
    pub open spec fn is_at(self, pair: Option<(int, int)>) -> bool {
        match pair {
            Some((t, c)) => self.stage matches ConnectStage::Pair { token, cookie } && token == t
                && cookie == c,
            None => self.stage is Failed,
        }
    }

    /// The session with the credentials that are tried, or that work.
    pub fn client(&self) -> (r: SlackClient)
        ensures
            r.host@ == host_of(self.subdomain@),
            r.token@ == self.current.0@,
            r.cookie@ == self.current.1@,
    {
        let mut host: String = text::concat("https://", self.subdomain.as_str());
        host.push_str(".slack.com");
        SlackClient::new(host, self.current.0.clone(), self.current.1.clone())
    }

    /// Takes the reply to `auth_test` with the credentials that are tried; none means that no
    /// reply was had.
    pub fn on_reply(&mut self, reply: &Option<Json>)
        requires
            old(self).valid(),
            old(self).stage is Cached || old(self).stage is Pair,
        ensures
            final(self).valid(),
            final(self).subdomain == old(self).subdomain,
            final(self).tokens == old(self).tokens,
            final(self).cookies == old(self).cookies,
            !(final(self).stage is Pair) ==> final(self).current == old(self).current,
            if reply matches Some(j) && is_team(j@, old(self).subdomain@) {
                &&& final(self).stage == ConnectStage::Connected { save: old(self).stage is Pair }
                &&& final(self).current == old(self).current
            } else {
                match old(self).stage {
                    ConnectStage::Pair { token, cookie } => final(self).is_at(
                        next_pair(
                            token as int,
                            cookie as int,
                            old(self).tokens@.len() as int,
                            old(self).cookies@.len() as int,
                        ),
                    ),
                    _ => final(self).stage is Scan,
                }
            },
    {
        let works: bool = match reply {
            Some(j) => team_matches(j, self.subdomain.as_str()),
            None => false,
        };
        let tokens: usize = self.tokens.len();
        let cookies: usize = self.cookies.len();
        match self.stage {
            ConnectStage::Pair { token, cookie } => {
                if works {
                    self.stage = ConnectStage::Connected { save: true };
                } else if cookie + 1 < cookies {
                    self.try_pair(token, cookie + 1);
                } else if token + 1 < tokens {
                    self.try_pair(token + 1, 0);
                } else {
                    self.stage = ConnectStage::Failed;
                }
            },
            _ => {
                if works {
                    self.stage = ConnectStage::Connected { save: false };
                } else {
                    self.stage = ConnectStage::Scan;
                }
            },
        }
    }

    fn try_pair(&mut self, token: usize, cookie: usize)
        requires
            token < old(self).tokens@.len(),
            cookie < old(self).cookies@.len(),
        ensures
            final(self).valid(),
            final(self).stage == (ConnectStage::Pair { token, cookie }),
            final(self).subdomain == old(self).subdomain,
            final(self).tokens == old(self).tokens,
            final(self).cookies == old(self).cookies,
    {
        self.current = (self.tokens[token].clone(), self.cookies[cookie].clone());
        self.stage = ConnectStage::Pair { token, cookie };
    }

    /// Takes the tokens and the cookies that the scan found.
    pub fn on_scan(&mut self, tokens: Vec<String>, cookies: Vec<String>)
        requires
            old(self).stage is Scan,
        ensures
            final(self).valid(),
            final(self).subdomain == old(self).subdomain,
            text::texts(final(self).tokens@) == long_ones(text::texts(tokens@), MIN_TOKEN),
            text::texts(final(self).cookies@) == long_ones(text::texts(cookies@), MIN_COOKIE),
            final(self).stage is Failed ==> final(self).current == old(self).current,
            final(self).is_at(
                if final(self).tokens@.len() > 0 && final(self).cookies@.len() > 0 {
                    Some((0int, 0int))
                } else {
                    None
                },
            ),
    {
        self.tokens = keep_long(tokens, MIN_TOKEN);
        self.cookies = keep_long(cookies, MIN_COOKIE);
        if self.tokens.len() > 0 && self.cookies.len() > 0 {
            self.try_pair(0, 0);
        } else {
            self.stage = ConnectStage::Failed;
        }
    }

    /// What to tell where no credentials work.
    pub fn failure(&self) -> (r: String)
        ensures
            r@ == "no working Slack creds for '"@ + self.subdomain@ + "' (tokens="@
                + number::decimal(self.tokens@.len()) + ", cookies="@ + number::decimal(
                self.cookies@.len(),
            ) + "). Is Slack running and logged in to that workspace?"@,
    {
        let mut out: String = text::copy("no working Slack creds for '");
        out.push_str(self.subdomain.as_str());
        out.push_str("' (tokens=");
        out.push_str(number::decimal_text(self.tokens.len() as u64).as_str());
        out.push_str(", cookies=");
        out.push_str(number::decimal_text(self.cookies.len() as u64).as_str());
        out.push_str("). Is Slack running and logged in to that workspace?");
        out
    }
}

impl SlackClient {
    /// Begins the search for credentials that work for a workspace.
    pub fn connect(subdomain: &str, cached: Option<(String, String)>) -> (r: Connector)
        ensures
            r.valid(),
            r.subdomain@ == subdomain@,
            r.tokens@.len() == 0,
            r.cookies@.len() == 0,
            match cached {
                Some(c) => r.stage is Cached && r.current == c,
                None => r.stage is Scan && r.current.0@.len() == 0 && r.current.1@.len() == 0,
            },
    {
        let tokens: Vec<String> = Vec::new();
        let cookies: Vec<String> = Vec::new();
        match cached {
            Some(c) => Connector {
                subdomain: text::copy(subdomain),
                stage: ConnectStage::Cached,
                current: c,
                tokens,
                cookies,
            },
            None => Connector {
                subdomain: text::copy(subdomain),
                stage: ConnectStage::Scan,
                current: (String::new(), String::new()),
                tokens,
                cookies,
            },
        }
    }
}

// ---------------------------------------------------------------------------------------------
// Remembered credentials
// ---------------------------------------------------------------------------------------------
/// The file that remembers credentials, in the folder for local application data, or in the
/// current folder where none is known.
pub fn cache_path(local_appdata: Option<String>) -> (r: String)
    ensures
        paths::is_two_inside(
            match local_appdata {
                Some(d) => d@,
                None => "."@,
            },
            "tagami"@,
            "slack_creds.json"@,
            r@,
        ),
{
    proof {
        reveal_strlit("slack_creds.json");
    }
    paths::program_file(local_appdata, "slack_creds.json")
}

/// The line that shows a reply to `auth_test`.
pub fn auth_line(reply: &Json) -> (r: String)
    ensures
        r@ == "auth.test => "@ + json::json_pretty(reply@),
{
    text::concat("auth.test => ", json::pretty_json(reply).as_str())
}

/// The token and the cookie that are remembered for a workspace.
pub open spec fn remembered(j: JsonView, subdomain: Seq<char>) -> Option<(Seq<char>, Seq<char>)> {
    match member(j, subdomain) {
        Some(o) => match (as_text(field(o, "token"@)), as_text(field(o, "cookie"@))) {
            (Some(t), Some(c)) => Some((t, c)),
            _ => None,
        },
        None => None,
    }
}

/// What is seen of credentials that may be missing.
pub open spec fn creds_view(o: Option<(String, String)>) -> Option<(Seq<char>, Seq<char>)> {
    match o {
        Some(c) => Some((c.0@, c.1@)),
        None => None,
    }
}

/// The token and the cookie that are remembered for a workspace.
pub fn remembered_creds(j: &Json, subdomain: &str) -> (r: Option<(String, String)>)
    ensures
        creds_view(r) == remembered(j@, subdomain@),
{
    match j.get(subdomain) {
        Some(o) => match (o.text_at("token"), o.text_at("cookie")) {
            (Some(t), Some(c)) => Some((t, c)),
            _ => None,
        },
        None => None,
    }
}

/// The token and the cookie that the text of the file remembers for a workspace.
pub fn load_cache(txt: &str, subdomain: &str) -> (r: Option<(String, String)>)
    ensures
        creds_view(r) == match json::json_text(txt@) {
            Some(j) => remembered(j, subdomain@),
            None => None,
        },
{
    match json::parse_json(txt) {
        Some(j) => remembered_creds(&j, subdomain),
        None => None,
    }
}

/// The entries, in the order of their keys, with this value under this key.
pub open spec fn put(
    es: Seq<(Seq<char>, JsonView)>,
    key: Seq<char>,
    value: JsonView,
) -> Seq<(Seq<char>, JsonView)>
    decreases es.len(),
{
    if es.len() == 0 || before(key, es[0].0) {
        seq![(key, value)] + es
    } else if es[0].0 == key {
        seq![(key, value)] + es.skip(1)
    } else {
        seq![es[0]] + put(es.skip(1), key, value)
    }
}

/// The entries of an object, and none where there is `null`.
pub open spec fn entries_of(j: JsonView) -> Seq<(Seq<char>, JsonView)> {
    match j {
        JsonView::Object(es) => es,
        _ => Seq::empty(),
    }
}

/// A token and a cookie as a document.
pub open spec fn creds_object(token: Seq<char>, cookie: Seq<char>) -> JsonView {
    JsonView::Object(
        seq![("cookie"@, JsonView::Text(cookie)), ("token"@, JsonView::Text(token))],
    )
}

/// The document with these credentials for this workspace.
pub open spec fn with_creds(
    j: JsonView,
    subdomain: Seq<char>,
    token: Seq<char>,
    cookie: Seq<char>,
) -> JsonView {
    JsonView::Object(put(entries_of(j), subdomain, creds_object(token, cookie)))
}

/// What is seen of the entries of an object.
spec fn entry_views(v: Seq<(String, Json)>) -> Seq<(Seq<char>, JsonView)> {
    Seq::new(v.len(), |i: int| (v[i].0@, v[i].1@))
}

/// The document with these credentials for this workspace.
pub fn remember(j: Json, subdomain: &str, token: &str, cookie: &str) -> (r: Json)
    requires
        j is Object || j is Null,
    ensures
        r@ == with_creds(j@, subdomain@, token@, cookie@),
{
    let ghost was = entries_of(j@);
    let mut es: Vec<(String, Json)> = match j {
        Json::Object(es) => {
            assert(entry_views(es@) =~= was);
            es
        },
        _ => {
            let es: Vec<(String, Json)> = Vec::new();
            assert(entry_views(es@) =~= was);
            es
        },
    };
    let mut o: Vec<(String, Json)> = Vec::new();
    o.push((text::copy("cookie"), Json::Text(text::copy(cookie))));
    o.push((text::copy("token"), Json::Text(text::copy(token))));
    let value: Json = Json::Object(o);
    let ghost v = creds_object(token@, cookie@);
    proof {
        reveal_with_fuel(Json::view, 3);
        assert(value@->Object_0 =~= v->Object_0);
    }
    let mut i: usize = 0;
    let ghost key = subdomain@;
    assert(was.take(0) + put(was.skip(0), key, v) =~= put(was, key, v)) by {
        assert(was.skip(0) =~= was);
    }
    while i < es.len() && !order::is_before(subdomain, es[i].0.as_str()) && !text::same_text(
        es[i].0.as_str(),
        subdomain,
    )
        invariant
            i <= es.len(),
            key == subdomain@,
            was == entry_views(es@),
            was.take(i as int) + put(was.skip(i as int), key, v) == put(was, key, v),
        decreases es.len() - i,
    {
        proof {
            let rest = was.skip(i as int);
            assert(rest[0] == was[i as int]);
            assert(rest.skip(1) =~= was.skip(i + 1));
            assert(was.take(i + 1) + put(was.skip(i + 1), key, v) =~= was.take(i as int) + (seq![
                was[i as int],
            ] + put(was.skip(i + 1), key, v)));
        }
        i = i + 1;
    }
    let ghost rest = was.skip(i as int);
    if i < es.len() && text::same_text(es[i].0.as_str(), subdomain) {
        proof {
            assert(rest[0] == was[i as int]);
            order::lemma_irreflexive(key);
        }
        let _ = es.remove(i);
        es.insert(i, (text::copy(subdomain), value));
        proof {
            assert(entry_views(es@) =~= was.take(i as int) + (seq![(key, v)] + rest.skip(1)));
        }
    } else {
        proof {
            if i < es.len() {
                assert(rest[0] == was[i as int]);
            }
        }
        es.insert(i, (text::copy(subdomain), value));
        proof {
            assert(entry_views(es@) =~= was.take(i as int) + (seq![(key, v)] + rest));
        }
    }
    let r: Json = Json::Object(es);
    proof {
        assert(r@->Object_0 =~= entry_views(es@));
    }
    r
}

/// The document that the text of the file holds, and an empty object where it holds none.
pub open spec fn cache_document(existing: Option<Seq<char>>) -> JsonView {
    match existing {
        Some(s) => match json::json_text(s) {
            Some(j) => j,
            None => JsonView::Object(Seq::empty()),
        },
        None => JsonView::Object(Seq::empty()),
    }
}

proof fn lemma_put(es: Seq<(Seq<char>, JsonView)>, key: Seq<char>, value: JsonView, other: Seq<char>)
    ensures
        entry(put(es, key, value), other) == if other == key {
            Some(value)
        } else {
            entry(es, other)
        },
    decreases es.len(),
{
    let r = put(es, key, value);
    if es.len() == 0 || before(key, es[0].0) {
        assert(r.skip(1) =~= es);
    } else if es[0].0 == key {
        assert(r.skip(1) =~= es.skip(1));
    } else {
        lemma_put(es.skip(1), key, value, other);
        assert(r.skip(1) =~= put(es.skip(1), key, value));
    }
}

proof fn lemma_put_keys(es: Seq<(Seq<char>, JsonView)>, key: Seq<char>, value: JsonView, depth: nat)
    requires
        regular(value, depth),
        forall|i: int| 0 <= i < es.len() ==> regular((#[trigger] es[i]).1, depth),
        forall|i: int, j: int|
            0 <= i < j < es.len() ==> before((#[trigger] es[i]).0, (#[trigger] es[j]).0),
    ensures
        forall|i: int|
            0 <= i < put(es, key, value).len() ==> regular(
                (#[trigger] put(es, key, value)[i]).1,
                depth,
            ),
        forall|i: int, j: int|
            0 <= i < j < put(es, key, value).len() ==> before(
                (#[trigger] put(es, key, value)[i]).0,
                (#[trigger] put(es, key, value)[j]).0,
            ),
        forall|i: int|
            0 <= i < put(es, key, value).len() ==> (#[trigger] put(es, key, value)[i]).0 == key
                || exists|k: int| 0 <= k < es.len() && put(es, key, value)[i].0 == (#[trigger] es[k]).0,
    decreases es.len(),
{
    let r = put(es, key, value);
    if es.len() == 0 || before(key, es[0].0) {
        assert forall|i: int, j: int| 0 <= i < j < r.len() implies before(
            (#[trigger] r[i]).0,
            (#[trigger] r[j]).0,
        ) by {
            assert(r[j] == es[j - 1]);
            if i > 0 {
                assert(r[i] == es[i - 1]);
            } else if j > 1 {
                order::lemma_transitive(key, es[0].0, es[j - 1].0);
            }
        }
        assert forall|i: int| 0 <= i < r.len() implies (#[trigger] r[i]).0 == key || exists|k: int|
            0 <= k < es.len() && r[i].0 == (#[trigger] es[k]).0 by {
            if i > 0 {
                assert(r[i].0 == es[i - 1].0);
            }
        }
    } else if es[0].0 == key {
        assert forall|i: int, j: int| 0 <= i < j < r.len() implies before(
            (#[trigger] r[i]).0,
            (#[trigger] r[j]).0,
        ) by {
            assert(r[j] == es[j]);
            assert(r[i].0 == es[i].0);
        }
        assert forall|i: int| 0 <= i < r.len() implies (#[trigger] r[i]).0 == key || exists|k: int|
            0 <= k < es.len() && r[i].0 == (#[trigger] es[k]).0 by {
            assert(r[i].0 == es[i].0);
        }
    } else {
        let rest = es.skip(1);
        let sub = put(rest, key, value);
        assert forall|i: int| 0 <= i < rest.len() implies regular((#[trigger] rest[i]).1, depth) by {
            assert(rest[i] == es[i + 1]);
        }
        assert forall|i: int, j: int| 0 <= i < j < rest.len() implies before(
            (#[trigger] rest[i]).0,
            (#[trigger] rest[j]).0,
        ) by {
            assert(rest[i] == es[i + 1] && rest[j] == es[j + 1]);
        }
        lemma_put_keys(rest, key, value, depth);
        order::lemma_total(es[0].0, key);
        assert forall|i: int, j: int| 0 <= i < j < r.len() implies before(
            (#[trigger] r[i]).0,
            (#[trigger] r[j]).0,
        ) by {
            assert(r[j] == sub[j - 1]);
            if i > 0 {
                assert(r[i] == sub[i - 1]);
            } else if sub[j - 1].0 != key {
                let k = choose|k: int| 0 <= k < rest.len() && sub[j - 1].0 == (#[trigger] rest[k]).0;
                assert(rest[k] == es[k + 1]);
            }
        }
        assert forall|i: int| 0 <= i < r.len() implies regular((#[trigger] r[i]).1, depth) by {
            if i > 0 {
                assert(r[i] == sub[i - 1]);
            }
        }
        assert forall|i: int| 0 <= i < r.len() implies (#[trigger] r[i]).0 == key || exists|k: int|
            0 <= k < es.len() && r[i].0 == (#[trigger] es[k]).0 by {
            if i > 0 {
                assert(r[i] == sub[i - 1]);
                if sub[i - 1].0 != key {
                    let k = choose|k: int|
                        0 <= k < rest.len() && sub[i - 1].0 == (#[trigger] rest[k]).0;
                    assert(rest[k] == es[k + 1]);
                }
            } else {
                assert(r[0].0 == es[0].0);
            }
        }
    }
}

proof fn lemma_put_whole(es: Seq<(Seq<char>, JsonView)>, key: Seq<char>, value: JsonView)
    requires
        is_whole(value),
        forall|i: int| 0 <= i < es.len() ==> is_whole((#[trigger] es[i]).1),
    ensures
        forall|i: int|
            0 <= i < put(es, key, value).len() ==> is_whole((#[trigger] put(es, key, value)[i]).1),
    decreases es.len(),
{
    let r = put(es, key, value);
    if es.len() == 0 || before(key, es[0].0) {
        assert forall|i: int| 0 <= i < r.len() implies is_whole((#[trigger] r[i]).1) by {
            if i > 0 {
                assert(r[i] == es[i - 1]);
            }
        }
    } else if es[0].0 == key {
        assert forall|i: int| 0 <= i < r.len() implies is_whole((#[trigger] r[i]).1) by {
            if i > 0 {
                assert(r[i] == es[i]);
            }
        }
    } else {
        let rest = es.skip(1);
        let sub = put(rest, key, value);
        assert forall|i: int| 0 <= i < rest.len() implies is_whole((#[trigger] rest[i]).1) by {
            assert(rest[i] == es[i + 1]);
        }
        lemma_put_whole(rest, key, value);
        assert forall|i: int| 0 <= i < r.len() implies is_whole((#[trigger] r[i]).1) by {
            if i > 0 {
                assert(r[i] == sub[i - 1]);
            } else {
                assert(r[0] == es[0]);
            }
        }
    }
}

proof fn lemma_creds_object(token: Seq<char>, cookie: Seq<char>, depth: nat)
    requires
        depth > 0,
    ensures
        regular(creds_object(token, cookie), depth),
        is_whole(creds_object(token, cookie)),
        as_text(field(creds_object(token, cookie), "token"@)) == Some(token),
        as_text(field(creds_object(token, cookie), "cookie"@)) == Some(cookie),
{
    reveal_strlit("token");
    reveal_strlit("cookie");
    let es = creds_object(token, cookie)->Object_0;
    assert(es[0].0.len() != es[1].0.len());
    assert(es.skip(1)[0] == es[1]);
    reveal_with_fuel(entry, 3);
    reveal_with_fuel(regular, 3);
    reveal_with_fuel(is_whole, 3);
    assert forall|i: int, j: int| 0 <= i < j < es.len() implies before(
        (#[trigger] es[i]).0,
        (#[trigger] es[j]).0,
    ) by {
        assert(es[0].0[0] == 'c' && es[1].0[0] == 't');
    }
}

/// What is remembered for a workspace is found again, and what is remembered for others stays.
pub proof fn law_remembered_creds(
    j: JsonView,
    subdomain: Seq<char>,
    token: Seq<char>,
    cookie: Seq<char>,
    other: Seq<char>,
)
    requires
        j is Object || j is Null,
    ensures
        remembered(with_creds(j, subdomain, token, cookie), other) == if other == subdomain {
            Some((token, cookie))
        } else {
            remembered(j, other)
        },
{
    lemma_put(entries_of(j), subdomain, creds_object(token, cookie), other);
    lemma_creds_object(token, cookie, 1);
}

proof fn lemma_entry_same(
    es: Seq<(Seq<char>, JsonView)>,
    fs: Seq<(Seq<char>, JsonView)>,
    key: Seq<char>,
)
    requires
        es.len() == fs.len(),
        forall|i: int|
            0 <= i < es.len() ==> (#[trigger] es[i]).0 == fs[i].0 && same_but_fractions(
                es[i].1,
                fs[i].1,
            ),
    ensures
        entry(es, key) is None <==> entry(fs, key) is None,
        entry(es, key) is Some ==> same_but_fractions(entry(es, key)->0, entry(fs, key)->0),
    decreases es.len(),
{
    if es.len() > 0 {
        assert(es[0].0 == fs[0].0);
        let xs = es.skip(1);
        let ys = fs.skip(1);
        assert forall|i: int| 0 <= i < xs.len() implies (#[trigger] xs[i]).0 == ys[i].0
            && same_but_fractions(xs[i].1, ys[i].1) by {
            assert(xs[i] == es[i + 1] && ys[i] == fs[i + 1]);
        }
        lemma_entry_same(xs, ys, key);
    }
}

proof fn lemma_field_same(a: JsonView, b: JsonView, key: Seq<char>)
    requires
        same_but_fractions(a, b),
    ensures
        member(a, key) is None <==> member(b, key) is None,
        member(a, key) is Some ==> same_but_fractions(member(a, key)->0, member(b, key)->0),
        as_text(field(a, key)) == as_text(field(b, key)),
{
    if a is Object {
        lemma_entry_same(a->Object_0, b->Object_0, key);
    }
}

/// Credentials are texts: a document that is the same but for fractions remembers the same ones.
pub proof fn lemma_remembered_same(a: JsonView, b: JsonView, subdomain: Seq<char>)
    requires
        same_but_fractions(a, b),
    ensures
        remembered(a, subdomain) == remembered(b, subdomain),
{
    lemma_field_same(a, b, subdomain);
    if member(a, subdomain) is Some {
        let x = member(a, subdomain)->0;
        let y = member(b, subdomain)->0;
        lemma_field_same(x, y, "token"@);
        lemma_field_same(x, y, "cookie"@);
    }
}

/// The text to write into the file, so that it remembers these credentials for this workspace.
/// There is none where the file holds a document that is neither an object nor `null`. A file that
/// is written in this way gives the credentials back, and those of every other workspace as the one
/// before it did. All else that one held comes back too, but that a fraction may be another number.
pub fn save_cache(
    existing: Option<&str>,
    subdomain: &str,
    token: &str,
    cookie: &str,
) -> (r: Option<String>)
    ensures
        ({
            let was = cache_document(
                match existing {
                    Some(s) => Some(s@),
                    None => None,
                },
            );
            let now = with_creds(was, subdomain@, token@, cookie@);
            match r {
                Some(s) => {
                    &&& was is Object || was is Null
                    &&& s@ == json::json_pretty(now)
                    &&& json::json_text(s@) is Some
                    &&& same_but_fractions(now, json::json_text(s@)->0)
                    &&& is_whole(was) ==> json::json_text(s@) == Some(now)
                    &&& forall|other: Seq<char>| #[trigger]
                        remembered(json::json_text(s@)->0, other) == if other == subdomain@ {
                            Some((token@, cookie@))
                        } else {
                            remembered(was, other)
                        }
                },
                None => !(was is Object) && !(was is Null),
            }
        }),
{
    let parsed: Option<Json> = match existing {
        Some(s) => json::parse_json(s),
        None => None,
    };
    let j: Json = match parsed {
        Some(j) => j,
        None => {
            let es: Vec<(String, Json)> = Vec::new();
            let j: Json = Json::Object(es);
            assert(j@->Object_0 =~= Seq::<(Seq<char>, JsonView)>::empty());
            j
        },
    };
    let ghost was = j@;
    match &j {
        Json::Object(_) | Json::Null => {},
        _ => {
            return None;
        },
    }
    let now: Json = remember(j, subdomain, token, cookie);
    proof {
        let depth = (json::MAX_DEPTH - 1) as nat;
        lemma_creds_object(token@, cookie@, depth);
        lemma_put_keys(entries_of(was), subdomain@, creds_object(token@, cookie@), depth);
        if is_whole(was) {
            lemma_put_whole(entries_of(was), subdomain@, creds_object(token@, cookie@));
        }
    }
    let r: String = json::pretty_json(&now);
    proof {
        let back = json::json_text(r@)->0;
        if is_whole(was) {
            json::lemma_same_whole(now@, back);
        }
        assert forall|other: Seq<char>| #[trigger]
            remembered(back, other) == if other == subdomain@ {
                Some((token@, cookie@))
            } else {
                remembered(was, other)
            } by {
            law_remembered_creds(was, subdomain@, token@, cookie@, other);
            lemma_remembered_same(now@, back, other);
        }
    }
    Some(r)
}

// ---------------------------------------------------------------------------------------------
// What is posted, and whose credentials it is, told by texts alone
// ---------------------------------------------------------------------------------------------
/// A call goes to the address of the method below that of the workspace. Its form begins with the
/// token and holds all the fields that were given behind it, in order. The cookie goes with it in a
/// header, and so does what a browser would say.
pub proof fn law_call_holds_everything(
    r: Request,
    client: SlackClient,
    method: Seq<char>,
    params: Seq<(Seq<char>, Seq<char>)>,
    i: int,
)
    requires
        r.is_call(client, method, params),
    ensures
        r.url@ == client.host@ + "/api/"@ + method,
        r.form@.len() == params.len() + 1,
        r.form@[0].0@ == "token"@,
        r.form@[0].1@ == client.token@,
        0 <= i < params.len() ==> r.form@[i + 1].0@ == params[i].0 && r.form@[i + 1].1@
            == params[i].1,
        r.headers@.len() == 3,
        r.headers@[0].0@ == "Cookie"@ && r.headers@[0].1@ == "d="@ + client.cookie@,
        r.headers@[1].0@ == "Origin"@ && r.headers@[1].1@ == "https://app.slack.com"@,
        r.headers@[2].0@ == "User-Agent"@ && r.headers@[2].1@ == "Mozilla/5.0"@,
{
    let form = pairs(r.form@);
    let headers = pairs(r.headers@);
    assert(form.len() == params.len() + 1);
    assert(form[0] == ("token"@, client.token@));
    assert(form[0] == (r.form@[0].0@, r.form@[0].1@));
    if 0 <= i < params.len() {
        assert(form[i + 1] == params[i]);
        assert(form[i + 1] == (r.form@[i + 1].0@, r.form@[i + 1].1@));
    }
    assert(headers.len() == 3);
    assert(headers[0] == (r.headers@[0].0@, r.headers@[0].1@));
    assert(headers[1] == (r.headers@[1].0@, r.headers@[1].1@));
    assert(headers[2] == (r.headers@[2].0@, r.headers@[2].1@));
}

proof fn lemma_up_to_behind(h: Seq<char>, t: Seq<char>, c: char)
    requires
        !h.contains(c),
    ensures
        text::up_to(h + t, c) == h + text::up_to(t, c),
        t.len() > 0 && t[0] == c ==> text::up_to(t, c).len() == 0,
        t.len() > 0 && t[0] != c ==> text::up_to(t, c).len() > 0 && text::up_to(t, c)[0] == t[0],
        t.len() == 0 ==> text::up_to(t, c).len() == 0,
{
    let s = h + t;
    let n = text::run_before(t, c) as int;
    text::lemma_run_before(t, c);
    assert forall|i: int| 0 <= i < h.len() + n implies s[i] != c by {
        if i < h.len() {
            assert(h.contains(h[i]));
        } else {
            assert(s[i] == t[i - h.len()]);
        }
    }
    text::lemma_run_before_is(s, c, h.len() + n);
    assert(s.take(h.len() + n) =~= h + t.take(n));
}

proof fn lemma_authority(who: Seq<char>, tail: Seq<char>)
    requires
        !who.contains('/'),
        !who.contains('?'),
        !who.contains('#'),
        tail.len() == 0 || tail[0] == '/' || tail[0] == '?' || tail[0] == '#',
    ensures
        authority(who + tail) == who,
{
    let a = text::up_to(tail, '/');
    let b = text::up_to(a, '?');
    lemma_up_to_behind(who, tail, '/');
    lemma_up_to_behind(who, a, '?');
    lemma_up_to_behind(who, b, '#');
    assert(who + text::up_to(b, '#') =~= who);
}

proof fn lemma_scheme(scheme: Seq<char>, rest: Seq<char>)
    requires
        !scheme.contains('/'),
        !scheme.contains('?'),
        !scheme.contains('#'),
    ensures
        without_scheme(scheme + "://"@ + rest) == rest,
{
    reveal_strlit("://");
    reveal_strlit("//");
    let name = scheme + seq![':'];
    let tail = "//"@ + rest;
    let url = scheme + "://"@ + rest;
    assert(url =~= name + tail);
    assert forall|i: int| 0 <= i < name.len() implies name[i] != '/' && name[i] != '?' && name[i]
        != '#' by {
        if i < scheme.len() {
            assert(scheme.contains(name[i]));
        }
    }
    lemma_authority(name, tail);
    let n = name.len() as int;
    assert(url.subrange(n, n + 2) =~= "//"@);
    assert(url.skip(n + 2) =~= rest);
}

proof fn lemma_host_of_authority(user: Seq<char>, h: Seq<char>, port: Seq<char>)
    requires
        !h.contains('@'),
        !h.contains(':'),
        !port.contains('@'),
    ensures
        text::up_to(text::behind_last(h, '@'), ':') == h,
        text::up_to(text::behind_last(h + ":"@ + port, '@'), ':') == h,
        text::up_to(text::behind_last(user + "@"@ + h, '@'), ':') == h,
        text::up_to(text::behind_last(user + "@"@ + (h + ":"@ + port), '@'), ':') == h,
{
    reveal_strlit(":");
    reveal_strlit("@");
    let full = h + ":"@ + port;
    assert(":"@ =~= seq![':']);
    assert("@"@ =~= seq!['@']);
    assert forall|i: int| 0 <= i < full.len() implies full[i] != '@' by {
        if i < h.len() {
            assert(h.contains(full[i]));
        } else if i > h.len() {
            assert(port.contains(full[i]));
        }
    }
    text::law_text_is_cut(user, '@', h);
    text::law_text_is_cut(user, '@', full);
    text::law_text_is_cut(h, ':', port);
}

/// The host of an address is what stands between the scheme and the path, without a user before it
/// and without a port behind it, be there a scheme, a user, a port, a path, a query or a fragment
/// or not.
pub proof fn law_host_is_read(
    scheme: Seq<char>,
    user: Seq<char>,
    h: Seq<char>,
    port: Seq<char>,
    tail: Seq<char>,
)
    requires
        !scheme.contains('/') && !scheme.contains('?') && !scheme.contains('#'),
        !user.contains('/') && !user.contains('?') && !user.contains('#'),
        !h.contains('/') && !h.contains('?') && !h.contains('#'),
        !h.contains('@') && !h.contains(':'),
        !port.contains('/') && !port.contains('?') && !port.contains('#') && !port.contains('@'),
        tail.len() == 0 || tail[0] == '/' || tail[0] == '?' || tail[0] == '#',
    ensures
        host(h + tail) == h,
        host(scheme + "://"@ + (h + tail)) == h,
        host(scheme + "://"@ + (h + ":"@ + port + tail)) == h,
        host(scheme + "://"@ + (user + "@"@ + h + tail)) == h,
        host(scheme + "://"@ + (user + "@"@ + (h + ":"@ + port) + tail)) == h,
{
    reveal_strlit(":");
    reveal_strlit("@");
    lemma_host_of_authority(user, h, port);
    let b = h + ":"@ + port;
    let c = user + "@"@ + h;
    let d = user + "@"@ + b;
    assert forall|i: int| 0 <= i < b.len() implies b[i] != '/' && b[i] != '?' && b[i] != '#' by {
        if i < h.len() {
            assert(h.contains(b[i]));
        } else if i > h.len() {
            assert(port.contains(b[i]));
        }
    }
    assert forall|i: int| 0 <= i < c.len() implies c[i] != '/' && c[i] != '?' && c[i] != '#' by {
        if i < user.len() {
            assert(user.contains(c[i]));
        } else if i > user.len() {
            assert(h.contains(c[i]));
        }
    }
    assert forall|i: int| 0 <= i < d.len() implies d[i] != '/' && d[i] != '?' && d[i] != '#' by {
        if i < user.len() {
            assert(user.contains(d[i]));
        } else if i > user.len() {
            assert(d[i] == b[i - user.len() - 1]);
        }
    }
    lemma_authority(h, tail);
    lemma_authority(b, tail);
    lemma_authority(c, tail);
    lemma_authority(d, tail);
    lemma_scheme(scheme, h + tail);
    lemma_scheme(scheme, b + tail);
    lemma_scheme(scheme, c + tail);
    lemma_scheme(scheme, d + tail);
    if h.len() > 0 {
        assert((h + tail)[h.len() - 1] == h[h.len() - 1]);
        assert(h.contains(h[h.len() - 1]));
    }
    assert(without_scheme(h + tail) == h + tail);
}

/// A session is one with a workspace just where the reply says that it works and its address names
/// the host of the workspace, neither another one nor a part of it.
pub proof fn law_session_belongs_to_the_workspace(
    j: JsonView,
    subdomain: Seq<char>,
    h: Seq<char>,
    tail: Seq<char>,
    url: Seq<char>,
)
    requires
        !h.contains('/') && !h.contains('?') && !h.contains('#'),
        !h.contains('@') && !h.contains(':'),
        tail.len() == 0 || tail[0] == '/' || tail[0] == '?' || tail[0] == '#',
    ensures
        field(j, "ok"@) == JsonView::Bool(true) && field(j, "url"@) == JsonView::Text(url) ==> (
        is_team(j, subdomain) <==> host(url) == subdomain + ".slack.com"@),
        field(j, "ok"@) == JsonView::Bool(true) && field(j, "url"@) == JsonView::Text(
            "https://"@ + h + tail,
        ) ==> (is_team(j, subdomain) <==> h == subdomain + ".slack.com"@),
        field(j, "ok"@) != JsonView::Bool(true) ==> !is_team(j, subdomain),
        !(field(j, "url"@) is Text) ==> !is_team(j, subdomain),
        host_of(subdomain) == "https://"@ + subdomain + ".slack.com"@,
{
    reveal_strlit("https://");
    reveal_strlit("https");
    reveal_strlit("://");
    let none = Seq::<char>::empty();
    law_host_is_read("https"@, none, h, none, tail);
    assert("https://"@ + h + tail =~= "https"@ + "://"@ + (h + tail));
}

/// Of what a scan found all that is long enough is tried, in order: tokens of at least eighty bytes
/// and cookies of at least a hundred and twenty.
pub proof fn law_long_ones_are_tried(list: Seq<Seq<char>>, min: usize)
    ensures
        long_ones(list, min) == list.filter(
            |t: Seq<char>| encode_utf8(t).len() as usize >= min,
        ),
        MIN_TOKEN == 80,
        MIN_COOKIE == 120,
    decreases list.len(),
{
    reveal(Seq::filter);
    if list.len() > 0 {
        law_long_ones_are_tried(list.drop_last(), min);
    }
}

/// A search that is at a pair tries just that token with that cookie, and one without a pair has
/// failed.
pub proof fn law_search_is_at_one_pair(c: Connector, token: usize, cookie: usize)
    ensures
        c.is_at(Some((token as int, cookie as int))) <==> c.stage == (ConnectStage::Pair {
            token,
            cookie,
        }),
        c.is_at(None) <==> c.stage is Failed,
        c.valid() && c.stage == (ConnectStage::Pair { token, cookie }) ==> token < c.tokens@.len()
            && cookie < c.cookies@.len() && c.current.0@ == c.tokens@[token as int]@
            && c.current.1@ == c.cookies@[cookie as int]@,
{
}

/// Credentials are remembered as an object with a token and a cookie, both of them texts, under the
/// name of the workspace. To remember some puts just that there and leaves all else in its place.
pub proof fn law_credentials_have_their_place(
    j: JsonView,
    subdomain: Seq<char>,
    token: Seq<char>,
    cookie: Seq<char>,
    other: Seq<char>,
)
    requires
        j is Object || j is Null,
    ensures
        remembered(j, other) == Some((token, cookie)) <==> (member(j, other) is Some && field(
            member(j, other)->0,
            "token"@,
        ) == JsonView::Text(token) && field(member(j, other)->0, "cookie"@) == JsonView::Text(
            cookie,
        )),
        member(j, other) is None ==> remembered(j, other) is None,
        ({
            let now = with_creds(j, subdomain, token, cookie);
            &&& now is Object
            &&& other != subdomain ==> member(now, other) == member(j, other)
            &&& member(now, subdomain) is Some
            &&& field(member(now, subdomain)->0, "token"@) == JsonView::Text(token)
            &&& field(member(now, subdomain)->0, "cookie"@) == JsonView::Text(cookie)
            &&& member(now, subdomain)->0->Object_0.len() == 2
        }),
{
    let now = with_creds(j, subdomain, token, cookie);
    lemma_put(entries_of(j), subdomain, creds_object(token, cookie), other);
    lemma_put(entries_of(j), subdomain, creds_object(token, cookie), subdomain);
    lemma_creds_object(token, cookie, 1);
}

/// To remember credentials of a new workspace adds one entry, and to remember those of a known one
/// changes its entry alone.
pub proof fn law_one_entry_is_put(
    front: Seq<(Seq<char>, JsonView)>,
    key: Seq<char>,
    value: JsonView,
    rest: Seq<(Seq<char>, JsonView)>,
    was: JsonView,
)
    requires
        forall|i: int| 0 <= i < front.len() ==> before((#[trigger] front[i]).0, key),
        rest.len() > 0 ==> before(key, rest[0].0),
    ensures
        put(front + rest, key, value) == front + seq![(key, value)] + rest,
        put(front + seq![(key, was)] + rest, key, value) == front + seq![(key, value)] + rest,
    decreases front.len(),
{
    let a = front + rest;
    let b = front + seq![(key, was)] + rest;
    order::lemma_irreflexive(key);
    if front.len() > 0 {
        let f = front.skip(1);
        assert(before(front[0].0, key));
        if before(key, front[0].0) {
            order::lemma_transitive(key, front[0].0, key);
        }
        assert forall|i: int| 0 <= i < f.len() implies before((#[trigger] f[i]).0, key) by {
            assert(f[i] == front[i + 1]);
        }
        law_one_entry_is_put(f, key, value, rest, was);
        assert(a[0] == front[0] && b[0] == front[0]);
        assert(a.skip(1) =~= f + rest);
        assert(b.skip(1) =~= f + seq![(key, was)] + rest);
        assert(seq![front[0]] + (f + seq![(key, value)] + rest) =~= front + seq![(key, value)]
            + rest);
    } else {
        assert(a =~= rest);
        assert(b[0] == (key, was));
        assert(b.skip(1) =~= rest);
        assert(seq![(key, value)] + rest =~= front + seq![(key, value)] + rest);
    }
}

/// The document to begin with is the one that the file holds. Where there is no file, or none that
/// can be read, it has no entries.
pub proof fn law_cache_is_read(s: Seq<char>)
    ensures
        json::json_text(s) is Some ==> cache_document(Some(s)) == json::json_text(s)->0,
        json::json_text(s) is None ==> cache_document(Some(s)) == JsonView::Object(Seq::empty()),
        cache_document(None) == JsonView::Object(Seq::empty()),
{
}

/// What is seen of pairs of texts, and of credentials, is those texts, each in its place.
pub proof fn law_pairs_are_seen(
    v: Seq<(String, String)>,
    w: Seq<(&str, &str)>,
    c: (String, String),
    i: int,
)
    ensures
        pairs(v).len() == v.len(),
        0 <= i < v.len() ==> pairs(v)[i] == (v[i].0@, v[i].1@),
        str_pairs(w).len() == w.len(),
        0 <= i < w.len() ==> str_pairs(w)[i] == (w[i].0@, w[i].1@),
        creds_view(Some(c)) == Some((c.0@, c.1@)),
        creds_view(None) is None,
{
}

/// The host of an address without a scheme is read in the same way, with a user before it or a port
/// behind it.
pub proof fn law_host_is_read_without_a_scheme(
    user: Seq<char>,
    h: Seq<char>,
    port: Seq<char>,
    tail: Seq<char>,
)
    requires
        !user.contains('/') && !user.contains('?') && !user.contains('#'),
        h.len() > 0,
        !h.contains('/') && !h.contains('?') && !h.contains('#'),
        !h.contains('@') && !h.contains(':'),
        !port.contains('/') && !port.contains('?') && !port.contains('#'),
        !port.contains('@') && !port.contains(':'),
        port.len() > 0,
        tail.len() == 0 || tail[0] == '/' || tail[0] == '?' || tail[0] == '#',
    ensures
        host(h + ":"@ + port + tail) == h,
        host(user + "@"@ + h + tail) == h,
{
    reveal_strlit(":");
    reveal_strlit("@");
    lemma_host_of_authority(user, h, port);
    let b = h + ":"@ + port;
    let c = user + "@"@ + h;
    assert forall|i: int| 0 <= i < b.len() implies b[i] != '/' && b[i] != '?' && b[i] != '#' by {
        if i < h.len() {
            assert(h.contains(b[i]));
        } else if i > h.len() {
            assert(port.contains(b[i]));
        }
    }
    assert forall|i: int| 0 <= i < c.len() implies c[i] != '/' && c[i] != '?' && c[i] != '#' by {
        if i < user.len() {
            assert(user.contains(c[i]));
        } else if i > user.len() {
            assert(h.contains(c[i]));
        }
    }
    lemma_authority(b, tail);
    lemma_authority(c, tail);
    assert((b + tail)[b.len() - 1] == port[port.len() - 1]);
    assert(port.contains(port[port.len() - 1]));
    assert((c + tail)[c.len() - 1] == h[h.len() - 1]);
    assert(h.contains(h[h.len() - 1]));
}

} // verus!
