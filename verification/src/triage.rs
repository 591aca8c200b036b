//! Which message to answer, and with what.

use vstd::prelude::*;

use crate::json::{as_bool, as_text, field, items, list_view, text_or_empty, Json, JsonView};
use crate::slack_api::{Request, SlackClient};
use crate::text;
use crate::text::Edge;

verus! {

// ---------------------------------------------------------------------------------------------
// Conversations
// ---------------------------------------------------------------------------------------------
/// The number of conversations in which messages are looked for.
pub const SCAN_CHANNELS: usize = 50;

/// The number of messages that are looked at in each conversation.
pub const SCAN_MESSAGES: u32 = 6;

/// A conversation.
pub struct Channel {
    /// Its identifier.
    pub id: String,
    /// Whether it is a direct message to one person or to a few.
    pub is_dm: bool,
}

/// What is seen of conversations.
pub open spec fn channel_views(v: Seq<Channel>) -> Seq<(Seq<char>, bool)> {
    Seq::new(v.len(), |i: int| (v[i].id@, v[i].is_dm))
}

/// The conversation is a direct message to one person or to a few.
pub open spec fn is_direct(ch: JsonView) -> bool {
    as_bool(field(ch, "is_im"@)) == Some(true) || as_bool(field(ch, "is_mpim"@)) == Some(true)
}

/// The conversations of this list that have an identifier, in order.
pub open spec fn identified(list: Seq<JsonView>) -> Seq<(Seq<char>, bool)>
    decreases list.len(),
{
    if list.len() == 0 {
        Seq::empty()
    } else {
        let rest = identified(list.drop_last());
        match as_text(field(list.last(), "id"@)) {
            Some(id) => rest.push((id, is_direct(list.last()))),
            None => rest,
        }
    }
}

/// The first `max` items of a list.
pub open spec fn first<A>(list: Seq<A>, max: int) -> Seq<A> {
    if list.len() <= max {
        list
    } else {
        list.take(max)
    }
}

fn truth_at(j: &Json, key: &str) -> (r: bool)
    ensures
        r == (as_bool(field(j@, key@)) == Some(true)),
{
    match j.bool_at(key) {
        Some(b) => b,
        None => false,
    }
}

/// The conversations to look into: of the first `max` that the reply to
/// `SlackClient::conversations` lists, those that have an identifier.
pub fn channels_to_scan(conv: &Json, max: usize) -> (r: Vec<Channel>)
    ensures
        channel_views(r@) == identified(first(items(field(conv@, "channels"@)), max as int)),
{
    let mut out: Vec<Channel> = Vec::new();
    assert(channel_views(out@) =~= Seq::<(Seq<char>, bool)>::empty());
    match conv.list_at("channels") {
        Some(list) => {
            let ghost all = list_view(list@);
            let n: usize = if list.len() <= max {
                list.len()
            } else {
                max
            };
            let mut i: usize = 0;
            assert(all.take(0) =~= Seq::<JsonView>::empty());
            while i < n
                invariant
                    i <= n <= list@.len(),
                    all == list_view(list@),
                    channel_views(out@) == identified(all.take(i as int)),
                decreases n - i,
            {
                let ghost was = out@;
                let ch: &Json = &list[i];
                proof {
                    assert(all.take(i + 1).drop_last() =~= all.take(i as int));
                    assert(all.take(i + 1).last() == list@[i as int]@);
                }
                if let Some(id) = ch.text_at("id") {
                    let is_dm: bool = truth_at(ch, "is_im") || truth_at(ch, "is_mpim");
                    let ghost seen = (id@, is_dm);
                    out.push(Channel { id, is_dm });
                    assert(channel_views(out@) =~= channel_views(was).push(seen));
                }
                i = i + 1;
            }
            assert(all.take(n as int) =~= first(all, max as int));
        },
        None => {
            assert(first(items(field(conv@, "channels"@)), max as int) =~= Seq::<JsonView>::empty());
        },
    }
    out
}

// ---------------------------------------------------------------------------------------------
// Messages
// ---------------------------------------------------------------------------------------------
/// A message that is directed at the user.
pub struct Incoming {
    /// The conversation in which it stands.
    pub channel: String,
    /// What it says.
    pub text: String,
    /// The time stamp of the thread to answer in.
    pub thread_ts: String,
    /// Its own time stamp.
    pub ts: String,
    /// Whether it mentions the user.
    pub mentioned: bool,
    /// Whether it stands in a direct message.
    pub is_dm: bool,
}

/// What is seen of a message that is directed at the user.
pub struct IncomingView {
    /// The conversation in which it stands.
    pub channel: Seq<char>,
    /// What it says.
    pub text: Seq<char>,
    /// The time stamp of the thread to answer in.
    pub thread_ts: Seq<char>,
    /// Its own time stamp.
    pub ts: Seq<char>,
    /// Whether it mentions the user.
    pub mentioned: bool,
    /// Whether it stands in a direct message.
    pub is_dm: bool,
}

impl Incoming {
    /// What is seen of the message.
    pub open spec fn view(&self) -> IncomingView {
        IncomingView {
            channel: self.channel@,
            text: self.text@,
            thread_ts: self.thread_ts@,
            ts: self.ts@,
            mentioned: self.mentioned,
            is_dm: self.is_dm,
        }
    }
}

/// What is seen of messages.
pub open spec fn incoming_views(v: Seq<Incoming>) -> Seq<IncomingView> {
    Seq::new(v.len(), |i: int| v[i]@)
}

/// The text mentions the user, by identifier alone or with a name behind it.
pub open spec fn mentions(text: Seq<char>, me: Seq<char>) -> bool {
    text::has_text(text, "<@"@ + me + ">"@) || text::has_text(text, "<@"@ + me + "|"@)
}

/// The message comes from somebody else, says something, and stands in a direct message or
/// mentions the user.
pub open spec fn is_for_me(m: JsonView, is_dm: bool, me: Seq<char>) -> bool {
    &&& text_or_empty(m, "user"@) != me
    &&& text_or_empty(m, "user"@).len() > 0
    &&& text::trim(text_or_empty(m, "text"@)).len() > 0
    &&& is_dm || mentions(text_or_empty(m, "text"@), me)
}

/// The message, in the conversation in which it stands.
pub open spec fn incoming(m: JsonView, channel: Seq<char>, is_dm: bool, me: Seq<char>) -> IncomingView {
    IncomingView {
        channel,
        text: text_or_empty(m, "text"@),
        thread_ts: match as_text(field(m, "thread_ts"@)) {
            Some(t) => t,
            None => text_or_empty(m, "ts"@),
        },
        ts: text_or_empty(m, "ts"@),
        mentioned: mentions(text_or_empty(m, "text"@), me),
        is_dm,
    }
}

/// The messages of this list that are directed at the user, in order.
pub open spec fn for_me(
    list: Seq<JsonView>,
    channel: Seq<char>,
    is_dm: bool,
    me: Seq<char>,
) -> Seq<IncomingView>
    decreases list.len(),
{
    if list.len() == 0 {
        Seq::empty()
    } else {
        let rest = for_me(list.drop_last(), channel, is_dm, me);
        if is_for_me(list.last(), is_dm, me) {
            rest.push(incoming(list.last(), channel, is_dm, me))
        } else {
            rest
        }
    }
}

fn mentioned_in(said: &str, me: &str) -> (r: bool)
    ensures
        r == mentions(said@, me@),
{
    let open: String = text::concat("<@", me);
    let plain: String = text::concat(open.as_str(), ">");
    let named: String = text::concat(open.as_str(), "|");
    text::contains(said, plain.as_str()) || text::contains(said, named.as_str())
}

fn read_incoming(m: &Json, channel: &Channel, me: &str) -> (r: Option<Incoming>)
    ensures
        match r {
            Some(x) => is_for_me(m@, channel.is_dm, me@) && x@ == incoming(
                m@,
                channel.id@,
                channel.is_dm,
                me@,
            ),
            None => !is_for_me(m@, channel.is_dm, me@),
        },
{
    let user: String = m.text_or_empty_at("user");
    let said: String = m.text_or_empty_at("text");
    let ts: String = m.text_or_empty_at("ts");
    if text::same_text(user.as_str(), me) || user.as_str().is_empty() || text::blank(said.as_str()) {
        return None;
    }
    let mentioned: bool = mentioned_in(said.as_str(), me);
    if !channel.is_dm && !mentioned {
        return None;
    }
    let thread_ts: String = match m.text_at("thread_ts") {
        Some(t) => t,
        None => text::copy(ts.as_str()),
    };
    Some(
        Incoming {
            channel: text::copy(channel.id.as_str()),
            text: said,
            thread_ts,
            ts,
            mentioned,
            is_dm: channel.is_dm,
        },
    )
}

/// The messages in the reply to `SlackClient::conversations_history` that are directed at the
/// user: those from others that say something, in a direct message or with a mention of the user.
pub fn incoming_messages(history: &Json, channel: &Channel, me: &str) -> (r: Vec<Incoming>)
    ensures
        incoming_views(r@) == for_me(
            items(field(history@, "messages"@)),
            channel.id@,
            channel.is_dm,
            me@,
        ),
{
    let mut out: Vec<Incoming> = Vec::new();
    assert(incoming_views(out@) =~= Seq::<IncomingView>::empty());
    if let Some(list) = history.list_at("messages") {
        let ghost all = list_view(list@);
        let mut i: usize = 0;
        assert(all.take(0) =~= Seq::<JsonView>::empty());
        while i < list.len()
            invariant
                i <= list@.len(),
                all == list_view(list@),
                incoming_views(out@) == for_me(
                    all.take(i as int),
                    channel.id@,
                    channel.is_dm,
                    me@,
                ),
            decreases list@.len() - i,
        {
            let ghost was = out@;
            proof {
                assert(all.take(i + 1).drop_last() =~= all.take(i as int));
                assert(all.take(i + 1).last() == list@[i as int]@);
            }
            if let Some(x) = read_incoming(&list[i], channel, me) {
                let ghost seen = x@;
                out.push(x);
                assert(incoming_views(out@) =~= incoming_views(was).push(seen));
            }
            i = i + 1;
        }
        assert(all.take(all.len() as int) =~= all);
    }
    out
}

/// No message of the user's own, no empty one and no one in a public conversation that leaves the
/// user unmentioned is ever taken for one to answer.
pub proof fn law_only_messages_for_me(
    list: Seq<JsonView>,
    channel: Seq<char>,
    is_dm: bool,
    me: Seq<char>,
    k: int,
)
    requires
        0 <= k < for_me(list, channel, is_dm, me).len(),
    ensures
        for_me(list, channel, is_dm, me)[k].is_dm || for_me(list, channel, is_dm, me)[k].mentioned,
        text::trim(for_me(list, channel, is_dm, me)[k].text).len() > 0,
        exists|i: int|
            0 <= i < list.len() && text_or_empty(#[trigger] list[i], "user"@) != me && for_me(
                list,
                channel,
                is_dm,
                me,
            )[k] == incoming(list[i], channel, is_dm, me),
    decreases list.len(),
{
    let rest = for_me(list.drop_last(), channel, is_dm, me);
    if k < rest.len() {
        law_only_messages_for_me(list.drop_last(), channel, is_dm, me, k);
        let i = choose|i: int|
            0 <= i < list.drop_last().len() && text_or_empty(
                #[trigger] list.drop_last()[i],
                "user"@,
            ) != me && rest[k] == incoming(list.drop_last()[i], channel, is_dm, me);
        assert(list[i] == list.drop_last()[i]);
    } else {
        let i = list.len() - 1;
        assert(text_or_empty(list[i], "user"@) != me);
    }
}

// ---------------------------------------------------------------------------------------------
// The latest message
// ---------------------------------------------------------------------------------------------
/// The time of a message as a number by which it is ordered. A time that is no number comes before
/// and after nothing.
#[derive(Clone, Copy)]
pub struct TsKey {
    /// Whether the time is a number.
    pub ordered: bool,
    /// The number by which it is ordered.
    pub key: i64,
}

/// A message that is directed at the user, with the time by which it is ordered.
pub struct IncomingTarget {
    /// The message.
    pub message: Incoming,
    /// Its time.
    pub ts: TsKey,
}

/// The one time is later than the other.
pub open spec fn later(a: TsKey, b: TsKey) -> bool {
    a.ordered && b.ordered && a.key > b.key
}

/// The place of the latest message among the first `n`: the first one, until a later one comes.
pub open spec fn latest(times: Seq<TsKey>, n: int) -> Option<int>
    decreases n,
{
    if n <= 0 {
        None
    } else {
        match latest(times, n - 1) {
            Some(b) => if later(times[n - 1], times[b]) {
                Some(n - 1)
            } else {
                Some(b)
            },
            None => Some(n - 1),
        }
    }
}

/// The times of messages.
pub open spec fn times_of(v: Seq<IncomingTarget>) -> Seq<TsKey> {
    Seq::new(v.len(), |i: int| v[i].ts)
}

/// The latest message, where there is one.
pub fn find_latest_target(list: Vec<IncomingTarget>) -> (r: Option<IncomingTarget>)
    ensures
        match latest(times_of(list@), list@.len() as int) {
            Some(b) => r == Some(list@[b]),
            None => r is None,
        },
{
    let ghost all = list@;
    let ghost times = times_of(list@);
    let n: usize = list.len();
    if n == 0 {
        return None;
    }
    let mut best: usize = 0;
    let mut i: usize = 1;
    proof {
        reveal_with_fuel(latest, 2);
    }
    while i < n
        invariant
            1 <= i <= n == list@.len(),
            best < i,
            times == times_of(list@),
            latest(times, i as int) == Some(best as int),
        decreases n - i,
    {
        if list[i].ts.ordered && list[best].ts.ordered && list[i].ts.key > list[best].ts.key {
            best = i;
        }
        i = i + 1;
    }
    let mut list: Vec<IncomingTarget> = list;
    let r: IncomingTarget = list.swap_remove(best);
    Some(r)
}

/// Where all times are numbers, the message that is chosen is the latest, and the first of those
/// that are equally late.
pub proof fn law_latest_is_latest(times: Seq<TsKey>, n: int, j: int)
    requires
        0 <= j < n <= times.len(),
        forall|i: int| 0 <= i < n ==> (#[trigger] times[i]).ordered,
    ensures
        latest(times, n) matches Some(b) && 0 <= b < n && times[j].key <= times[b].key && (j < b
            ==> times[j].key < times[b].key),
    decreases n,
{
    if n > 1 {
        if j < n - 1 {
            law_latest_is_latest(times, n - 1, j);
        } else {
            law_latest_is_latest(times, n - 1, 0);
        }
        let b = latest(times, n - 1)->0;
        if later(times[n - 1], times[b]) && j < n - 1 {
            assert(times[j].key < times[n - 1].key);
        }
    } else {
        reveal_with_fuel(latest, 2);
    }
}

// ---------------------------------------------------------------------------------------------
// Asking for a reply
// ---------------------------------------------------------------------------------------------
/// What kind of message it is.
pub open spec fn kind(mentioned: bool, is_dm: bool) -> Seq<char> {
    if mentioned {
        "メンション"@
    } else if is_dm {
        "DM"@
    } else {
        "メッセージ"@
    }
}

/// A note on whom the message is directed at, so that a direct question is not taken for chatter.
pub open spec fn direct_note(mentioned: bool, is_dm: bool) -> Seq<char> {
    if mentioned {
        "（これはあなた（本人）宛の@メンションです。基本的に何らかの返信をしてください）"@
    } else if is_dm {
        "（これはあなた宛のダイレクトメッセージです）"@
    } else {
        Seq::empty()
    }
}

/// What a reply may rely on, and nothing where nothing is known.
pub open spec fn knowledge_block(persona: Seq<char>, knowledge: Seq<char>) -> Seq<char> {
    if text::trim(knowledge).len() == 0 {
        Seq::empty()
    } else {
        "【"@ + persona
            + "に関する前提情報（これに反する推測はしない。ここに無い事実は断定しない）】\n"@
            + text::trim(knowledge) + "\n\n"@
    }
}

/// The prompt that asks whether to reply, and with what.
pub open spec fn reply_prompt(
    persona: Seq<char>,
    knowledge: Seq<char>,
    note: Seq<char>,
    message: Seq<char>,
) -> Seq<char> {
    knowledge_block(persona, knowledge) + "あなたは『"@ + persona
        + "』本人です。次のSlackメッセージへの対応を決めてください。"@ + note
        + "返信すべきでない（挨拶のみ・雑談・自動通知・どうでもいい内容）なら、出力は『返信不要』だけにしてください。"@
        + "返信すべきなら、1行目に『返信必要』と書き、2行目以降に返信本文だけを書いてください"@
        + "（前置き・解説・引用符なし。予定・可否・事実など自分が確実に知らないことは推測で断定せず、『確認して折り返します』等の確認形に）。\n\nメッセージ:\n"@
        + message
}

impl Incoming {
    /// What kind of message it is.
    pub fn kind_name(&self) -> (r: &'static str)
        ensures
            r@ == kind(self.mentioned, self.is_dm),
    {
        if self.mentioned {
            "メンション"
        } else if self.is_dm {
            "DM"
        } else {
            "メッセージ"
        }
    }

    /// The message, short enough for a prompt.
    pub fn excerpt(&self) -> (r: String)
        ensures
            r@ == text::shortened(self.text@, 500),
    {
        text::truncate(self.text.as_str(), 500)
    }

    /// The prompt that asks whether to reply to the message, and with what.
    pub fn prompt(&self, persona: &str, knowledge: &str) -> (r: String)
        ensures
            r@ == reply_prompt(
                persona@,
                knowledge@,
                direct_note(self.mentioned, self.is_dm),
                text::shortened(self.text@, 500),
            ),
    {
        let mut out: String = String::new();
        assert(out@ =~= Seq::<char>::empty());
        let known: String = text::trimmed(knowledge);
        if !known.as_str().is_empty() {
            out.push_str("【");
            out.push_str(persona);
            out.push_str(
                "に関する前提情報（これに反する推測はしない。ここに無い事実は断定しない）】\n",
            );
            out.push_str(known.as_str());
            out.push_str("\n\n");
        }
        assert(out@ =~= knowledge_block(persona@, knowledge@));
        out.push_str("あなたは『");
        out.push_str(persona);
        out.push_str("』本人です。次のSlackメッセージへの対応を決めてください。");
        let ghost before = out@;
        if self.mentioned {
            out.push_str(
                "（これはあなた（本人）宛の@メンションです。基本的に何らかの返信をしてください）",
            );
        } else if self.is_dm {
            out.push_str("（これはあなた宛のダイレクトメッセージです）");
        }
        assert(out@ =~= before + direct_note(self.mentioned, self.is_dm));
        out.push_str(
            "返信すべきでない（挨拶のみ・雑談・自動通知・どうでもいい内容）なら、出力は『返信不要』だけにしてください。",
        );
        out.push_str(
            "返信すべきなら、1行目に『返信必要』と書き、2行目以降に返信本文だけを書いてください",
        );
        out.push_str(
            "（前置き・解説・引用符なし。予定・可否・事実など自分が確実に知らないことは推測で断定せず、『確認して折り返します』等の確認形に）。\n\nメッセージ:\n",
        );
        out.push_str(self.excerpt().as_str());
        out
    }
}

// ---------------------------------------------------------------------------------------------
// Judging the answer
// ---------------------------------------------------------------------------------------------
/// The answer says that no reply is needed.
pub open spec fn declines(answer: Seq<char>) -> bool {
    ||| text::begins_with(text::strip_front(answer, Edge::White), "返信不要"@)
    ||| text::has_text(answer, "返信不要"@) && !text::has_text(answer, "返信必要"@)
}

/// What follows the judgment, and the whole answer where it gives none.
pub open spec fn behind_judgment(answer: Seq<char>) -> Seq<char> {
    match text::find_from(answer, "返信必要"@, 0) {
        Some(i) => answer.skip(i + "返信必要"@.len()),
        None => answer,
    }
}

/// The judgment that an answer gives.
pub open spec fn judgment_of(answer: Seq<char>) -> Seq<char> {
    if declines(answer) {
        "返信不要"@
    } else {
        "返信必要"@
    }
}

/// The reply that an answer proposes, and nothing where it says that none is needed.
pub open spec fn draft_of(answer: Seq<char>) -> Seq<char> {
    if declines(answer) {
        Seq::empty()
    } else {
        text::trim(text::strip_front(behind_judgment(answer), Edge::Lead))
    }
}

/// The judgment that an answer gives, and the reply that it proposes.
pub fn judge(answer: &str) -> (r: (String, String))
    ensures
        r.0@ == judgment_of(answer@),
        r.1@ == draft_of(answer@),
{
    let cs: Vec<char> = text::to_chars(answer);
    let front: String = text::to_text(&text::strip_front_chars(&cs, Edge::White));
    if text::starts_with(front.as_str(), "返信不要") || (text::contains(answer, "返信不要")
        && !text::contains(answer, "返信必要")) {
        return (text::copy("返信不要"), String::new());
    }
    let mark: Vec<char> = text::to_chars("返信必要");
    let body: Vec<char> = match text::find_chars(&cs, &mark, 0) {
        Some(i) => {
            assert(cs@.subrange(i + mark@.len(), cs@.len() as int) =~= cs@.skip(i + mark@.len()));
            text::part(&cs, i + mark.len(), cs.len())
        },
        None => cs,
    };
    let body: Vec<char> = text::trim_chars(&text::strip_front_chars(&body, Edge::Lead));
    (text::copy("返信必要"), text::to_text(&body))
}

/// Nothing but marks that may stand between a judgment and the text that it introduces.
pub open spec fn is_lead(sep: Seq<char>) -> bool {
    forall|i: int| 0 <= i < sep.len() ==> Edge::Lead.has(#[trigger] sep[i])
}

proof fn lemma_lead_stripped(sep: Seq<char>, body: Seq<char>)
    requires
        is_lead(sep),
        body.len() > 0 ==> !Edge::Lead.has(body[0]),
    ensures
        text::strip_front(sep + body, Edge::Lead) == body,
    decreases sep.len(),
{
    let s = sep + body;
    if sep.len() > 0 {
        assert(Edge::Lead.has(sep[0]));
        assert(s[0] == sep[0]);
        assert(s.skip(1) =~= sep.skip(1) + body);
        assert forall|i: int| 0 <= i < sep.skip(1).len() implies Edge::Lead.has(
            #[trigger] sep.skip(1)[i],
        ) by {
            assert(sep.skip(1)[i] == sep[i + 1]);
        }
        lemma_lead_stripped(sep.skip(1), body);
    } else {
        assert(s =~= body);
    }
}

/// An answer in the form that was asked for is understood: where it begins with the judgment that
/// a reply is needed, what follows is the reply, word for word.
pub proof fn law_proposed_reply_is_taken(sep: Seq<char>, body: Seq<char>)
    requires
        is_lead(sep),
        body.len() > 0 ==> !Edge::Lead.has(body[0]),
        text::bare(body, Edge::White),
    ensures
        judgment_of("返信必要"@ + sep + body) == "返信必要"@,
        draft_of("返信必要"@ + sep + body) == body,
{
    reveal_strlit("返信必要");
    reveal_strlit("返信不要");
    let mark = "返信必要"@;
    let answer = mark + sep + body;
    assert(answer.subrange(0, mark.len() as int) =~= mark);
    assert(text::occurs_at(answer, mark, 0));
    text::lemma_find_from_is(answer, mark, 0, 0);
    assert(answer[0] == '返' && answer[2] == '必');
    let stripped = text::strip_front(answer, Edge::White);
    assert(stripped == answer);
    if text::begins_with(stripped, "返信不要"@) {
        assert(stripped.take(4)[2] == '不');
    }
    assert(answer.skip(mark.len() as int) =~= sep + body);
    lemma_lead_stripped(sep, body);
    text::lemma_strip_bare(body, Edge::White);
}

/// An answer that says that no reply is needed leads to no reply.
pub proof fn law_declined_reply_is_empty(answer: Seq<char>)
    requires
        declines(answer),
    ensures
        judgment_of(answer) == "返信不要"@,
        draft_of(answer).len() == 0,
{
}

// ---------------------------------------------------------------------------------------------
// The reply
// ---------------------------------------------------------------------------------------------
/// A reply that is ready to be looked at.
pub struct Prepared {
    /// The session to post it in.
    pub sc: SlackClient,
    /// The conversation to post it to.
    pub channel: String,
    /// The thread to post it in.
    pub thread_ts: String,
    /// The message that it answers, shortened.
    pub incoming: String,
    /// The judgment that was given.
    pub judgment: String,
    /// The reply, which is empty where none is needed.
    pub draft: String,
}

/// The reply to a message that an answer of the assistant leads to.
pub fn prepare_reply(sc: SlackClient, target: Incoming, answer: &str) -> (r: Prepared)
    ensures
        r.sc == sc,
        r.channel == target.channel,
        r.thread_ts == target.thread_ts,
        r.incoming@ == text::shortened(target.text@, 500),
        r.judgment@ == judgment_of(answer@),
        r.draft@ == draft_of(answer@),
{
    let incoming: String = target.excerpt();
    let (judgment, draft) = judge(answer);
    Prepared {
        sc,
        channel: target.channel,
        thread_ts: target.thread_ts,
        incoming,
        judgment,
        draft,
    }
}

/// What to do with a reply on the command line.
#[derive(Clone, Copy)]
pub enum ReplyPlan {
    /// There is none: skip the message.
    Skip,
    /// Post it.
    Send,
    /// Show it only.
    ShowDraft,
}

/// There is nothing in the reply to post.
pub open spec fn is_empty_draft(draft: Seq<char>) -> bool {
    text::trim(draft).len() == 0
}

/// What to do with a reply on the command line: nothing is posted unless `send` says so.
pub fn reply(p: &Prepared, send: bool) -> (r: ReplyPlan)
    ensures
        r == if is_empty_draft(p.draft@) {
            ReplyPlan::Skip
        } else if send {
            ReplyPlan::Send
        } else {
            ReplyPlan::ShowDraft
        },
{
    if text::blank(p.draft.as_str()) {
        ReplyPlan::Skip
    } else if send {
        ReplyPlan::Send
    } else {
        ReplyPlan::ShowDraft
    }
}

/// What to post on the command line: the reply, in the thread of the message that it answers, where
/// `reply` says to post it, and nothing otherwise.
pub fn reply_request(p: &Prepared, send: bool) -> (r: Option<Request>)
    ensures
        match r {
            Some(q) => {
                &&& send
                &&& !is_empty_draft(p.draft@)
                &&& q.is_call(
                    p.sc,
                    "chat.postMessage"@,
                    seq![
                        ("channel"@, p.channel@),
                        ("text"@, p.draft@),
                        ("thread_ts"@, p.thread_ts@),
                    ],
                )
            },
            None => !send || is_empty_draft(p.draft@),
        },
{
    match reply(p, send) {
        ReplyPlan::Send => Some(
            p.sc.post_message(p.channel.as_str(), p.draft.as_str(), Some(p.thread_ts.as_str())),
        ),
        _ => None,
    }
}

// ---------------------------------------------------------------------------------------------
// What is answered, told by the messages alone
// ---------------------------------------------------------------------------------------------
/// Of the conversations that are listed, the first `max` are looked at, and each of those that has
/// an identifier is looked into, in order. It is a direct message where either mark says so.
pub proof fn law_all_conversations_are_looked_into(list: Seq<JsonView>, max: int)
    requires
        0 <= max,
    ensures
        first(list, max) == list.take(if list.len() < max {
            list.len() as int
        } else {
            max
        }),
        identified(list) == list.filter(|ch: JsonView| field(ch, "id"@) is Text).map_values(
            |ch: JsonView|
                (
                    field(ch, "id"@)->Text_0,
                    field(ch, "is_im"@) == JsonView::Bool(true) || field(ch, "is_mpim"@)
                        == JsonView::Bool(true),
                ),
        ),
    decreases list.len(),
{
    reveal(Seq::filter);
    let keep = |ch: JsonView| field(ch, "id"@) is Text;
    let seen = |ch: JsonView|
        (
            field(ch, "id"@)->Text_0,
            field(ch, "is_im"@) == JsonView::Bool(true) || field(ch, "is_mpim"@)
                == JsonView::Bool(true),
        );
    let all = list.filter(keep).map_values(seen);
    if list.len() <= max {
        assert(list.take(list.len() as int) =~= list);
    }
    if list.len() > 0 {
        let front = list.drop_last();
        law_all_conversations_are_looked_into(front, max);
        if keep(list.last()) {
            assert(all =~= front.filter(keep).map_values(seen).push(seen(list.last())));
        }
        assert(identified(list) =~= all);
    } else {
        assert(all =~= Seq::<(Seq<char>, bool)>::empty());
    }
}

/// Every message that somebody else wrote, that says something, and that stands in a direct message
/// or has a mention of the user anywhere in its text is taken, in order, and no other one is.
pub proof fn law_all_messages_for_me_are_taken(
    list: Seq<JsonView>,
    channel: Seq<char>,
    is_dm: bool,
    me: Seq<char>,
)
    ensures
        ({
            let named = |t: Seq<char>|
                text::has_text(t, "<@"@ + me + ">"@) || text::has_text(t, "<@"@ + me + "|"@);
            for_me(list, channel, is_dm, me) == list.filter(
                |m: JsonView|
                    {
                        let user = text_or_empty(m, "user"@);
                        let t = text_or_empty(m, "text"@);
                        user.len() > 0 && user != me && text::trim(t).len() > 0 && (is_dm || named(
                            t,
                        ))
                    },
            ).map_values(
                |m: JsonView|
                    IncomingView {
                        channel,
                        text: text_or_empty(m, "text"@),
                        thread_ts: if field(m, "thread_ts"@) is Text {
                            field(m, "thread_ts"@)->Text_0
                        } else {
                            text_or_empty(m, "ts"@)
                        },
                        ts: text_or_empty(m, "ts"@),
                        mentioned: named(text_or_empty(m, "text"@)),
                        is_dm,
                    },
            )
        }),
    decreases list.len(),
{
    reveal(Seq::filter);
    let named = |t: Seq<char>|
        text::has_text(t, "<@"@ + me + ">"@) || text::has_text(t, "<@"@ + me + "|"@);
    let keep = |m: JsonView|
        {
            let user = text_or_empty(m, "user"@);
            let t = text_or_empty(m, "text"@);
            user.len() > 0 && user != me && text::trim(t).len() > 0 && (is_dm || named(t))
        };
    let seen = |m: JsonView|
        IncomingView {
            channel,
            text: text_or_empty(m, "text"@),
            thread_ts: if field(m, "thread_ts"@) is Text {
                field(m, "thread_ts"@)->Text_0
            } else {
                text_or_empty(m, "ts"@)
            },
            ts: text_or_empty(m, "ts"@),
            mentioned: named(text_or_empty(m, "text"@)),
            is_dm,
        };
    let all = list.filter(keep).map_values(seen);
    if list.len() > 0 {
        let front = list.drop_last();
        let m = list.last();
        law_all_messages_for_me_are_taken(front, channel, is_dm, me);
        assert(keep(m) == is_for_me(m, is_dm, me));
        assert(seen(m) == incoming(m, channel, is_dm, me));
        if keep(m) {
            assert(all =~= front.filter(keep).map_values(seen).push(seen(m)));
        }
        assert(for_me(list, channel, is_dm, me) =~= all);
    } else {
        assert(all =~= Seq::<IncomingView>::empty());
    }
}

proof fn lemma_for_me_has(
    list: Seq<JsonView>,
    channel: Seq<char>,
    is_dm: bool,
    me: Seq<char>,
    i: int,
)
    requires
        0 <= i < list.len(),
        is_for_me(list[i], is_dm, me),
    ensures
        for_me(list, channel, is_dm, me).contains(incoming(list[i], channel, is_dm, me)),
    decreases list.len(),
{
    let all = for_me(list, channel, is_dm, me);
    let front = list.drop_last();
    let rest = for_me(front, channel, is_dm, me);
    let x = incoming(list[i], channel, is_dm, me);
    if i < front.len() {
        lemma_for_me_has(front, channel, is_dm, me, i);
        let k = choose|k: int| 0 <= k < rest.len() && rest[k] == x;
        assert(all[k] == x);
    } else {
        assert(all[rest.len() as int] == x);
    }
}

/// A mention is seen wherever it stands: whatever comes before the user's identifier in its
/// brackets and whatever behind it, and whether or not a name follows the identifier, the message
/// is taken as one that mentions the user, in a direct message as in any other conversation.
pub proof fn law_mention_is_seen_anywhere(
    list: Seq<JsonView>,
    i: int,
    channel: Seq<char>,
    is_dm: bool,
    me: Seq<char>,
    user: Seq<char>,
    a: Seq<char>,
    b: Seq<char>,
)
    requires
        0 <= i < list.len(),
        field(list[i], "user"@) == JsonView::Text(user),
        user.len() > 0,
        user != me,
        field(list[i], "text"@) == JsonView::Text(a + "<@"@ + me + ">"@ + b) || field(
            list[i],
            "text"@,
        ) == JsonView::Text(a + "<@"@ + me + "|"@ + b),
    ensures
        ({
            let taken = for_me(list, channel, is_dm, me);
            exists|k: int|
                {
                    &&& 0 <= k < taken.len()
                    &&& (#[trigger] taken[k]).text == field(list[i], "text"@)->Text_0
                    &&& taken[k].mentioned
                    &&& taken[k].is_dm == is_dm
                    &&& taken[k].channel == channel
                    &&& taken[k].ts == text_or_empty(list[i], "ts"@)
                }
        }),
{
    reveal_strlit("<@");
    let t = field(list[i], "text"@)->Text_0;
    let plain = "<@"@ + me + ">"@;
    let named = "<@"@ + me + "|"@;
    assert(a + "<@"@ + me + ">"@ + b =~= a + plain + b);
    assert(a + "<@"@ + me + "|"@ + b =~= a + named + b);
    text::law_found_text_is_there(a, plain, b, t);
    text::law_found_text_is_there(a, named, b, t);
    assert(t[a.len() as int] == '<');
    text::lemma_dark_text_is_not_blank(t, a.len() as int);
    lemma_for_me_has(list, channel, is_dm, me, i);
    let taken = for_me(list, channel, is_dm, me);
    let x = incoming(list[i], channel, is_dm, me);
    let k = choose|k: int| 0 <= k < taken.len() && taken[k] == x;
    assert(taken[k].text == t);
}

/// The message that is answered gives way only to a later one: none that follows it is later, it
/// is later than the first one, where it is another, and a time that is no number neither takes
/// its place nor gives it up.
pub proof fn law_latest_gives_way_to_later(times: Seq<TsKey>, n: int)
    requires
        0 < n <= times.len(),
    ensures
        latest(times, 0) is None,
        latest(times, n) matches Some(b) && {
            &&& 0 <= b < n
            &&& b > 0 ==> times[b].ordered && times[0].ordered && times[b].key > times[0].key
            &&& forall|j: int|
                b < j < n ==> !((#[trigger] times[j]).ordered && times[b].ordered && times[j].key
                    > times[b].key)
        },
    decreases n,
{
    if n > 1 {
        law_latest_gives_way_to_later(times, n - 1);
    } else {
        reveal_with_fuel(latest, 2);
    }
}

/// The prompt tells the assistant in whose name to write, what is known, whom the message is
/// directed at, how to answer, and what the message says, and nothing besides.
pub proof fn law_prompt_tells_all(
    persona: Seq<char>,
    knowledge: Seq<char>,
    mentioned: bool,
    is_dm: bool,
    message: Seq<char>,
)
    ensures
        ({
            let known = if text::trim(knowledge).len() > 0 {
                "【"@ + persona
                    + "に関する前提情報（これに反する推測はしない。ここに無い事実は断定しない）】\n"@
                    + text::trim(knowledge) + "\n\n"@
            } else {
                Seq::empty()
            };
            let note = if mentioned {
                "（これはあなた（本人）宛の@メンションです。基本的に何らかの返信をしてください）"@
            } else if is_dm {
                "（これはあなた宛のダイレクトメッセージです）"@
            } else {
                Seq::empty()
            };
            reply_prompt(persona, knowledge, direct_note(mentioned, is_dm), message) == known
                + "あなたは『"@ + persona
                + "』本人です。次のSlackメッセージへの対応を決めてください。"@ + note
                + "返信すべきでない（挨拶のみ・雑談・自動通知・どうでもいい内容）なら、出力は『返信不要』だけにしてください。"@
                + "返信すべきなら、1行目に『返信必要』と書き、2行目以降に返信本文だけを書いてください"@
                + "（前置き・解説・引用符なし。予定・可否・事実など自分が確実に知らないことは推測で断定せず、『確認して折り返します』等の確認形に）。\n\nメッセージ:\n"@
                + message
        }),
        mentioned ==> kind(mentioned, is_dm) == "メンション"@,
        !mentioned && is_dm ==> kind(mentioned, is_dm) == "DM"@,
        !mentioned && !is_dm ==> kind(mentioned, is_dm) == "メッセージ"@,
{
}

/// The judgment follows the words of the answer: it is that no reply is needed where the answer
/// begins with those words, behind white space, or has them and not the others, and that one is
/// needed everywhere else.
pub proof fn law_judgment_follows_the_words(
    front: Seq<char>,
    rest: Seq<char>,
    answer: Seq<char>,
)
    requires
        forall|i: int| 0 <= i < front.len() ==> text::is_white(#[trigger] front[i]),
    ensures
        judgment_of(front + "返信不要"@ + rest) == "返信不要"@,
        draft_of(front + "返信不要"@ + rest).len() == 0,
        text::has_text(answer, "返信不要"@) && !text::has_text(answer, "返信必要"@)
            ==> judgment_of(answer) == "返信不要"@ && draft_of(answer).len() == 0,
        !text::has_text(answer, "返信不要"@) ==> judgment_of(answer) == "返信必要"@,
        text::has_text(answer, "返信必要"@) && !text::begins_with(
            text::strip_front(answer, Edge::White),
            "返信不要"@,
        ) ==> judgment_of(answer) == "返信必要"@,
        is_empty_draft(answer) <==> text::trim(answer).len() == 0,
{
    reveal_strlit("返信不要");
    reveal_strlit("返信必要");
    let no = "返信不要"@;
    assert(no[0] == '返');
    assert forall|i: int| 0 <= i < front.len() implies Edge::White.has(#[trigger] front[i]) by {
        assert(text::is_white(front[i]));
    }
    let said = no + rest;
    text::lemma_strip_front_behind(front, said, Edge::White);
    assert(front + no + rest =~= front + said);
    text::law_found_text_is_there(Seq::empty(), no, rest, said);
    if text::begins_with(text::strip_front(answer, Edge::White), no) {
        let s = text::strip_front(answer, Edge::White);
        text::lemma_strip_front(answer, Edge::White);
        text::law_found_text_is_there(Seq::empty(), no, rest, s);
        let x = answer.take(answer.len() - s.len());
        assert(answer =~= x + no + s.skip(4));
        text::law_found_text_is_there(x, no, s.skip(4), answer);
    }
}

proof fn lemma_body_kept(sep: Seq<char>, body: Seq<char>, back: Seq<char>)
    requires
        forall|i: int|
            0 <= i < sep.len() ==> seq![
                '：',
                ':',
                '。',
                '、',
                ' ',
                '　',
                '\n',
                '\r',
                '\t',
                '-',
            ].contains(#[trigger] sep[i]),
        forall|i: int| 0 <= i < back.len() ==> text::is_white(#[trigger] back[i]),
        body.len() > 0,
        !Edge::Lead.has(body[0]),
        !text::is_white(body[0]),
        !text::is_white(body.last()),
    ensures
        text::trim(text::strip_front(sep + body + back, Edge::Lead)) == body,
{
    let none = Seq::<char>::empty();
    let rest = sep + body + back;
    assert forall|i: int| 0 <= i < sep.len() implies Edge::Lead.has(#[trigger] sep[i]) by {
        text::law_kinds_of_edges(sep[i]);
    }
    assert forall|i: int| 0 <= i < back.len() implies Edge::White.has(#[trigger] back[i]) by {
        assert(text::is_white(back[i]));
    }
    assert(rest =~= sep + (body + back));
    text::lemma_strip_front_behind(sep, body + back, Edge::Lead);
    text::law_edges_are_stripped(none, body, back, Edge::White);
    assert(none + body + back =~= body + back);
}

proof fn lemma_begins_has(s: Seq<char>, pat: Seq<char>)
    requires
        text::begins_with(text::strip_front(s, Edge::White), pat),
    ensures
        text::has_text(s, pat),
{
    let t = text::strip_front(s, Edge::White);
    text::lemma_strip_front(s, Edge::White);
    let n = s.len() - t.len();
    assert(s.subrange(n, n + pat.len()) =~= t.take(pat.len() as int));
    assert(text::occurs_at(s, pat, n));
}

/// What is proposed is what stands behind the first judgment that a reply is needed, without the
/// marks that introduce it and without white space round it: of the reply itself not a character
/// is lost, whatever the answer says before the judgment.
pub proof fn law_reply_stands_behind_the_judgment(
    front: Seq<char>,
    sep: Seq<char>,
    body: Seq<char>,
    back: Seq<char>,
)
    requires
        forall|i: int|
            0 <= i < sep.len() ==> seq![
                '：',
                ':',
                '。',
                '、',
                ' ',
                '　',
                '\n',
                '\r',
                '\t',
                '-',
            ].contains(#[trigger] sep[i]),
        forall|i: int| 0 <= i < back.len() ==> text::is_white(#[trigger] back[i]),
        body.len() > 0,
        !Edge::Lead.has(body[0]),
        !text::is_white(body[0]),
        !text::is_white(body.last()),
        forall|x: Seq<char>, y: Seq<char>|
            front + "返信必要"@ + (sep + body + back) == #[trigger] (x + "返信必要"@ + y) ==> x.len()
                >= front.len(),
        !text::begins_with(
            text::strip_front(front + "返信必要"@ + (sep + body + back), Edge::White),
            "返信不要"@,
        ),
    ensures
        draft_of(front + "返信必要"@ + (sep + body + back)) == body,
{
    let mark = "返信必要"@;
    let rest = sep + body + back;
    let answer = front + mark + rest;
    assert(text::find_from(answer, mark, 0) == Some(front.len() as int)) by {
        text::law_first_is_found(front, mark, rest);
    }
    assert(text::has_text(answer, mark)) by {
        text::law_found_text_is_there(front, mark, rest, answer);
    }
    assert(answer.skip(front.len() + mark.len() as int) =~= rest);
    lemma_body_kept(sep, body, back);
}

/// An answer without any judgment is taken as the reply, without the marks that introduce it and
/// without white space round it.
pub proof fn law_answer_without_judgment_is_the_reply(
    sep: Seq<char>,
    body: Seq<char>,
    back: Seq<char>,
)
    requires
        forall|i: int|
            0 <= i < sep.len() ==> seq![
                '：',
                ':',
                '。',
                '、',
                ' ',
                '　',
                '\n',
                '\r',
                '\t',
                '-',
            ].contains(#[trigger] sep[i]),
        forall|i: int| 0 <= i < back.len() ==> text::is_white(#[trigger] back[i]),
        body.len() > 0,
        !Edge::Lead.has(body[0]),
        !text::is_white(body[0]),
        !text::is_white(body.last()),
        !text::has_text(sep + body + back, "返信必要"@),
        !text::has_text(sep + body + back, "返信不要"@),
    ensures
        draft_of(sep + body + back) == body,
{
    let answer = sep + body + back;
    assert(text::find_from(answer, "返信必要"@, 0) is None) by {
        text::lemma_find_from(answer, "返信必要"@, 0);
    }
    if text::begins_with(text::strip_front(answer, Edge::White), "返信不要"@) {
        lemma_begins_has(answer, "返信不要"@);
    }
    lemma_body_kept(sep, body, back);
}

/// A look at the chat is limited: it takes the first fifty conversations and no more, and six
/// messages of each.
pub proof fn law_look_is_limited(list: Seq<JsonView>)
    ensures
        first(list, SCAN_CHANNELS as int).len() <= 50,
        list.len() >= 50 ==> first(list, SCAN_CHANNELS as int).len() == 50,
        SCAN_MESSAGES == 6,
{
}

/// What is seen of a message, of a list of messages, of a list of conversations and of a list of
/// times is what they hold, each thing in its own place.
pub proof fn law_messages_are_seen(
    m: Incoming,
    list: Seq<Incoming>,
    channels: Seq<Channel>,
    targets: Seq<IncomingTarget>,
    i: int,
)
    ensures
        m@.channel == m.channel@ && m@.text == m.text@,
        m@.thread_ts == m.thread_ts@ && m@.ts == m.ts@,
        m@.mentioned == m.mentioned && m@.is_dm == m.is_dm,
        incoming_views(list).len() == list.len(),
        0 <= i < list.len() ==> incoming_views(list)[i] == list[i]@,
        channel_views(channels).len() == channels.len(),
        0 <= i < channels.len() ==> channel_views(channels)[i] == (
            channels[i].id@,
            channels[i].is_dm,
        ),
        times_of(targets).len() == targets.len(),
        0 <= i < targets.len() ==> times_of(targets)[i] == targets[i].ts,
{
}

/// A draft is empty just where there is nothing but white space in it.
pub proof fn law_blank_draft_is_empty(draft: Seq<char>)
    ensures
        is_empty_draft(draft) <==> forall|i: int|
            0 <= i < draft.len() ==> text::is_white(#[trigger] draft[i]),
{
    let none = Seq::<char>::empty();
    if forall|i: int| 0 <= i < draft.len() ==> text::is_white(#[trigger] draft[i]) {
        assert forall|i: int| 0 <= i < draft.len() implies Edge::White.has(#[trigger] draft[i]) by {
            assert(text::is_white(draft[i]));
        }
        text::law_edges_are_stripped(draft, none, none, Edge::White);
        assert(draft + none + none =~= draft);
    } else {
        let i = choose|i: int| 0 <= i < draft.len() && !text::is_white(#[trigger] draft[i]);
        text::lemma_dark_text_is_not_blank(draft, i);
    }
}

/// Where nothing but marks and white space stands behind the judgment, there is nothing to propose.
pub proof fn law_judgment_alone_proposes_nothing(
    front: Seq<char>,
    sep: Seq<char>,
    back: Seq<char>,
)
    requires
        forall|i: int| 0 <= i < sep.len() ==> Edge::Lead.has(#[trigger] sep[i]),
        forall|i: int| 0 <= i < back.len() ==> text::is_white(#[trigger] back[i]),
        forall|x: Seq<char>, y: Seq<char>|
            front + "返信必要"@ + (sep + back) == #[trigger] (x + "返信必要"@ + y) ==> x.len()
                >= front.len(),
    ensures
        draft_of(front + "返信必要"@ + (sep + back)).len() == 0,
{
    let mark = "返信必要"@;
    let rest = sep + back;
    let answer = front + mark + rest;
    text::law_first_is_found(front, mark, rest);
    assert(answer.skip(front.len() + mark.len() as int) =~= rest);
    lemma_lead_and_white(sep, back);
}

proof fn lemma_lead_and_white(sep: Seq<char>, back: Seq<char>)
    requires
        forall|i: int| 0 <= i < sep.len() ==> Edge::Lead.has(#[trigger] sep[i]),
        forall|i: int| 0 <= i < back.len() ==> text::is_white(#[trigger] back[i]),
    ensures
        text::trim(text::strip_front(sep + back, Edge::Lead)).len() == 0,
    decreases sep.len() + back.len(),
{
    let s = sep + back;
    let none = Seq::<char>::empty();
    if sep.len() > 0 {
        let d = sep.skip(1);
        assert(Edge::Lead.has(sep[0]));
        assert(s[0] == sep[0]);
        assert(s.skip(1) =~= d + back);
        assert forall|i: int| 0 <= i < d.len() implies Edge::Lead.has(#[trigger] d[i]) by {
            assert(d[i] == sep[i + 1]);
        }
        lemma_lead_and_white(d, back);
    } else if back.len() > 0 && Edge::Lead.has(back[0]) {
        let d = back.skip(1);
        assert(s[0] == back[0]);
        assert(s.skip(1) =~= sep + d);
        assert forall|i: int| 0 <= i < d.len() implies text::is_white(#[trigger] d[i]) by {
            assert(d[i] == back[i + 1]);
        }
        lemma_lead_and_white(sep, d);
    } else {
        assert(s =~= back);
        law_blank_draft_is_empty(back);
    }
}

} // verus!
