//! Learning how the user writes, and keeping it in the knowledge base.

use vstd::prelude::*;

use crate::json::{as_text, field, items, list_view, text_or_empty, Json, JsonView};
use crate::text;
use crate::text::Edge;

verus! {

/// The number of conversations in which the user's own messages are looked for.
pub const LEARN_CHANNELS: usize = 40;

/// The number of messages that are looked at in each conversation.
pub const LEARN_MESSAGES: u32 = 30;

/// The number of messages to learn from.
pub const SAMPLES: usize = 40;

/// The number of names that are taken from the user's drive.
pub const DRIVE_ITEMS: usize = 80;

/// The heading under which the profile stands in the knowledge base.
pub const PROFILE_HEADER: &'static str = "## 自動生成プロファイル（人物・業務・文体）";

// ---------------------------------------------------------------------------------------------
// The user's own messages
// ---------------------------------------------------------------------------------------------
/// The text shows how somebody writes: it is not too short and does not begin with a mention or a
/// link.
pub open spec fn is_telling(t: Seq<char>) -> bool {
    t.len() >= 8 && t[0] != '<'
}

/// The message is one of the user's own and shows how they write.
pub open spec fn is_sample(m: JsonView, me: Seq<char>) -> bool {
    as_text(field(m, "user"@)) == Some(me) && is_telling(text::trim(text_or_empty(m, "text"@)))
}

/// The messages to learn from, once those of this list were added to those that came before, as
/// long as there were too few.
pub open spec fn sampled(
    list: Seq<JsonView>,
    me: Seq<char>,
    earlier: Seq<Seq<char>>,
) -> Seq<Seq<char>>
    decreases list.len(),
{
    if list.len() == 0 {
        earlier
    } else {
        let before = sampled(list.drop_last(), me, earlier);
        if before.len() < SAMPLES && is_sample(list.last(), me) {
            before.push(text::shortened(text::trim(text_or_empty(list.last(), "text"@)), 200))
        } else {
            before
        }
    }
}

/// Adds the user's own messages in the reply to `SlackClient::conversations_history` to those to
/// learn from, as long as there are too few, and says whether there are enough.
pub fn collect_samples(samples: &mut Vec<String>, history: &Json, me: &str) -> (enough: bool)
    ensures
        text::texts(final(samples)@) == sampled(
            items(field(history@, "messages"@)),
            me@,
            text::texts(old(samples)@),
        ),
        enough == (final(samples)@.len() >= SAMPLES),
{
    let ghost earlier = text::texts(samples@);
    if let Some(list) = history.list_at("messages") {
        let ghost all = list_view(list@);
        let mut i: usize = 0;
        assert(all.take(0) =~= Seq::<JsonView>::empty());
        while i < list.len()
            invariant
                i <= list@.len(),
                all == list_view(list@),
                text::texts(samples@) == sampled(all.take(i as int), me@, earlier),
            decreases list@.len() - i,
        {
            let ghost was = samples@;
            let m: &Json = &list[i];
            proof {
                assert(all.take(i + 1).drop_last() =~= all.take(i as int));
                assert(all.take(i + 1).last() == list@[i as int]@);
                assert(text::texts(was).len() == was.len());
            }
            let mine: bool = match m.text_at("user") {
                Some(u) => text::same_text(u.as_str(), me),
                None => false,
            };
            if mine && samples.len() < SAMPLES {
                let said: String = m.text_or_empty_at("text");
                let t: String = text::trimmed(said.as_str());
                let cs: Vec<char> = text::to_chars(t.as_str());
                if cs.len() >= 8 && cs[0] != '<' {
                    let short: String = text::truncate(t.as_str(), 200);
                    let ghost seen = short@;
                    samples.push(short);
                    assert(text::texts(samples@) =~= text::texts(was).push(seen));
                }
            }
            i = i + 1;
        }
        assert(all.take(all.len() as int) =~= all);
    }
    samples.len() >= SAMPLES
}

proof fn lemma_sampled_len(list: Seq<JsonView>, me: Seq<char>, earlier: Seq<Seq<char>>)
    ensures
        earlier.len() <= sampled(list, me, earlier).len(),
        earlier.len() <= SAMPLES ==> sampled(list, me, earlier).len() <= SAMPLES,
        sampled(list, me, earlier).take(earlier.len() as int) == earlier,
    decreases list.len(),
{
    if list.len() > 0 {
        let before = sampled(list.drop_last(), me, earlier);
        lemma_sampled_len(list.drop_last(), me, earlier);
        assert(sampled(list, me, earlier).take(earlier.len() as int) =~= before.take(
            earlier.len() as int,
        ));
    } else {
        assert(earlier.take(earlier.len() as int) =~= earlier);
    }
}

/// There are never too many messages to learn from, none of them is longer than it may be, and
/// those that are there stay.
pub proof fn law_samples_are_few(
    list: Seq<JsonView>,
    me: Seq<char>,
    earlier: Seq<Seq<char>>,
)
    requires
        earlier.len() <= SAMPLES,
        forall|i: int| 0 <= i < earlier.len() ==> (#[trigger] earlier[i]).len() <= 200,
    ensures
        sampled(list, me, earlier).len() <= SAMPLES,
        sampled(list, me, earlier).take(earlier.len() as int) == earlier,
        forall|i: int|
            0 <= i < sampled(list, me, earlier).len() ==> (#[trigger] sampled(
                list,
                me,
                earlier,
            )[i]).len() <= 200,
    decreases list.len(),
{
    lemma_sampled_len(list, me, earlier);
    if list.len() > 0 {
        law_samples_are_few(list.drop_last(), me, earlier);
        text::law_shortened_fits(text::trim(text_or_empty(list.last(), "text"@)), 200);
    }
}

// ---------------------------------------------------------------------------------------------
// The user's drive
// ---------------------------------------------------------------------------------------------
/// An entry of a folder.
pub struct DriveEntry {
    /// Its name.
    pub name: String,
    /// Whether it is a folder.
    pub is_dir: bool,
}

/// The entry is of the system's making, not of the user's.
pub open spec fn is_hidden(name: Seq<char>) -> bool {
    (name.len() > 0 && (name[0] == '.' || name[0] == '~')) || name == "desktop.ini"@
}

/// The line that shows an entry.
pub open spec fn drive_line(name: Seq<char>, is_dir: bool) -> Seq<char> {
    (if is_dir {
        "[フォルダ] "@
    } else {
        "[ファイル] "@
    }) + name
}

/// The lines that show the entries of a folder, up to `max` of them.
pub open spec fn drive_lines(entries: Seq<DriveEntry>, max: int) -> Seq<Seq<char>>
    decreases entries.len(),
{
    if entries.len() == 0 {
        Seq::empty()
    } else {
        let before = drive_lines(entries.drop_last(), max);
        if before.len() < max && !is_hidden(entries.last().name@) {
            before.push(drive_line(entries.last().name@, entries.last().is_dir))
        } else {
            before
        }
    }
}

/// The names in a folder, one to a line, with what they name: what the user makes and works on.
pub fn collect_drive_summary(entries: &Vec<DriveEntry>, max: usize) -> (r: String)
    ensures
        r@ == text::join(drive_lines(entries@, max as int), "\n"@),
{
    let mut items: Vec<String> = Vec::new();
    let mut i: usize = 0;
    assert(entries@.take(0) =~= Seq::<DriveEntry>::empty());
    assert(text::texts(items@) =~= Seq::<Seq<char>>::empty());
    while i < entries.len()
        invariant
            i <= entries@.len(),
            text::texts(items@) == drive_lines(entries@.take(i as int), max as int),
        decreases entries@.len() - i,
    {
        let ghost was = items@;
        proof {
            assert(entries@.take(i + 1).drop_last() =~= entries@.take(i as int));
            assert(text::texts(was).len() == was.len());
        }
        let name: &str = entries[i].name.as_str();
        let cs: Vec<char> = text::to_chars(name);
        let hidden: bool = (cs.len() > 0 && (cs[0] == '.' || cs[0] == '~')) || text::same_text(
            name,
            "desktop.ini",
        );
        if items.len() < max && !hidden {
            let line: String = text::concat(
                if entries[i].is_dir {
                    "[フォルダ] "
                } else {
                    "[ファイル] "
                },
                name,
            );
            let ghost seen = line@;
            items.push(line);
            assert(text::texts(items@) =~= text::texts(was).push(seen));
        }
        i = i + 1;
    }
    assert(entries@.take(entries@.len() as int) =~= entries@);
    text::joined(&items, "\n")
}

/// However much is in the folder, no more of it is shown than may be.
pub proof fn law_drive_is_capped(entries: Seq<DriveEntry>, max: int)
    requires
        max >= 0,
    ensures
        drive_lines(entries, max).len() <= max,
    decreases entries.len(),
{
    if entries.len() > 0 {
        law_drive_is_capped(entries.drop_last(), max);
    }
}

/// The number of lines that are not blank.
pub open spec fn filled_lines(lines: Seq<Seq<char>>) -> nat
    decreases lines.len(),
{
    if lines.len() == 0 {
        0
    } else {
        filled_lines(lines.drop_last()) + if text::trim(lines.last()).len() > 0 {
            1nat
        } else {
            0nat
        }
    }
}

/// The number of lines of a text that are not blank.
pub fn count_lines(s: &str) -> (r: usize)
    ensures
        r == filled_lines(text::lines(s@)),
{
    let lines: Vec<Vec<char>> = text::line_list(&text::to_chars(s));
    let ghost all = text::views(lines@);
    let mut n: usize = 0;
    let mut i: usize = 0;
    assert(all.take(0) =~= Seq::<Seq<char>>::empty());
    while i < lines.len()
        invariant
            i <= lines@.len(),
            all == text::views(lines@),
            n <= i,
            n == filled_lines(all.take(i as int)),
        decreases lines@.len() - i,
    {
        assert(all.take(i + 1).drop_last() =~= all.take(i as int));
        assert(all.take(i + 1).last() == lines@[i as int]@);
        if text::trim_chars(&lines[i]).len() > 0 {
            n = n + 1;
        }
        i = i + 1;
    }
    assert(all.take(all.len() as int) =~= all);
    n
}

// ---------------------------------------------------------------------------------------------
// The profile
// ---------------------------------------------------------------------------------------------
/// The prompt that asks for a profile of the user.
pub open spec fn profile_request(
    persona: Seq<char>,
    samples: Seq<Seq<char>>,
    drive: Seq<char>,
) -> Seq<char> {
    "以下は『"@ + persona
        + "』本人のSlack発言例と、本人のGoogleドライブにあるフォルダ/ファイル名です。"@
        + "ここから次の2つを箇条書きでまとめてください。"@
        + "【人物・業務】= どんな役割・業務・専門・関心を持つ人か（断定せず『〜と思われる』程度に）。"@
        + "【文体】= 本人になりきって返信するための書き方の特徴（書き出し・語尾・丁寧さ・絵文字・文の長さ）。"@
        + "見出し『【人物・業務】』『【文体】』を付け、箇条書き本文だけを出力してください。\n\n"@
        + "■Slack発言例:\n"@ + text::join(samples, "\n---\n"@) + "\n\n■Googleドライブの項目:\n"@
        + drive
}

/// The prompt that asks for a profile of the user. There is none where there is nothing to make it
/// of.
pub fn learn_prompt(persona: &str, samples: &Vec<String>, drive_summary: &str) -> (r: Option<String>)
    ensures
        match r {
            Some(p) => {
                &&& samples@.len() > 0 || drive_summary@.len() > 0
                &&& p@ == profile_request(persona@, text::texts(samples@), drive_summary@)
            },
            None => samples@.len() == 0 && drive_summary@.len() == 0,
        },
{
    if samples.len() == 0 && drive_summary.is_empty() {
        return None;
    }
    let mut out: String = text::copy("以下は『");
    out.push_str(persona);
    out.push_str("』本人のSlack発言例と、本人のGoogleドライブにあるフォルダ/ファイル名です。");
    out.push_str("ここから次の2つを箇条書きでまとめてください。");
    out.push_str(
        "【人物・業務】= どんな役割・業務・専門・関心を持つ人か（断定せず『〜と思われる』程度に）。",
    );
    out.push_str(
        "【文体】= 本人になりきって返信するための書き方の特徴（書き出し・語尾・丁寧さ・絵文字・文の長さ）。",
    );
    out.push_str(
        "見出し『【人物・業務】』『【文体】』を付け、箇条書き本文だけを出力してください。\n\n",
    );
    out.push_str("■Slack発言例:\n");
    out.push_str(text::joined(samples, "\n---\n").as_str());
    out.push_str("\n\n■Googleドライブの項目:\n");
    out.push_str(drive_summary);
    Some(out)
}

/// The profile to keep, without the white space round it. There is none where the assistant said
/// nothing.
pub fn profile_of(answer: &str) -> (r: Option<String>)
    ensures
        match r {
            Some(p) => p@.len() > 0 && p@ == text::trim(answer@),
            None => text::trim(answer@).len() == 0,
        },
{
    let t: String = text::trimmed(answer);
    if t.as_str().is_empty() {
        None
    } else {
        Some(t)
    }
}

// ---------------------------------------------------------------------------------------------
// The knowledge base
// ---------------------------------------------------------------------------------------------
/// The text without the white space at its end.
pub open spec fn ended(s: Seq<char>) -> Seq<char> {
    text::strip_back(s, Edge::White)
}

/// The text without the section under this heading: what stands before it and, where another
/// section follows, that one behind an empty line.
pub open spec fn without_section(existing: Seq<char>, header: Seq<char>) -> Seq<char> {
    match text::find_from(existing, header, 0) {
        Some(i) => {
            let before = ended(existing.take(i));
            let after = existing.skip(i + header.len());
            match text::find_from(after, "\n## "@, 0) {
                Some(k) => before + "\n\n"@ + text::strip_front(after.skip(k + 1), Edge::White),
                None => before,
            }
        },
        None => ended(existing),
    }
}

/// The section: the heading, and the body on the lines below.
pub open spec fn section(header: Seq<char>, body: Seq<char>) -> Seq<char> {
    header + "\n"@ + body + "\n"@
}

/// The text with this section at its end, behind an empty line.
pub open spec fn with_section(rest: Seq<char>, header: Seq<char>, body: Seq<char>) -> Seq<char> {
    if rest.len() == 0 {
        section(header, body)
    } else {
        rest + "\n\n"@ + section(header, body)
    }
}

/// The text of the knowledge base once the section under this heading was replaced, or added where
/// there was none.
pub open spec fn updated(existing: Seq<char>, header: Seq<char>, body: Seq<char>) -> Seq<char> {
    with_section(without_section(existing, header), header, body)
}

fn cut_section(existing: &str, header: &str) -> (r: String)
    ensures
        r@ == without_section(existing@, header@),
{
    let cs: Vec<char> = text::to_chars(existing);
    let hs: Vec<char> = text::to_chars(header);
    match text::find_chars(&cs, &hs, 0) {
        Some(i) => {
            let head: Vec<char> = text::part(&cs, 0, i);
            let after: Vec<char> = text::part(&cs, i + hs.len(), cs.len());
            proof {
                assert(head@ =~= existing@.take(i as int));
                assert(after@ =~= existing@.skip(i + hs@.len()));
            }
            let before: String = text::to_text(&text::strip_back_chars(&head, Edge::White));
            let mark: Vec<char> = text::to_chars("\n## ");
            match text::find_chars(&after, &mark, 0) {
                Some(k) => {
                    proof {
                        reveal_strlit("\n## ");
                    }
                    let rest: Vec<char> = text::part(&after, k + 1, after.len());
                    assert(rest@ =~= after@.skip(k + 1));
                    let mut out: String = before;
                    out.push_str("\n\n");
                    out.push_str(
                        text::to_text(&text::strip_front_chars(&rest, Edge::White)).as_str(),
                    );
                    out
                },
                None => before,
            }
        },
        None => text::to_text(&text::strip_back_chars(&cs, Edge::White)),
    }
}

/// The text of the knowledge base once the section under this heading was replaced, or added where
/// there was none.
pub fn update_knowledge_section(existing: &str, header: &str, body: &str) -> (r: String)
    ensures
        r@ == updated(existing@, header@, body@),
{
    let cleaned: String = cut_section(existing, header);
    let mut out: String = String::new();
    assert(out@ =~= Seq::<char>::empty());
    if !cleaned.as_str().is_empty() {
        out.push_str(cleaned.as_str());
        out.push_str("\n\n");
    }
    let ghost front = out@;
    out.push_str(header);
    out.push_str("\n");
    out.push_str(body);
    out.push_str("\n");
    proof {
        assert(out@ =~= front + section(header@, body@));
        assert(cleaned@.len() == 0 ==> out@ =~= section(header@, body@));
    }
    out
}

/// The heading is a single line.
pub open spec fn is_heading_line(header: Seq<char>) -> bool {
    header.len() > 0 && !header.contains('\n')
}

/// The body holds no heading of another section.
pub open spec fn is_section_body(body: Seq<char>) -> bool {
    !text::has_text("\n"@ + body + "\n"@, "\n## "@)
}

proof fn lemma_ended_of(rest: Seq<char>, tail: Seq<char>)
    requires
        ended(rest) == rest,
        forall|i: int| 0 <= i < tail.len() ==> text::is_white(#[trigger] tail[i]),
    ensures
        ended(rest + tail) == rest,
    decreases tail.len(),
{
    let s = rest + tail;
    if tail.len() > 0 {
        assert(text::is_white(tail.last()));
        assert(s.last() == tail.last());
        assert(s.drop_last() =~= rest + tail.drop_last());
        assert forall|i: int| 0 <= i < tail.drop_last().len() implies text::is_white(
            #[trigger] tail.drop_last()[i],
        ) by {
            assert(tail.drop_last()[i] == tail[i]);
        }
        lemma_ended_of(rest, tail.drop_last());
    } else {
        assert(s =~= rest);
    }
}

proof fn lemma_ended_twice(s: Seq<char>)
    ensures
        ended(ended(s)) == ended(s),
{
    text::lemma_strip_back(s, Edge::White);
}

proof fn lemma_section_cut(rest: Seq<char>, header: Seq<char>, body: Seq<char>)
    requires
        is_heading_line(header),
        is_section_body(body),
        ended(rest) == rest,
        !text::has_text(rest, header),
    ensures
        without_section(with_section(rest, header, body), header) == rest,
{
    reveal_strlit("\n\n");
    reveal_strlit("\n");
    let s = with_section(rest, header, body);
    let gap = if rest.len() == 0 {
        Seq::<char>::empty()
    } else {
        "\n\n"@
    };
    let at = (rest + gap).len() as int;
    let tail = "\n"@ + body + "\n"@;
    assert(s =~= rest + gap + header + tail);
    assert(s.subrange(at, at + header.len()) =~= header);
    assert(text::occurs_at(s, header, at));
    assert forall|j: int| 0 <= j < at implies !text::occurs_at(s, header, j) by {
        if text::occurs_at(s, header, j) {
            let here = s.subrange(j, j + header.len());
            if j + header.len() <= rest.len() {
                assert(rest.subrange(j, j + header.len()) =~= here);
                assert(text::occurs_at(rest, header, j));
            } else {
                let k = if j < rest.len() {
                    rest.len() as int
                } else {
                    j
                };
                assert(s[k] == '\n');
                assert(here[k - j] == '\n');
                assert(header[k - j] == '\n');
            }
        }
    }
    text::lemma_find_from_is(s, header, 0, at);
    assert(s.take(at) =~= rest + gap);
    assert(s.skip(at + header.len()) =~= tail);
    assert forall|i: int| 0 <= i < gap.len() implies text::is_white(#[trigger] gap[i]) by {
        assert(gap[i] == '\n');
    }
    lemma_ended_of(rest, gap);
    text::lemma_find_from(tail, "\n## "@, 0);
}

/// What is written twice stands there once: to update a section and then to update it again comes
/// to the same as to update it the second time only. The rest of the knowledge base must not name
/// the heading, nor end in white space, which the second time would take away.
pub proof fn law_section_is_replaced(
    existing: Seq<char>,
    header: Seq<char>,
    first: Seq<char>,
    second: Seq<char>,
)
    requires
        is_heading_line(header),
        is_section_body(first),
        !text::has_text(without_section(existing, header), header),
        ended(without_section(existing, header)) == without_section(existing, header),
    ensures
        updated(updated(existing, header, first), header, second) == updated(
            existing,
            header,
            second,
        ),
{
    lemma_section_cut(without_section(existing, header), header, first);
}

/// A section that was added is found again: where the knowledge base held no such section, to
/// update it twice comes to the same as to update it the second time only.
pub proof fn law_added_section_is_replaced(
    existing: Seq<char>,
    header: Seq<char>,
    first: Seq<char>,
    second: Seq<char>,
)
    requires
        is_heading_line(header),
        is_section_body(first),
        !text::has_text(existing, header),
    ensures
        updated(updated(existing, header, first), header, second) == updated(
            existing,
            header,
            second,
        ),
{
    let rest = ended(existing);
    text::lemma_find_from(existing, header, 0);
    lemma_ended_twice(existing);
    text::lemma_strip_back(existing, Edge::White);
    assert(!text::has_text(rest, header)) by {
        if text::has_text(rest, header) {
            let i = choose|i: int| text::occurs_at(rest, header, i);
            assert(existing.subrange(i, i + header.len()) =~= rest.subrange(i, i + header.len()));
            assert(text::occurs_at(existing, header, i));
        }
    }
    law_section_is_replaced(existing, header, first, second);
}

/// What the knowledge base held besides stays: where it held no such section, all of it but the
/// white space at its end stands before the section.
pub proof fn law_rest_is_kept(existing: Seq<char>, header: Seq<char>, body: Seq<char>)
    requires
        !text::has_text(existing, header),
    ensures
        text::begins_with(updated(existing, header, body), ended(existing)),
        existing == ended(existing) + existing.skip(ended(existing).len() as int),
        forall|i: int|
            ended(existing).len() <= i < existing.len() ==> text::is_white(#[trigger] existing[i]),
{
    text::lemma_find_from(existing, header, 0);
    text::lemma_strip_back(existing, Edge::White);
    let rest = ended(existing);
    let now = updated(existing, header, body);
    assert(now.take(rest.len() as int) =~= rest);
    assert(existing =~= rest + existing.skip(rest.len() as int));
    assert forall|i: int| rest.len() <= i < existing.len() implies text::is_white(
        #[trigger] existing[i],
    ) by {
        assert(Edge::White.has(existing[i]));
    }
}

/// The section that was written stands at the end, with its heading and its body.
pub proof fn law_section_is_written(existing: Seq<char>, header: Seq<char>, body: Seq<char>)
    ensures
        ({
            let now = updated(existing, header, body);
            let new = section(header, body);
            new.len() <= now.len() && now.skip(now.len() - new.len()) == new
        }),
{
    let now = updated(existing, header, body);
    let new = section(header, body);
    assert(now.skip(now.len() - new.len()) =~= new);
}

// ---------------------------------------------------------------------------------------------
// What is learned from and what is kept, told by the texts alone
// ---------------------------------------------------------------------------------------------
/// Every message of the user's own with at least eight characters that does not begin with a mention
/// or a link is learned from, in order and shortened to two hundred characters, until there are
/// forty. What was there before stays in front.
pub proof fn law_all_own_messages_are_sampled(
    list: Seq<JsonView>,
    me: Seq<char>,
    earlier: Seq<Seq<char>>,
)
    requires
        earlier.len() <= 40,
    ensures
        ({
            let own = list.filter(
                |m: JsonView|
                    {
                        let t = text::trim(text_or_empty(m, "text"@));
                        field(m, "user"@) == JsonView::Text(me) && t.len() >= 8 && t[0] != '<'
                    },
            ).map_values(
                |m: JsonView| text::shortened(text::trim(text_or_empty(m, "text"@)), 200),
            );
            sampled(list, me, earlier) == if earlier.len() + own.len() <= 40 {
                earlier + own
            } else {
                (earlier + own).take(40)
            }
        }),
    decreases list.len(),
{
    reveal(Seq::filter);
    let keep = |m: JsonView|
        {
            let t = text::trim(text_or_empty(m, "text"@));
            field(m, "user"@) == JsonView::Text(me) && t.len() >= 8 && t[0] != '<'
        };
    let seen = |m: JsonView| text::shortened(text::trim(text_or_empty(m, "text"@)), 200);
    let own = list.filter(keep).map_values(seen);
    if list.len() > 0 {
        let front = list.drop_last();
        let m = list.last();
        law_all_own_messages_are_sampled(front, me, earlier);
        let before = front.filter(keep).map_values(seen);
        assert(keep(m) == is_sample(m, me));
        if keep(m) {
            assert(own =~= before.push(seen(m)));
            assert(earlier + own =~= (earlier + before).push(seen(m)));
            if earlier.len() + before.len() >= 40 {
                assert((earlier + own).take(40) =~= (earlier + before).take(40));
                if earlier.len() + before.len() == 40 {
                    assert((earlier + before).take(40) =~= earlier + before);
                }
            }
        }
    } else {
        assert(own =~= Seq::<Seq<char>>::empty());
        assert(earlier + own =~= earlier);
    }
}

/// Every entry of the folder is shown with what it is, in order, until there are `max` lines. Only
/// those whose names begin with a full stop or a tilde, and the one that the system makes, are left
/// out.
pub proof fn law_all_entries_are_shown(entries: Seq<DriveEntry>, max: int)
    requires
        0 <= max,
    ensures
        ({
            let lines = entries.filter(
                |e: DriveEntry|
                    !text::begins_with(e.name@, "."@) && !text::begins_with(e.name@, "~"@)
                        && e.name@ != "desktop.ini"@,
            ).map_values(
                |e: DriveEntry|
                    if e.is_dir {
                        "[フォルダ] "@ + e.name@
                    } else {
                        "[ファイル] "@ + e.name@
                    },
            );
            drive_lines(entries, max) == if lines.len() <= max {
                lines
            } else {
                lines.take(max)
            }
        }),
    decreases entries.len(),
{
    reveal(Seq::filter);
    let keep = |e: DriveEntry|
        !text::begins_with(e.name@, "."@) && !text::begins_with(e.name@, "~"@) && e.name@
            != "desktop.ini"@;
    let line = |e: DriveEntry|
        if e.is_dir {
            "[フォルダ] "@ + e.name@
        } else {
            "[ファイル] "@ + e.name@
        };
    let lines = entries.filter(keep).map_values(line);
    if entries.len() > 0 {
        let front = entries.drop_last();
        let e = entries.last();
        law_all_entries_are_shown(front, max);
        let before = front.filter(keep).map_values(line);
        assert(keep(e) == !is_hidden(e.name@)) by {
            reveal_strlit(".");
            reveal_strlit("~");
            if e.name@.len() > 0 {
                assert(e.name@.take(1)[0] == e.name@[0]);
                assert(e.name@[0] == '.' ==> e.name@.take(1) =~= "."@);
                assert(e.name@[0] == '~' ==> e.name@.take(1) =~= "~"@);
            }
        }
        if keep(e) {
            assert(lines =~= before.push(line(e)));
            if before.len() >= max {
                assert(lines.take(max) =~= before.take(max));
                if before.len() == max {
                    assert(before.take(max) =~= before);
                }
            }
        }
    } else {
        assert(lines =~= Seq::<Seq<char>>::empty());
    }
}

/// Every line with a dark character is counted, and no other one is.
pub proof fn law_filled_lines_are_counted(lines: Seq<Seq<char>>)
    ensures
        filled_lines(lines) == lines.filter(|l: Seq<char>| text::trim(l).len() > 0).len(),
    decreases lines.len(),
{
    reveal(Seq::filter);
    if lines.len() > 0 {
        law_filled_lines_are_counted(lines.drop_last());
    }
}

/// The prompt for a profile holds the persona, all the messages and all the names of the drive, and
/// always asks for the same.
pub proof fn law_profile_prompt_tells_all(
    persona: Seq<char>,
    samples: Seq<Seq<char>>,
    drive: Seq<char>,
)
    ensures
        profile_request(persona, samples, drive) == "以下は『"@ + persona
            + "』本人のSlack発言例と、本人のGoogleドライブにあるフォルダ/ファイル名です。"@
            + "ここから次の2つを箇条書きでまとめてください。"@
            + "【人物・業務】= どんな役割・業務・専門・関心を持つ人か（断定せず『〜と思われる』程度に）。"@
            + "【文体】= 本人になりきって返信するための書き方の特徴（書き出し・語尾・丁寧さ・絵文字・文の長さ）。"@
            + "見出し『【人物・業務】』『【文体】』を付け、箇条書き本文だけを出力してください。\n\n"@
            + "■Slack発言例:\n"@ + text::join(samples, "\n---\n"@)
            + "\n\n■Googleドライブの項目:\n"@ + drive,
{
}

proof fn lemma_before_kept(before: Seq<char>, gap: Seq<char>)
    requires
        before.len() == 0 || !text::is_white(before.last()),
        forall|i: int| 0 <= i < gap.len() ==> text::is_white(#[trigger] gap[i]),
    ensures
        ended(before + gap) == before,
{
    assert(ended(before) == before);
    lemma_ended_of(before, gap);
}

/// Of the knowledge base only the section is replaced: what stands before its heading is kept but
/// for the white space at its end, and so is the whole rest from the next heading on, with every
/// section in it. Between the parts stands an empty line, and the new section comes last.
pub proof fn law_all_other_sections_are_kept(
    before: Seq<char>,
    gap: Seq<char>,
    header: Seq<char>,
    body: Seq<char>,
    rest: Seq<char>,
    new: Seq<char>,
)
    requires
        before.len() == 0 || !text::is_white(before.last()),
        forall|i: int| 0 <= i < gap.len() ==> text::is_white(#[trigger] gap[i]),
        forall|x: Seq<char>, y: Seq<char>|
            (before + gap) + header + (body + "\n## "@ + rest) == #[trigger] (x + header + y)
                ==> x.len() >= (before + gap).len(),
        forall|x: Seq<char>, y: Seq<char>|
            body + "\n## "@ + rest == #[trigger] (x + "\n## "@ + y) ==> x.len() >= body.len(),
    ensures
        updated((before + gap) + header + (body + "\n## "@ + rest), header, new) == before + "\n\n"@
            + ("## "@ + rest) + "\n\n"@ + header + "\n"@ + new + "\n"@,
{
    let after = body + "\n## "@ + rest;
    let existing = (before + gap) + header + after;
    let at = (before + gap).len() as int;
    assert(text::find_from(existing, header, 0) == Some(at)) by {
        text::law_first_is_found(before + gap, header, after);
    }
    assert(text::find_from(after, "\n## "@, 0) == Some(body.len() as int)) by {
        text::law_first_is_found(body, "\n## "@, rest);
    }
    assert(existing.take(at) =~= before + gap);
    assert(existing.skip(at + header.len()) =~= after);
    lemma_before_kept(before, gap);
    reveal_strlit("\n## ");
    reveal_strlit("## ");
    reveal_strlit("\n\n");
    let kept = after.skip(body.len() as int + 1);
    assert(kept =~= "## "@ + rest);
    assert(kept[0] == '#');
    assert(text::strip_front(kept, Edge::White) == kept);
    assert(updated(existing, header, new) =~= before + "\n\n"@ + ("## "@ + rest) + "\n\n"@ + header
        + "\n"@ + new + "\n"@);
}

/// Where no other section follows, what stands before the heading is kept but for the white space
/// at its end, and the new section stands behind it, in the place of the old one.
pub proof fn law_last_section_is_replaced(
    before: Seq<char>,
    gap: Seq<char>,
    header: Seq<char>,
    after: Seq<char>,
    new: Seq<char>,
)
    requires
        before.len() == 0 || !text::is_white(before.last()),
        forall|i: int| 0 <= i < gap.len() ==> text::is_white(#[trigger] gap[i]),
        forall|x: Seq<char>, y: Seq<char>|
            (before + gap) + header + after == #[trigger] (x + header + y) ==> x.len() >= (before
                + gap).len(),
        !text::has_text(after, "\n## "@),
    ensures
        updated((before + gap) + header + after, header, new) == if before.len() == 0 {
            header + "\n"@ + new + "\n"@
        } else {
            before + "\n\n"@ + header + "\n"@ + new + "\n"@
        },
{
    let existing = (before + gap) + header + after;
    let at = (before + gap).len() as int;
    assert(text::find_from(existing, header, 0) == Some(at)) by {
        text::law_first_is_found(before + gap, header, after);
    }
    assert(text::find_from(after, "\n## "@, 0) is None) by {
        text::lemma_find_from(after, "\n## "@, 0);
    }
    assert(existing.take(at) =~= before + gap);
    assert(existing.skip(at + header.len()) =~= after);
    lemma_before_kept(before, gap);
    assert(updated(existing, header, new) =~= if before.len() == 0 {
        header + "\n"@ + new + "\n"@
    } else {
        before + "\n\n"@ + header + "\n"@ + new + "\n"@
    });
}

/// Where there was no such section, all that there was is kept but for the white space at its end,
/// and the new section stands behind it.
pub proof fn law_section_is_added(
    before: Seq<char>,
    gap: Seq<char>,
    header: Seq<char>,
    new: Seq<char>,
)
    requires
        before.len() == 0 || !text::is_white(before.last()),
        forall|i: int| 0 <= i < gap.len() ==> text::is_white(#[trigger] gap[i]),
        !text::has_text(before + gap, header),
    ensures
        updated(before + gap, header, new) == if before.len() == 0 {
            header + "\n"@ + new + "\n"@
        } else {
            before + "\n\n"@ + header + "\n"@ + new + "\n"@
        },
{
    assert(text::find_from(before + gap, header, 0) is None) by {
        text::lemma_find_from(before + gap, header, 0);
    }
    lemma_before_kept(before, gap);
    assert(updated(before + gap, header, new) =~= if before.len() == 0 {
        header + "\n"@ + new + "\n"@
    } else {
        before + "\n\n"@ + header + "\n"@ + new + "\n"@
    });
}

/// In a knowledge base as it is written here, a section is replaced and every section behind it is
/// kept to the last character: the heading is a line of its own behind an empty line, no other
/// heading stands in the old body, and whatever follows begins with one.
pub proof fn law_sections_behind_are_kept(
    before: Seq<char>,
    header: Seq<char>,
    body: Seq<char>,
    rest: Seq<char>,
    new: Seq<char>,
)
    requires
        header.len() > 0,
        !header.contains('\n'),
        before.len() == 0 || !text::is_white(before.last()),
        !text::has_text(before, header),
        !text::has_text("\n"@ + body + "\n"@, "\n## "@),
    ensures
        updated(
            before + "\n\n"@ + header + "\n"@ + body + "\n"@ + ("## "@ + rest),
            header,
            new,
        ) == before + "\n\n"@ + ("## "@ + rest) + "\n\n"@ + header + "\n"@ + new + "\n"@,
{
    reveal_strlit("\n\n");
    reveal_strlit("\n");
    reveal_strlit("## ");
    reveal_strlit("\n## ");
    let gap = "\n\n"@;
    let old = "\n"@ + body;
    let mark = "\n## "@;
    let after = old + mark + rest;
    let existing = (before + gap) + header + after;
    assert(before + "\n\n"@ + header + "\n"@ + body + "\n"@ + ("## "@ + rest) =~= existing);
    assert forall|i: int| 0 <= i < gap.len() implies text::is_white(#[trigger] gap[i]) by {
        assert(gap[i] == '\n');
    }
    assert forall|x: Seq<char>, y: Seq<char>| existing == #[trigger] (x + header + y) implies x.len()
        >= (before + gap).len() by {
        lemma_no_heading_before(before, header, after, x, y);
    }
    assert forall|x: Seq<char>, y: Seq<char>| after == #[trigger] (x + mark + y) implies x.len()
        >= old.len() by {
        lemma_no_mark_in_body(body, rest, x, y);
    }
    law_all_other_sections_are_kept(before, gap, header, old, rest, new);
}

proof fn lemma_no_heading_before(
    before: Seq<char>,
    header: Seq<char>,
    after: Seq<char>,
    x: Seq<char>,
    y: Seq<char>,
)
    requires
        header.len() > 0,
        !header.contains('\n'),
        !text::has_text(before, header),
        (before + "\n\n"@) + header + after == x + header + y,
    ensures
        x.len() >= before.len() + 2,
{
    reveal_strlit("\n\n");
    let s = (before + "\n\n"@) + header + after;
    let n = x.len() as int;
    assert forall|i: int| 0 <= i < header.len() implies s[n + i] == #[trigger] header[i] by {
        assert((x + header + y)[n + i] == header[i]);
    }
    if n + header.len() <= before.len() {
        assert(before.subrange(n, n + header.len()) =~= header);
        assert(text::occurs_at(before, header, n));
    } else if n < before.len() + 2 {
        let k = if n < before.len() {
            before.len() as int
        } else {
            n
        };
        assert(s[k] == '\n');
        assert(header[k - n] == '\n');
        assert(header.contains(header[k - n]));
    }
}

proof fn lemma_no_mark_in_body(body: Seq<char>, rest: Seq<char>, x: Seq<char>, y: Seq<char>)
    requires
        !text::has_text("\n"@ + body + "\n"@, "\n## "@),
        ("\n"@ + body) + "\n## "@ + rest == x + "\n## "@ + y,
    ensures
        x.len() >= body.len() + 1,
{
    reveal_strlit("\n");
    reveal_strlit("\n## ");
    let mark = "\n## "@;
    let s = ("\n"@ + body) + mark + rest;
    let inner = "\n"@ + body + "\n"@;
    let n = x.len() as int;
    assert forall|i: int| 0 <= i < 4 implies s[n + i] == #[trigger] mark[i] by {
        assert((x + mark + y)[n + i] == mark[i]);
    }
    if n + 4 <= inner.len() {
        assert forall|i: int| 0 <= i < 4 implies inner[n + i] == #[trigger] mark[i] by {
            assert(s[n + i] == mark[i]);
        }
        assert(inner.subrange(n, n + 4) =~= mark);
        assert(text::occurs_at(inner, mark, n));
    } else if n < body.len() + 1 {
        let k = body.len() + 1 - n;
        assert(0 < k < 4);
        assert(s[n + k] == mark[0]);
        assert(mark[k] == '\n');
    }
}

/// What is learned from is limited: forty samples, from thirty messages of each of forty
/// conversations, and eighty entries of the drive. What is learned goes under a heading of the
/// second level, which stands on a line of its own.
pub proof fn law_learning_is_limited(list: Seq<JsonView>, me: Seq<char>, entries: Seq<DriveEntry>)
    ensures
        sampled(list, me, Seq::empty()).len() <= 40,
        drive_lines(entries, DRIVE_ITEMS as int).len() <= 80,
        LEARN_CHANNELS == 40,
        LEARN_MESSAGES == 30,
        DRIVE_ITEMS == 80,
        PROFILE_HEADER@ == "## "@ + "自動生成プロファイル（人物・業務・文体）"@,
        is_heading_line(PROFILE_HEADER@),
{
    law_all_own_messages_are_sampled(list, me, Seq::empty());
    lemma_few_lines(entries, 80);
    reveal_strlit("## ");
    reveal_strlit("自動生成プロファイル（人物・業務・文体）");
    reveal_strlit("## 自動生成プロファイル（人物・業務・文体）");
    assert(PROFILE_HEADER@ =~= "## "@ + "自動生成プロファイル（人物・業務・文体）"@);
}

proof fn lemma_few_lines(entries: Seq<DriveEntry>, max: int)
    requires
        max >= 0,
    ensures
        drive_lines(entries, max).len() <= max,
    decreases entries.len(),
{
    if entries.len() > 0 {
        lemma_few_lines(entries.drop_last(), max);
    }
}

} // verus!
