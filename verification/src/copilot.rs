//! What the accessibility trees of the assistant application and of the chat client say.

use vstd::prelude::*;

use crate::text;
use crate::uia::{
    control_type_name, named_type, Element, CT_BUTTON, CT_EDIT, CT_LISTITEM, CT_TEXT,
};

verus! {

// ---------------------------------------------------------------------------------------------
// What an accessibility tree says
// ---------------------------------------------------------------------------------------------
/// The name of an element, without the white space round it.
pub open spec fn label(e: Element) -> Seq<char> {
    text::trim(e.name@)
}

/// Where the latest turn of the assistant begins: behind the last element that announces one, and
/// at the start where none does.
pub open spec fn turn_start(els: Seq<Element>) -> int
    decreases els.len(),
{
    if els.len() == 0 {
        0
    } else if label(els.last()) == "Copilot の発言"@ {
        els.len() as int
    } else {
        turn_start(els.drop_last())
    }
}

/// The text belongs to what the window shows below a conversation.
pub open spec fn is_footer(t: Seq<char>) -> bool {
    ||| t == "Copilot へメッセージを送る"@
    ||| text::has_text(t, "Copilot のエクスペリエンス"@)
    ||| text::has_text(t, "フィードバックがあれば"@)
    ||| text::has_text(t, "Copilot をご利用"@)
}

/// The text announces a turn or repeats the prompt, which is shown without the white space round
/// it.
pub open spec fn is_heading(t: Seq<char>, prompt: Seq<char>) -> bool {
    t == "あなたの発言"@ || t == "Copilot の発言"@ || t == text::trim(prompt)
}

/// The element shows text.
pub open spec fn is_text(e: Element) -> bool {
    label(e).len() > 0 && e.control_type == CT_TEXT
}

/// The parts of a reply that stand at `from` or behind, up to the footer: the texts that are no
/// headings, each the first time it comes, added to those that came before.
pub open spec fn said(
    els: Seq<Element>,
    prompt: Seq<char>,
    from: int,
    earlier: Seq<Seq<char>>,
) -> Seq<Seq<char>>
    decreases els.len() - from,
{
    if from < 0 || from >= els.len() {
        earlier
    } else {
        let t = label(els[from]);
        if is_text(els[from]) && is_footer(t) {
            earlier
        } else if is_text(els[from]) && !is_heading(t, prompt) && !earlier.contains(t) {
            said(els, prompt, from + 1, earlier.push(t))
        } else {
            said(els, prompt, from + 1, earlier)
        }
    }
}

/// The parts of the latest reply.
pub open spec fn reply_parts(els: Seq<Element>, prompt: Seq<char>) -> Seq<Seq<char>> {
    said(els, prompt, turn_start(els), Seq::empty())
}

/// The latest reply.
pub open spec fn response(els: Seq<Element>, prompt: Seq<char>) -> Seq<char> {
    text::join(reply_parts(els, prompt), Seq::empty())
}

fn footer(t: &str) -> (r: bool)
    ensures
        r == is_footer(t@),
{
    text::same_text(t, "Copilot へメッセージを送る") || text::contains(
        t,
        "Copilot のエクスペリエンス",
    ) || text::contains(t, "フィードバックがあれば") || text::contains(t, "Copilot をご利用")
}

fn heading(t: &str, prompt: &str) -> (r: bool)
    ensures
        r == is_heading(t@, prompt@),
{
    text::same_text(t, "あなたの発言") || text::same_text(t, "Copilot の発言") || text::same_text(
        t,
        text::trimmed(prompt).as_str(),
    )
}

fn listed(list: &Vec<String>, t: &str) -> (r: bool)
    ensures
        r == text::texts(list@).contains(t@),
{
    let mut i: usize = 0;
    while i < list.len()
        invariant
            i <= list@.len(),
            forall|j: int| 0 <= j < i ==> (#[trigger] list@[j])@ != t@,
        decreases list@.len() - i,
    {
        if text::same_text(list[i].as_str(), t) {
            assert(text::texts(list@)[i as int] == t@);
            return true;
        }
        i = i + 1;
    }
    proof {
        let all = text::texts(list@);
        if all.contains(t@) {
            let j = choose|j: int| 0 <= j < all.len() && all[j] == t@;
            assert(list@[j]@ == t@);
        }
    }
    false
}

fn find_turn_start(els: &Vec<Element>) -> (r: usize)
    ensures
        r == turn_start(els@),
        r <= els@.len(),
{
    let mut begin: usize = 0;
    let mut i: usize = 0;
    assert(els@.take(0) =~= Seq::<Element>::empty());
    while i < els.len()
        invariant
            begin <= i <= els@.len(),
            begin == turn_start(els@.take(i as int)),
        decreases els@.len() - i,
    {
        let name: String = text::trimmed(els[i].name.as_str());
        assert(els@.take(i + 1).drop_last() =~= els@.take(i as int));
        if text::same_text(name.as_str(), "Copilot の発言") {
            begin = i + 1;
        }
        i = i + 1;
    }
    assert(els@.take(els@.len() as int) =~= els@);
    begin
}

/// The latest reply of the assistant: the texts behind the last announcement of its turn and
/// before the footer, each once, without headings and without the prompt.
pub fn extract_response(els: &Vec<Element>, prompt: &str) -> (r: String)
    ensures
        r@ == response(els@, prompt@),
{
    let begin: usize = find_turn_start(els);
    let mut parts: Vec<String> = Vec::new();
    let mut i: usize = begin;
    let mut more: bool = true;
    assert(text::texts(parts@) =~= Seq::<Seq<char>>::empty());
    while more && i < els.len()
        invariant
            begin <= i <= els@.len(),
            more ==> said(els@, prompt@, i as int, text::texts(parts@)) == reply_parts(
                els@,
                prompt@,
            ),
            !more ==> text::texts(parts@) == reply_parts(els@, prompt@),
        decreases els@.len() - i, more as int,
    {
        let ghost was = parts@;
        let t: String = text::trimmed(els[i].name.as_str());
        if !t.as_str().is_empty() && els[i].control_type == CT_TEXT {
            if footer(t.as_str()) {
                more = false;
            } else if !heading(t.as_str(), prompt) && !listed(&parts, t.as_str()) {
                let ghost shown = t@;
                parts.push(t);
                assert(text::texts(parts@) =~= text::texts(was).push(shown));
            }
        }
        if more {
            i = i + 1;
        }
    }
    let r: String = text::joined(&parts, "");
    proof {
        reveal_strlit("");
        assert(""@ =~= Seq::<char>::empty());
    }
    r
}

proof fn lemma_said(els: Seq<Element>, prompt: Seq<char>, from: int, earlier: Seq<Seq<char>>, k: int)
    requires
        0 <= from,
        0 <= k < said(els, prompt, from, earlier).len(),
        k >= earlier.len(),
    ensures
        exists|i: int|
            from <= i < els.len() && is_text(#[trigger] els[i]) && label(els[i]) == said(
                els,
                prompt,
                from,
                earlier,
            )[k],
        !is_footer(said(els, prompt, from, earlier)[k]),
        !is_heading(said(els, prompt, from, earlier)[k], prompt),
    decreases els.len() - from,
{
    lemma_said_keeps(els, prompt, from, earlier);
    if from < els.len() {
        let t = label(els[from]);
        if is_text(els[from]) && is_footer(t) {
        } else if is_text(els[from]) && !is_heading(t, prompt) && !earlier.contains(t) {
            lemma_said_keeps(els, prompt, from + 1, earlier.push(t));
            if k > earlier.len() {
                lemma_said(els, prompt, from + 1, earlier.push(t), k);
            } else {
                let all = said(els, prompt, from + 1, earlier.push(t));
                assert(all.take(earlier.push(t).len() as int)[k] == t);
                assert(all[k] == t);
                assert(is_text(els[from]));
            }
        } else {
            lemma_said(els, prompt, from + 1, earlier, k);
        }
    }
}

proof fn lemma_said_keeps(
    els: Seq<Element>,
    prompt: Seq<char>,
    from: int,
    earlier: Seq<Seq<char>>,
)
    ensures
        earlier.len() <= said(els, prompt, from, earlier).len(),
        said(els, prompt, from, earlier).take(earlier.len() as int) == earlier,
        earlier.no_duplicates() ==> said(els, prompt, from, earlier).no_duplicates(),
    decreases els.len() - from,
{
    let all = said(els, prompt, from, earlier);
    if 0 <= from < els.len() {
        let t = label(els[from]);
        if is_text(els[from]) && is_footer(t) {
            assert(all.take(earlier.len() as int) =~= earlier);
        } else if is_text(els[from]) && !is_heading(t, prompt) && !earlier.contains(t) {
            lemma_said_keeps(els, prompt, from + 1, earlier.push(t));
            assert(all.take(earlier.len() as int) =~= all.take(earlier.push(t).len() as int).take(
                earlier.len() as int,
            ));
            assert(earlier.push(t).take(earlier.len() as int) =~= earlier);
        } else {
            lemma_said_keeps(els, prompt, from + 1, earlier);
        }
    } else {
        assert(all.take(earlier.len() as int) =~= earlier);
    }
}

proof fn lemma_turn_start(els: Seq<Element>)
    ensures
        0 <= turn_start(els) <= els.len(),
        turn_start(els) > 0 ==> label(els[turn_start(els) - 1]) == "Copilot の発言"@,
        forall|i: int|
            turn_start(els) <= i < els.len() ==> label(#[trigger] els[i]) != "Copilot の発言"@,
    decreases els.len(),
{
    if els.len() > 0 && label(els.last()) != "Copilot の発言"@ {
        lemma_turn_start(els.drop_last());
        assert forall|i: int| turn_start(els) <= i < els.len() implies label(#[trigger] els[i])
            != "Copilot の発言"@ by {
            if i < els.len() - 1 {
                assert(els.drop_last()[i] == els[i]);
            }
        }
    }
}

/// Nothing of an earlier turn, of the footer, of the headings or of the prompt gets into a reply,
/// and nothing gets in twice: its parts are texts that stand behind the last announcement of a
/// turn of the assistant.
pub proof fn law_reply_is_the_latest_turn(els: Seq<Element>, prompt: Seq<char>, k: int)
    requires
        0 <= k < reply_parts(els, prompt).len(),
    ensures
        exists|i: int|
            {
                &&& 0 <= i < els.len()
                &&& is_text(#[trigger] els[i])
                &&& label(els[i]) == reply_parts(els, prompt)[k]
                &&& forall|j: int|
                    i <= j < els.len() ==> label(#[trigger] els[j]) != "Copilot の発言"@
            },
        !is_footer(reply_parts(els, prompt)[k]),
        !is_heading(reply_parts(els, prompt)[k], prompt),
        reply_parts(els, prompt).no_duplicates(),
{
    lemma_turn_start(els);
    lemma_said(els, prompt, turn_start(els), Seq::empty(), k);
    lemma_said_keeps(els, prompt, turn_start(els), Seq::empty());
    let i = choose|i: int|
        turn_start(els) <= i < els.len() && is_text(#[trigger] els[i]) && label(els[i])
            == reply_parts(els, prompt)[k];
    assert(is_text(els[i]));
}

proof fn lemma_said_has(
    els: Seq<Element>,
    prompt: Seq<char>,
    from: int,
    earlier: Seq<Seq<char>>,
    i: int,
)
    requires
        0 <= from <= i < els.len(),
        is_text(els[i]),
        !is_heading(label(els[i]), prompt),
        forall|j: int| from <= j <= i ==> !(is_text(#[trigger] els[j]) && is_footer(label(els[j]))),
    ensures
        said(els, prompt, from, earlier).contains(label(els[i])),
    decreases els.len() - from,
{
    let all = said(els, prompt, from, earlier);
    let t = label(els[from]);
    assert(!(is_text(els[from]) && is_footer(t)));
    let now = if is_text(els[from]) && !is_heading(t, prompt) && !earlier.contains(t) {
        earlier.push(t)
    } else {
        earlier
    };
    assert(all == said(els, prompt, from + 1, now));
    if from < i {
        lemma_said_has(els, prompt, from + 1, now, i);
    } else {
        lemma_said_keeps(els, prompt, from + 1, now);
        assert(now.contains(t)) by {
            if !earlier.contains(t) {
                assert(now[earlier.len() as int] == t);
            }
        }
        let k = choose|k: int| 0 <= k < now.len() && now[k] == t;
        assert(all.take(now.len() as int)[k] == t);
        assert(all[k] == t);
    }
}

/// Nothing that was said is lost: each text of the latest turn that no footer comes before, and
/// that is no heading, gets into the reply.
pub proof fn law_reply_is_complete(els: Seq<Element>, prompt: Seq<char>, i: int)
    requires
        turn_start(els) <= i < els.len(),
        is_text(els[i]),
        !is_heading(label(els[i]), prompt),
        forall|j: int|
            turn_start(els) <= j <= i ==> !(is_text(#[trigger] els[j]) && is_footer(label(els[j]))),
    ensures
        reply_parts(els, prompt).contains(label(els[i])),
{
    lemma_turn_start(els);
    lemma_said_has(els, prompt, turn_start(els), Seq::empty(), i);
}

proof fn lemma_said_shifts(
    front: Seq<Element>,
    els: Seq<Element>,
    prompt: Seq<char>,
    from: int,
    earlier: Seq<Seq<char>>,
)
    requires
        0 <= from,
    ensures
        said(front + els, prompt, front.len() + from, earlier) == said(els, prompt, from, earlier),
    decreases els.len() - from,
{
    if from < els.len() {
        assert((front + els)[front.len() + from] == els[from]);
        let t = label(els[from]);
        lemma_said_shifts(front, els, prompt, from + 1, earlier);
        lemma_said_shifts(front, els, prompt, from + 1, earlier.push(t));
    }
}

/// Nothing before the last announcement of a turn has any influence on a reply, not even on what
/// counts as said before: the reply is that of the elements behind the announcement alone.
pub proof fn law_earlier_turns_do_not_matter(
    earlier: Seq<Element>,
    announcement: Element,
    turn: Seq<Element>,
    prompt: Seq<char>,
)
    requires
        label(announcement) == "Copilot の発言"@,
        forall|i: int| 0 <= i < turn.len() ==> label(#[trigger] turn[i]) != "Copilot の発言"@,
    ensures
        reply_parts(earlier + seq![announcement] + turn, prompt) == reply_parts(turn, prompt),
        response(earlier + seq![announcement] + turn, prompt) == response(turn, prompt),
{
    let front = earlier + seq![announcement];
    let all = front + turn;
    lemma_turn_start(turn);
    lemma_turn_start(all);
    if turn_start(turn) > 0 {
        assert(label(turn[turn_start(turn) - 1]) == "Copilot の発言"@);
    }
    assert(turn_start(all) == front.len()) by {
        let n = turn_start(all);
        if n > front.len() {
            assert(all[n - 1] == turn[n - 1 - front.len()]);
        } else if n < front.len() {
            assert(all[front.len() - 1] == announcement);
        }
    }
    lemma_said_shifts(front, turn, prompt, 0, Seq::empty());
}

/// The element is an input box that holds a value.
pub open spec fn is_input_box(e: Element) -> bool {
    e.control_type == CT_EDIT && e.has_value
}

/// The place of the first input box that holds a value, from `from` on.
pub open spec fn input_place(els: Seq<Element>, from: int) -> Option<int>
    decreases els.len() - from,
{
    if from < 0 || from >= els.len() {
        None
    } else if is_input_box(els[from]) {
        Some(from)
    } else {
        input_place(els, from + 1)
    }
}

/// The place of the first input box that holds a value.
pub fn find_input_box(els: &Vec<Element>) -> (r: Option<usize>)
    ensures
        match r {
            Some(i) => i < els@.len() && input_place(els@, 0) == Some(i as int),
            None => input_place(els@, 0) is None,
        },
{
    let mut i: usize = 0;
    while i < els.len()
        invariant
            i <= els@.len(),
            input_place(els@, i as int) == input_place(els@, 0),
        decreases els@.len() - i,
    {
        if els[i].control_type == CT_EDIT && els[i].has_value {
            return Some(i);
        }
        i = i + 1;
    }
    None
}

/// The element is a button whose name holds this text.
pub open spec fn is_button(e: Element, caption: Seq<char>) -> bool {
    e.control_type == CT_BUTTON && text::has_text(e.name@, caption)
}

/// The place of the first button whose name holds this text, from `from` on.
pub open spec fn button_place(els: Seq<Element>, caption: Seq<char>, from: int) -> Option<int>
    decreases els.len() - from,
{
    if from < 0 || from >= els.len() {
        None
    } else if is_button(els[from], caption) {
        Some(from)
    } else {
        button_place(els, caption, from + 1)
    }
}

/// The place of the first button whose name holds this text.
pub fn find_button(els: &Vec<Element>, caption: &str) -> (r: Option<usize>)
    ensures
        match r {
            Some(i) => i < els@.len() && button_place(els@, caption@, 0) == Some(i as int),
            None => button_place(els@, caption@, 0) is None,
        },
{
    let mut i: usize = 0;
    while i < els.len()
        invariant
            i <= els@.len(),
            button_place(els@, caption@, i as int) == button_place(els@, caption@, 0),
        decreases els@.len() - i,
    {
        if els[i].control_type == CT_BUTTON && text::contains(els[i].name.as_str(), caption) {
            return Some(i);
        }
        i = i + 1;
    }
    None
}

/// The element is the box in which a chat message is written, and not the one for searching.
pub open spec fn is_composer(e: Element) -> bool {
    &&& is_input_box(e)
    &&& text::has_text(e.name@, "メッセージ"@)
    &&& !text::has_text(e.name@, "検索"@)
}

/// The place of the box in which a chat message is written.
pub fn slack_input(els: &Vec<Element>) -> (r: Option<usize>)
    ensures
        match r {
            Some(i) => {
                &&& i < els@.len()
                &&& is_composer(els@[i as int])
                &&& forall|j: int| 0 <= j < i ==> !is_composer(#[trigger] els@[j])
            },
            None => forall|j: int| 0 <= j < els@.len() ==> !is_composer(#[trigger] els@[j]),
        },
{
    let mut i: usize = 0;
    while i < els.len()
        invariant
            i <= els@.len(),
            forall|j: int| 0 <= j < i ==> !is_composer(#[trigger] els@[j]),
        decreases els@.len() - i,
    {
        if els[i].control_type == CT_EDIT && els[i].has_value && text::contains(
            els[i].name.as_str(),
            "メッセージ",
        ) && !text::contains(els[i].name.as_str(), "検索") {
            return Some(i);
        }
        i = i + 1;
    }
    None
}

/// The element is a message of the conversation that is shown.
pub open spec fn is_message(e: Element) -> bool {
    e.control_type == CT_LISTITEM && label(e).len() > 6
}

/// The last message of the conversation that is shown.
pub fn latest_slack_message(els: &Vec<Element>) -> (r: Option<String>)
    ensures
        match r {
            Some(t) => exists|i: int|
                {
                    &&& 0 <= i < els@.len()
                    &&& is_message(#[trigger] els@[i])
                    &&& t@ == label(els@[i])
                    &&& forall|j: int| i < j < els@.len() ==> !is_message(#[trigger] els@[j])
                },
            None => forall|j: int| 0 <= j < els@.len() ==> !is_message(#[trigger] els@[j]),
        },
{
    let mut i: usize = els.len();
    while i > 0
        invariant
            i <= els@.len(),
            forall|j: int| i <= j < els@.len() ==> !is_message(#[trigger] els@[j]),
        decreases i,
    {
        i = i - 1;
        if els[i].control_type == CT_LISTITEM {
            let t: String = text::trimmed(els[i].name.as_str());
            let cs: Vec<char> = text::to_chars(t.as_str());
            if cs.len() > 6 {
                assert(is_message(els@[i as int]));
                return Some(t);
            }
        }
    }
    None
}

/// Of trees of these sizes, as far as they could be read, the place of the first one that is
/// larger than all before it and no smaller than any behind it. An empty tree counts as none.
pub fn richest_subtree(sizes: &Vec<Option<usize>>) -> (r: Option<usize>)
    ensures
        match r {
            Some(i) => {
                &&& i < sizes@.len()
                &&& size_of_tree(sizes@[i as int]) > 0
                &&& forall|j: int|
                    0 <= j < i ==> size_of_tree(#[trigger] sizes@[j]) < size_of_tree(
                        sizes@[i as int],
                    )
                &&& forall|j: int|
                    i <= j < sizes@.len() ==> size_of_tree(#[trigger] sizes@[j]) <= size_of_tree(
                        sizes@[i as int],
                    )
            },
            None => forall|j: int|
                0 <= j < sizes@.len() ==> size_of_tree(#[trigger] sizes@[j]) == 0,
        },
{
    let mut best: Option<usize> = None;
    let mut most: usize = 0;
    let mut i: usize = 0;
    while i < sizes.len()
        invariant
            i <= sizes@.len(),
            match best {
                Some(b) => {
                    &&& b < i
                    &&& most == size_of_tree(sizes@[b as int])
                    &&& most > 0
                    &&& forall|j: int| 0 <= j < b ==> size_of_tree(#[trigger] sizes@[j]) < most
                    &&& forall|j: int| b <= j < i ==> size_of_tree(#[trigger] sizes@[j]) <= most
                },
                None => most == 0 && forall|j: int|
                    0 <= j < i ==> size_of_tree(#[trigger] sizes@[j]) == 0,
            },
        decreases sizes@.len() - i,
    {
        if let Some(n) = sizes[i] {
            if n > most {
                most = n;
                best = Some(i);
            }
        }
        i = i + 1;
    }
    best
}

/// The number of elements of a tree, and zero for one that could not be read.
pub open spec fn size_of_tree(size: Option<usize>) -> usize {
    match size {
        Some(n) => n,
        None => 0,
    }
}

/// The lines that show the elements whose names have more than `min` characters: up to `max`
/// lines, each with the control type and the name, shortened to `width`.
pub open spec fn shown_lines(els: Seq<Element>, min: int, width: int, max: int) -> Seq<Seq<char>>
    decreases els.len(),
{
    if els.len() == 0 {
        Seq::empty()
    } else {
        let before = shown_lines(els.drop_last(), min, width, max);
        if before.len() < max && label(els.last()).len() > min {
            before.push(
                "["@ + named_type(els.last().control_type) + "] "@ + text::shortened(
                    els.last().name@,
                    width,
                ),
            )
        } else {
            before
        }
    }
}

/// The lines that show the elements whose names have more than `min` characters: up to `max`
/// lines, each with the control type and the name, shortened to `width`.
pub fn listing(els: &Vec<Element>, min: usize, width: usize, max: usize) -> (r: Vec<String>)
    ensures
        text::texts(r@) == shown_lines(els@, min as int, width as int, max as int),
{
    let mut out: Vec<String> = Vec::new();
    let mut i: usize = 0;
    assert(els@.take(0) =~= Seq::<Element>::empty());
    assert(text::texts(out@) =~= Seq::<Seq<char>>::empty());
    while i < els.len()
        invariant
            i <= els@.len(),
            text::texts(out@) == shown_lines(
                els@.take(i as int),
                min as int,
                width as int,
                max as int,
            ),
        decreases els@.len() - i,
    {
        let ghost was = out@;
        assert(els@.take(i + 1).drop_last() =~= els@.take(i as int));
        assert(text::texts(was).len() == was.len());
        let t: String = text::trimmed(els[i].name.as_str());
        let cs: Vec<char> = text::to_chars(t.as_str());
        if out.len() < max && cs.len() > min {
            let mut line: String = text::copy("[");
            line.push_str(control_type_name(els[i].control_type));
            line.push_str("] ");
            line.push_str(text::truncate(els[i].name.as_str(), width).as_str());
            let ghost shown = line@;
            out.push(line);
            assert(text::texts(out@) =~= text::texts(was).push(shown));
        }
        i = i + 1;
    }
    assert(els@.take(els@.len() as int) =~= els@);
    out
}

/// Whether the name of an element holds this text.
pub fn any_name_contains(els: &Vec<Element>, part: &str) -> (r: bool)
    ensures
        r == exists|i: int| 0 <= i < els@.len() && text::has_text((#[trigger] els@[i]).name@, part@),
{
    let mut i: usize = 0;
    while i < els.len()
        invariant
            i <= els@.len(),
            forall|j: int| 0 <= j < i ==> !text::has_text((#[trigger] els@[j]).name@, part@),
        decreases els@.len() - i,
    {
        if text::contains(els[i].name.as_str(), part) {
            return true;
        }
        i = i + 1;
    }
    false
}

// ---------------------------------------------------------------------------------------------
// What is read out of a tree, told by the elements alone
// ---------------------------------------------------------------------------------------------
/// Only a text that is the whole prompt, or announces a turn, is left out of a reply: every other
/// text of the latest turn that no footer comes before gets in, whatever else it says. The latest
/// turn begins at `start`: at the front, or right behind an announcement, with none behind it.
pub proof fn law_said_text_gets_in(els: Seq<Element>, prompt: Seq<char>, start: int, i: int)
    requires
        0 <= start <= i < els.len(),
        start == 0 || text::trim(els[start - 1].name@) == "Copilot の発言"@,
        forall|j: int|
            start <= j < els.len() ==> text::trim((#[trigger] els[j]).name@) != "Copilot の発言"@,
        forall|j: int|
            start <= j <= i && (#[trigger] els[j]).control_type == 50020 ==> {
                let t = text::trim(els[j].name@);
                &&& t != "Copilot へメッセージを送る"@
                &&& !text::has_text(t, "Copilot のエクスペリエンス"@)
                &&& !text::has_text(t, "フィードバックがあれば"@)
                &&& !text::has_text(t, "Copilot をご利用"@)
            },
        els[i].control_type == 50020,
        text::trim(els[i].name@).len() > 0,
        text::trim(els[i].name@) != "あなたの発言"@,
        text::trim(els[i].name@) != text::trim(prompt),
    ensures
        reply_parts(els, prompt).contains(text::trim(els[i].name@)),
{
    lemma_turn_start(els);
    assert(turn_start(els) == start) by {
        let n = turn_start(els);
        if n > start {
            assert(label(els[n - 1]) == "Copilot の発言"@);
            assert(text::trim(els[n - 1].name@) != "Copilot の発言"@);
        } else if n < start {
            assert(label(els[start - 1]) != "Copilot の発言"@);
        }
    }
    assert forall|j: int| start <= j <= i implies !(is_text(#[trigger] els[j]) && is_footer(
        label(els[j]),
    )) by {
        assert(els[j].control_type == 50020 || !is_text(els[j]));
    }
    assert(text::trim(els[i].name@) != "Copilot の発言"@);
    law_reply_is_complete(els, prompt, i);
}

proof fn lemma_said_grows(
    turn: Seq<Element>,
    e: Element,
    prompt: Seq<char>,
    from: int,
    earlier: Seq<Seq<char>>,
)
    requires
        0 <= from <= turn.len(),
    ensures
        ({
            let was = said(turn, prompt, from, earlier);
            let now = said(turn.push(e), prompt, from, earlier);
            let ended = exists|j: int|
                from <= j < turn.len() && is_text(#[trigger] turn[j]) && is_footer(label(turn[j]));
            if ended || !is_text(e) || is_footer(label(e)) || is_heading(label(e), prompt)
                || was.contains(label(e)) {
                now == was
            } else {
                now == was.push(label(e))
            }
        }),
    decreases turn.len() - from,
{
    let all = turn.push(e);
    if from < turn.len() {
        let t = label(turn[from]);
        assert(all[from] == turn[from]);
        if is_text(turn[from]) && is_footer(t) {
        } else {
            let next = if is_text(turn[from]) && !is_heading(t, prompt) && !earlier.contains(t) {
                earlier.push(t)
            } else {
                earlier
            };
            lemma_said_grows(turn, e, prompt, from + 1, next);
            if exists|j: int|
                from <= j < turn.len() && is_text(#[trigger] turn[j]) && is_footer(label(turn[j])) {
                let j = choose|j: int|
                    from <= j < turn.len() && is_text(#[trigger] turn[j]) && is_footer(
                        label(turn[j]),
                    );
                assert(from + 1 <= j);
            }
        }
    } else {
        assert(all[from] == e);
        reveal_with_fuel(said, 3);
    }
}

/// A reply grows text by text, in order: the text of another element is added to its end, unless a
/// footer came before, the element is no text or blank or a footer itself, or the text announces a
/// turn, is the prompt, or was said before in this turn. Nothing else is added or left out.
pub proof fn law_reply_grows(turn: Seq<Element>, e: Element, prompt: Seq<char>)
    requires
        forall|j: int|
            0 <= j < turn.len() ==> text::trim((#[trigger] turn[j]).name@) != "Copilot の発言"@,
        text::trim(e.name@) != "Copilot の発言"@,
    ensures
        response(Seq::<Element>::empty(), prompt) == Seq::<char>::empty(),
        ({
            let shown = |x: Element| x.control_type == 50020 && text::trim(x.name@).len() > 0;
            let footer = |x: Element|
                {
                    &&& shown(x)
                    &&& {
                        ||| text::trim(x.name@) == "Copilot へメッセージを送る"@
                        ||| text::has_text(text::trim(x.name@), "Copilot のエクスペリエンス"@)
                        ||| text::has_text(text::trim(x.name@), "フィードバックがあれば"@)
                        ||| text::has_text(text::trim(x.name@), "Copilot をご利用"@)
                    }
                };
            let t = text::trim(e.name@);
            let ended = exists|j: int| 0 <= j < turn.len() && footer(#[trigger] turn[j]);
            let repeated = exists|j: int|
                0 <= j < turn.len() && shown(#[trigger] turn[j]) && text::trim(turn[j].name@) == t;
            if ended || !shown(e) || footer(e) || repeated || t == "あなたの発言"@ || t
                == text::trim(prompt) {
                response(turn.push(e), prompt) == response(turn, prompt)
            } else {
                response(turn.push(e), prompt) == response(turn, prompt) + t
            }
        }),
{
    let none = Seq::<Element>::empty();
    assert(reply_parts(none, prompt) =~= Seq::<Seq<char>>::empty());
    let all = turn.push(e);
    let t = label(e);
    lemma_turn_start(turn);
    lemma_turn_start(all);
    if turn_start(turn) > 0 {
        assert(label(turn[turn_start(turn) - 1]) == "Copilot の発言"@);
        assert(text::trim(turn[turn_start(turn) - 1].name@) != "Copilot の発言"@);
    }
    if turn_start(all) > 0 {
        let k = turn_start(all) - 1;
        assert(label(all[k]) == "Copilot の発言"@);
        if k < turn.len() {
            assert(all[k] == turn[k]);
            assert(text::trim(turn[k].name@) != "Copilot の発言"@);
        }
    }
    let was = reply_parts(turn, prompt);
    lemma_said_grows(turn, e, prompt, 0, Seq::empty());
    let shown = |x: Element| x.control_type == 50020 && text::trim(x.name@).len() > 0;
    let footer = |x: Element|
        {
            &&& shown(x)
            &&& {
                ||| text::trim(x.name@) == "Copilot へメッセージを送る"@
                ||| text::has_text(text::trim(x.name@), "Copilot のエクスペリエンス"@)
                ||| text::has_text(text::trim(x.name@), "フィードバックがあれば"@)
                ||| text::has_text(text::trim(x.name@), "Copilot をご利用"@)
            }
        };
    let ended = exists|j: int| 0 <= j < turn.len() && footer(#[trigger] turn[j]);
    let repeated = exists|j: int|
        0 <= j < turn.len() && shown(#[trigger] turn[j]) && text::trim(turn[j].name@) == t;
    assert(ended == exists|j: int|
        0 <= j < turn.len() && is_text(#[trigger] turn[j]) && is_footer(label(turn[j]))) by {
        if ended {
            let j = choose|j: int| 0 <= j < turn.len() && footer(#[trigger] turn[j]);
            assert(is_text(turn[j]) && is_footer(label(turn[j])));
        }
        if exists|j: int|
            0 <= j < turn.len() && is_text(#[trigger] turn[j]) && is_footer(label(turn[j])) {
            let j = choose|j: int|
                0 <= j < turn.len() && is_text(#[trigger] turn[j]) && is_footer(label(turn[j]));
            assert(footer(turn[j]));
        }
    }
    if !ended && is_text(e) && !is_footer(t) && !is_heading(t, prompt) {
        if was.contains(t) {
            let k = choose|k: int| 0 <= k < was.len() && was[k] == t;
            lemma_said(turn, prompt, 0, Seq::empty(), k);
            let j = choose|j: int|
                0 <= j < turn.len() && is_text(#[trigger] turn[j]) && label(turn[j]) == was[k];
            assert(shown(turn[j]));
            assert(repeated);
        }
        if repeated {
            let j = choose|j: int|
                0 <= j < turn.len() && shown(#[trigger] turn[j]) && text::trim(turn[j].name@) == t;
            assert forall|k: int| 0 <= k <= j implies !(is_text(#[trigger] turn[k]) && is_footer(
                label(turn[k]),
            )) by {}
            lemma_said_has(turn, prompt, 0, Seq::empty(), j);
        }
    }
    text::law_texts_are_joined(was, t, Seq::empty());
    assert(text::join(was, Seq::empty()) + Seq::<char>::empty() + t =~= text::join(
        was,
        Seq::empty(),
    ) + t);
    if was.len() == 0 {
        assert(Seq::<char>::empty() + t =~= t);
    }
}

/// The input box that is found is the first element of that kind that holds a value, and the
/// button that is found is the first one whose name holds the text.
pub proof fn law_first_control_is_found(els: Seq<Element>, caption: Seq<char>, i: int)
    ensures
        input_place(els, 0) == Some(i) <==> {
            &&& 0 <= i < els.len()
            &&& els[i].control_type == 50004 && els[i].has_value
            &&& forall|j: int|
                0 <= j < i ==> (#[trigger] els[j]).control_type != 50004 || !els[j].has_value
        },
        button_place(els, caption, 0) == Some(i) <==> {
            &&& 0 <= i < els.len()
            &&& els[i].control_type == 50000 && text::has_text(els[i].name@, caption)
            &&& forall|j: int|
                0 <= j < i ==> (#[trigger] els[j]).control_type != 50000 || !text::has_text(
                    els[j].name@,
                    caption,
                )
        },
        input_place(els, 0) is None <==> forall|j: int|
            0 <= j < els.len() ==> (#[trigger] els[j]).control_type != 50004 || !els[j].has_value,
        button_place(els, caption, 0) is None <==> forall|j: int|
            0 <= j < els.len() ==> (#[trigger] els[j]).control_type != 50000 || !text::has_text(
                els[j].name@,
                caption,
            ),
{
    lemma_input_place(els, 0);
    lemma_button_place(els, caption, 0);
    if input_place(els, 0) is Some && 0 <= i < els.len() && els[i].control_type == 50004
        && els[i].has_value {
        let k = input_place(els, 0)->0;
        assert(els[k].control_type == 50004);
        assert(els[i].control_type == 50004);
    }
    if button_place(els, caption, 0) is Some && 0 <= i < els.len() && els[i].control_type == 50000
        && text::has_text(els[i].name@, caption) {
        let k = button_place(els, caption, 0)->0;
        assert(els[k].control_type == 50000);
        assert(els[i].control_type == 50000);
    }
}

proof fn lemma_input_place(els: Seq<Element>, from: int)
    requires
        0 <= from,
    ensures
        match input_place(els, from) {
            Some(i) => {
                &&& from <= i < els.len()
                &&& els[i].control_type == 50004 && els[i].has_value
                &&& forall|j: int|
                    from <= j < i ==> (#[trigger] els[j]).control_type != 50004 || !els[j].has_value
            },
            None => forall|j: int|
                from <= j < els.len() ==> (#[trigger] els[j]).control_type != 50004
                    || !els[j].has_value,
        },
    decreases els.len() - from,
{
    if from < els.len() && !is_input_box(els[from]) {
        lemma_input_place(els, from + 1);
    }
}

proof fn lemma_button_place(els: Seq<Element>, caption: Seq<char>, from: int)
    requires
        0 <= from,
    ensures
        match button_place(els, caption, from) {
            Some(i) => {
                &&& from <= i < els.len()
                &&& els[i].control_type == 50000 && text::has_text(els[i].name@, caption)
                &&& forall|j: int|
                    from <= j < i ==> (#[trigger] els[j]).control_type != 50000 || !text::has_text(
                        els[j].name@,
                        caption,
                    )
            },
            None => forall|j: int|
                from <= j < els.len() ==> (#[trigger] els[j]).control_type != 50000
                    || !text::has_text(els[j].name@, caption),
        },
    decreases els.len() - from,
{
    if from < els.len() && !is_button(els[from], caption) {
        lemma_button_place(els, caption, from + 1);
    }
}

/// The box in which a chat message is written is an input box with a value whose name speaks of a
/// message and not of a search. A message that is shown is a list item with more than six
/// characters. A tree that could not be read is as good as an empty one.
pub proof fn law_chat_elements_are_told_apart(e: Element, n: usize)
    ensures
        is_composer(e) <==> e.control_type == 50004 && e.has_value && text::has_text(
            e.name@,
            "メッセージ"@,
        ) && !text::has_text(e.name@, "検索"@),
        is_message(e) <==> e.control_type == 50007 && text::trim(e.name@).len() > 6,
        size_of_tree(Some(n)) == n,
        size_of_tree(None) == 0,
{
}

/// Every element with a long enough name is listed, whatever its type, in order and with its type
/// and its name, until there are `max` lines.
pub proof fn law_all_long_names_are_listed(els: Seq<Element>, min: int, width: int, max: int)
    requires
        0 <= max,
    ensures
        ({
            let long = els.filter(|e: Element| text::trim(e.name@).len() > min);
            let lines = long.map_values(
                |e: Element|
                    "["@ + named_type(e.control_type) + "] "@ + text::shortened(e.name@, width),
            );
            shown_lines(els, min, width, max) == if lines.len() <= max {
                lines
            } else {
                lines.take(max)
            }
        }),
    decreases els.len(),
{
    reveal(Seq::filter);
    let keep = |e: Element| text::trim(e.name@).len() > min;
    let line = |e: Element|
        "["@ + named_type(e.control_type) + "] "@ + text::shortened(e.name@, width);
    let lines = els.filter(keep).map_values(line);
    if els.len() > 0 {
        let front = els.drop_last();
        law_all_long_names_are_listed(front, min, width, max);
        let before = front.filter(keep).map_values(line);
        if keep(els.last()) {
            assert(lines =~= before.push(line(els.last())));
            assert(lines.take(max) =~= if before.len() < max {
                lines.take(max)
            } else {
                before.take(max)
            });
            if before.len() == max {
                assert(before.take(max) =~= before);
            }
        }
    } else {
        assert(lines =~= Seq::<Seq<char>>::empty());
    }
}

proof fn lemma_said_behind(
    front: Seq<Element>,
    turn: Seq<Element>,
    prompt: Seq<char>,
    i: int,
    earlier: Seq<Seq<char>>,
)
    requires
        0 <= i <= turn.len(),
    ensures
        said(front + turn, prompt, front.len() + i, earlier) == said(turn, prompt, i, earlier),
    decreases turn.len() - i,
{
    let all = front + turn;
    if i < turn.len() {
        let t = label(turn[i]);
        assert(all[front.len() + i] == turn[i]);
        lemma_said_behind(front, turn, prompt, i + 1, earlier);
        lemma_said_behind(front, turn, prompt, i + 1, earlier.push(t));
    }
}

/// Only the latest turn of the assistant counts: whatever stands before the last announcement, the
/// reply is the one that what stands behind it would give alone.
pub proof fn law_only_the_latest_turn_counts(
    front: Seq<Element>,
    announcement: Element,
    turn: Seq<Element>,
    prompt: Seq<char>,
)
    requires
        text::trim(announcement.name@) == "Copilot の発言"@,
        forall|j: int|
            0 <= j < turn.len() ==> text::trim((#[trigger] turn[j]).name@) != "Copilot の発言"@,
    ensures
        reply_parts(front + seq![announcement] + turn, prompt) == reply_parts(turn, prompt),
        response(front + seq![announcement] + turn, prompt) == response(turn, prompt),
{
    let head = front + seq![announcement];
    let all = head + turn;
    let n = head.len() as int;
    lemma_turn_start(all);
    lemma_turn_start(turn);
    assert(all[n - 1] == announcement);
    let k = turn_start(all);
    assert(k == n) by {
        if k < n {
            assert(label(all[n - 1]) == "Copilot の発言"@);
        } else if k > n {
            assert(all[k - 1] == turn[k - 1 - n]);
        }
    }
    if turn_start(turn) > 0 {
        assert(label(turn[turn_start(turn) - 1]) == "Copilot の発言"@);
    }
    lemma_said_behind(head, turn, prompt, 0, Seq::empty());
}

} // verus!
