//! Diagnostic logs, one file a day.

use vstd::prelude::*;

use crate::order::{ascending, before, TextSet};
use crate::text;

verus! {

/// The number of lines that are shown.
pub const SHOWN_LINES: usize = 400;

/// The line of the log that tells of something, with its end. What is told is put on one line.
pub open spec fn log_entry(
    date: Seq<char>,
    time: Seq<char>,
    level: Seq<char>,
    msg: Seq<char>,
) -> Seq<char> {
    date + " "@ + time + " ["@ + level + "] "@ + text::flat(msg, false) + "\n"@
}

/// The line of the log that tells of something, with its end.
pub fn log_line(date: &str, time: &str, level: &str, msg: &str) -> (r: String)
    ensures
        r@ == log_entry(date@, time@, level@, msg@),
{
    let mut out: String = text::copy(date);
    out.push_str(" ");
    out.push_str(time);
    out.push_str(" [");
    out.push_str(level);
    out.push_str("] ");
    out.push_str(text::flattened(msg, false).as_str());
    out.push_str("\n");
    out
}

/// Whatever is told, one line of the log tells of it: the entry has one line break, at its end.
pub proof fn law_entry_is_one_line(
    date: Seq<char>,
    time: Seq<char>,
    level: Seq<char>,
    msg: Seq<char>,
)
    requires
        !date.contains('\n'),
        !time.contains('\n'),
        !level.contains('\n'),
    ensures
        ({
            let e = log_entry(date, time, level, msg);
            &&& e.last() == '\n'
            &&& !e.drop_last().contains('\n')
        }),
{
    reveal_strlit(" ");
    reveal_strlit(" [");
    reveal_strlit("] ");
    reveal_strlit("\n");
    let e = log_entry(date, time, level, msg);
    let m = text::flat(msg, false);
    text::law_flat_text_is_one_line(msg, false);
    if e.drop_last().contains('\n') {
        let i = choose|i: int| 0 <= i < e.drop_last().len() && e.drop_last()[i] == '\n';
        let a = date.len() as int;
        let b = a + 1 + time.len();
        let c = b + 2 + level.len();
        let d = c + 2;
        if i < a {
            assert(date.contains(date[i]));
        } else if a < i < b {
            assert(time.contains(time[i - a - 1]));
        } else if b + 2 <= i < c {
            assert(level.contains(level[i - b - 2]));
        } else if i >= d {
            assert(m.contains(m[i - d]));
        }
        assert(false);
    }
}

// ---------------------------------------------------------------------------------------------
// Reading the logs
// ---------------------------------------------------------------------------------------------
/// The name is that of a log.
pub open spec fn is_log_name(name: Seq<char>) -> bool {
    name.len() > 4 && name.skip(name.len() - 4) == ".log"@
}

/// The name of the log of a day, which is one that is read again.
pub fn log_file_name(date: &str) -> (r: String)
    ensures
        r@ == date@ + ".log"@,
        date@.len() > 0 ==> is_log_name(r@),
{
    let r: String = text::concat(date, ".log");
    proof {
        reveal_strlit(".log");
        assert(r@.skip(r@.len() - 4) =~= ".log"@);
    }
    r
}

/// The names of logs among these.
pub open spec fn log_names(names: Seq<Seq<char>>) -> Set<Seq<char>> {
    Set::new(|n: Seq<char>| is_log_name(n) && names.contains(n))
}

/// These are the newest logs, oldest first: the last two in the order of their names, or as many
/// as there are.
pub open spec fn are_newest(r: Seq<Seq<char>>, logs: Set<Seq<char>>) -> bool {
    &&& ascending(r)
    &&& r.len() <= 2
    &&& forall|i: int| 0 <= i < r.len() ==> logs.contains(#[trigger] r[i])
    &&& forall|n: Seq<char>|
        logs.contains(n) ==> #[trigger] r.contains(n) || (r.len() == 2 && before(n, r[0]))
}

fn log_name(name: &str) -> (r: bool)
    ensures
        r == is_log_name(name@),
{
    let cs: Vec<char> = text::to_chars(name);
    if cs.len() <= 4 {
        return false;
    }
    let end: String = text::to_text(&text::part(&cs, cs.len() - 4, cs.len()));
    assert(end@ =~= name@.skip(name@.len() - 4));
    text::same_text(end.as_str(), ".log")
}

proof fn lemma_one_more(all: Seq<Seq<char>>, i: int)
    requires
        0 <= i < all.len(),
    ensures
        log_names(all.take(i + 1)) == if is_log_name(all[i]) {
            log_names(all.take(i)).insert(all[i])
        } else {
            log_names(all.take(i))
        },
{
    let few = all.take(i);
    let more = all.take(i + 1);
    assert forall|n: Seq<char>| more.contains(n) <==> n == all[i] || few.contains(n) by {
        if few.contains(n) {
            let j = choose|j: int| 0 <= j < few.len() && few[j] == n;
            assert(more[j] == n);
        }
        if more.contains(n) {
            let j = choose|j: int| 0 <= j < more.len() && more[j] == n;
            assert(j < i ==> few[j] == n);
        }
        assert(more[i] == all[i]);
    }
    assert(log_names(more) =~= if is_log_name(all[i]) {
        log_names(few).insert(all[i])
    } else {
        log_names(few)
    });
}

/// The newest logs among the files of a folder, oldest first.
pub fn recent_log_files(names: &Vec<String>) -> (r: Vec<String>)
    ensures
        are_newest(text::texts(r@), log_names(text::texts(names@))),
{
    let ghost all = text::texts(names@);
    let mut logs: TextSet = TextSet::new();
    let mut i: usize = 0;
    assert(logs@ =~= log_names(all.take(0)));
    while i < names.len()
        invariant
            i <= names@.len(),
            all == text::texts(names@),
            logs.valid(),
            logs@ =~= log_names(all.take(i as int)),
        decreases names@.len() - i,
    {
        proof {
            lemma_one_more(all, i as int);
        }
        if log_name(names[i].as_str()) {
            logs.insert(names[i].clone());
        }
        i = i + 1;
    }
    assert(all.take(all.len() as int) =~= all);
    let list: Vec<String> = logs.into_list();
    let ghost sorted = text::texts(list@);
    let n: usize = list.len();
    let from: usize = if n > 2 {
        n - 2
    } else {
        0
    };
    let mut out: Vec<String> = Vec::new();
    let mut j: usize = from;
    while j < n
        invariant
            from <= j <= n == list@.len(),
            sorted == text::texts(list@),
            text::texts(out@) =~= sorted.subrange(from as int, j as int),
        decreases n - j,
    {
        let ghost was = out@;
        out.push(list[j].clone());
        proof {
            assert(text::texts(was).len() == was.len());
            assert(text::texts(out@) =~= text::texts(was).push(sorted[j as int]));
        }
        j = j + 1;
    }
    proof {
        let r = text::texts(out@);
        let names_set = log_names(all);
        assert forall|k: int| 0 <= k < r.len() implies names_set.contains(#[trigger] r[k]) by {
            assert(r[k] == sorted[from + k]);
            assert(sorted.contains(sorted[from + k]));
            assert(sorted.to_set().contains(r[k]));
        }
        assert forall|name: Seq<char>| names_set.contains(name) implies #[trigger] r.contains(name)
            || (r.len() == 2 && before(name, r[0])) by {
            assert(sorted.to_set().contains(name));
            let k = choose|k: int| 0 <= k < sorted.len() && sorted[k] == name;
            if k >= from {
                assert(r[k - from] == name);
            } else {
                assert(r[0] == sorted[from as int]);
            }
        }
    }
    out
}

/// The lines of these texts, one text after another.
pub open spec fn all_lines(files: Seq<Seq<char>>) -> Seq<Seq<char>>
    decreases files.len(),
{
    if files.len() == 0 {
        Seq::empty()
    } else {
        all_lines(files.drop_last()) + text::lines(files.last())
    }
}

/// The last `max` items of a list.
pub open spec fn last_items(list: Seq<Seq<char>>, max: int) -> Seq<Seq<char>> {
    if list.len() > max {
        list.skip(list.len() - max)
    } else {
        list
    }
}

/// What is shown of the logs: their last lines, and a note where there are none.
pub open spec fn shown_logs(files: Seq<Seq<char>>, max: int) -> Seq<char> {
    let shown = last_items(all_lines(files), max);
    if shown.len() == 0 {
        "（まだログはありません）"@
    } else {
        text::join(shown, "\n"@)
    }
}

fn gather_lines(files: &Vec<String>) -> (r: Vec<String>)
    ensures
        text::texts(r@) == all_lines(text::texts(files@)),
{
    let ghost all = text::texts(files@);
    let mut out: Vec<String> = Vec::new();
    let mut i: usize = 0;
    assert(all.take(0) =~= Seq::<Seq<char>>::empty());
    assert(text::texts(out@) =~= Seq::<Seq<char>>::empty());
    while i < files.len()
        invariant
            i <= files@.len(),
            all == text::texts(files@),
            text::texts(out@) == all_lines(all.take(i as int)),
        decreases files@.len() - i,
    {
        let ghost front = text::texts(out@);
        let lines: Vec<Vec<char>> = text::line_list(&text::to_chars(files[i].as_str()));
        let ghost these = text::views(lines@);
        let mut j: usize = 0;
        assert(front + these.take(0) =~= front);
        while j < lines.len()
            invariant
                j <= lines@.len(),
                these == text::views(lines@),
                text::texts(out@) == front + these.take(j as int),
            decreases lines@.len() - j,
        {
            let ghost was = out@;
            out.push(text::to_text(&lines[j]));
            proof {
                assert(text::texts(was).len() == was.len());
                assert(text::texts(out@) =~= text::texts(was).push(these[j as int]));
                assert(these.take(j + 1) =~= these.take(j as int).push(these[j as int]));
                assert(text::texts(out@) =~= front + these.take(j + 1));
            }
            j = j + 1;
        }
        proof {
            assert(these.take(these.len() as int) =~= these);
            assert(all.take(i + 1).drop_last() =~= all.take(i as int));
            assert(all.take(i + 1).last() == files@[i as int]@);
        }
        i = i + 1;
    }
    assert(all.take(all.len() as int) =~= all);
    out
}

/// What is shown of the logs, given the texts of the newest ones, oldest first.
pub fn read_recent_logs(files: &Vec<String>, max_lines: usize) -> (r: String)
    ensures
        r@ == shown_logs(text::texts(files@), max_lines as int),
{
    let lines: Vec<String> = gather_lines(files);
    let ghost all = text::texts(lines@);
    let n: usize = lines.len();
    let from: usize = if n > max_lines {
        n - max_lines
    } else {
        0
    };
    let mut shown: Vec<String> = Vec::new();
    let mut i: usize = from;
    while i < n
        invariant
            from <= i <= n == lines@.len(),
            all == text::texts(lines@),
            text::texts(shown@) =~= all.subrange(from as int, i as int),
        decreases n - i,
    {
        let ghost was = shown@;
        shown.push(lines[i].clone());
        proof {
            assert(text::texts(was).len() == was.len());
            assert(text::texts(shown@) =~= text::texts(was).push(all[i as int]));
        }
        i = i + 1;
    }
    proof {
        assert(text::texts(shown@) =~= last_items(all, max_lines as int));
        assert(text::texts(shown@).len() == shown@.len());
    }
    if shown.len() == 0 {
        text::copy("（まだログはありません）")
    } else {
        text::joined(&shown, "\n")
    }
}

/// No more lines are shown than are asked for, and they are the last ones.
pub proof fn law_last_lines_are_shown(files: Seq<Seq<char>>, max: int)
    requires
        0 <= max,
    ensures
        last_items(all_lines(files), max).len() <= max,
        forall|i: int|
            0 <= i < last_items(all_lines(files), max).len() ==> (#[trigger] last_items(
                all_lines(files),
                max,
            )[i]) == all_lines(files)[all_lines(files).len() - last_items(
                all_lines(files),
                max,
            ).len() + i],
{
}

// ---------------------------------------------------------------------------------------------
// What is logged and shown, told by the texts alone
// ---------------------------------------------------------------------------------------------
/// An entry holds the date, the time, the level and all that is told, on one line.
pub proof fn law_entry_holds_what_is_told(
    date: Seq<char>,
    time: Seq<char>,
    level: Seq<char>,
    msg: Seq<char>,
)
    requires
        !msg.contains('\n'),
        !msg.contains('\r'),
    ensures
        log_entry(date, time, level, msg) == date + " "@ + time + " ["@ + level + "] "@ + msg + "\n"@,
{
    assert forall|i: int| 0 <= i < msg.len() implies text::flat(msg, false)[i] == msg[i] by {
        assert(msg.contains(msg[i]));
    }
    assert(text::flat(msg, false) =~= msg);
}

/// A log is a file whose name ends in `.log` and has something before that, and no other file is.
pub proof fn law_logs_are_told_by_their_names(stem: Seq<char>, name: Seq<char>)
    ensures
        is_log_name(stem + ".log"@) <==> stem.len() > 0,
        is_log_name(name) ==> name.len() > 4 && name == name.take(name.len() - 4) + ".log"@,
{
    reveal_strlit(".log");
    let s = stem + ".log"@;
    assert(s.skip(s.len() - 4) =~= ".log"@);
    if is_log_name(name) {
        assert(name =~= name.take(name.len() - 4) + name.skip(name.len() - 4));
    }
}

/// Of two or more logs the last two in the order of their names are read, the later one last. Where
/// there is one only, that one is read.
pub proof fn law_newest_logs_are_read(
    r: Seq<Seq<char>>,
    names: Seq<Seq<char>>,
    i: int,
    j: int,
    other: int,
)
    requires
        are_newest(r, log_names(names)),
        0 <= i < names.len(),
        is_log_name(names[i]),
        0 <= other < names.len(),
        is_log_name(names[other]),
    ensures
        0 <= j < names.len() && is_log_name(names[j]) && names[i] != names[j] ==> r.len() == 2,
        r.len() > 0,
        names[other] == r.last() || before(names[other], r.last()),
        r.len() == 2 ==> before(r[0], r[1]),
        names[other] != r.last() ==> r.len() == 2 && (names[other] == r[0] || before(
            names[other],
            r[0],
        )),
        forall|k: int| 0 <= k < r.len() ==> names.contains(#[trigger] r[k]) && is_log_name(r[k]),
{
    let logs = log_names(names);
    assert(names.contains(names[i]) && names.contains(names[other]));
    assert(logs.contains(names[i]) && logs.contains(names[other]));
    assert(r.contains(names[i]) || r.len() == 2);
    assert(r.contains(names[other]) || (r.len() == 2 && before(names[other], r[0])));
    if r.contains(names[other]) {
        let k = choose|k: int| 0 <= k < r.len() && r[k] == names[other];
        assert(r[k] == names[other]);
        if k < r.len() - 1 {
            assert(before(r[k], r[r.len() - 1]));
        }
    } else {
        assert(before(r[0], r[1]));
        crate::order::lemma_transitive(names[other], r[0], r[1]);
        crate::order::lemma_irreflexive(r[1]);
    }
    if 0 <= j < names.len() && is_log_name(names[j]) && names[i] != names[j] {
        assert(names.contains(names[j]));
        assert(logs.contains(names[j]));
        assert(r.contains(names[j]) || r.len() == 2);
        if r.contains(names[i]) && r.contains(names[j]) {
            let a = choose|a: int| 0 <= a < r.len() && r[a] == names[i];
            let b = choose|b: int| 0 <= b < r.len() && r[b] == names[j];
            assert(a != b);
        }
    }
}

/// The lines of the logs are shown in order, those of a later log behind those of an earlier one:
/// all of them where there are no more than `max`, and else the last `max`. Where there is none,
/// it is said so.
pub proof fn law_logs_are_shown(files: Seq<Seq<char>>, later: Seq<char>, max: int)
    requires
        0 < max,
    ensures
        all_lines(Seq::<Seq<char>>::empty()) == Seq::<Seq<char>>::empty(),
        all_lines(files.push(later)) == all_lines(files) + text::lines(later),
        all_lines(files).len() == 0 ==> shown_logs(files, max) == "（まだログはありません）"@,
        0 < all_lines(files).len() <= max ==> shown_logs(files, max) == text::join(
            all_lines(files),
            "\n"@,
        ),
        all_lines(files).len() > max ==> shown_logs(files, max) == text::join(
            all_lines(files).skip(all_lines(files).len() - max),
            "\n"@,
        ),
{
    assert(files.push(later).drop_last() =~= files);
}

/// The page of the logs shows four hundred lines at most, and all where there are no more.
pub proof fn law_page_of_logs_is_limited(list: Seq<Seq<char>>)
    ensures
        last_items(list, SHOWN_LINES as int).len() <= 400,
        list.len() <= 400 ==> last_items(list, SHOWN_LINES as int) == list,
{
}

} // verus!
