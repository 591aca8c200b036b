//! The log of what the user works with, and the reports that are made of it.

use vstd::prelude::*;

use crate::number;
use crate::text;

verus! {

/// After more than this many seconds without input the user counts as away.
pub const IDLE_SECS: u64 = 150;

/// After this many seconds the log says again what the user works with, and no entry counts for
/// more of them.
pub const HEARTBEAT_SECS: u64 = 300;

// ---------------------------------------------------------------------------------------------
// Keeping the log
// ---------------------------------------------------------------------------------------------
/// The name of the file that holds the activity of a day.
pub fn activity_file_name(date: &str) -> (r: String)
    ensures
        r@ == date@ + ".tsv"@,
{
    text::concat(date, ".tsv")
}

/// The program and the window that the log names: those in front, on one line and not too long,
/// and none while the user is away.
pub open spec fn activity_of(idle: u64, app: Seq<char>, title: Seq<char>) -> (Seq<char>, Seq<char>) {
    if idle > IDLE_SECS {
        ("(idle)"@, Seq::empty())
    } else {
        (text::flat(app, true), text::shortened(text::flat(title, true), 120))
    }
}

/// By this an activity is told from another.
pub open spec fn activity_key(app: Seq<char>, title: Seq<char>) -> Seq<char> {
    app + "\u{1}"@ + title
}

/// The line of the log that tells of an activity, without its end.
pub open spec fn activity_line(
    epoch: u64,
    date: Seq<char>,
    time: Seq<char>,
    app: Seq<char>,
    title: Seq<char>,
) -> Seq<char> {
    number::decimal(epoch as nat) + "\t"@ + (date + " "@ + time) + "\t"@ + app + "\t"@ + title
}

/// The seconds from one time to a later one, and none to an earlier one.
pub open spec fn elapsed(from: u64, to: u64) -> int {
    if to >= from {
        to - from
    } else {
        0
    }
}

/// What to log: nothing while the activity stays the same, but for a line now and then.
pub struct Sampler {
    /// By this the activity that was logged last is told from others.
    pub last_key: String,
    /// When it was logged.
    pub last_write: u64,
}

impl Sampler {
    /// The activity is to be logged.
    pub open spec fn is_news(self, epoch: u64, app: Seq<char>, title: Seq<char>) -> bool {
        &&& app.len() > 0
        &&& activity_key(app, title) != self.last_key@ || elapsed(self.last_write, epoch)
            >= HEARTBEAT_SECS
    }

    /// Nothing was logged yet.
    pub fn new() -> (r: Sampler)
        ensures
            r.last_key@.len() == 0,
            r.last_write == 0,
    {
        Sampler { last_key: String::new(), last_write: 0 }
    }

    /// Takes what is in front, and gives the line to log, if there is one.
    pub fn sample(
        &mut self,
        idle: u64,
        date: &str,
        time: &str,
        epoch: u64,
        app: &str,
        title: &str,
    ) -> (r: Option<String>)
        ensures
            ({
                let (a, t) = activity_of(idle, app@, title@);
                if old(self).is_news(epoch, a, t) {
                    &&& r matches Some(line) && line@ == activity_line(epoch, date@, time@, a, t)
                        + "\n"@
                    &&& final(self).last_key@ == activity_key(a, t)
                    &&& final(self).last_write == epoch
                } else {
                    &&& r is None
                    &&& *final(self) == *old(self)
                }
            }),
    {
        let shown_app: String = if idle > IDLE_SECS {
            text::copy("(idle)")
        } else {
            text::flattened(app, true)
        };
        let shown_title: String = if idle > IDLE_SECS {
            String::new()
        } else {
            text::truncate(text::flattened(title, true).as_str(), 120)
        };
        proof {
            if idle > IDLE_SECS {
                assert(shown_title@ =~= Seq::<char>::empty());
            }
        }
        let mut key: String = text::copy(shown_app.as_str());
        key.push_str("\u{1}");
        key.push_str(shown_title.as_str());
        let gap: u64 = if epoch >= self.last_write {
            epoch - self.last_write
        } else {
            0
        };
        if !shown_app.as_str().is_empty() && (!text::same_text(
            key.as_str(),
            self.last_key.as_str(),
        ) || gap >= HEARTBEAT_SECS) {
            self.last_key = key;
            self.last_write = epoch;
            let mut stamp: String = text::copy(date);
            stamp.push_str(" ");
            stamp.push_str(time);
            let mut line: String = number::decimal_text(epoch);
            line.push_str("\t");
            line.push_str(stamp.as_str());
            line.push_str("\t");
            line.push_str(shown_app.as_str());
            line.push_str("\t");
            line.push_str(shown_title.as_str());
            line.push_str("\n");
            Some(line)
        } else {
            None
        }
    }
}

/// Each change is logged, and what stays the same is logged again after a while, as long as the
/// program in front has a name.
pub proof fn law_changes_and_heartbeats_are_logged(
    s: Sampler,
    epoch: u64,
    app: Seq<char>,
    title: Seq<char>,
)
    requires
        app.len() > 0,
    ensures
        activity_key(app, title) != s.last_key@ ==> s.is_news(epoch, app, title),
        epoch >= s.last_write + HEARTBEAT_SECS ==> s.is_news(epoch, app, title),
        activity_key(app, title) == s.last_key@ && epoch < s.last_write + HEARTBEAT_SECS
            ==> !s.is_news(epoch, app, title),
{
}

// ---------------------------------------------------------------------------------------------
// Reading the log
// ---------------------------------------------------------------------------------------------
/// An entry of the log.
pub struct Entry {
    /// When it was logged.
    pub epoch: u64,
    /// The program.
    pub app: String,
    /// The title of the window.
    pub title: String,
}

/// What is seen of an entry of the log.
pub struct EntryView {
    /// When it was logged.
    pub epoch: u64,
    /// The program.
    pub app: Seq<char>,
    /// The title of the window.
    pub title: Seq<char>,
}

impl Entry {
    /// What is seen of the entry.
    pub open spec fn view(&self) -> EntryView {
        EntryView { epoch: self.epoch, app: self.app@, title: self.title@ }
    }
}

/// What is seen of entries of the log.
pub open spec fn entry_views(v: Seq<Entry>) -> Seq<EntryView> {
    Seq::new(v.len(), |i: int| v[i]@)
}

/// What stands before the first tab.
pub open spec fn field_of(s: Seq<char>) -> Seq<char> {
    s.take(text::run_before(s, '\t') as int)
}

/// What stands behind the first tab, and nothing where there is none.
pub open spec fn behind_field(s: Seq<char>) -> Seq<char> {
    if text::run_before(s, '\t') < s.len() {
        s.skip(text::run_before(s, '\t') as int + 1)
    } else {
        Seq::empty()
    }
}

/// The entry on a line: when it was logged, which counts as zero where it is no number, the
/// program and the title. What is missing is empty.
pub open spec fn entry_on(line: Seq<char>) -> EntryView {
    let rest = behind_field(behind_field(line));
    EntryView {
        epoch: match number::number(field_of(line)) {
            Some(n) => n,
            None => 0,
        },
        app: field_of(rest),
        title: behind_field(rest),
    }
}

/// The entries on these lines, in order. A line that does not tell when it was logged holds none.
pub open spec fn entries_on(lines: Seq<Seq<char>>) -> Seq<EntryView>
    decreases lines.len(),
{
    if lines.len() == 0 {
        Seq::empty()
    } else {
        let before = entries_on(lines.drop_last());
        if entry_on(lines.last()).epoch > 0 {
            before.push(entry_on(lines.last()))
        } else {
            before
        }
    }
}

fn cut_field(cs: &Vec<char>) -> (r: (Vec<char>, Vec<char>))
    ensures
        r.0@ == field_of(cs@),
        r.1@ == behind_field(cs@),
{
    let n: usize = text::run_from(cs, 0, '\t');
    proof {
        assert(cs@.skip(0) =~= cs@);
    }
    let field: Vec<char> = text::part(cs, 0, n);
    assert(field@ =~= field_of(cs@));
    if n < cs.len() {
        let rest: Vec<char> = text::part(cs, n + 1, cs.len());
        assert(rest@ =~= behind_field(cs@));
        (field, rest)
    } else {
        let rest: Vec<char> = Vec::new();
        assert(rest@ =~= behind_field(cs@));
        (field, rest)
    }
}

fn read_entry(line: &Vec<char>) -> (r: Entry)
    ensures
        r@ == entry_on(line@),
{
    let (epoch, rest) = cut_field(line);
    let (_stamp, rest) = cut_field(&rest);
    let (app, title) = cut_field(&rest);
    Entry {
        epoch: match number::parse_number(&epoch) {
            Some(n) => n,
            None => 0,
        },
        app: text::to_text(&app),
        title: text::to_text(&title),
    }
}

fn read_entries(txt: &str) -> (r: Vec<Entry>)
    ensures
        entry_views(r@) == entries_on(text::lines(txt@)),
        r@.len() <= text::lines(txt@).len(),
{
    let lines: Vec<Vec<char>> = text::line_list(&text::to_chars(txt));
    let ghost all = text::views(lines@);
    let mut out: Vec<Entry> = Vec::new();
    let mut i: usize = 0;
    assert(all.take(0) =~= Seq::<Seq<char>>::empty());
    assert(entry_views(out@) =~= Seq::<EntryView>::empty());
    while i < lines.len()
        invariant
            i <= lines@.len(),
            all == text::views(lines@),
            out@.len() <= i,
            entry_views(out@) == entries_on(all.take(i as int)),
        decreases lines@.len() - i,
    {
        let ghost was = out@;
        proof {
            assert(all.take(i + 1).drop_last() =~= all.take(i as int));
            assert(all.take(i + 1).last() == lines@[i as int]@);
        }
        let e: Entry = read_entry(&lines[i]);
        if e.epoch > 0 {
            let ghost seen = e@;
            out.push(e);
            assert(entry_views(out@) =~= entry_views(was).push(seen));
        }
        i = i + 1;
    }
    assert(all.take(all.len() as int) =~= all);
    out
}

proof fn lemma_cut(a: Seq<char>, b: Seq<char>)
    requires
        !a.contains('\t'),
    ensures
        field_of(a + "\t"@ + b) == a,
        behind_field(a + "\t"@ + b) == b,
{
    reveal_strlit("\t");
    let s = a + "\t"@ + b;
    let n = a.len() as int;
    assert forall|i: int| 0 <= i < n implies s[i] != '\t' by {
        assert(a.contains(a[i]));
    }
    assert(s[n] == '\t');
    text::lemma_run_before_is(s, '\t', n);
    assert(s.take(n) =~= a);
    assert(s.skip(n + 1) =~= b);
}

/// What was logged is read again: the line tells when it was logged, the program and the title,
/// as long as neither the date nor the time nor the program has a tab in it.
pub proof fn law_logged_line_is_read(
    epoch: u64,
    date: Seq<char>,
    time: Seq<char>,
    app: Seq<char>,
    title: Seq<char>,
)
    requires
        !date.contains('\t'),
        !time.contains('\t'),
        !app.contains('\t'),
    ensures
        entry_on(activity_line(epoch, date, time, app, title)) == (EntryView { epoch, app, title }),
{
    reveal_strlit(" ");
    let e = number::decimal(epoch as nat);
    let stamp = date + " "@ + time;
    let line = activity_line(epoch, date, time, app, title);
    number::lemma_decimal(epoch as nat);
    assert forall|i: int| 0 <= i < e.len() implies e[i] != '\t' by {
        assert(number::is_digit(e[i]));
    }
    assert forall|i: int| 0 <= i < stamp.len() implies stamp[i] != '\t' by {
        if i < date.len() {
            assert(date.contains(date[i]));
        } else if i > date.len() {
            assert(time.contains(time[i - date.len() - 1]));
        }
    }
    assert(line =~= e + "\t"@ + (stamp + "\t"@ + (app + "\t"@ + title)));
    lemma_cut(e, stamp + "\t"@ + (app + "\t"@ + title));
    lemma_cut(stamp, app + "\t"@ + title);
    lemma_cut(app, title);
    number::law_number_reads_decimal(epoch);
}

proof fn lemma_lines_append(file: Seq<char>, a: Seq<char>)
    requires
        file.len() > 0 ==> file.last() == '\n',
        !a.contains('\n'),
    ensures
        text::lines(file + a + "\n"@) == text::lines(file).push(text::without_cr(a)),
    decreases file.len(),
{
    reveal_strlit("\n");
    let none = Seq::<char>::empty();
    if file.len() == 0 {
        text::lemma_lines_cons(a, none);
        assert(file + a + "\n"@ =~= a + "\n"@ + none);
        assert(text::lines(none) =~= Seq::<Seq<char>>::empty());
        assert(text::lines(file + a + "\n"@) =~= text::lines(file).push(text::without_cr(a)));
    } else {
        text::lemma_run_before(file, '\n');
        let n = text::run_before(file, '\n') as int;
        assert(n < file.len()) by {
            if n >= file.len() {
                assert(file[file.len() - 1] != '\n');
            }
        }
        let x = file.take(n);
        let rest = file.skip(n + 1);
        assert(!x.contains('\n')) by {
            if x.contains('\n') {
                let i = choose|i: int| 0 <= i < x.len() && x[i] == '\n';
                assert(file[i] == '\n');
            }
        }
        if rest.len() > 0 {
            assert(rest.last() == file.last());
        }
        lemma_lines_append(rest, a);
        assert(file =~= x + "\n"@ + rest);
        assert(file + a + "\n"@ =~= x + "\n"@ + (rest + a + "\n"@));
        text::lemma_lines_cons(x, rest);
        text::lemma_lines_cons(x, rest + a + "\n"@);
        assert(text::lines(file + a + "\n"@) =~= text::lines(file).push(text::without_cr(a)));
    }
}

/// The log keeps what it is given: to add a line adds its entry behind those that were there, as
/// long as what the line is made of holds no line break and nothing but the title a tab.
pub proof fn law_log_grows(
    file: Seq<char>,
    epoch: u64,
    date: Seq<char>,
    time: Seq<char>,
    app: Seq<char>,
    title: Seq<char>,
)
    requires
        file.len() > 0 ==> file.last() == '\n',
        epoch > 0,
        !date.contains('\t') && !date.contains('\n'),
        !time.contains('\t') && !time.contains('\n'),
        !app.contains('\t') && !app.contains('\n'),
        !title.contains('\n') && !title.contains('\r'),
    ensures
        entries_on(text::lines(file + activity_line(epoch, date, time, app, title) + "\n"@))
            == entries_on(text::lines(file)).push(EntryView { epoch, app, title }),
{
    reveal_strlit("\t");
    reveal_strlit(" ");
    let line = activity_line(epoch, date, time, app, title);
    let e = number::decimal(epoch as nat);
    let stamp = date + " "@ + time;
    number::lemma_decimal(epoch as nat);
    assert(line =~= e + "\t"@ + (stamp + "\t"@ + (app + "\t"@ + title)));
    assert(!line.contains('\n')) by {
        if line.contains('\n') {
            let i = choose|i: int| 0 <= i < line.len() && line[i] == '\n';
            let a = e.len() as int;
            let b = a + 1 + date.len();
            let c = b + 1 + time.len();
            let d = c + 1 + app.len();
            if i < a {
                assert(number::is_digit(e[i]));
            } else if a < i < b {
                assert(date.contains(date[i - a - 1]));
            } else if b < i < c {
                assert(time.contains(time[i - b - 1]));
            } else if c < i < d {
                assert(app.contains(app[i - c - 1]));
            } else if i > d {
                assert(title.contains(title[i - d - 1]));
            }
        }
    }
    assert(text::without_cr(line) == line) by {
        if line.last() == '\r' {
            assert(title.len() > 0);
            assert(title.contains(title.last()));
        }
    }
    lemma_lines_append(file, line);
    law_logged_line_is_read(epoch, date, time, app, title);
    let all = text::lines(file + line + "\n"@);
    assert(all.drop_last() =~= text::lines(file));
}

/// Whatever program and window are in front, what is logged of them is read again: the line adds
/// one entry to those that were there, with the program and the title as they were logged.
pub proof fn law_sampled_activity_is_read(
    file: Seq<char>,
    idle: u64,
    epoch: u64,
    date: Seq<char>,
    time: Seq<char>,
    app: Seq<char>,
    title: Seq<char>,
)
    requires
        file.len() > 0 ==> file.last() == '\n',
        epoch > 0,
        !date.contains('\t') && !date.contains('\n'),
        !time.contains('\t') && !time.contains('\n'),
    ensures
        ({
            let (a, t) = activity_of(idle, app, title);
            entries_on(text::lines(file + activity_line(epoch, date, time, a, t) + "\n"@))
                == entries_on(text::lines(file)).push(EntryView { epoch, app: a, title: t })
        }),
{
    reveal_strlit("(idle)");
    let (a, t) = activity_of(idle, app, title);
    text::law_flat_text_is_one_line(app, true);
    text::law_shortened_is_one_line(text::flat(title, true), 120);
    if idle > IDLE_SECS {
        assert forall|i: int| 0 <= i < a.len() implies a[i] != '\t' && a[i] != '\n' by {}
    }
    assert forall|i: int| 0 <= i < t.len() implies t[i] != '\n' && t[i] != '\r' by {
        if t[i] == '\n' || t[i] == '\r' {
            assert(text::is_white(t[i]));
        }
    }
    law_log_grows(file, epoch, date, time, a, t);
}

// ---------------------------------------------------------------------------------------------
// Time
// ---------------------------------------------------------------------------------------------
/// The entry tells of work: the user was there, and the program has a name.
pub open spec fn is_work(e: EntryView) -> bool {
    e.app != "(idle)"@ && e.app.len() > 0
}

/// The seconds for which an entry counts: those until the next one, but not too many.
pub open spec fn duration(es: Seq<EntryView>, i: int) -> int {
    let gap = elapsed(es[i].epoch, es[i + 1].epoch);
    if gap < HEARTBEAT_SECS {
        gap
    } else {
        HEARTBEAT_SECS as int
    }
}

/// What the time of an entry is counted under: the program, or the program and the window.
pub open spec fn heading_of(e: EntryView, titles: bool) -> Seq<char> {
    if titles {
        e.app + "  |  "@ + e.title
    } else {
        e.app
    }
}

/// The seconds of work in the first `n` entries.
pub open spec fn active(es: Seq<EntryView>, n: int) -> int
    decreases n,
{
    if n <= 0 {
        0
    } else {
        active(es, n - 1) + if is_work(es[n - 1]) {
            duration(es, n - 1)
        } else {
            0
        }
    }
}

/// The seconds of work in the first `n` entries that are counted under a heading.
pub open spec fn time_on(es: Seq<EntryView>, heading: Seq<char>, titles: bool, n: int) -> int
    decreases n,
{
    if n <= 0 {
        0
    } else {
        time_on(es, heading, titles, n - 1) + if is_work(es[n - 1]) && heading_of(
            es[n - 1],
            titles,
        ) == heading {
            duration(es, n - 1)
        } else {
            0
        }
    }
}

/// Something is counted under the heading.
pub open spec fn is_worked(es: Seq<EntryView>, heading: Seq<char>, titles: bool, n: int) -> bool {
    exists|i: int|
        0 <= i < n && is_work(#[trigger] es[i]) && heading_of(es[i], titles) == heading
}

/// The table gives the time of each heading under which something is counted, once.
pub open spec fn is_tally(
    table: Seq<(Seq<char>, u64)>,
    es: Seq<EntryView>,
    titles: bool,
    n: int,
) -> bool {
    &&& forall|i: int, j: int|
        0 <= i < j < table.len() ==> (#[trigger] table[i]).0 != (#[trigger] table[j]).0
    &&& forall|i: int|
        0 <= i < table.len() ==> {
            &&& (#[trigger] table[i]).1 == time_on(es, table[i].0, titles, n)
            &&& is_worked(es, table[i].0, titles, n)
        }
    &&& forall|heading: Seq<char>| #[trigger]
        is_worked(es, heading, titles, n) ==> exists|i: int|
            0 <= i < table.len() && (#[trigger] table[i]).0 == heading
}

/// The table gives the time of each heading under which something is counted, once, and the
/// longest times first.
pub open spec fn is_ranking(
    table: Seq<(Seq<char>, u64)>,
    es: Seq<EntryView>,
    titles: bool,
) -> bool {
    &&& is_tally(table, es, titles, es.len() - 1)
    &&& is_descending(table)
}

/// The longest times come first.
pub open spec fn is_descending(table: Seq<(Seq<char>, u64)>) -> bool {
    forall|i: int, j: int| 0 <= i < j < table.len() ==> (#[trigger] table[i]).1 >= (#[trigger] table[j]).1
}

/// The times in the first `n` rows of a table, together.
pub open spec fn total(table: Seq<(Seq<char>, u64)>, n: int) -> int
    decreases n,
{
    if n <= 0 {
        0
    } else {
        total(table, n - 1) + table[n - 1].1
    }
}

/// The times of these headings, together.
spec fn times_together(
    table: Seq<(Seq<char>, u64)>,
    k: int,
    es: Seq<EntryView>,
    titles: bool,
    n: int,
) -> int
    decreases k,
{
    if k <= 0 {
        0
    } else {
        times_together(table, k - 1, es, titles, n) + time_on(es, table[k - 1].0, titles, n)
    }
}

proof fn lemma_times_step(
    table: Seq<(Seq<char>, u64)>,
    k: int,
    es: Seq<EntryView>,
    titles: bool,
    n: int,
)
    requires
        0 <= k <= table.len(),
        n > 0,
        forall|i: int, j: int|
            0 <= i < j < table.len() ==> (#[trigger] table[i]).0 != (#[trigger] table[j]).0,
    ensures
        ({
            let grown = times_together(table, k, es, titles, n) - times_together(
                table,
                k,
                es,
                titles,
                n - 1,
            );
            let heading = heading_of(es[n - 1], titles);
            if is_work(es[n - 1]) && exists|i: int| 0 <= i < k && (#[trigger] table[i]).0 == heading {
                grown == duration(es, n - 1)
            } else {
                grown == 0
            }
        }),
    decreases k,
{
    if k > 0 {
        lemma_times_step(table, k - 1, es, titles, n);
        let heading = heading_of(es[n - 1], titles);
        if table[k - 1].0 == heading {
            assert forall|i: int| 0 <= i < k - 1 implies (#[trigger] table[i]).0 != heading by {
                assert(table[i].0 != table[k - 1].0);
            }
        } else if exists|i: int| 0 <= i < k && (#[trigger] table[i]).0 == heading {
            let i = choose|i: int| 0 <= i < k && (#[trigger] table[i]).0 == heading;
            assert(0 <= i < k - 1 && table[i].0 == heading);
        }
    }
}

proof fn lemma_times_are_active(
    table: Seq<(Seq<char>, u64)>,
    es: Seq<EntryView>,
    titles: bool,
    n: int,
    m: int,
)
    requires
        is_tally(table, es, titles, m),
        0 <= n <= m,
    ensures
        times_together(table, table.len() as int, es, titles, n) == active(es, n),
    decreases n,
{
    if n > 0 {
        lemma_times_are_active(table, es, titles, n - 1, m);
        lemma_times_step(table, table.len() as int, es, titles, n);
        if is_work(es[n - 1]) {
            let heading = heading_of(es[n - 1], titles);
            assert(is_worked(es, heading, titles, m));
        }
    } else {
        lemma_no_times(table, table.len() as int, es, titles);
    }
}

proof fn lemma_no_times(table: Seq<(Seq<char>, u64)>, k: int, es: Seq<EntryView>, titles: bool)
    ensures
        times_together(table, k, es, titles, 0) == 0,
    decreases k,
{
    if k > 0 {
        lemma_no_times(table, k - 1, es, titles);
    }
}

proof fn lemma_total_is_times(
    table: Seq<(Seq<char>, u64)>,
    k: int,
    es: Seq<EntryView>,
    titles: bool,
    n: int,
)
    requires
        is_tally(table, es, titles, n),
        k <= table.len(),
    ensures
        total(table, k) == times_together(table, k, es, titles, n),
    decreases k,
{
    if k > 0 {
        lemma_total_is_times(table, k - 1, es, titles, n);
        assert(table[k - 1].1 == time_on(es, table[k - 1].0, titles, n));
    }
}

/// No time is lost and none is counted twice: the times of the programs add up to the time of work,
/// and so do the times of the windows.
pub proof fn law_times_add_up(table: Seq<(Seq<char>, u64)>, es: Seq<EntryView>, titles: bool)
    requires
        is_ranking(table, es, titles),
        es.len() > 0,
    ensures
        total(table, table.len() as int) == active(es, es.len() - 1),
{
    let n = es.len() - 1;
    lemma_total_is_times(table, table.len() as int, es, titles, n);
    lemma_times_are_active(table, es, titles, n, n);
}

/// Time away from the desk is no work: what is logged after a while without input does not count.
pub proof fn law_idle_is_no_work(idle: u64, epoch: u64, app: Seq<char>, title: Seq<char>)
    requires
        idle > IDLE_SECS,
    ensures
        !is_work(
            EntryView {
                epoch,
                app: activity_of(idle, app, title).0,
                title: activity_of(idle, app, title).1,
            },
        ),
{
}

/// However long the gaps between entries are, no entry counts for more than it may, and so the
/// time of work is no more than that for each entry.
pub proof fn law_time_is_capped(es: Seq<EntryView>, n: int)
    requires
        0 <= n,
    ensures
        0 <= active(es, n) <= HEARTBEAT_SECS * n,
    decreases n,
{
    if n > 0 {
        law_time_is_capped(es, n - 1);
    }
}

proof fn lemma_time_on(es: Seq<EntryView>, heading: Seq<char>, titles: bool, n: int)
    requires
        0 <= n,
    ensures
        0 <= time_on(es, heading, titles, n) <= HEARTBEAT_SECS * n,
        !is_worked(es, heading, titles, n) ==> time_on(es, heading, titles, n) == 0,
    decreases n,
{
    if n > 0 {
        lemma_time_on(es, heading, titles, n - 1);
        if is_worked(es, heading, titles, n - 1) {
            let i = choose|i: int|
                0 <= i < n - 1 && is_work(#[trigger] es[i]) && heading_of(es[i], titles) == heading;
            assert(is_work(es[i]));
        }
        if is_work(es[n - 1]) && heading_of(es[n - 1], titles) == heading {
            assert(is_worked(es, heading, titles, n));
        }
    }
}

/// What is seen of a table.
pub open spec fn table_view(v: Seq<(String, u64)>) -> Seq<(Seq<char>, u64)> {
    Seq::new(v.len(), |i: int| (v[i].0@, v[i].1))
}

proof fn lemma_tally_skips(
    table: Seq<(Seq<char>, u64)>,
    es: Seq<EntryView>,
    titles: bool,
    n: int,
)
    requires
        is_tally(table, es, titles, n),
        0 <= n,
        !is_work(es[n]),
    ensures
        is_tally(table, es, titles, n + 1),
{
    assert forall|i: int| 0 <= i < table.len() implies {
        &&& (#[trigger] table[i]).1 == time_on(es, table[i].0, titles, n + 1)
        &&& is_worked(es, table[i].0, titles, n + 1)
    } by {
        let w = choose|w: int|
            0 <= w < n && is_work(#[trigger] es[w]) && heading_of(es[w], titles) == table[i].0;
        assert(is_work(es[w]));
    }
    assert forall|heading: Seq<char>| #[trigger]
        is_worked(es, heading, titles, n + 1) implies exists|i: int|
        0 <= i < table.len() && (#[trigger] table[i]).0 == heading by {
        let w = choose|w: int|
            0 <= w < n + 1 && is_work(#[trigger] es[w]) && heading_of(es[w], titles) == heading;
        assert(w < n);
        assert(is_worked(es, heading, titles, n));
    }
}

proof fn lemma_tally_grows(
    was: Seq<(Seq<char>, u64)>,
    now: Seq<(Seq<char>, u64)>,
    es: Seq<EntryView>,
    titles: bool,
    n: int,
    k: int,
)
    requires
        is_tally(was, es, titles, n),
        0 <= n,
        is_work(es[n]),
        0 <= k < now.len(),
        now[k].0 == heading_of(es[n], titles),
        if k < was.len() {
            &&& now.len() == was.len()
            &&& was[k].0 == now[k].0
            &&& now[k].1 == was[k].1 + duration(es, n)
        } else {
            &&& now.len() == was.len() + 1
            &&& now[k].1 == duration(es, n)
            &&& forall|i: int| 0 <= i < was.len() ==> (#[trigger] was[i]).0 != now[k].0
        },
        forall|i: int| 0 <= i < was.len() && i != k ==> #[trigger] now[i] == was[i],
    ensures
        is_tally(now, es, titles, n + 1),
{
    let heading = heading_of(es[n], titles);
    assert forall|i: int, j: int| 0 <= i < j < now.len() implies (#[trigger] now[i]).0
        != (#[trigger] now[j]).0 by {
        if i < was.len() && j < was.len() {
            assert(was[i].0 != was[j].0);
        } else {
            assert(was[i].0 != now[k].0);
        }
    }
    assert forall|i: int| 0 <= i < now.len() implies {
        &&& (#[trigger] now[i]).1 == time_on(es, now[i].0, titles, n + 1)
        &&& is_worked(es, now[i].0, titles, n + 1)
    } by {
        if i == k {
            assert(is_work(es[n]));
            if k >= was.len() {
                assert(!is_worked(es, heading, titles, n));
                lemma_time_on(es, heading, titles, n);
            } else {
                assert(was[k].1 == time_on(es, was[k].0, titles, n));
            }
        } else {
            assert(now[i] == was[i]);
            assert(now[i].0 != heading) by {
                if i < k {
                    assert(now[i].0 != now[k].0);
                } else {
                    assert(now[k].0 != now[i].0);
                }
            }
            let w = choose|w: int|
                0 <= w < n && is_work(#[trigger] es[w]) && heading_of(es[w], titles) == was[i].0;
            assert(is_work(es[w]));
        }
    }
    assert forall|h: Seq<char>| #[trigger]
        is_worked(es, h, titles, n + 1) implies exists|i: int|
        0 <= i < now.len() && (#[trigger] now[i]).0 == h by {
        if h == heading {
            assert(now[k].0 == h);
        } else {
            let w = choose|w: int|
                0 <= w < n + 1 && is_work(#[trigger] es[w]) && heading_of(es[w], titles) == h;
            assert(w < n);
            assert(is_worked(es, h, titles, n));
            let i = choose|i: int| 0 <= i < was.len() && (#[trigger] was[i]).0 == h;
            assert(now[i] == was[i]);
        }
    }
}

fn add_time(table: &mut Vec<(String, u64)>, heading: String, secs: u64)
    requires
        forall|i: int| 0 <= i < old(table)@.len() ==> (#[trigger] old(table)@[i]).1 + secs <= u64::MAX,
    ensures
        ({
            let was = table_view(old(table)@);
            let now = table_view(final(table)@);
            exists|k: int|
                {
                    &&& 0 <= k < now.len()
                    &&& (#[trigger] now[k]).0 == heading@
                    &&& if k < was.len() {
                        &&& now.len() == was.len()
                        &&& was[k].0 == now[k].0
                        &&& now[k].1 == was[k].1 + secs
                    } else {
                        &&& now.len() == was.len() + 1
                        &&& now[k].1 == secs
                        &&& forall|i: int| 0 <= i < was.len() ==> (#[trigger] was[i]).0 != now[k].0
                    }
                    &&& forall|i: int| 0 <= i < was.len() && i != k ==> #[trigger] now[i] == was[i]
                }
        }),
{
    let ghost was = table_view(table@);
    let mut i: usize = 0;
    while i < table.len()
        invariant
            i <= table@.len(),
            was == table_view(table@),
            table@ == old(table)@,
            forall|j: int| 0 <= j < i ==> (#[trigger] was[j]).0 != heading@,
            forall|j: int|
                0 <= j < old(table)@.len() ==> (#[trigger] old(table)@[j]).1 + secs <= u64::MAX,
        decreases table@.len() - i,
    {
        assert(was[i as int].0 == table@[i as int].0@);
        if text::same_text(table[i].0.as_str(), heading.as_str()) {
            let sum: u64 = table[i].1 + secs;
            table.set(i, (heading, sum));
            proof {
                let now = table_view(table@);
                assert(now[i as int].0 == was[i as int].0);
                assert forall|j: int| 0 <= j < was.len() && j != i implies #[trigger] now[j]
                    == was[j] by {
                    assert(table@[j] == old(table)@[j]);
                }
            }
            return;
        }
        i = i + 1;
    }
    let ghost name = heading@;
    table.push((heading, secs));
    proof {
        let now = table_view(table@);
        assert(now[was.len() as int].0 == name);
        assert forall|j: int| 0 <= j < was.len() implies #[trigger] now[j] == was[j] by {
            assert(table@[j] == old(table)@[j]);
        }
    }
}

fn heading_text(e: &Entry, titles: bool) -> (r: String)
    ensures
        r@ == heading_of(e@, titles),
{
    let mut out: String = text::copy(e.app.as_str());
    if titles {
        out.push_str("  |  ");
        out.push_str(e.title.as_str());
    }
    out
}

fn duration_between(from: u64, to: u64) -> (r: u64)
    ensures
        r == if elapsed(from, to) < HEARTBEAT_SECS {
            elapsed(from, to)
        } else {
            HEARTBEAT_SECS as int
        },
{
    let gap: u64 = if to >= from {
        to - from
    } else {
        0
    };
    if gap < HEARTBEAT_SECS {
        gap
    } else {
        HEARTBEAT_SECS
    }
}

fn tally(entries: &Vec<Entry>, titles: bool) -> (r: Vec<(String, u64)>)
    requires
        entries@.len() > 0,
        HEARTBEAT_SECS * entries@.len() <= u64::MAX,
    ensures
        is_tally(table_view(r@), entry_views(entries@), titles, entries@.len() - 1),
{
    let ghost es = entry_views(entries@);
    let mut out: Vec<(String, u64)> = Vec::new();
    let mut i: usize = 0;
    let n: usize = entries.len() - 1;
    while i < n
        invariant
            i <= n == entries@.len() - 1,
            es == entry_views(entries@),
            HEARTBEAT_SECS * entries@.len() <= u64::MAX,
            is_tally(table_view(out@), es, titles, i as int),
        decreases n - i,
    {
        let ghost was = table_view(out@);
        assert(es[i as int] == entries@[i as int]@);
        assert(es[i + 1] == entries@[i + 1]@);
        if text::same_text(entries[i].app.as_str(), "(idle)") || entries[i].app.as_str().is_empty() {
            proof {
                lemma_tally_skips(was, es, titles, i as int);
            }
        } else {
            let secs: u64 = duration_between(entries[i].epoch, entries[i + 1].epoch);
            let heading: String = heading_text(&entries[i], titles);
            let ghost name = heading@;
            assert forall|j: int| 0 <= j < out@.len() implies (#[trigger] out@[j]).1 + secs
                <= u64::MAX by {
                assert(was[j].1 == time_on(es, was[j].0, titles, i as int));
                lemma_time_on(es, was[j].0, titles, i as int);
            }
            add_time(&mut out, heading, secs);
            proof {
                let now = table_view(out@);
                let k = choose|k: int|
                    {
                        &&& 0 <= k < now.len()
                        &&& (#[trigger] now[k]).0 == name
                        &&& if k < was.len() {
                            &&& now.len() == was.len()
                            &&& was[k].0 == now[k].0
                            &&& now[k].1 == was[k].1 + secs
                        } else {
                            &&& now.len() == was.len() + 1
                            &&& now[k].1 == secs
                            &&& forall|i: int|
                                0 <= i < was.len() ==> (#[trigger] was[i]).0 != now[k].0
                        }
                        &&& forall|i: int|
                            0 <= i < was.len() && i != k ==> #[trigger] now[i] == was[i]
                    };
                assert(secs == duration(es, i as int));
                lemma_tally_grows(was, now, es, titles, i as int, k);
            }
        }
        i = i + 1;
    }
    out
}

fn active_secs(entries: &Vec<Entry>) -> (r: u64)
    requires
        entries@.len() > 0,
        HEARTBEAT_SECS * entries@.len() <= u64::MAX,
    ensures
        r == active(entry_views(entries@), entries@.len() - 1),
{
    let ghost es = entry_views(entries@);
    let mut sum: u64 = 0;
    let mut i: usize = 0;
    let n: usize = entries.len() - 1;
    while i < n
        invariant
            i <= n == entries@.len() - 1,
            es == entry_views(entries@),
            HEARTBEAT_SECS * entries@.len() <= u64::MAX,
            sum == active(es, i as int),
        decreases n - i,
    {
        assert(es[i as int] == entries@[i as int]@);
        assert(es[i + 1] == entries@[i + 1]@);
        proof {
            law_time_is_capped(es, i as int);
        }
        if !text::same_text(entries[i].app.as_str(), "(idle)") && !entries[i].app.as_str().is_empty() {
            sum = sum + duration_between(entries[i].epoch, entries[i + 1].epoch);
        }
        i = i + 1;
    }
    sum
}

/// The two tables hold the same rows.
spec fn same_rows(a: Seq<(Seq<char>, u64)>, b: Seq<(Seq<char>, u64)>) -> bool {
    &&& forall|i: int| 0 <= i < a.len() ==> b.contains(#[trigger] a[i])
    &&& forall|i: int| 0 <= i < b.len() ==> a.contains(#[trigger] b[i])
}

/// No two rows of the table have the same heading.
spec fn distinct_rows(a: Seq<(Seq<char>, u64)>) -> bool {
    forall|i: int, j: int| 0 <= i < j < a.len() ==> (#[trigger] a[i]).0 != (#[trigger] a[j]).0
}

proof fn lemma_tally_reordered(
    a: Seq<(Seq<char>, u64)>,
    b: Seq<(Seq<char>, u64)>,
    es: Seq<EntryView>,
    titles: bool,
    n: int,
)
    requires
        is_tally(a, es, titles, n),
        same_rows(a, b),
        distinct_rows(b),
    ensures
        is_tally(b, es, titles, n),
{
    assert forall|i: int| 0 <= i < b.len() implies {
        &&& (#[trigger] b[i]).1 == time_on(es, b[i].0, titles, n)
        &&& is_worked(es, b[i].0, titles, n)
    } by {
        assert(a.contains(b[i]));
        let j = choose|j: int| 0 <= j < a.len() && a[j] == b[i];
        assert(a[j].1 == time_on(es, a[j].0, titles, n));
    }
    assert forall|h: Seq<char>| #[trigger] is_worked(es, h, titles, n) implies exists|i: int|
        0 <= i < b.len() && (#[trigger] b[i]).0 == h by {
        let j = choose|j: int| 0 <= j < a.len() && (#[trigger] a[j]).0 == h;
        assert(b.contains(a[j]));
        let i = choose|i: int| 0 <= i < b.len() && b[i] == a[j];
        assert(b[i].0 == h);
    }
}

/// How many rows of the table have at least this time, where the longest times come first.
fn rows_before(table: &Vec<(String, u64)>, secs: u64) -> (r: usize)
    requires
        is_descending(table_view(table@)),
    ensures
        r <= table@.len(),
        forall|i: int| 0 <= i < r ==> (#[trigger] table@[i]).1 >= secs,
        forall|i: int| r <= i < table@.len() ==> (#[trigger] table@[i]).1 < secs,
{
    let mut k: usize = 0;
    while k < table.len() && table[k].1 >= secs
        invariant
            k <= table@.len(),
            forall|i: int| 0 <= i < k ==> (#[trigger] table@[i]).1 >= secs,
        decreases table@.len() - k,
    {
        k = k + 1;
    }
    proof {
        let view = table_view(table@);
        assert forall|i: int| k <= i < table@.len() implies (#[trigger] table@[i]).1 < secs by {
            assert(view[i].1 == table@[i].1);
            assert(view[k as int].1 == table@[k as int].1);
            if i > k {
                assert(view[k as int].1 >= view[i].1);
            }
        }
    }
    k
}

proof fn lemma_row_inserted(
    was: Seq<(Seq<char>, u64)>,
    from: Seq<(Seq<char>, u64)>,
    i: int,
    k: int,
)
    requires
        0 <= i < from.len(),
        0 <= k <= was.len(),
        same_rows(from.take(i), was),
        distinct_rows(from),
        distinct_rows(was),
        is_descending(was),
        forall|j: int| 0 <= j < k ==> (#[trigger] was[j]).1 >= from[i].1,
        forall|j: int| k <= j < was.len() ==> (#[trigger] was[j]).1 < from[i].1,
    ensures
        same_rows(from.take(i + 1), was.insert(k, from[i])),
        distinct_rows(was.insert(k, from[i])),
        is_descending(was.insert(k, from[i])),
{
    let now = was.insert(k, from[i]);
    let row = from[i];
    assert(now[k] == row);
    assert forall|j: int| 0 <= j < from.take(i + 1).len() implies now.contains(
        #[trigger] from.take(i + 1)[j],
    ) by {
        if j < i {
            assert(from.take(i)[j] == from.take(i + 1)[j]);
            let m = choose|m: int| 0 <= m < was.len() && was[m] == from.take(i)[j];
            assert(now[if m < k {
                m
            } else {
                m + 1
            }] == was[m]);
        }
    }
    assert forall|j: int| 0 <= j < now.len() implies from.take(i + 1).contains(#[trigger] now[j]) by {
        if j == k {
            assert(from.take(i + 1)[i] == row);
        } else {
            let m = if j < k {
                j
            } else {
                j - 1
            };
            assert(now[j] == was[m]);
            assert(from.take(i).contains(was[m]));
            let p = choose|p: int| 0 <= p < i && from.take(i)[p] == was[m];
            assert(from.take(i + 1)[p] == was[m]);
        }
    }
    assert forall|j: int| 0 <= j < was.len() implies (#[trigger] was[j]).0 != row.0 by {
        assert(from.take(i).contains(was[j]));
        let p = choose|p: int| 0 <= p < i && from.take(i)[p] == was[j];
        assert(from[p].0 != from[i].0);
    }
}

/// The rows of a table, the longest times first.
fn ranked(table: Vec<(String, u64)>) -> (r: Vec<(String, u64)>)
    requires
        distinct_rows(table_view(table@)),
    ensures
        same_rows(table_view(table@), table_view(r@)),
        distinct_rows(table_view(r@)),
        is_descending(table_view(r@)),
{
    let ghost from = table_view(table@);
    let mut out: Vec<(String, u64)> = Vec::new();
    let mut i: usize = 0;
    assert(same_rows(from.take(0), table_view(out@)));
    while i < table.len()
        invariant
            i <= table@.len(),
            from == table_view(table@),
            distinct_rows(from),
            same_rows(from.take(i as int), table_view(out@)),
            distinct_rows(table_view(out@)),
            is_descending(table_view(out@)),
        decreases table@.len() - i,
    {
        let ghost was = table_view(out@);
        let row: (String, u64) = (table[i].0.clone(), table[i].1);
        let k: usize = rows_before(&out, row.1);
        assert forall|j: int| 0 <= j < was.len() implies (#[trigger] was[j]).1 == out@[j].1 by {}
        let ghost seen = (row.0@, row.1);
        out.insert(k, row);
        proof {
            assert(seen == from[i as int]);
            assert(table_view(out@) =~= was.insert(k as int, from[i as int]));
            lemma_row_inserted(was, from, i as int, k as int);
        }
        i = i + 1;
    }
    assert(from.take(from.len() as int) =~= from);
    out
}

// ---------------------------------------------------------------------------------------------
// The report
// ---------------------------------------------------------------------------------------------
/// The line of the report for a row of a table: the time, and the heading, which is shortened
/// where it names a window.
pub open spec fn row_line(row: (Seq<char>, u64), titles: bool) -> Seq<char> {
    "  "@ + number::padded(number::hours_minutes(row.1 as nat), 7) + "  "@ + (if titles {
        text::shortened(row.0, 80)
    } else {
        row.0
    }) + "\n"@
}

/// The lines of the report for the first `n` rows of a table.
pub open spec fn row_lines(table: Seq<(Seq<char>, u64)>, titles: bool, n: int) -> Seq<char>
    decreases n,
{
    if n <= 0 {
        Seq::empty()
    } else {
        row_lines(table, titles, n - 1) + row_line(table[n - 1], titles)
    }
}

/// The smaller of two numbers.
pub open spec fn at_most(n: int, max: int) -> int {
    if n < max {
        n
    } else {
        max
    }
}

/// The report: the time of work, the programs with the longest times and the windows with the
/// longest times.
pub open spec fn report_text(
    date: Seq<char>,
    persona: Seq<char>,
    secs: int,
    apps: Seq<(Seq<char>, u64)>,
    titles: Seq<(Seq<char>, u64)>,
) -> Seq<char> {
    "== "@ + date + " 作業レポート（"@ + persona + "） ==\nアクティブ合計: "@
        + number::hours_minutes(secs as nat) + "\n\n[アプリ別]\n"@ + row_lines(
        apps,
        false,
        at_most(apps.len() as int, 15),
    ) + "\n[上位の作業 アプリ｜ウィンドウ]\n"@ + row_lines(
        titles,
        true,
        at_most(titles.len() as int, 25),
    )
}

/// What is said where the log holds too little for a report.
pub open spec fn too_little(date: Seq<char>, n: nat) -> Seq<char> {
    date + " の記録が少なすぎます（"@ + number::decimal(n)
        + "件）。しばらく記録してから見てください。"@
}

/// The text is the report on these entries. Which of two headings with the same time comes first
/// is left open.
pub open spec fn is_report(
    r: Seq<char>,
    es: Seq<EntryView>,
    persona: Seq<char>,
    date: Seq<char>,
) -> bool {
    if es.len() < 2 {
        r == too_little(date, es.len())
    } else {
        exists|apps: Seq<(Seq<char>, u64)>, titles: Seq<(Seq<char>, u64)>|
            {
                &&& #[trigger] is_ranking(apps, es, false)
                &&& #[trigger] is_ranking(titles, es, true)
                &&& r == report_text(date, persona, active(es, es.len() - 1), apps, titles)
            }
    }
}

fn push_rows(out: &mut String, table: &Vec<(String, u64)>, titles: bool, max: usize)
    ensures
        final(out)@ == old(out)@ + row_lines(
            table_view(table@),
            titles,
            at_most(table@.len() as int, max as int),
        ),
{
    let ghost rows = table_view(table@);
    let ghost front = out@;
    let n: usize = if table.len() < max {
        table.len()
    } else {
        max
    };
    let mut i: usize = 0;
    assert(out@ =~= front + row_lines(rows, titles, 0));
    while i < n
        invariant
            i <= n <= table@.len(),
            rows == table_view(table@),
            out@ == front + row_lines(rows, titles, i as int),
        decreases n - i,
    {
        let ghost was = out@;
        out.push_str("  ");
        out.push_str(number::pad_right(number::hours_minutes_text(table[i].1).as_str(), 7).as_str());
        out.push_str("  ");
        if titles {
            out.push_str(text::truncate(table[i].0.as_str(), 80).as_str());
        } else {
            out.push_str(table[i].0.as_str());
        }
        out.push_str("\n");
        proof {
            assert(out@ =~= was + row_line(rows[i as int], titles));
            assert(out@ =~= front + row_lines(rows, titles, i + 1));
        }
        i = i + 1;
    }
}

proof fn lemma_lines_len(s: Seq<char>)
    ensures
        text::lines(s).len() <= s.len(),
    decreases s.len(),
{
    if s.len() > 0 && text::run_before(s, '\n') < s.len() {
        lemma_lines_len(s.skip(text::run_before(s, '\n') as int + 1));
    }
}

/// The report on a day's log: how long the user worked, and with what.
pub fn aggregate_activity(txt: &str, persona: &str, date: &str) -> (r: String)
    requires
        HEARTBEAT_SECS * txt@.len() <= u64::MAX,
    ensures
        is_report(r@, entries_on(text::lines(txt@)), persona@, date@),
{
    let entries: Vec<Entry> = read_entries(txt);
    let ghost es = entry_views(entries@);
    proof {
        lemma_lines_len(txt@);
        assert(es.len() == entries@.len());
    }
    if entries.len() < 2 {
        let mut out: String = text::copy(date);
        out.push_str(" の記録が少なすぎます（");
        out.push_str(number::decimal_text(entries.len() as u64).as_str());
        out.push_str("件）。しばらく記録してから見てください。");
        return out;
    }
    assert(HEARTBEAT_SECS * entries@.len() <= u64::MAX) by (nonlinear_arith)
        requires
            entries@.len() <= txt@.len(),
            HEARTBEAT_SECS * txt@.len() <= u64::MAX,
    ;
    let active: u64 = active_secs(&entries);
    let by_app: Vec<(String, u64)> = tally(&entries, false);
    let by_title: Vec<(String, u64)> = tally(&entries, true);
    let ghost app_rows = table_view(by_app@);
    let ghost title_rows = table_view(by_title@);
    let apps: Vec<(String, u64)> = ranked(by_app);
    let titles: Vec<(String, u64)> = ranked(by_title);
    proof {
        lemma_tally_reordered(app_rows, table_view(apps@), es, false, es.len() - 1);
        lemma_tally_reordered(title_rows, table_view(titles@), es, true, es.len() - 1);
        assert(is_ranking(table_view(apps@), es, false));
        assert(is_ranking(table_view(titles@), es, true));
    }
    let mut out: String = text::copy("== ");
    out.push_str(date);
    out.push_str(" 作業レポート（");
    out.push_str(persona);
    out.push_str("） ==\nアクティブ合計: ");
    out.push_str(number::hours_minutes_text(active).as_str());
    out.push_str("\n\n[アプリ別]\n");
    push_rows(&mut out, &apps, false, 15);
    out.push_str("\n[上位の作業 アプリ｜ウィンドウ]\n");
    push_rows(&mut out, &titles, true, 25);
    out
}

// ---------------------------------------------------------------------------------------------
// What is logged and what is reported, told by the entries alone
// ---------------------------------------------------------------------------------------------
/// As long as no more than a hundred and fifty seconds went by without input, the log names the
/// program and the window as they are, if these are on one line and tidy, the window with no more
/// than a hundred and twenty characters. After that it names neither.
pub proof fn law_activity_is_named(idle: u64, app: Seq<char>, title: Seq<char>)
    requires
        !app.contains('\t') && !app.contains('\r') && !app.contains('\n'),
        forall|j: int|
            0 <= j < title.len() && text::is_white(#[trigger] title[j]) ==> title[j] == ' ' && 0 < j
                < title.len() - 1 && !text::is_white(title[j - 1]),
    ensures
        idle <= 150 ==> activity_of(idle, app, title) == (
            app,
            if title.len() <= 120 {
                title
            } else {
                title.take(120)
            },
        ),
        idle > 150 ==> activity_of(idle, app, title) == ("(idle)"@, Seq::<char>::empty()),
{
    assert forall|j: int| 0 <= j < app.len() implies text::flat(app, true)[j] == app[j] by {
        assert(app.contains(app[j]));
    }
    assert(text::flat(app, true) =~= app);
    assert forall|j: int| 0 <= j < title.len() implies text::flat(title, true)[j] == title[j] by {
        if title[j] == '\t' || title[j] == '\r' || title[j] == '\n' {
            assert(text::is_white(title[j]));
        }
    }
    assert(text::flat(title, true) =~= title);
    text::law_tidy_text_is_kept(title, 120);
}

/// An activity is news just where the program or the window is another one than was logged last, or
/// three hundred seconds have gone by since, as long as the program has a name.
pub proof fn law_news_is_a_change_or_a_heartbeat(
    s: Sampler,
    last_app: Seq<char>,
    last_title: Seq<char>,
    epoch: u64,
    app: Seq<char>,
    title: Seq<char>,
)
    requires
        s.last_key@ == last_app + "\u{1}"@ + last_title,
        !last_app.contains('\u{1}'),
        !app.contains('\u{1}'),
    ensures
        s.is_news(epoch, app, title) <==> app.len() > 0 && (app != last_app || title != last_title
            || epoch >= s.last_write + 300),
        activity_key(app, title) == app + "\u{1}"@ + title,
{
    reveal_strlit("\u{1}");
    let a = last_app + "\u{1}"@ + last_title;
    let b = app + "\u{1}"@ + title;
    if a == b {
        let m = last_app.len() as int;
        let n = app.len() as int;
        assert(a[m] == '\u{1}' && b[n] == '\u{1}');
        if m < n {
            assert(b[m] == app[m]);
            assert(app.contains(app[m]));
        } else if n < m {
            assert(a[n] == last_app[n]);
            assert(last_app.contains(last_app[n]));
        }
        assert(app =~= b.take(n));
        assert(last_app =~= a.take(m));
        assert(title =~= b.skip(n + 1));
        assert(last_title =~= a.skip(m + 1));
    }
}

/// The line of an activity holds, with tabs between them, the second, the date and the time, the
/// program and the window.
pub proof fn law_line_holds_the_activity(
    epoch: u64,
    date: Seq<char>,
    time: Seq<char>,
    app: Seq<char>,
    title: Seq<char>,
)
    ensures
        activity_line(epoch, date, time, app, title) == number::decimal(epoch as nat) + "\t"@ + date
            + " "@ + time + "\t"@ + app + "\t"@ + title,
{
    assert(activity_line(epoch, date, time, app, title) =~= number::decimal(epoch as nat) + "\t"@
        + date + " "@ + time + "\t"@ + app + "\t"@ + title);
}

proof fn lemma_uncut(a: Seq<char>)
    requires
        !a.contains('\t'),
    ensures
        field_of(a) == a,
        behind_field(a) == Seq::<char>::empty(),
{
    assert forall|i: int| 0 <= i < a.len() implies a[i] != '\t' by {
        assert(a.contains(a[i]));
    }
    text::lemma_run_before_is(a, '\t', a.len() as int);
    assert(a.take(a.len() as int) =~= a);
}

/// Every line that begins with a number other than zero is an entry, and no other line is: the
/// number is the second, the third column the program, and all that follows it the window. What is
/// missing is empty. Each entry goes behind those of the lines before.
pub proof fn law_every_line_is_read(
    lines: Seq<Seq<char>>,
    second: Seq<char>,
    stamp: Seq<char>,
    app: Seq<char>,
    title: Seq<char>,
)
    requires
        !second.contains('\t'),
        !stamp.contains('\t'),
        !app.contains('\t'),
    ensures
        entries_on(Seq::<Seq<char>>::empty()) == Seq::<EntryView>::empty(),
        ({
            let was = entries_on(lines);
            let none = Seq::<char>::empty();
            let full = second + "\t"@ + (stamp + "\t"@ + (app + "\t"@ + title));
            let untitled = second + "\t"@ + (stamp + "\t"@ + app);
            let unnamed = second + "\t"@ + stamp;
            match number::number(second) {
                Some(n) if n > 0 => {
                    &&& entries_on(lines.push(full)) == was.push(EntryView { epoch: n, app, title })
                    &&& entries_on(lines.push(untitled)) == was.push(
                        EntryView { epoch: n, app, title: none },
                    )
                    &&& entries_on(lines.push(unnamed)) == was.push(
                        EntryView { epoch: n, app: none, title: none },
                    )
                    &&& entries_on(lines.push(second)) == was.push(
                        EntryView { epoch: n, app: none, title: none },
                    )
                },
                _ => {
                    &&& entries_on(lines.push(full)) == was
                    &&& entries_on(lines.push(untitled)) == was
                    &&& entries_on(lines.push(unnamed)) == was
                    &&& entries_on(lines.push(second)) == was
                },
            }
        }),
{
    let none = Seq::<char>::empty();
    let full = second + "\t"@ + (stamp + "\t"@ + (app + "\t"@ + title));
    let untitled = second + "\t"@ + (stamp + "\t"@ + app);
    let unnamed = second + "\t"@ + stamp;
    lemma_cut(second, stamp + "\t"@ + (app + "\t"@ + title));
    lemma_cut(stamp, app + "\t"@ + title);
    lemma_cut(app, title);
    lemma_cut(second, stamp + "\t"@ + app);
    lemma_cut(stamp, app);
    lemma_cut(second, stamp);
    lemma_uncut(second);
    lemma_uncut(stamp);
    lemma_uncut(app);
    lemma_uncut(none);
    assert(lines.push(full).drop_last() =~= lines);
    assert(lines.push(untitled).drop_last() =~= lines);
    assert(lines.push(unnamed).drop_last() =~= lines);
    assert(lines.push(second).drop_last() =~= lines);
}

/// An entry counts for the time until the next one, up to three hundred seconds, whatever the two
/// entries are: that time is added to the time of work and to the time of its own program and its
/// own window, and to no other. Only an entry without a program, or one from while the user was
/// away, counts for nothing.
pub proof fn law_time_until_the_next_entry_counts(
    es: Seq<EntryView>,
    n: int,
    program: Seq<char>,
    window: Seq<char>,
)
    requires
        0 <= n,
        n + 1 < es.len(),
    ensures
        active(es, 0) == 0,
        time_on(es, program, false, 0) == 0,
        time_on(es, window, true, 0) == 0,
        ({
            let from = es[n].epoch;
            let to = es[n + 1].epoch;
            let secs = if es[n].app.len() == 0 || es[n].app == "(idle)"@ || to <= from {
                0
            } else if to - from < 300 {
                to - from
            } else {
                300
            };
            &&& active(es, n + 1) == active(es, n) + secs
            &&& time_on(es, program, false, n + 1) == time_on(es, program, false, n) + if program
                == es[n].app {
                secs
            } else {
                0
            }
            &&& time_on(es, window, true, n + 1) == time_on(es, window, true, n) + if window
                == es[n].app + "  |  "@ + es[n].title {
                secs
            } else {
                0
            }
        }),
{
}

/// Each row of the report is a line with the time and the heading, which is shortened only where it
/// names a window. The rows come in the order of the table.
pub proof fn law_row_is_a_line(table: Seq<(Seq<char>, u64)>, n: int)
    requires
        0 <= n < table.len(),
    ensures
        row_lines(table, false, 0) == Seq::<char>::empty(),
        row_lines(table, true, 0) == Seq::<char>::empty(),
        row_lines(table, false, n + 1) == row_lines(table, false, n) + "  "@ + number::padded(
            number::hours_minutes(table[n].1 as nat),
            7,
        ) + "  "@ + table[n].0 + "\n"@,
        row_lines(table, true, n + 1) == row_lines(table, true, n) + "  "@ + number::padded(
            number::hours_minutes(table[n].1 as nat),
            7,
        ) + "  "@ + text::shortened(table[n].0, 80) + "\n"@,
{
    assert(row_lines(table, false, n + 1) =~= row_lines(table, false, n) + "  "@ + number::padded(
        number::hours_minutes(table[n].1 as nat),
        7,
    ) + "  "@ + table[n].0 + "\n"@);
    assert(row_lines(table, true, n + 1) =~= row_lines(table, true, n) + "  "@ + number::padded(
        number::hours_minutes(table[n].1 as nat),
        7,
    ) + "  "@ + text::shortened(table[n].0, 80) + "\n"@);
}

/// A table of times gives each program, or each program with its window, in which there was work
/// before the last entry, its time, once, and the longest times first.
pub proof fn law_table_is_complete(
    table: Seq<(Seq<char>, u64)>,
    es: Seq<EntryView>,
    titles: bool,
    i: int,
    j: int,
    k: int,
)
    requires
        is_ranking(table, es, titles),
    ensures
        0 <= i < j < table.len() ==> table[i].0 != table[j].0 && table[i].1 >= table[j].1,
        0 <= i < table.len() ==> table[i].1 == time_on(es, table[i].0, titles, es.len() - 1),
        0 <= i < table.len() ==> exists|w: int|
            {
                &&& 0 <= w < es.len() - 1
                &&& (#[trigger] es[w]).app.len() > 0 && es[w].app != "(idle)"@
                &&& table[i].0 == if titles {
                    es[w].app + "  |  "@ + es[w].title
                } else {
                    es[w].app
                }
            },
        0 <= k < es.len() - 1 && es[k].app.len() > 0 && es[k].app != "(idle)"@ ==> exists|r: int|
            0 <= r < table.len() && (#[trigger] table[r]).0 == if titles {
                es[k].app + "  |  "@ + es[k].title
            } else {
                es[k].app
            },
{
    let n = es.len() - 1;
    if 0 <= i < table.len() {
        assert(is_worked(es, table[i].0, titles, n));
        let w = choose|w: int|
            0 <= w < n && is_work(#[trigger] es[w]) && heading_of(es[w], titles) == table[i].0;
        assert(es[w].app.len() > 0);
    }
    if 0 <= k < n && es[k].app.len() > 0 && es[k].app != "(idle)"@ {
        let heading = heading_of(es[k], titles);
        assert(is_work(es[k]));
        assert(is_worked(es, heading, titles, n));
        let r = choose|r: int| 0 <= r < table.len() && (#[trigger] table[r]).0 == heading;
        assert(table[r].0 == heading);
    }
}

/// The report gives the time of work in all entries but the last, and under it up to fifteen
/// programs and up to twenty-five windows, those with the longest times. Of fewer than two entries
/// there is none, and it is said how many there are.
pub proof fn law_report_gives_the_longest_times(
    r: Seq<char>,
    es: Seq<EntryView>,
    persona: Seq<char>,
    date: Seq<char>,
)
    requires
        is_report(r, es, persona, date),
    ensures
        es.len() < 2 ==> r == date + " の記録が少なすぎます（"@ + number::decimal(es.len())
            + "件）。しばらく記録してから見てください。"@,
        es.len() >= 2 ==> exists|apps: Seq<(Seq<char>, u64)>, titles: Seq<(Seq<char>, u64)>|
            {
                &&& #[trigger] is_ranking(apps, es, false)
                &&& #[trigger] is_ranking(titles, es, true)
                &&& r == "== "@ + date + " 作業レポート（"@ + persona
                    + "） ==\nアクティブ合計: "@ + number::hours_minutes(
                    active(es, es.len() - 1) as nat,
                ) + "\n\n[アプリ別]\n"@ + row_lines(
                    apps,
                    false,
                    if apps.len() < 15 {
                        apps.len() as int
                    } else {
                        15
                    },
                ) + "\n[上位の作業 アプリ｜ウィンドウ]\n"@ + row_lines(
                    titles,
                    true,
                    if titles.len() < 25 {
                        titles.len() as int
                    } else {
                        25
                    },
                )
            },
{
    if es.len() >= 2 {
        let (apps, titles) = choose|apps: Seq<(Seq<char>, u64)>, titles: Seq<(Seq<char>, u64)>|
            {
                &&& #[trigger] is_ranking(apps, es, false)
                &&& #[trigger] is_ranking(titles, es, true)
                &&& r == report_text(date, persona, active(es, es.len() - 1), apps, titles)
            };
        assert(is_ranking(apps, es, false) && is_ranking(titles, es, true));
    }
}

/// What is seen of an entry, of a list of entries and of a table is what they hold, each thing in
/// its own place.
pub proof fn law_entries_are_seen(e: Entry, list: Seq<Entry>, table: Seq<(String, u64)>, i: int)
    ensures
        e@.epoch == e.epoch && e@.app == e.app@ && e@.title == e.title@,
        entry_views(list).len() == list.len(),
        0 <= i < list.len() ==> entry_views(list)[i] == list[i]@,
        table_view(table).len() == table.len(),
        0 <= i < table.len() ==> table_view(table)[i] == (table[i].0@, table[i].1),
{
}

} // verus!
