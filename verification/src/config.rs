//! Settings, kept in a small file of `key = "value"` lines. Each value can also be overridden by
//! an environment variable.

use vstd::prelude::*;

use crate::json::opt_view;
use crate::number;
use crate::paths;
use crate::text;
use crate::text::Edge;

verus! {

/// The seconds between two looks at the chat where the settings name no other number.
pub const DEFAULT_INTERVAL: u64 = 180;

/// The settings.
pub struct Config {
    /// Whose voice the assistant replies in.
    pub persona: String,
    /// The subdomain of the chat workspace, such as `vegibushq` in `vegibushq.slack.com`.
    pub slack_subdomain: String,
    /// The file with the facts that a reply may rely on.
    pub knowledge_path: String,
    /// The seconds between two looks at the chat.
    pub watch_interval_secs: u64,
}

/// The environment variables that override settings, as far as they are set.
pub struct Overrides {
    /// `TAGAMI_PERSONA`.
    pub persona: Option<String>,
    /// `TAGAMI_SLACK_SUBDOMAIN`.
    pub slack_subdomain: Option<String>,
    /// `TAGAMI_KNOWLEDGE`.
    pub knowledge_path: Option<String>,
    /// `TAGAMI_WATCH_INTERVAL_SECS`.
    pub watch_interval_secs: Option<String>,
}

// ---------------------------------------------------------------------------------------------
// One setting of the file
// ---------------------------------------------------------------------------------------------
/// The value that a line of the file gives to a key. A line gives one where an equals sign
/// follows the key, the line is not empty and it is no comment; white space round key and value
/// and quotation marks round the value do not belong to them.
pub open spec fn line_value(line: Seq<char>, key: Seq<char>) -> Option<Seq<char>> {
    let t = text::trim(line);
    let n = text::run_before(t, '=') as int;
    if t.len() == 0 || t[0] == '#' || n >= t.len() || text::trim(t.take(n)) != key {
        None
    } else {
        Some(text::trim(text::strip(text::trim(t.skip(n + 1)), Edge::Quote)))
    }
}

/// The value that the first of the lines with the key gives to it.
pub open spec fn file_value(lines: Seq<Seq<char>>, key: Seq<char>) -> Option<Seq<char>>
    decreases lines.len(),
{
    if lines.len() == 0 {
        None
    } else if line_value(lines[0], key) is Some {
        line_value(lines[0], key)
    } else {
        file_value(lines.skip(1), key)
    }
}

/// The value of a setting: that of the environment, where it is set and not blank, else that of
/// the file, where it is there and not empty, else the default.
pub open spec fn resolved(
    file: Seq<char>,
    env: Option<Seq<char>>,
    key: Seq<char>,
    default: Seq<char>,
) -> Seq<char> {
    match env {
        Some(v) if text::trim(v).len() > 0 => text::trim(v),
        _ => match file_value(text::lines(file), key) {
            Some(v) if v.len() > 0 => v,
            _ => default,
        },
    }
}

fn value_on_line(line: &Vec<char>, key: &Vec<char>) -> (r: Option<String>)
    ensures
        opt_view(r) == line_value(line@, key@),
{
    let t: Vec<char> = text::trim_chars(line);
    if t.len() == 0 || t[0] == '#' {
        return None;
    }
    let n: usize = text::run_from(&t, 0, '=');
    assert(t@.skip(0) =~= t@);
    if n >= t.len() {
        return None;
    }
    let k: Vec<char> = text::trim_chars(&text::part(&t, 0, n));
    assert(t@.subrange(0, n as int) =~= t@.take(n as int));
    if !text::same_chars(&k, key) {
        return None;
    }
    let v: Vec<char> = text::part(&t, n + 1, t.len());
    assert(v@ =~= t@.skip(n + 1));
    let v: Vec<char> = text::strip_chars(&text::trim_chars(&v), Edge::Quote);
    Some(text::to_text(&text::trim_chars(&v)))
}

/// Reads a very small subset of TOML: the value of a top-level `key = "value"` or `key = value`.
pub fn parse_value(txt: &str, key: &str) -> (r: Option<String>)
    ensures
        opt_view(r) == file_value(text::lines(txt@), key@),
{
    let lines: Vec<Vec<char>> = text::line_list(&text::to_chars(txt));
    let wanted: Vec<char> = text::to_chars(key);
    let ghost all = text::views(lines@);
    let mut i: usize = 0;
    assert(all.skip(0) =~= all);
    while i < lines.len()
        invariant
            i <= lines.len(),
            wanted@ == key@,
            all == text::views(lines@),
            all == text::lines(txt@),
            file_value(all, key@) == file_value(all.skip(i as int), key@),
        decreases lines.len() - i,
    {
        assert(all.skip(i as int)[0] == lines@[i as int]@);
        let v: Option<String> = value_on_line(&lines[i], &wanted);
        if v.is_some() {
            return v;
        }
        assert(all.skip(i as int).skip(1) =~= all.skip(i + 1));
        i = i + 1;
    }
    None
}

/// The value of a setting.
pub fn resolve(file_txt: &str, env: &Option<String>, file_key: &str, default: &str) -> (r: String)
    ensures
        r@ == resolved(file_txt@, opt_view(*env), file_key@, default@),
{
    if let Some(v) = env {
        let v: String = text::trimmed(v.as_str());
        if !v.as_str().is_empty() {
            return v;
        }
    }
    if let Some(v) = parse_value(file_txt, file_key) {
        if !v.as_str().is_empty() {
            return v;
        }
    }
    text::copy(default)
}

/// The environment overrides the file, which overrides the default: a variable that says something
/// gives the setting its value, whatever the file says, and where it says nothing the setting is
/// the same as without it.
pub proof fn law_environment_overrides(
    file: Seq<char>,
    value: Seq<char>,
    key: Seq<char>,
    default: Seq<char>,
)
    ensures
        text::trim(value).len() > 0 ==> resolved(file, Some(value), key, default) == text::trim(value),
        text::trim(value).len() == 0 ==> resolved(file, Some(value), key, default) == resolved(
            file,
            None,
            key,
            default,
        ),
{
}

/// The number of seconds that a text stands for, and the default where it is no number.
pub open spec fn interval(s: Seq<char>) -> u64 {
    match number::number(text::trim(s)) {
        Some(n) => n,
        None => DEFAULT_INTERVAL,
    }
}

/// The number of seconds that a text stands for, and the default where it is no number.
pub fn parse_interval(s: &str) -> (r: u64)
    ensures
        r == interval(s@),
{
    match number::parse_number(&text::trim_chars(&text::to_chars(s))) {
        Some(n) => n,
        None => DEFAULT_INTERVAL,
    }
}

// ---------------------------------------------------------------------------------------------
// All settings
// ---------------------------------------------------------------------------------------------
/// The file that holds the settings, in the folder for application data, or in the current folder
/// where none is known.
pub fn config_path(appdata: Option<String>) -> (r: String)
    ensures
        paths::is_two_inside(
            match appdata {
                Some(d) => d@,
                None => "."@,
            },
            "tagami"@,
            "config.toml"@,
            r@,
        ),
{
    proof {
        reveal_strlit("config.toml");
    }
    paths::program_file(appdata, "config.toml")
}

/// One line of the file.
pub open spec fn setting(key: Seq<char>, value: Seq<char>) -> Seq<char> {
    key + " = "@ + value
}

/// The value in quotation marks.
pub open spec fn quoted(value: Seq<char>) -> Seq<char> {
    "\""@ + value + "\""@
}

impl Config {
    /// These are the settings that the file and the environment give.
    pub open spec fn is_loaded(
        self,
        file: Seq<char>,
        env: Overrides,
    ) -> bool {
        &&& self.persona@ == resolved(file, opt_view(env.persona), "persona"@, "安河内"@)
        &&& self.slack_subdomain@ == resolved(
            file,
            opt_view(env.slack_subdomain),
            "slack_subdomain"@,
            "vegibushq"@,
        )
        &&& self.knowledge_path@ == resolved(
            file,
            opt_view(env.knowledge_path),
            "knowledge_path"@,
            "G:\\マイドライブ\\tagamiAi\\knowledge.md"@,
        )
        &&& self.watch_interval_secs == interval(
            resolved(file, opt_view(env.watch_interval_secs), "watch_interval_secs"@, "180"@),
        )
    }

    /// The text of the file that holds these settings.
    pub open spec fn file_text(self) -> Seq<char> {
        "# AI田上 設定（GUIから編集可）"@ + "\n"@ + (setting("persona"@, quoted(self.persona@))
            + "\n"@ + (setting("slack_subdomain"@, quoted(self.slack_subdomain@)) + "\n"@ + (setting(
            "knowledge_path"@,
            quoted(self.knowledge_path@),
        ) + "\n"@ + (setting(
            "watch_interval_secs"@,
            number::decimal(self.watch_interval_secs as nat),
        ) + "\n"@ + Seq::<char>::empty()))))
    }

    /// The settings that the text of the file and the environment give.
    pub fn load(file_txt: &str, env: &Overrides) -> (r: Config)
        ensures
            r.is_loaded(file_txt@, *env),
    {
        let secs: String = resolve(
            file_txt,
            &env.watch_interval_secs,
            "watch_interval_secs",
            "180",
        );
        Config {
            persona: resolve(file_txt, &env.persona, "persona", "安河内"),
            slack_subdomain: resolve(
                file_txt,
                &env.slack_subdomain,
                "slack_subdomain",
                "vegibushq",
            ),
            knowledge_path: resolve(
                file_txt,
                &env.knowledge_path,
                "knowledge_path",
                "G:\\マイドライブ\\tagamiAi\\knowledge.md",
            ),
            watch_interval_secs: parse_interval(secs.as_str()),
        }
    }

    /// The text to write into the file. Values are written raw and read back raw.
    pub fn save(&self) -> (r: String)
        ensures
            r@ == self.file_text(),
    {
        let mut out: String = text::copy("# AI田上 設定（GUIから編集可）");
        out.push_str("\n");
        push_setting(&mut out, "persona", self.persona.as_str());
        push_setting(&mut out, "slack_subdomain", self.slack_subdomain.as_str());
        push_setting(&mut out, "knowledge_path", self.knowledge_path.as_str());
        out.push_str("watch_interval_secs");
        out.push_str(" = ");
        out.push_str(number::decimal_text(self.watch_interval_secs).as_str());
        out.push_str("\n");
        assert(out@ =~= self.file_text());
        out
    }
}

fn push_setting(out: &mut String, key: &str, value: &str)
    ensures
        final(out)@ == old(out)@ + (setting(key@, quoted(value@)) + "\n"@),
{
    out.push_str(key);
    out.push_str(" = ");
    out.push_str("\"");
    out.push_str(value);
    out.push_str("\"");
    out.push_str("\n");
    assert(out@ =~= old(out)@ + (setting(key@, quoted(value@)) + "\n"@));
}

// ---------------------------------------------------------------------------------------------
// What is written is read back
// ---------------------------------------------------------------------------------------------
/// A value that the file can hold: it is on one line, and neither white space nor a quotation
/// mark stands at its ends.
pub open spec fn storable(v: Seq<char>) -> bool {
    &&& v.len() > 0
    &&& !v.contains('\n')
    &&& text::bare(v, Edge::White)
    &&& text::bare(v, Edge::Quote)
}

/// A key that the file can hold.
spec fn is_key(k: Seq<char>) -> bool {
    &&& k.len() > 0
    &&& !k.contains('=')
    &&& k[0] != '#'
    &&& text::bare(k, Edge::White)
}

proof fn lemma_setting_read(key: Seq<char>, w: Seq<char>, other: Seq<char>)
    requires
        is_key(key),
        w.len() > 0,
        text::bare(w, Edge::White),
    ensures
        line_value(setting(key, w), other) == if other == key {
            Some(text::trim(text::strip(w, Edge::Quote)))
        } else {
            None::<Seq<char>>
        },
{
    reveal_strlit(" = ");
    let t = setting(key, w);
    let n = key.len() as int + 1;
    assert(t[0] == key[0]);
    assert(t.last() == w.last());
    text::lemma_strip_bare(t, Edge::White);
    assert forall|i: int| 0 <= i < n implies t[i] != '=' by {
        if i < key.len() {
            assert(t[i] == key[i]);
        }
    }
    assert(t[n as int] == '=');
    text::lemma_run_before_is(t, '=', n);
    let k = t.take(n as int);
    assert(k =~= key.push(' '));
    assert(k.drop_last() =~= key);
    text::lemma_strip_bare(key, Edge::White);
    assert(text::strip_back(k, Edge::White) == key);
    assert(text::strip_front(k, Edge::White) == k);
    let v = t.skip(n as int + 1);
    assert(v =~= seq![' '] + w);
    assert(v.skip(1) =~= w);
    text::lemma_strip_bare(w, Edge::White);
    assert(text::strip_front(v, Edge::White) == text::strip_front(w, Edge::White));
}

proof fn lemma_quoted_stripped(v: Seq<char>)
    requires
        storable(v),
    ensures
        quoted(v).len() > 0,
        text::bare(quoted(v), Edge::White),
        !quoted(v).contains('\n'),
        text::trim(text::strip(quoted(v), Edge::Quote)) == v,
{
    reveal_strlit("\"");
    let q = quoted(v);
    assert(q.skip(1) =~= v.push('"'));
    assert(text::strip_front(q, Edge::Quote) == text::strip_front(v.push('"'), Edge::Quote));
    assert(text::strip_front(v.push('"'), Edge::Quote) == v.push('"'));
    assert(v.push('"').drop_last() =~= v);
    text::lemma_strip_bare(v, Edge::Quote);
    text::lemma_strip_bare(v, Edge::White);
    assert forall|i: int| 0 <= i < q.len() implies q[i] != '\n' by {
        if 0 < i < q.len() - 1 {
            assert(q[i] == v[i - 1]);
        }
    }
}

proof fn lemma_no_feed(key: Seq<char>, w: Seq<char>)
    requires
        !key.contains('\n'),
        !w.contains('\n'),
        w.len() > 0,
        w.last() != '\r',
    ensures
        !setting(key, w).contains('\n'),
        text::without_cr(setting(key, w)) == setting(key, w),
{
    reveal_strlit(" = ");
    let t = setting(key, w);
    assert forall|i: int| 0 <= i < t.len() implies t[i] != '\n' by {
        if i < key.len() {
            assert(t[i] == key[i]);
        } else if i >= key.len() + 3 {
            assert(t[i] == w[i - key.len() - 3]);
        }
    }
    assert(t.last() == w.last());
}

proof fn lemma_digits_plain(n: nat)
    ensures
        number::decimal(n).len() > 0,
        text::bare(number::decimal(n), Edge::White),
        text::bare(number::decimal(n), Edge::Quote),
        !number::decimal(n).contains('\n'),
        number::decimal(n).last() != '\r',
{
    number::lemma_decimal(n);
    let d = number::decimal(n);
    assert(number::is_digit(d[0]));
    assert(number::is_digit(d.last()));
    assert forall|i: int| 0 <= i < d.len() implies d[i] != '\n' by {
        assert(number::is_digit(d[i]));
    }
}

spec fn line_of(saved: Config, i: int) -> Seq<char> {
    if i == 0 {
        "# AI田上 設定（GUIから編集可）"@
    } else if i == 1 {
        setting("persona"@, quoted(saved.persona@))
    } else if i == 2 {
        setting("slack_subdomain"@, quoted(saved.slack_subdomain@))
    } else if i == 3 {
        setting("knowledge_path"@, quoted(saved.knowledge_path@))
    } else {
        setting("watch_interval_secs"@, number::decimal(saved.watch_interval_secs as nat))
    }
}

proof fn lemma_keys()
    ensures
        is_key("persona"@),
        is_key("slack_subdomain"@),
        is_key("knowledge_path"@),
        is_key("watch_interval_secs"@),
        !"persona"@.contains('\n'),
        !"slack_subdomain"@.contains('\n'),
        !"knowledge_path"@.contains('\n'),
        !"watch_interval_secs"@.contains('\n'),
        "persona"@.len() == 7,
        "slack_subdomain"@.len() == 15,
        "knowledge_path"@.len() == 14,
        "watch_interval_secs"@.len() == 19,
{
    reveal_strlit("persona");
    reveal_strlit("slack_subdomain");
    reveal_strlit("knowledge_path");
    reveal_strlit("watch_interval_secs");
}

proof fn lemma_comment(key: Seq<char>)
    ensures
        !"# AI田上 設定（GUIから編集可）"@.contains('\n'),
        text::without_cr("# AI田上 設定（GUIから編集可）"@)
            == "# AI田上 設定（GUIから編集可）"@,
        line_value("# AI田上 設定（GUIから編集可）"@, key) is None,
{
    reveal_strlit("# AI田上 設定（GUIから編集可）");
    text::lemma_strip_bare("# AI田上 設定（GUIから編集可）"@, Edge::White);
}

proof fn lemma_file_lines(saved: Config)
    requires
        storable(saved.persona@),
        storable(saved.slack_subdomain@),
        storable(saved.knowledge_path@),
    ensures
        text::lines(saved.file_text()) == Seq::new(5, |i: int| line_of(saved, i)),
{
    let l0 = line_of(saved, 0);
    let l1 = line_of(saved, 1);
    let l2 = line_of(saved, 2);
    let l3 = line_of(saved, 3);
    let l4 = line_of(saved, 4);
    lemma_keys();
    lemma_comment(Seq::empty());
    lemma_quoted_stripped(saved.persona@);
    lemma_quoted_stripped(saved.slack_subdomain@);
    lemma_quoted_stripped(saved.knowledge_path@);
    lemma_digits_plain(saved.watch_interval_secs as nat);
    reveal_strlit("\"");
    lemma_no_feed("persona"@, quoted(saved.persona@));
    lemma_no_feed("slack_subdomain"@, quoted(saved.slack_subdomain@));
    lemma_no_feed("knowledge_path"@, quoted(saved.knowledge_path@));
    lemma_no_feed("watch_interval_secs"@, number::decimal(saved.watch_interval_secs as nat));
    let none = Seq::<char>::empty();
    let t4 = l4 + "\n"@ + none;
    let t3 = l3 + "\n"@ + t4;
    let t2 = l2 + "\n"@ + t3;
    let t1 = l1 + "\n"@ + t2;
    text::lemma_lines_cons(l4, none);
    text::lemma_lines_cons(l3, t4);
    text::lemma_lines_cons(l2, t3);
    text::lemma_lines_cons(l1, t2);
    text::lemma_lines_cons(l0, t1);
    assert(text::lines(saved.file_text()) =~= seq![l0] + (seq![l1] + (seq![l2] + (seq![l3] + (seq![
        l4,
    ] + text::lines(none))))));
    assert(text::lines(saved.file_text()) =~= Seq::new(5, |i: int| line_of(saved, i)));
}

proof fn lemma_file_value_at(lines: Seq<Seq<char>>, key: Seq<char>, n: int)
    requires
        0 <= n < lines.len(),
        forall|i: int| 0 <= i < n ==> line_value(#[trigger] lines[i], key) is None,
        line_value(lines[n], key) is Some,
    ensures
        file_value(lines, key) == line_value(lines[n], key),
    decreases n,
{
    if n > 0 {
        let rest = lines.skip(1);
        assert forall|i: int| 0 <= i < n - 1 implies line_value(
            #[trigger] rest[i],
            key,
        ) is None by {
            assert(rest[i] == lines[i + 1]);
        }
        assert(line_value(lines[0], key) is None);
        assert(rest[n - 1] == lines[n]);
        lemma_file_value_at(rest, key, n - 1);
    }
}

proof fn lemma_line_values(saved: Config, key: Seq<char>)
    requires
        storable(saved.persona@),
        storable(saved.slack_subdomain@),
        storable(saved.knowledge_path@),
    ensures
        line_value(line_of(saved, 0), key) is None,
        line_value(line_of(saved, 1), key) == if key == "persona"@ {
            Some(saved.persona@)
        } else {
            None::<Seq<char>>
        },
        line_value(line_of(saved, 2), key) == if key == "slack_subdomain"@ {
            Some(saved.slack_subdomain@)
        } else {
            None::<Seq<char>>
        },
        line_value(line_of(saved, 3), key) == if key == "knowledge_path"@ {
            Some(saved.knowledge_path@)
        } else {
            None::<Seq<char>>
        },
        line_value(line_of(saved, 4), key) == if key == "watch_interval_secs"@ {
            Some(number::decimal(saved.watch_interval_secs as nat))
        } else {
            None::<Seq<char>>
        },
{
    let digits = number::decimal(saved.watch_interval_secs as nat);
    lemma_keys();
    lemma_comment(key);
    lemma_quoted_stripped(saved.persona@);
    lemma_quoted_stripped(saved.slack_subdomain@);
    lemma_quoted_stripped(saved.knowledge_path@);
    lemma_digits_plain(saved.watch_interval_secs as nat);
    lemma_setting_read("persona"@, quoted(saved.persona@), key);
    lemma_setting_read("slack_subdomain"@, quoted(saved.slack_subdomain@), key);
    lemma_setting_read("knowledge_path"@, quoted(saved.knowledge_path@), key);
    lemma_setting_read("watch_interval_secs"@, digits, key);
    text::lemma_strip_bare(digits, Edge::Quote);
    text::lemma_strip_bare(digits, Edge::White);
}

/// What is saved is loaded again: with values that the file can hold, and where the environment
/// overrides nothing, loading the saved text gives the same settings.
pub proof fn law_saved_settings_load(saved: Config, loaded: Config, env: Overrides)
    requires
        storable(saved.persona@),
        storable(saved.slack_subdomain@),
        storable(saved.knowledge_path@),
        env.persona is None,
        env.slack_subdomain is None,
        env.knowledge_path is None,
        env.watch_interval_secs is None,
        loaded.is_loaded(saved.file_text(), env),
    ensures
        loaded.persona@ == saved.persona@,
        loaded.slack_subdomain@ == saved.slack_subdomain@,
        loaded.knowledge_path@ == saved.knowledge_path@,
        loaded.watch_interval_secs == saved.watch_interval_secs,
{
    let all = text::lines(saved.file_text());
    lemma_file_lines(saved);
    lemma_keys();
    lemma_line_values(saved, "persona"@);
    lemma_line_values(saved, "slack_subdomain"@);
    lemma_line_values(saved, "knowledge_path"@);
    lemma_line_values(saved, "watch_interval_secs"@);
    lemma_file_value_at(all, "persona"@, 1);
    lemma_file_value_at(all, "slack_subdomain"@, 2);
    lemma_file_value_at(all, "knowledge_path"@, 3);
    lemma_file_value_at(all, "watch_interval_secs"@, 4);
    lemma_digits_plain(saved.watch_interval_secs as nat);
    text::lemma_strip_bare(number::decimal(saved.watch_interval_secs as nat), Edge::White);
    number::law_number_reads_decimal(saved.watch_interval_secs);
}

// ---------------------------------------------------------------------------------------------
// What the file says, told by its lines alone
// ---------------------------------------------------------------------------------------------
spec fn all_white(s: Seq<char>) -> bool {
    forall|i: int| 0 <= i < s.len() ==> text::is_white(#[trigger] s[i])
}

proof fn lemma_line_read(
    a: Seq<char>,
    key: Seq<char>,
    b: Seq<char>,
    c: Seq<char>,
    w: Seq<char>,
    d: Seq<char>,
    other: Seq<char>,
)
    requires
        all_white(a),
        all_white(b),
        all_white(c),
        all_white(d),
        key.len() > 0,
        !key.contains('='),
        key[0] != '#',
        text::bare(key, Edge::White),
        w.len() > 0,
        text::bare(w, Edge::White),
    ensures
        line_value(a + (key + b + "="@ + c + w) + d, other) == if other == key {
            Some(text::trim(text::strip(w, Edge::Quote)))
        } else {
            None::<Seq<char>>
        },
{
    reveal_strlit("=");
    let none = Seq::<char>::empty();
    let t = key + b + "="@ + c + w;
    assert forall|i: int| 0 <= i < a.len() implies Edge::White.has(#[trigger] a[i]) by {
        assert(text::is_white(a[i]));
    }
    assert forall|i: int| 0 <= i < b.len() implies Edge::White.has(#[trigger] b[i]) by {
        assert(text::is_white(b[i]));
    }
    assert forall|i: int| 0 <= i < c.len() implies Edge::White.has(#[trigger] c[i]) by {
        assert(text::is_white(c[i]));
    }
    assert forall|i: int| 0 <= i < d.len() implies Edge::White.has(#[trigger] d[i]) by {
        assert(text::is_white(d[i]));
    }
    assert(t[0] == key[0] && t.last() == w.last());
    text::law_edges_are_stripped(a, t, d, Edge::White);
    let n = (key.len() + b.len()) as int;
    assert forall|i: int| 0 <= i < n implies t[i] != '=' by {
        if i < key.len() {
            assert(key.contains(key[i]));
        } else {
            assert(t[i] == b[i - key.len()]);
        }
    }
    assert(t[n] == '=');
    text::lemma_run_before_is(t, '=', n);
    text::law_edges_are_stripped(none, key, b, Edge::White);
    assert(t.take(n) =~= none + key + b);
    text::law_edges_are_stripped(c, w, none, Edge::White);
    assert(t.skip(n + 1) =~= c + w + none);
}

/// A line gives a key its value wherever there is white space, and with quotation marks round the
/// value as without them: what is read is the value, to the last character. To another key it
/// gives nothing.
pub proof fn law_setting_is_read(
    a: Seq<char>,
    key: Seq<char>,
    b: Seq<char>,
    c: Seq<char>,
    value: Seq<char>,
    d: Seq<char>,
    other: Seq<char>,
)
    requires
        forall|i: int| 0 <= i < a.len() ==> text::is_white(#[trigger] a[i]),
        forall|i: int| 0 <= i < b.len() ==> text::is_white(#[trigger] b[i]),
        forall|i: int| 0 <= i < c.len() ==> text::is_white(#[trigger] c[i]),
        forall|i: int| 0 <= i < d.len() ==> text::is_white(#[trigger] d[i]),
        key.len() > 0,
        !key.contains('='),
        key[0] != '#',
        !text::is_white(key[0]) && !text::is_white(key.last()),
        value.len() > 0,
        !text::is_white(value[0]) && !text::is_white(value.last()),
        value[0] != '"' && value.last() != '"',
    ensures
        line_value(a + (key + b + "="@ + c + value) + d, key) == Some(value),
        line_value(a + (key + b + "="@ + c + ("\""@ + value + "\""@)) + d, key) == Some(value),
        other != key ==> line_value(a + (key + b + "="@ + c + value) + d, other) is None,
        other != key ==> line_value(
            a + (key + b + "="@ + c + ("\""@ + value + "\""@)) + d,
            other,
        ) is None,
{
    reveal_strlit("\"");
    let quoted_value = "\""@ + value + "\""@;
    let none = Seq::<char>::empty();
    lemma_line_read(a, key, b, c, value, d, key);
    lemma_line_read(a, key, b, c, value, d, other);
    assert(quoted_value[0] == '"' && quoted_value.last() == '"');
    lemma_line_read(a, key, b, c, quoted_value, d, key);
    lemma_line_read(a, key, b, c, quoted_value, d, other);
    text::lemma_strip_bare(value, Edge::Quote);
    text::lemma_strip_bare(value, Edge::White);
    text::law_edges_are_stripped("\""@, value, "\""@, Edge::Quote);
}

/// A comment gives no key a value, and neither does a line without an equals sign. Of several lines
/// with the same key the first one counts.
pub proof fn law_first_setting_counts(
    front: Seq<Seq<char>>,
    line: Seq<char>,
    rest: Seq<Seq<char>>,
    key: Seq<char>,
)
    requires
        forall|i: int| 0 <= i < front.len() ==> line_value(#[trigger] front[i], key) is None,
    ensures
        file_value(front, key) is None,
        line_value(line, key) is Some ==> file_value(front + seq![line] + rest, key) == line_value(
            line,
            key,
        ),
        !line.contains('=') ==> line_value(line, key) is None,
        text::begins_with(text::trim(line), "#"@) ==> line_value(line, key) is None,
{
    reveal_strlit("#");
    lemma_no_value(front, key);
    if line_value(line, key) is Some {
        let all = front + seq![line] + rest;
        let n = front.len() as int;
        assert forall|i: int| 0 <= i < n implies line_value(#[trigger] all[i], key) is None by {
            assert(all[i] == front[i]);
        }
        assert(all[n] == line);
        lemma_file_value_at(all, key, n);
    }
    let t = text::trim(line);
    if text::begins_with(t, "#"@) {
        assert(t.take(1)[0] == t[0]);
    }
    if !line.contains('=') {
        let f = text::strip_front(line, Edge::White);
        text::lemma_strip_front(line, Edge::White);
        text::lemma_strip_back(f, Edge::White);
        assert forall|i: int| 0 <= i < t.len() implies t[i] != '=' by {
            assert(t[i] == f[i]);
            assert(f[i] == line[line.len() - f.len() + i]);
            assert(line.contains(line[line.len() - f.len() + i]));
        }
        text::lemma_run_before_is(t, '=', t.len() as int);
    }
}

proof fn lemma_no_value(lines: Seq<Seq<char>>, key: Seq<char>)
    requires
        forall|i: int| 0 <= i < lines.len() ==> line_value(#[trigger] lines[i], key) is None,
    ensures
        file_value(lines, key) is None,
    decreases lines.len(),
{
    if lines.len() > 0 {
        let rest = lines.skip(1);
        assert forall|i: int| 0 <= i < rest.len() implies line_value(
            #[trigger] rest[i],
            key,
        ) is None by {
            assert(rest[i] == lines[i + 1]);
        }
        assert(line_value(lines[0], key) is None);
        lemma_no_value(rest, key);
    }
}

/// Where the environment says nothing, a value that the file gives is taken unless it is empty, and
/// else the default is.
pub proof fn law_file_overrides_default(
    file: Seq<char>,
    blank: Seq<char>,
    key: Seq<char>,
    default: Seq<char>,
)
    requires
        text::trim(blank).len() == 0,
    ensures
        ({
            let said = file_value(text::lines(file), key);
            let value = if said is Some && said->0.len() > 0 {
                said->0
            } else {
                default
            };
            &&& resolved(file, None, key, default) == value
            &&& resolved(file, Some(blank), key, default) == value
        }),
{
}

/// A number of seconds is read with white space round it, and where there is no number a hundred
/// and eighty is taken.
pub proof fn law_interval_is_read(a: Seq<char>, n: u64, b: Seq<char>, s: Seq<char>)
    requires
        forall|i: int| 0 <= i < a.len() ==> text::is_white(#[trigger] a[i]),
        forall|i: int| 0 <= i < b.len() ==> text::is_white(#[trigger] b[i]),
    ensures
        interval(a + number::decimal(n as nat) + b) == n,
        number::number(text::trim(s)) is None ==> interval(s) == 180,
        number::number(text::trim(s)) is Some ==> interval(s) == number::number(text::trim(s))->0,
{
    let d = number::decimal(n as nat);
    lemma_digits_plain(n as nat);
    assert forall|i: int| 0 <= i < a.len() implies Edge::White.has(#[trigger] a[i]) by {
        assert(text::is_white(a[i]));
    }
    assert forall|i: int| 0 <= i < b.len() implies Edge::White.has(#[trigger] b[i]) by {
        assert(text::is_white(b[i]));
    }
    text::law_edges_are_stripped(a, d, b, Edge::White);
    number::law_number_reads_decimal(n);
}

/// Each setting has its key in the file, its own variable in the environment and its default.
pub proof fn law_settings_have_their_keys(c: Config, file: Seq<char>, env: Overrides)
    requires
        c.is_loaded(file, env),
    ensures
        c.persona@ == resolved(file, opt_view(env.persona), "persona"@, "安河内"@),
        c.slack_subdomain@ == resolved(
            file,
            opt_view(env.slack_subdomain),
            "slack_subdomain"@,
            "vegibushq"@,
        ),
        c.knowledge_path@ == resolved(
            file,
            opt_view(env.knowledge_path),
            "knowledge_path"@,
            "G:\\マイドライブ\\tagamiAi\\knowledge.md"@,
        ),
        c.watch_interval_secs == interval(
            resolved(file, opt_view(env.watch_interval_secs), "watch_interval_secs"@, "180"@),
        ),
{
}

/// The file holds a comment and one line for each setting, with the texts in quotation marks.
pub proof fn law_settings_are_written(c: Config)
    ensures
        c.file_text() == "# AI田上 設定（GUIから編集可）"@ + "\n"@ + ("persona"@ + " = "@ + ("\""@
            + c.persona@ + "\""@)) + "\n"@ + ("slack_subdomain"@ + " = "@ + ("\""@
            + c.slack_subdomain@ + "\""@)) + "\n"@ + ("knowledge_path"@ + " = "@ + ("\""@
            + c.knowledge_path@ + "\""@)) + "\n"@ + ("watch_interval_secs"@ + " = "@
            + number::decimal(c.watch_interval_secs as nat)) + "\n"@,
{
    assert(c.file_text() =~= "# AI田上 設定（GUIから編集可）"@ + "\n"@ + ("persona"@ + " = "@ + ("\""@
        + c.persona@ + "\""@)) + "\n"@ + ("slack_subdomain"@ + " = "@ + ("\""@
        + c.slack_subdomain@ + "\""@)) + "\n"@ + ("knowledge_path"@ + " = "@ + ("\""@
        + c.knowledge_path@ + "\""@)) + "\n"@ + ("watch_interval_secs"@ + " = "@ + number::decimal(
        c.watch_interval_secs as nat,
    )) + "\n"@);
}

/// Quotation marks at the ends of a value do not belong to it, however many there are, and neither
/// does white space, be it outside of them or inside. A key without a value has the empty one.
pub proof fn law_marks_are_taken_off(
    key: Seq<char>,
    opening: Seq<char>,
    a: Seq<char>,
    value: Seq<char>,
    b: Seq<char>,
    closing: Seq<char>,
)
    requires
        key.len() > 0,
        !key.contains('='),
        key[0] != '#',
        !text::is_white(key[0]) && !text::is_white(key.last()),
        opening.len() > 0 && closing.len() > 0,
        forall|i: int| 0 <= i < opening.len() ==> #[trigger] opening[i] == '"',
        forall|i: int| 0 <= i < closing.len() ==> #[trigger] closing[i] == '"',
        forall|i: int| 0 <= i < a.len() ==> text::is_white(#[trigger] a[i]),
        forall|i: int| 0 <= i < b.len() ==> text::is_white(#[trigger] b[i]),
        value.len() > 0,
        !text::is_white(value[0]) && !text::is_white(value.last()),
        value[0] != '"' && value.last() != '"',
    ensures
        line_value(key + " = "@ + (opening + (a + value + b) + closing), key) == Some(value),
        line_value(key + " = "@ + (opening + (a + value)), key) == Some(value),
        line_value(key + " = "@ + (value + b + closing), key) == Some(value),
        line_value(key + " ="@, key) == Some(Seq::<char>::empty()),
{
    reveal_strlit(" = ");
    reveal_strlit(" =");
    reveal_strlit("=");
    let none = Seq::<char>::empty();
    let space = seq![' '];
    let inner = a + value + b;
    let w = opening + inner + closing;
    let x = opening + (a + value);
    let y = value + b + closing;
    assert(key + " = "@ + w =~= none + (key + space + "="@ + space + w) + none);
    assert(key + " = "@ + x =~= none + (key + space + "="@ + space + x) + none);
    assert(key + " = "@ + y =~= none + (key + space + "="@ + space + y) + none);
    assert(all_white(space)) by {
        assert(text::is_white(' '));
    }
    assert(w[0] == '"' && w.last() == '"');
    assert(x[0] == '"' && x.last() == value.last());
    assert(y[0] == value[0] && y.last() == '"');
    lemma_line_read(none, key, space, space, w, none, key);
    lemma_line_read(none, key, space, space, x, none, key);
    lemma_line_read(none, key, space, space, y, none, key);
    assert forall|i: int| 0 <= i < opening.len() implies Edge::Quote.has(#[trigger] opening[i]) by {
        assert(opening[i] == '"');
    }
    assert forall|i: int| 0 <= i < closing.len() implies Edge::Quote.has(#[trigger] closing[i]) by {
        assert(closing[i] == '"');
    }
    assert forall|i: int| 0 <= i < a.len() implies Edge::White.has(#[trigger] a[i]) by {
        assert(text::is_white(a[i]));
    }
    assert forall|i: int| 0 <= i < b.len() implies Edge::White.has(#[trigger] b[i]) by {
        assert(text::is_white(b[i]));
    }
    if a.len() > 0 {
        assert(text::is_white(a[0]));
    }
    if b.len() > 0 {
        assert(text::is_white(b[b.len() - 1]));
    }
    assert(inner[0] == if a.len() > 0 { a[0] } else { value[0] });
    assert(inner.last() == if b.len() > 0 { b[b.len() - 1] } else { value.last() });
    text::law_edges_are_stripped(opening, inner, closing, Edge::Quote);
    text::law_edges_are_stripped(opening, a + value, none, Edge::Quote);
    text::law_edges_are_stripped(none, value + b, closing, Edge::Quote);
    assert(opening + (a + value) + none =~= x);
    assert(none + (value + b) + closing =~= y);
    text::law_edges_are_stripped(a, value, b, Edge::White);
    text::law_edges_are_stripped(a, value, none, Edge::White);
    text::law_edges_are_stripped(none, value, b, Edge::White);
    assert(a + value + none =~= a + value);
    assert(none + value + b =~= value + b);
    lemma_empty_value(key);
}

proof fn lemma_empty_value(key: Seq<char>)
    requires
        key.len() > 0,
        !key.contains('='),
        key[0] != '#',
        !text::is_white(key[0]) && !text::is_white(key.last()),
    ensures
        line_value(key + " ="@, key) == Some(Seq::<char>::empty()),
{
    reveal_strlit(" =");
    let none = Seq::<char>::empty();
    let t = key + " ="@;
    let n = key.len() as int + 1;
    text::lemma_strip_bare(t, Edge::White);
    assert forall|i: int| 0 <= i < n implies t[i] != '=' by {
        if i < key.len() {
            assert(key.contains(key[i]));
        }
    }
    text::lemma_run_before_is(t, '=', n);
    assert(text::is_white(' '));
    text::law_edges_are_stripped(none, key, seq![' '], Edge::White);
    assert(t.take(n) =~= none + key + seq![' ']);
    assert(t.skip(n + 1) =~= none);
    text::lemma_strip_bare(none, Edge::White);
    text::lemma_strip_bare(none, Edge::Quote);
}

} // verus!
