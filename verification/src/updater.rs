//! Updating the program from its latest release.

use vstd::prelude::*;

use crate::json;
use crate::json::{as_text, field, items, list_view, text_or_empty, Json, JsonView};
use crate::number;
use crate::text;

verus! {

/// The repository that releases the program.
pub const GITHUB_REPO: &'static str = "VegibusIT/tagamiAi";

/// The version of this program.
pub const CURRENT_VERSION: &'static str = "0.1.0";

/// The file of a release that holds the program.
pub const ASSET: &'static str = "tagami.exe";

/// The version of this program.
pub fn current_version() -> (r: &'static str)
    ensures
        r@ == CURRENT_VERSION@,
{
    CURRENT_VERSION
}

/// Where to ask for the latest release.
pub fn release_url() -> (r: String)
    ensures
        r@ == "https://api.github.com/repos/"@ + GITHUB_REPO@ + "/releases/latest"@,
{
    let mut out: String = text::copy("https://api.github.com/repos/");
    out.push_str(GITHUB_REPO);
    out.push_str("/releases/latest");
    out
}

/// What to do about the latest release.
pub enum Update {
    /// Nothing: it is this version or an older one.
    UpToDate,
    /// It is a newer version, or one that cannot be told by numbers: get it from here.
    Download { tag: String, url: String },
}

/// Why the program cannot be updated.
pub enum UpdateError {
    /// The answer is no JSON document.
    Unreadable,
    /// There is no release.
    NoRelease,
    /// The release does not hold the program.
    NoAsset { tag: String },
}

/// Where the first of these files that has the name of the program can be had.
pub open spec fn program_url(assets: Seq<JsonView>) -> Option<Seq<char>>
    decreases assets.len(),
{
    if assets.len() == 0 {
        None
    } else if as_text(field(assets[0], "name"@)) == Some(ASSET@) {
        as_text(field(assets[0], "browser_download_url"@))
    } else {
        program_url(assets.skip(1))
    }
}

/// The number that a part of a version stands for: digits alone.
pub open spec fn part_number(s: Seq<char>) -> Option<u64> {
    if s.len() > 0 && s[0] == '+' {
        None
    } else {
        number::number(s)
    }
}

/// The numbers of a version, which have a dot between each two.
pub open spec fn numbers(s: Seq<char>) -> Option<Seq<u64>>
    decreases s.len(),
{
    let n = text::run_before(s, '.') as int;
    match part_number(s.take(n)) {
        Some(x) => {
            if n >= s.len() {
                Some(seq![x])
            } else {
                match numbers(s.skip(n + 1)) {
                    Some(rest) => Some(seq![x] + rest),
                    None => None,
                }
            }
        },
        None => None,
    }
}

/// The numbers of the version that a tag names. The tag may begin with a `v`.
pub open spec fn version(tag: Seq<char>) -> Option<Seq<u64>> {
    if tag.len() > 0 && tag[0] == 'v' {
        numbers(tag.skip(1))
    } else {
        numbers(tag)
    }
}

/// The number at this place of a version, and zero behind the last one.
pub open spec fn number_at(v: Seq<u64>, i: int) -> u64 {
    if 0 <= i < v.len() {
        v[i]
    } else {
        0
    }
}

/// `a` has the larger number at this place, and the two have the same numbers before it.
pub open spec fn exceeds_at(a: Seq<u64>, b: Seq<u64>, i: int) -> bool {
    &&& 0 <= i
    &&& number_at(a, i) > number_at(b, i)
    &&& forall|j: int| 0 <= j < i ==> number_at(a, j) == number_at(b, j)
}

/// `a` is a newer version than `b`: it has the larger number where the two first differ.
pub open spec fn newer(a: Seq<u64>, b: Seq<u64>) -> bool {
    exists|i: int| exceeds_at(a, b, i)
}

/// The tag without what may follow the numbers of a version: what begins at the first `-` or `+`.
pub open spec fn release_part(tag: Seq<char>) -> Seq<char> {
    text::up_to(text::up_to(tag, '-'), '+')
}

/// The tag is that of a release to take: it names a newer version than this one or, where it does
/// not begin with the numbers of a version, it is another tag than that of this version.
pub open spec fn is_newer_tag(tag: Seq<char>) -> bool {
    match (version(release_part(tag)), version(CURRENT_VERSION@)) {
        (Some(a), Some(b)) => newer(a, b),
        _ => tag != current_tag(),
    }
}

/// Of two versions at most one is newer than the other, none is newer than itself, and what is
/// newer than a newer version is newer too.
pub proof fn law_newer_is_an_order(a: Seq<u64>, b: Seq<u64>, c: Seq<u64>)
    ensures
        !newer(a, a),
        newer(a, b) ==> !newer(b, a),
        newer(a, b) && newer(b, c) ==> newer(a, c),
{
    if newer(a, b) && newer(b, a) {
        let i = choose|i: int| exceeds_at(a, b, i);
        let j = choose|j: int| exceeds_at(b, a, j);
        assert(i < j ==> number_at(b, i) == number_at(a, i));
        assert(j < i ==> number_at(a, j) == number_at(b, j));
    }
    if newer(a, b) && newer(b, c) {
        let i = choose|i: int| exceeds_at(a, b, i);
        let j = choose|j: int| exceeds_at(b, c, j);
        let k = if i < j {
            i
        } else {
            j
        };
        assert(number_at(a, j) >= number_at(b, j) || i < j);
        assert(exceeds_at(a, c, k));
    }
}

/// The tag of this version.
pub open spec fn current_tag() -> Seq<char> {
    "v"@ + CURRENT_VERSION@
}

/// The outcome is the one that the release leads to: an error where it has no tag, nothing where
/// it is not one to take, and otherwise a download, or an error where it does not hold the
/// program.
pub open spec fn is_plan(r: Result<Update, UpdateError>, release: JsonView) -> bool {
    let tag = text_or_empty(release, "tag_name"@);
    if tag.len() == 0 {
        r == Err::<Update, UpdateError>(UpdateError::NoRelease)
    } else if !is_newer_tag(tag) {
        r == Ok::<Update, UpdateError>(Update::UpToDate)
    } else {
        match program_url(items(field(release, "assets"@))) {
            Some(u) => r matches Ok(Update::Download { tag: t, url }) && t@ == tag && url@ == u,
            None => r matches Err(UpdateError::NoAsset { tag: t }) && t@ == tag,
        }
    }
}

spec fn prepended(front: Seq<u64>, rest: Option<Seq<u64>>) -> Option<Seq<u64>> {
    match rest {
        Some(s) => Some(front + s),
        None => None,
    }
}

fn read_numbers(cs: &Vec<char>, from: usize) -> (r: Option<Vec<u64>>)
    requires
        from <= cs.len(),
    ensures
        match r {
            Some(v) => numbers(cs@.skip(from as int)) == Some(v@),
            None => numbers(cs@.skip(from as int)) is None,
        },
{
    let mut out: Vec<u64> = Vec::new();
    let mut i: usize = from;
    let ghost all = cs@.skip(from as int);
    proof {
        if numbers(all) is Some {
            assert(Seq::<u64>::empty() + numbers(all)->0 =~= numbers(all)->0);
        }
    }
    loop
        invariant
            from <= i <= cs.len(),
            all == cs@.skip(from as int),
            numbers(all) == prepended(out@, numbers(cs@.skip(i as int))),
        decreases cs.len() - i,
    {
        let end: usize = text::run_from(cs, i, '.');
        let head: Vec<char> = text::part(cs, i, end);
        let ghost rest = cs@.skip(i as int);
        let ghost before = out@;
        assert(head@ =~= rest.take(end - i));
        if head.len() > 0 && head[0] == '+' {
            return None;
        }
        match number::parse_number(&head) {
            Some(x) => {
                out.push(x);
                if end == cs.len() {
                    assert(out@ =~= before + seq![x]);
                    return Some(out);
                }
                proof {
                    assert(rest.skip(end - i + 1) =~= cs@.skip(end + 1));
                    if numbers(cs@.skip(end + 1)) is Some {
                        let tail = numbers(cs@.skip(end + 1))->0;
                        assert(before + (seq![x] + tail) =~= out@ + tail);
                    }
                }
                i = end + 1;
            },
            None => {
                return None;
            },
        }
    }
}

fn read_version(tag: &Vec<char>) -> (r: Option<Vec<u64>>)
    ensures
        match r {
            Some(v) => version(tag@) == Some(v@),
            None => version(tag@) is None,
        },
{
    assert(tag@.skip(0) =~= tag@);
    if tag.len() > 0 && tag[0] == 'v' {
        read_numbers(tag, 1)
    } else {
        read_numbers(tag, 0)
    }
}

fn number_of(v: &Vec<u64>, i: usize) -> (r: u64)
    ensures
        r == number_at(v@, i as int),
{
    if i < v.len() {
        v[i]
    } else {
        0
    }
}

fn exceeds(a: &Vec<u64>, b: &Vec<u64>) -> (r: bool)
    ensures
        r == newer(a@, b@),
{
    let mut i: usize = 0;
    while i < a.len()
        invariant
            i <= a.len(),
            forall|j: int| 0 <= j < i ==> number_at(a@, j) == number_at(b@, j),
        decreases a.len() - i,
    {
        let x: u64 = number_of(a, i);
        let y: u64 = number_of(b, i);
        if x > y {
            assert(exceeds_at(a@, b@, i as int));
            return true;
        }
        if x < y {
            proof {
                if newer(a@, b@) {
                    let k = choose|k: int| exceeds_at(a@, b@, k);
                    assert(k < i ==> number_at(a@, k) == number_at(b@, k));
                    assert(i < k ==> number_at(a@, i as int) == number_at(b@, i as int));
                }
            }
            return false;
        }
        i = i + 1;
    }
    proof {
        if newer(a@, b@) {
            let k = choose|k: int| exceeds_at(a@, b@, k);
            assert(k < i ==> number_at(a@, k) == number_at(b@, k));
        }
    }
    false
}

fn find_program(release: &Json) -> (r: Option<String>)
    ensures
        json::opt_view(r) == program_url(items(field(release@, "assets"@))),
{
    match release.list_at("assets") {
        Some(list) => {
            let ghost all = list_view(list@);
            let mut i: usize = 0;
            assert(all.skip(0) =~= all);
            while i < list.len()
                invariant
                    i <= list@.len(),
                    all == list_view(list@),
                    all == items(field(release@, "assets"@)),
                    program_url(all.skip(i as int)) == program_url(all),
                decreases list@.len() - i,
            {
                proof {
                    assert(all.skip(i as int)[0] == list@[i as int]@);
                    assert(all.skip(i as int).skip(1) =~= all.skip(i + 1));
                }
                let named: bool = match list[i].text_at("name") {
                    Some(n) => text::same_text(n.as_str(), ASSET),
                    None => false,
                };
                if named {
                    return list[i].text_at("browser_download_url");
                }
                i = i + 1;
            }
            None
        },
        None => None,
    }
}

/// What to do about the latest release.
pub fn update_if_newer(release: &Json) -> (r: Result<Update, UpdateError>)
    ensures
        is_plan(r, release@),
{
    let tag: String = release.text_or_empty_at("tag_name");
    if tag.as_str().is_empty() {
        return Err(UpdateError::NoRelease);
    }
    let base: Vec<char> = text::up_to_char(&text::to_chars(tag.as_str()), '-');
    let numbered: Vec<char> = text::up_to_char(&base, '+');
    let current: Vec<char> = text::to_chars(CURRENT_VERSION);
    let fresh: bool = match (read_version(&numbered), read_version(&current)) {
        (Some(a), Some(b)) => exceeds(&a, &b),
        _ => !text::same_text(tag.as_str(), text::concat("v", CURRENT_VERSION).as_str()),
    };
    if !fresh {
        return Ok(Update::UpToDate);
    }
    match find_program(release) {
        Some(url) => Ok(Update::Download { tag, url }),
        None => Err(UpdateError::NoAsset { tag }),
    }
}

/// What to do about the latest release, given the answer as it came.
pub fn read_release(body: &str) -> (r: Result<Update, UpdateError>)
    ensures
        match json::json_text(body@) {
            Some(j) => is_plan(r, j),
            None => r == Err::<Update, UpdateError>(UpdateError::Unreadable),
        },
{
    match json::parse_json(body) {
        Some(j) => update_if_newer(&j),
        None => Err(UpdateError::Unreadable),
    }
}

/// The numbers of this version.
pub open spec fn current_numbers() -> Seq<u64> {
    seq![0, 1, 0]
}

proof fn lemma_current_version()
    ensures
        version(CURRENT_VERSION@) == Some(current_numbers()),
        release_part(CURRENT_VERSION@) == CURRENT_VERSION@,
        version(release_part(current_tag())) == Some(current_numbers()),
{
    reveal_strlit("v");
    reveal_strlit("0.1.0");
    let s = CURRENT_VERSION@;
    let tag = current_tag();
    text::lemma_run_before_is(s, '-', 5);
    text::lemma_run_before_is(s, '+', 5);
    text::lemma_run_before_is(tag, '-', 6);
    text::lemma_run_before_is(tag, '+', 6);
    assert(s.take(5) =~= s);
    assert(tag.take(6) =~= tag);
    assert(tag.skip(1) =~= s);
    text::lemma_run_before_is(s, '.', 1);
    text::lemma_run_before_is(s.skip(2), '.', 1);
    text::lemma_run_before_is(s.skip(4), '.', 1);
    assert(s.skip(2).skip(2) =~= s.skip(4));
    reveal_with_fuel(number::value_of, 2);
    assert(part_number(s.take(1)) == Some(0u64));
    assert(part_number(s.skip(2).take(1)) == Some(1u64));
    assert(part_number(s.skip(4).take(1)) == Some(0u64));
    assert(numbers(s.skip(4)) == Some(seq![0u64]));
    assert(numbers(s.skip(2)) == Some(seq![1u64] + seq![0u64]));
    assert(numbers(s) == Some(seq![0u64] + (seq![1u64] + seq![0u64])));
    assert(seq![0u64] + (seq![1u64] + seq![0u64]) =~= current_numbers());
}

/// A program is never replaced by an older version or by itself: what is downloaded has another
/// tag than this version and, where its tag begins with the numbers of a version, that version is
/// newer. The release of this version, with the `v` or without it, leads to nothing. A release
/// whose tag names no version is never taken for this one: it is downloaded, or there is an error
/// where it does not hold the program.
pub proof fn law_no_older_version_is_downloaded(
    r: Result<Update, UpdateError>,
    release: JsonView,
)
    requires
        is_plan(r, release),
    ensures
        r matches Ok(Update::Download { tag, url }) ==> {
            &&& tag@ != current_tag()
            &&& tag@ != CURRENT_VERSION@
            &&& version(release_part(tag@)) matches Some(v) ==> newer(v, current_numbers())
        },
        text_or_empty(release, "tag_name"@) == current_tag() ==> r
            == Ok::<Update, UpdateError>(Update::UpToDate),
        text_or_empty(release, "tag_name"@) == CURRENT_VERSION@ ==> r
            == Ok::<Update, UpdateError>(Update::UpToDate),
        version(release_part(text_or_empty(release, "tag_name"@))) is None ==> r is Err
            || r->Ok_0 is Download,
{
    lemma_current_version();
    reveal_strlit("0.1.0");
    let v = current_numbers();
    law_newer_is_an_order(v, v, v);
}

impl UpdateError {
    /// What to tell about it.
    pub open spec fn says(self) -> Seq<char> {
        match self {
            UpdateError::Unreadable => "リリース情報を読み取れませんでした"@,
            UpdateError::NoRelease => "GitHubにリリースが見つかりません（"@ + GITHUB_REPO@
                + "）。先に v タグでリリースしてください。"@,
            UpdateError::NoAsset { tag } => "リリース "@ + tag@ + " に "@ + ASSET@
                + " が見つかりません"@,
        }
    }

    /// What to tell about it.
    pub fn message(&self) -> (r: String)
        ensures
            r@ == self.says(),
    {
        match self {
            UpdateError::Unreadable => text::copy("リリース情報を読み取れませんでした"),
            UpdateError::NoRelease => {
                let mut out: String = text::copy("GitHubにリリースが見つかりません（");
                out.push_str(GITHUB_REPO);
                out.push_str("）。先に v タグでリリースしてください。");
                out
            },
            UpdateError::NoAsset { tag } => {
                let mut out: String = text::copy("リリース ");
                out.push_str(tag.as_str());
                out.push_str(" に ");
                out.push_str(ASSET);
                out.push_str(" が見つかりません");
                out
            },
        }
    }
}

/// What to tell where there is nothing to update.
pub fn up_to_date_message() -> (r: String)
    ensures
        r@ == "最新版です（v"@ + CURRENT_VERSION@ + "）。"@,
{
    let mut out: String = text::copy("最新版です（v");
    out.push_str(CURRENT_VERSION);
    out.push_str("）。");
    out
}

/// What to tell before a download.
pub fn download_message(tag: &str) -> (r: String)
    ensures
        r@ == "新バージョン "@ + tag@ + " を取得します（現在 "@ + current_tag() + "）…"@,
{
    let current: String = text::concat("v", CURRENT_VERSION);
    let mut out: String = text::copy("新バージョン ");
    out.push_str(tag);
    out.push_str(" を取得します（現在 ");
    out.push_str(current.as_str());
    out.push_str("）…");
    out
}

// ---------------------------------------------------------------------------------------------
// Which release is taken, told by its tag and its files alone
// ---------------------------------------------------------------------------------------------
/// A version is read number by number, with a dot between each two and a `v` before them or not. It
/// is none where one of the parts is no row of digits.
pub proof fn law_version_is_read(part: Seq<char>, rest: Seq<char>)
    requires
        !part.contains('.'),
    ensures
        numbers(part) == if number::number(part) is Some && part[0] != '+' {
            Some(seq![number::number(part)->0])
        } else {
            None
        },
        numbers(part + "."@ + rest) == if number::number(part) is Some && part[0] != '+' && numbers(
            rest,
        ) is Some {
            Some(seq![number::number(part)->0] + numbers(rest)->0)
        } else {
            None
        },
        version("v"@ + rest) == numbers(rest),
        part.len() > 0 && part[0] != 'v' ==> version(part + "."@ + rest) == numbers(
            part + "."@ + rest,
        ) && version(part) == numbers(part),
{
    reveal_strlit(".");
    reveal_strlit("v");
    let s = part + "."@ + rest;
    let n = part.len() as int;
    assert forall|i: int| 0 <= i < n implies part[i] != '.' && s[i] != '.' by {
        assert(part.contains(part[i]));
    }
    text::lemma_run_before_is(part, '.', n);
    text::lemma_run_before_is(s, '.', n);
    assert(part.take(n) =~= part);
    assert(s.take(n) =~= part);
    assert(s.skip(n + 1) =~= rest);
    assert(("v"@ + rest).skip(1) =~= rest);
    if n > 0 {
        assert(s[0] == part[0]);
    } else {
        assert(number::number(part) is None);
    }
}

/// The first number in which two versions differ decides which one is newer, whatever follows it.
/// Numbers that are missing count as zero.
pub proof fn law_first_number_decides(
    front: Seq<u64>,
    a: u64,
    s: Seq<u64>,
    b: u64,
    t: Seq<u64>,
)
    ensures
        a > b ==> newer(front + seq![a] + s, front + seq![b] + t),
        a < b ==> !newer(front + seq![a] + s, front + seq![b] + t),
        a > 0 ==> newer(front + seq![a] + s, front),
        !newer(front, front + seq![b] + t),
        newer(s.push(0), t) == newer(s, t),
        newer(s, t.push(0)) == newer(s, t),
{
    let n = front.len() as int;
    let x = front + seq![a] + s;
    let y = front + seq![b] + t;
    assert forall|j: int| 0 <= j < n implies number_at(x, j) == number_at(y, j) && number_at(x, j)
        == number_at(front, j) && number_at(y, j) == number_at(front, j) by {}
    assert(number_at(x, n) == a && number_at(y, n) == b && number_at(front, n) == 0);
    if a > b {
        assert(exceeds_at(x, y, n));
    }
    if a > 0 {
        assert(exceeds_at(x, front, n));
    }
    if a < b && newer(x, y) {
        let k = choose|k: int| exceeds_at(x, y, k);
        assert(k < n ==> number_at(x, k) == number_at(y, k));
        assert(k > n ==> number_at(x, n) == number_at(y, n));
    }
    if newer(front, y) {
        let k = choose|k: int| exceeds_at(front, y, k);
        assert(k < n ==> number_at(front, k) == number_at(y, k));
    }
    assert forall|j: int| number_at(s.push(0), j) == number_at(s, j) by {}
    assert forall|j: int| number_at(t.push(0), j) == number_at(t, j) by {}
    if newer(s, t) {
        let k = choose|k: int| exceeds_at(s, t, k);
        assert(exceeds_at(s.push(0), t, k));
        assert(exceeds_at(s, t.push(0), k));
    }
    if newer(s.push(0), t) {
        let k = choose|k: int| exceeds_at(s.push(0), t, k);
        assert(exceeds_at(s, t, k));
    }
    if newer(s, t.push(0)) {
        let k = choose|k: int| exceeds_at(s, t.push(0), k);
        assert(exceeds_at(s, t, k));
    }
}

/// What follows the first hyphen or plus sign of a tag does not count. A tag that begins with
/// numbers is one to take just where these are newer than 0.1.0, and any other one just where it is
/// not the tag of this version.
pub proof fn law_tag_is_judged_by_its_numbers(tag: Seq<char>, extra: Seq<char>)
    ensures
        !tag.contains('-') && !tag.contains('+') ==> release_part(tag) == tag && release_part(
            tag + "-"@ + extra,
        ) == tag && release_part(tag + "+"@ + extra) == tag,
        version(release_part(tag)) is Some ==> is_newer_tag(tag) == newer(
            version(release_part(tag))->0,
            seq![0, 1, 0],
        ),
        version(release_part(tag)) is None ==> is_newer_tag(tag) == (tag != "v0.1.0"@),
{
    lemma_current_version();
    reveal_strlit("v");
    reveal_strlit("0.1.0");
    reveal_strlit("v0.1.0");
    reveal_strlit("-");
    reveal_strlit("+");
    assert("v"@ + "0.1.0"@ =~= "v0.1.0"@);
    if !tag.contains('-') && !tag.contains('+') {
        text::law_text_is_cut(tag, '-', extra);
        text::law_text_is_cut(tag, '+', extra);
        assert("-"@ =~= seq!['-']);
        assert("+"@ =~= seq!['+']);
        let s = tag + "+"@ + extra;
        let u = text::up_to(s, '-');
        text::lemma_run_before(s, '-');
        let n = tag.len() as int;
        assert forall|i: int| 0 <= i < n implies s[i] != '-' && s[i] != '+' by {
            assert(tag.contains(tag[i]));
        }
        assert(s[n] == '+');
        let m = text::run_before(s, '-') as int;
        assert(m > n) by {
            if m < s.len() {
                assert(s[m] == '-');
            }
        }
        assert forall|i: int| 0 <= i < n implies u[i] != '+' by {
            assert(u[i] == s[i]);
        }
        assert(u[n] == '+');
        text::lemma_run_before_is(u, '+', n);
        assert(u.take(n) =~= tag);
    }
}

/// The program is got from the first file of the release that has its name, whatever other files
/// there are, and from nowhere where no file has it.
pub proof fn law_program_is_found(
    front: Seq<JsonView>,
    asset: JsonView,
    rest: Seq<JsonView>,
)
    requires
        forall|i: int|
            0 <= i < front.len() ==> field(#[trigger] front[i], "name"@) != JsonView::Text(
                "tagami.exe"@,
            ),
    ensures
        program_url(front) is None,
        field(asset, "name"@) == JsonView::Text("tagami.exe"@) ==> program_url(
            front + seq![asset] + rest,
        ) == as_text(field(asset, "browser_download_url"@)),
    decreases front.len(),
{
    let all = front + seq![asset] + rest;
    if front.len() > 0 {
        let f = front.skip(1);
        assert forall|i: int| 0 <= i < f.len() implies field(#[trigger] f[i], "name"@)
            != JsonView::Text("tagami.exe"@) by {
            assert(f[i] == front[i + 1]);
        }
        law_program_is_found(f, asset, rest);
        assert(all[0] == front[0]);
        assert(field(front[0], "name"@) != JsonView::Text("tagami.exe"@));
        assert(all.skip(1) =~= f + seq![asset] + rest);
    } else {
        assert(all[0] == asset);
    }
}

/// A release without a tag is an error. One with a tag to take is downloaded from where its program
/// is, under that tag, or is an error that names the tag. All others lead to nothing.
pub proof fn law_release_is_followed(r: Result<Update, UpdateError>, release: JsonView)
    requires
        is_plan(r, release),
    ensures
        ({
            let tag = text_or_empty(release, "tag_name"@);
            let url = program_url(items(field(release, "assets"@)));
            &&& tag.len() == 0 <==> (r is Err && r->Err_0 is NoRelease)
            &&& (tag.len() > 0 && !is_newer_tag(tag)) <==> (r is Ok && r->Ok_0 is UpToDate)
            &&& tag.len() > 0 && is_newer_tag(tag) && url is Some ==> {
                r matches Ok(Update::Download { tag: t, url: u }) && t@ == tag && Some(u@) == url
            }
            &&& tag.len() > 0 && is_newer_tag(tag) && url is None ==> {
                r matches Err(UpdateError::NoAsset { tag: t }) && t@ == tag
            }
        }),
        (UpdateError::NoRelease).says()
            == "GitHubにリリースが見つかりません（"@ + "VegibusIT/tagamiAi"@
            + "）。先に v タグでリリースしてください。"@,
        (UpdateError::Unreadable).says() == "リリース情報を読み取れませんでした"@,
{
}

/// An error about a missing program names the release and the program.
pub proof fn law_missing_program_is_named(tag: String)
    ensures
        (UpdateError::NoAsset { tag }).says() == "リリース "@ + tag@ + " に "@ + "tagami.exe"@
            + " が見つかりません"@,
{
}

} // verus!
