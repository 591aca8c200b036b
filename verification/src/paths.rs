//! Where the files of the program lie.

use vstd::prelude::*;

use crate::json::opt_view;
use crate::text;

verus! {

/// A name that is a single, plain component of a path.
pub open spec fn is_component(name: Seq<char>) -> bool {
    &&& name.len() > 0
    &&& name[0] != '.'
    &&& !name.contains('/')
    &&& !name.contains('\\')
    &&& !name.contains(':')
}

/// A folder whose path Windows would normalise before something is added to it.
pub open spec fn is_verbatim(dir: Seq<char>) -> bool {
    text::begins_with(dir, "\\\\?\\"@)
}

/// A slash or a backslash.
pub open spec fn is_separator(c: char) -> bool {
    c == '/' || c == '\\'
}

/// `path` is `name` inside `dir`: the folder, a separator where one is needed, and the name. None
/// is needed behind an empty folder, and none may stand behind a slash. Behind a backslash or a
/// colon there may be one. Of a verbatim folder only the end is sure: a separator and the name.
pub open spec fn is_inside(dir: Seq<char>, name: Seq<char>, path: Seq<char>) -> bool {
    if is_verbatim(dir) {
        &&& name.len() < path.len()
        &&& path.skip(path.len() - name.len()) == name
        &&& is_separator(path[path.len() - name.len() - 1])
    } else {
        ||| {
            &&& dir.len() == 0 || is_separator(dir.last()) || dir.last() == ':'
            &&& path == dir + name
        }
        ||| {
            &&& dir.len() > 0 && dir.last() != '/'
            &&& path == dir + "/"@ + name || path == dir + "\\"@ + name
        }
    }
}

/// `std::path::Path::join`, for a plain name: the name is adjoined to the folder, behind a
/// separator unless the folder is empty, ends in a separator or is a drive. Which separator it is,
/// and whether a backslash or a colon at the end of the folder needs one behind it, is a matter of
/// the platform and left unsaid, as is how the path of a verbatim folder is normalised.
#[verifier::external_body]
pub(crate) fn path_join(dir: &str, name: &str) -> (r: String)
    requires
        is_component(name@),
    ensures
        is_inside(dir@, name@, r@),
{
    std::path::Path::new(dir).join(name).to_string_lossy().into_owned()
}

/// `file` is written as a folder, this separator and a plain name, and the folder ends in a plain
/// character and names no network share.
pub open spec fn is_split(file: Seq<char>, dir: Seq<char>, sep: char, name: Seq<char>) -> bool {
    &&& file == dir + seq![sep] + name
    &&& is_component(name)
    &&& dir.len() > 0
    &&& !is_separator(dir.last())
    &&& dir.last() != ':'
    &&& dir.last() != '.'
    &&& !(dir.len() > 1 && is_separator(dir[0]) && is_separator(dir[1]))
}

/// `parent` can be the folder of the file: a beginning of its path, the empty one where the path
/// has one component only, what stands before the last slash where one separates the name, and
/// none where the path is empty. Where all separators are backslashes it is what stands before the
/// last one, or the empty folder on a platform where they separate nothing.
pub open spec fn may_hold(parent: Option<Seq<char>>, file: Seq<char>) -> bool {
    &&& file.len() == 0 ==> parent is None
    &&& parent matches Some(p) ==> p.len() < file.len() && text::begins_with(file, p)
    &&& file.len() > 0 && !file.contains('/') && !file.contains('\\') && !file.contains(':')
        ==> parent == Some(Seq::<char>::empty())
    &&& forall|dir: Seq<char>, name: Seq<char>| #[trigger]
        is_split(file, dir, '/', name) ==> parent == Some(dir)
    &&& forall|dir: Seq<char>, name: Seq<char>| #[trigger]
        is_split(file, dir, '\\', name) && !dir.contains('/') ==> parent == Some(dir) || parent
            == Some(Seq::<char>::empty())
}

/// `std::path::Path::parent`: the path without its final component, if there is one. It is a
/// beginning of the path, empty where the path has one component, and what stands before the
/// separator where one separates a plain name. Whether a backslash separates components, and what
/// a colon does, is a matter of the platform and left unsaid.
#[verifier::external_body]
fn path_parent(path: &str) -> (r: Option<String>)
    ensures
        may_hold(opt_view(r), path@),
{
    std::path::Path::new(path).parent().map(|p| p.to_string_lossy().into_owned())
}

/// `dir` is the folder `name` beside a file whose own folder is `parent`, and just that name
/// where the file is in no folder.
pub open spec fn is_beside(parent: Option<Seq<char>>, name: Seq<char>, dir: Seq<char>) -> bool {
    match parent {
        Some(p) => is_inside(p, name, dir),
        None => dir == name,
    }
}

/// The folder `name` inside `parent`, and just that name where there is no such folder.
pub fn folder_in(parent: &Option<String>, name: &str) -> (r: String)
    requires
        is_component(name@),
    ensures
        is_beside(opt_view(*parent), name@, r@),
{
    match parent {
        Some(p) => path_join(p.as_str(), name),
        None => text::copy(name),
    }
}

/// `front` is what stands before the name of a folder that is beside a file whose own folder is
/// `parent`, whatever the name is.
pub open spec fn is_front(parent: Option<Seq<char>>, front: Seq<char>) -> bool {
    forall|name: Seq<char>|
        is_component(name) ==> #[trigger] is_beside(parent, name, front + name)
}

proof fn lemma_front(parent: Option<Seq<char>>, name: Seq<char>, dir: Seq<char>)
    requires
        is_component(name),
        is_beside(parent, name, dir),
    ensures
        name.len() <= dir.len(),
        is_front(parent, dir.take(dir.len() - name.len())),
{
    reveal_strlit("/");
    reveal_strlit("\\");
    let front = dir.take(dir.len() - name.len());
    assert forall|other: Seq<char>| is_component(other) implies #[trigger] is_beside(
        parent,
        other,
        front + other,
    ) by {
        let path = front + other;
        match parent {
            None => {
                assert(path =~= other);
            },
            Some(p) => {
                if is_verbatim(p) {
                    assert(path.skip(path.len() - other.len()) =~= other);
                    assert(path[path.len() - other.len() - 1] == dir[dir.len() - name.len() - 1]);
                } else if dir.len() == p.len() + name.len() {
                    assert(dir == p + name);
                    assert(front =~= p);
                } else if dir == p + "/"@ + name {
                    assert(front =~= p + "/"@);
                } else {
                    assert(front =~= p + "\\"@);
                }
            },
        }
    }
}

/// Where the knowledge base lies.
pub struct KnowledgeBase {
    /// The path of its file.
    pub path: String,
    /// The folder that the file is in, where its path has one.
    pub folder: Option<String>,
    /// What stands before the name of a folder that is next to the file.
    pub front: String,
}

impl KnowledgeBase {
    /// The folder is one that can hold the file, and the names of folders next to the file are
    /// joined to it.
    pub open spec fn valid(self) -> bool {
        may_hold(opt_view(self.folder), self.path@) && is_front(
            opt_view(self.folder),
            self.front@,
        )
    }

    /// The folder with this name next to the knowledge base.
    pub open spec fn beside(self, name: Seq<char>) -> Seq<char> {
        self.front@ + name
    }

    /// The knowledge base whose file has this path.
    pub fn at(knowledge_path: &str) -> (r: KnowledgeBase)
        ensures
            r.valid(),
            r.path@ == knowledge_path@,
    {
        let folder: Option<String> = path_parent(knowledge_path);
        proof {
            reveal_strlit("activity");
        }
        let dir: String = folder_in(&folder, "activity");
        let cs: Vec<char> = text::to_chars(dir.as_str());
        proof {
            lemma_front(opt_view(folder), "activity"@, dir@);
        }
        let front: Vec<char> = text::part(&cs, 0, cs.len() - 8);
        assert(front@ =~= dir@.take(dir@.len() - 8));
        KnowledgeBase { path: text::copy(knowledge_path), folder, front: text::to_text(&front) }
    }
}

/// The folder of the daily activity logs: next to the knowledge base.
pub fn activity_log_dir(knowledge: &KnowledgeBase) -> (r: String)
    ensures
        r@ == knowledge.beside("activity"@),
{
    text::concat(knowledge.front.as_str(), "activity")
}

/// The folder of the reports that are shared: next to the knowledge base.
pub fn reports_dir(knowledge: &KnowledgeBase) -> (r: String)
    ensures
        r@ == knowledge.beside("レポート"@),
{
    text::concat(knowledge.front.as_str(), "レポート")
}

/// The folder of the diagnostic logs: next to the knowledge base.
pub fn logs_dir(knowledge: &KnowledgeBase) -> (r: String)
    ensures
        r@ == knowledge.beside("logs"@),
{
    text::concat(knowledge.front.as_str(), "logs")
}

/// What stands behind the last separator of a path, and behind a drive.
pub open spec fn last_name(path: Seq<char>) -> Seq<char> {
    text::behind_last(text::behind_last(text::behind_last(path, '/'), '\\'), ':')
}

/// Where the end of a text has no `c` in it, the last one is found in what stands before it.
proof fn lemma_behind_last(a: Seq<char>, b: Seq<char>, c: char)
    requires
        !b.contains(c),
    ensures
        text::behind_last(a + b, c) == text::behind_last(a, c) + b,
    decreases b.len(),
{
    if b.len() == 0 {
        assert(a + b =~= a);
        assert(text::behind_last(a, c) + b =~= text::behind_last(a, c));
    } else {
        let d = b.drop_last();
        assert forall|i: int| 0 <= i < d.len() implies d[i] != c by {
            assert(d[i] == b[i]);
            assert(b.contains(b[i]));
        }
        lemma_behind_last(a, d, c);
        assert(b[b.len() - 1] != c);
        assert((a + b).last() == b.last());
        assert((a + b).drop_last() =~= a + d);
        assert((text::behind_last(a, c) + d).push(b.last()) =~= text::behind_last(a, c) + b);
    }
}

proof fn lemma_last_name(front: Seq<char>, name: Seq<char>)
    requires
        is_component(name),
        front.len() == 0 || is_separator(front.last()) || front.last() == ':',
    ensures
        last_name(front + name) == name,
{
    let a = text::behind_last(front, '/');
    let b = text::behind_last(a, '\\');
    let c = text::behind_last(b, ':');
    lemma_behind_last(front, name, '/');
    lemma_behind_last(a, name, '\\');
    lemma_behind_last(b, name, ':');
    if front.len() > 0 && front.last() != '/' {
        assert(a.last() == front.last());
        if front.last() != '\\' {
            assert(b.last() == front.last());
        }
    }
    assert(c =~= Seq::<char>::empty());
    assert(c + name =~= name);
}

proof fn lemma_inside_name(dir: Seq<char>, name: Seq<char>, path: Seq<char>)
    requires
        is_component(name),
        is_inside(dir, name, path),
    ensures
        last_name(path) == name,
{
    reveal_strlit("/");
    reveal_strlit("\\");
    let front = path.take(path.len() - name.len());
    if is_verbatim(dir) {
        assert(path =~= front + name);
        assert(front.last() == path[path.len() - name.len() - 1]);
    } else if path == dir + name {
        assert(front =~= dir);
        if !(dir.len() == 0 || is_separator(dir.last()) || dir.last() == ':') {
            assert(path.len() == (dir + "/"@ + name).len());
        }
    } else if path == dir + "/"@ + name {
        assert(front =~= dir + "/"@);
        assert(path =~= front + name);
    } else {
        assert(front =~= dir + "\\"@);
        assert(path =~= front + name);
    }
    lemma_last_name(front, name);
}

proof fn lemma_not_beginning(front: Seq<char>, name: Seq<char>, other: Seq<char>)
    requires
        name.len() > 0,
        other.len() > 0,
        name[0] != other[0],
    ensures
        !text::begins_with(front + name, front + other),
        front + name != front + other,
{
    let a = front + name;
    let b = front + other;
    let n = front.len() as int;
    assert(a[n] == name[0] && b[n] == other[0]);
    if text::begins_with(a, b) {
        assert(a.take(b.len() as int)[n] == a[n]);
    }
}

/// The activity logs, the shared reports and the diagnostic logs of one knowledge base have their
/// own folders beside it, in the one folder that it is in: what stands before their names is the
/// same for all three, each has its own last name, no two are the same, and none lies inside
/// another, nor does the path of one begin with that of another. So to share the reports shares no
/// log.
pub proof fn law_folders_are_apart(knowledge: KnowledgeBase)
    requires
        knowledge.valid(),
    ensures
        ({
            let folder = opt_view(knowledge.folder);
            let activity = knowledge.beside("activity"@);
            let reports = knowledge.beside("レポート"@);
            let logs = knowledge.beside("logs"@);
            &&& is_beside(folder, "activity"@, activity)
            &&& is_beside(folder, "レポート"@, reports)
            &&& is_beside(folder, "logs"@, logs)
            &&& last_name(activity) == "activity"@
            &&& last_name(reports) == "レポート"@
            &&& last_name(logs) == "logs"@
            &&& activity != reports
            &&& reports != logs
            &&& logs != activity
            &&& !text::begins_with(activity, reports)
            &&& !text::begins_with(activity, logs)
            &&& !text::begins_with(reports, activity)
            &&& !text::begins_with(reports, logs)
            &&& !text::begins_with(logs, activity)
            &&& !text::begins_with(logs, reports)
        }),
{
    reveal_strlit("activity");
    reveal_strlit("レポート");
    reveal_strlit("logs");
    let a = "activity"@;
    let r = "レポート"@;
    let l = "logs"@;
    let front = knowledge.front@;
    assert(a[0] == 'a' && r[0] == 'レ' && l[0] == 'l');
    lemma_beside_name(knowledge, a);
    lemma_beside_name(knowledge, r);
    lemma_beside_name(knowledge, l);
    lemma_not_beginning(front, a, r);
    lemma_not_beginning(front, a, l);
    lemma_not_beginning(front, r, a);
    lemma_not_beginning(front, r, l);
    lemma_not_beginning(front, l, a);
    lemma_not_beginning(front, l, r);
}

proof fn lemma_beside_name(knowledge: KnowledgeBase, name: Seq<char>)
    requires
        knowledge.valid(),
        is_component(name),
    ensures
        is_beside(opt_view(knowledge.folder), name, knowledge.beside(name)),
        last_name(knowledge.beside(name)) == name,
{
    let dir = knowledge.beside(name);
    assert(is_beside(opt_view(knowledge.folder), name, knowledge.front@ + name));
    match opt_view(knowledge.folder) {
        Some(p) => {
            lemma_inside_name(p, name, dir);
        },
        None => {
            assert(Seq::<char>::empty() + name =~= name);
            lemma_last_name(Seq::empty(), name);
        },
    }
}

/// A folder next to a knowledge base whose path is written as a folder, a slash and a name is in
/// that folder, with a separator between them. Where the path is a bare name, or empty, it is just
/// the name of the folder.
pub proof fn law_folder_of_a_path(
    knowledge: KnowledgeBase,
    dir: Seq<char>,
    file: Seq<char>,
    name: Seq<char>,
)
    requires
        knowledge.valid(),
        is_component(name),
    ensures
        is_split(knowledge.path@, dir, '/', file) ==> knowledge.beside(name) == dir + "/"@ + name
            || knowledge.beside(name) == dir + "\\"@ + name,
        !knowledge.path@.contains('/') && !knowledge.path@.contains('\\')
            && !knowledge.path@.contains(':') ==> knowledge.beside(name) == name,
{
    lemma_beside_name(knowledge, name);
    reveal_strlit("\\\\?\\");
    if is_split(knowledge.path@, dir, '/', file) {
        if is_verbatim(dir) {
            assert(dir.take(4)[0] == dir[0]);
            assert(dir.take(4)[1] == dir[1]);
        }
    }
    assert(Seq::<char>::empty() + name =~= name);
}

/// `path` is reached from `base` by entering the folder and then the file.
pub open spec fn is_two_inside(
    base: Seq<char>,
    folder: Seq<char>,
    name: Seq<char>,
    path: Seq<char>,
) -> bool {
    exists|dir: Seq<char>| #[trigger] is_inside(base, folder, dir) && is_inside(dir, name, path)
}

/// The file in the program's folder under `base`, or under the current folder where there is no
/// base.
pub fn program_file(base: Option<String>, name: &str) -> (r: String)
    requires
        is_component(name@),
    ensures
        is_two_inside(
            match base {
                Some(d) => d@,
                None => "."@,
            },
            "tagami"@,
            name@,
            r@,
        ),
{
    let base: String = match base {
        Some(d) => d,
        None => text::copy("."),
    };
    proof {
        reveal_strlit("tagami");
    }
    let dir: String = path_join(base.as_str(), "tagami");
    path_join(dir.as_str(), name)
}

/// `path` is the launcher in the start-up folder under the folder for application data.
pub open spec fn is_autostart_path(appdata: Seq<char>, path: Seq<char>) -> bool {
    exists|a: Seq<char>, b: Seq<char>, c: Seq<char>, d: Seq<char>, e: Seq<char>|
        {
            &&& #[trigger] is_inside(appdata, "Microsoft"@, a)
            &&& #[trigger] is_inside(a, "Windows"@, b)
            &&& #[trigger] is_inside(b, "Start Menu"@, c)
            &&& #[trigger] is_inside(c, "Programs"@, d)
            &&& #[trigger] is_inside(d, "Startup"@, e)
            &&& is_inside(e, "AItagami.vbs"@, path)
        }
}

/// The launcher that starts the program at logon, in the user's start-up folder.
pub fn autostart_path(appdata: &str) -> (r: String)
    ensures
        is_autostart_path(appdata@, r@),
{
    proof {
        reveal_strlit("Microsoft");
        reveal_strlit("Windows");
        reveal_strlit("Start Menu");
        reveal_strlit("Programs");
        reveal_strlit("Startup");
        reveal_strlit("AItagami.vbs");
    }
    let a: String = path_join(appdata, "Microsoft");
    let b: String = path_join(a.as_str(), "Windows");
    let c: String = path_join(b.as_str(), "Start Menu");
    let d: String = path_join(c.as_str(), "Programs");
    let e: String = path_join(d.as_str(), "Startup");
    let r: String = path_join(e.as_str(), "AItagami.vbs");
    assert(is_inside(appdata@, "Microsoft"@, a@));
    assert(is_inside(a@, "Windows"@, b@));
    assert(is_inside(b@, "Start Menu"@, c@));
    assert(is_inside(c@, "Programs"@, d@));
    assert(is_inside(d@, "Startup"@, e@));
    r
}

// ---------------------------------------------------------------------------------------------
// Paths, told by their characters alone
// ---------------------------------------------------------------------------------------------
/// What is inside a folder has the folder's path, one separator and its name as its own path, as
/// long as the folder ends in a plain character and does not begin with a backslash. Behind an
/// empty folder and behind a slash there is no separator.
pub proof fn law_path_is_joined(dir: Seq<char>, name: Seq<char>, path: Seq<char>)
    requires
        is_inside(dir, name, path),
        dir.len() > 0 ==> dir[0] != '\\',
    ensures
        dir.len() > 0 && dir.last() != '/' && dir.last() != '\\' && dir.last() != ':' ==> path == dir
            + "/"@ + name || path == dir + "\\"@ + name,
        dir.len() == 0 ==> path == name,
        dir.len() > 0 && dir.last() == '/' ==> path == dir + name,
{
    reveal_strlit("\\\\?\\");
    if is_verbatim(dir) {
        assert(dir.take(4)[0] == dir[0]);
    }
    if dir.len() == 0 {
        assert(dir + name =~= name);
    }
}

proof fn lemma_slashed(dir: Seq<char>, name: Seq<char>, path: Seq<char>, f: spec_fn(char) -> char)
    requires
        is_inside(dir, name, path),
        dir.len() > 0,
        dir[0] != '\\',
        dir.last() != '/' && dir.last() != '\\' && dir.last() != ':',
        name.len() > 0,
        !name.contains('\\'),
        forall|c: char| #[trigger]
            f(c) == if c == '\\' {
                '/'
            } else {
                c
            },
    ensures
        path.map_values(f) == dir.map_values(f) + seq!['/'] + name,
        path.len() > 0,
        path[0] == dir[0],
        path.last() == name.last(),
{
    reveal_strlit("/");
    reveal_strlit("\\");
    law_path_is_joined(dir, name, path);
    assert forall|i: int| 0 <= i < name.len() implies f(#[trigger] name[i]) == name[i] by {
        assert(name.contains(name[i]));
    }
    assert(path.map_values(f) =~= dir.map_values(f) + seq!['/'] + name);
}

/// A file of the program is in its folder below the base, whichever separators the platform has:
/// written with slashes alone, its path is that of the base, a slash, the folder, a slash and the
/// name.
pub proof fn law_program_file_is_two_levels_down(
    base: Seq<char>,
    folder: Seq<char>,
    name: Seq<char>,
    path: Seq<char>,
)
    requires
        is_two_inside(base, folder, name, path),
        base.len() > 0,
        base[0] != '\\',
        base.last() != '/' && base.last() != '\\' && base.last() != ':',
        folder.len() > 0 && !folder.contains('/') && !folder.contains('\\') && !folder.contains(':'),
        name.len() > 0 && !name.contains('\\'),
    ensures
        ({
            let slashed = |c: char|
                if c == '\\' {
                    '/'
                } else {
                    c
                };
            path.map_values(slashed) == base.map_values(slashed) + seq!['/'] + folder + seq!['/']
                + name
        }),
{
    let slashed = |c: char|
        if c == '\\' {
            '/'
        } else {
            c
        };
    let dir = choose|dir: Seq<char>| #[trigger]
        is_inside(base, folder, dir) && is_inside(dir, name, path);
    lemma_slashed(base, folder, dir, slashed);
    assert(folder.contains(folder.last()));
    lemma_slashed(dir, name, path, slashed);
}

/// The launcher is in the user's start-up folder, whichever separators the platform has.
pub proof fn law_launcher_is_in_the_startup_folder(appdata: Seq<char>, path: Seq<char>)
    requires
        is_autostart_path(appdata, path),
        appdata.len() > 0,
        appdata[0] != '\\',
        appdata.last() != '/' && appdata.last() != '\\' && appdata.last() != ':',
    ensures
        ({
            let slashed = |c: char|
                if c == '\\' {
                    '/'
                } else {
                    c
                };
            path.map_values(slashed) == appdata.map_values(slashed)
                + "/Microsoft/Windows/Start Menu/Programs/Startup/AItagami.vbs"@
        }),
{
    let slashed = |c: char|
        if c == '\\' {
            '/'
        } else {
            c
        };
    let (a, b, c, d, e) = choose|
        a: Seq<char>,
        b: Seq<char>,
        c: Seq<char>,
        d: Seq<char>,
        e: Seq<char>,
    |
        {
            &&& #[trigger] is_inside(appdata, "Microsoft"@, a)
            &&& #[trigger] is_inside(a, "Windows"@, b)
            &&& #[trigger] is_inside(b, "Start Menu"@, c)
            &&& #[trigger] is_inside(c, "Programs"@, d)
            &&& #[trigger] is_inside(d, "Startup"@, e)
            &&& is_inside(e, "AItagami.vbs"@, path)
        };
    lemma_plain_names();
    lemma_slashed(appdata, "Microsoft"@, a, slashed);
    lemma_slashed(a, "Windows"@, b, slashed);
    lemma_slashed(b, "Start Menu"@, c, slashed);
    lemma_slashed(c, "Programs"@, d, slashed);
    lemma_slashed(d, "Startup"@, e, slashed);
    lemma_slashed(e, "AItagami.vbs"@, path, slashed);
    lemma_startup_folders(appdata.map_values(slashed));
}

/// A name that a path can end in before something is added to it.
spec fn is_plain(name: Seq<char>) -> bool {
    &&& name.len() > 0
    &&& !name.contains('\\')
    &&& name.last() != '/' && name.last() != '\\' && name.last() != ':'
}

proof fn lemma_plain_names()
    ensures
        is_plain("Microsoft"@),
        is_plain("Windows"@),
        is_plain("Start Menu"@),
        is_plain("Programs"@),
        is_plain("Startup"@),
        is_plain("AItagami.vbs"@),
{
    assert(is_plain("Microsoft"@)) by {
        reveal_strlit("Microsoft");
    }
    assert(is_plain("Windows"@)) by {
        reveal_strlit("Windows");
    }
    assert(is_plain("Start Menu"@)) by {
        reveal_strlit("Start Menu");
    }
    assert(is_plain("Programs"@)) by {
        reveal_strlit("Programs");
    }
    assert(is_plain("Startup"@)) by {
        reveal_strlit("Startup");
    }
    assert(is_plain("AItagami.vbs"@)) by {
        reveal_strlit("AItagami.vbs");
    }
}

proof fn lemma_startup_folders(base: Seq<char>)
    ensures
        base + seq!['/'] + "Microsoft"@ + seq!['/'] + "Windows"@ + seq!['/'] + "Start Menu"@ + seq![
            '/',
        ] + "Programs"@ + seq!['/'] + "Startup"@ + seq!['/'] + "AItagami.vbs"@ == base
            + "/Microsoft/Windows/Start Menu/Programs/Startup/AItagami.vbs"@,
{
    let s = seq!['/'];
    let a = s + "Microsoft"@;
    let b = a + s + "Windows"@;
    let c = b + s + "Start Menu"@;
    let d = c + s + "Programs"@;
    let e = d + s + "Startup"@;
    let f = e + s + "AItagami.vbs"@;
    assert(base + s + "Microsoft"@ =~= base + a);
    assert(base + a + s + "Windows"@ =~= base + b);
    assert(base + b + s + "Start Menu"@ =~= base + c);
    assert(base + c + s + "Programs"@ =~= base + d);
    assert(base + d + s + "Startup"@ =~= base + e);
    assert(base + e + s + "AItagami.vbs"@ =~= base + f);
    assert(b =~= "/Microsoft/Windows"@) by {
        reveal_strlit("Microsoft");
        reveal_strlit("Windows");
        reveal_strlit("/Microsoft/Windows");
    }
    assert(d =~= "/Microsoft/Windows/Start Menu/Programs"@) by {
        reveal_strlit("/Microsoft/Windows");
        reveal_strlit("Start Menu");
        reveal_strlit("Programs");
        reveal_strlit("/Microsoft/Windows/Start Menu/Programs");
    }
    assert(f =~= "/Microsoft/Windows/Start Menu/Programs/Startup/AItagami.vbs"@) by {
        reveal_strlit("/Microsoft/Windows/Start Menu/Programs");
        reveal_strlit("Startup");
        reveal_strlit("AItagami.vbs");
        reveal_strlit("/Microsoft/Windows/Start Menu/Programs/Startup/AItagami.vbs");
    }
}

/// A folder beside a knowledge base is in the folder that the path of the knowledge base says, and
/// its last name is its own.
pub proof fn law_folder_beside_a_file(
    knowledge: KnowledgeBase,
    dir: Seq<char>,
    file: Seq<char>,
    name: Seq<char>,
)
    requires
        knowledge.valid(),
        knowledge.path@ == dir + "/"@ + file,
        dir.len() > 0 && dir[0] != '/' && dir[0] != '\\',
        dir.last() != '/' && dir.last() != '\\' && dir.last() != ':' && dir.last() != '.',
        file.len() > 0 && file[0] != '.',
        !file.contains('/') && !file.contains('\\') && !file.contains(':'),
        name.len() > 0 && name[0] != '.',
        !name.contains('/') && !name.contains('\\') && !name.contains(':'),
    ensures
        knowledge.beside(name) == dir + "/"@ + name || knowledge.beside(name) == dir + "\\"@ + name,
        last_name(knowledge.beside(name)) == name,
        last_name(knowledge.path@) == file,
{
    reveal_strlit("/");
    assert("/"@ =~= seq!['/']);
    assert(is_split(knowledge.path@, dir, '/', file));
    law_folder_of_a_path(knowledge, dir, file, name);
    lemma_beside_name(knowledge, name);
    lemma_last_name(dir + "/"@, file);
}

} // verus!
