//! Plain text: sequences of characters, and what the rest of the library does with them.

use vstd::prelude::*;

verus! {

/// `String::push`: the character goes to the end of the text.
pub assume_specification[ String::push ](s: &mut String, c: char)
    ensures
        final(s)@ == old(s)@.push(c),
;

/// `String::push_str`: the other text goes to the end of this one.
pub assume_specification[ String::push_str ](s: &mut String, t: &str)
    ensures
        final(s)@ == old(s)@ + t@,
;

/// The characters of a text, one by one.
pub fn to_chars(s: &str) -> (r: Vec<char>)
    ensures
        r@ == s@,
{
    let mut out: Vec<char> = Vec::new();
    for c in it: s.chars()
        invariant
            it.seq() == s@,
            out@ == s@.take(it.index() as int),
    {
        out.push(c);
        assert(s@.take(it.index() as int + 1) =~= s@.take(it.index() as int).push(c));
    }
    assert(s@.take(s@.len() as int) =~= s@);
    out
}

/// The text made of these characters.
pub fn to_text(cs: &Vec<char>) -> (r: String)
    ensures
        r@ == cs@,
{
    let mut out: String = String::new();
    let mut i: usize = 0;
    while i < cs.len()
        invariant
            i <= cs.len(),
            out@ == cs@.take(i as int),
        decreases cs.len() - i,
    {
        out.push(cs[i]);
        proof {
            assert(cs@.take(i as int + 1) =~= cs@.take(i as int).push(cs@[i as int]));
        }
        i = i + 1;
    }
    assert(cs@.take(cs@.len() as int) =~= cs@);
    out
}

/// The characters from `lo` up to, not including, `hi`.
pub fn part(cs: &Vec<char>, lo: usize, hi: usize) -> (r: Vec<char>)
    requires
        lo <= hi <= cs.len(),
    ensures
        r@ == cs@.subrange(lo as int, hi as int),
{
    let mut out: Vec<char> = Vec::new();
    let mut i: usize = lo;
    while i < hi
        invariant
            lo <= i <= hi <= cs.len(),
            out@ == cs@.subrange(lo as int, i as int),
        decreases hi - i,
    {
        out.push(cs[i]);
        proof {
            assert(cs@.subrange(lo as int, i as int + 1) =~= cs@.subrange(lo as int, i as int).push(
                cs@[i as int],
            ));
        }
        i = i + 1;
    }
    out
}

/// A copy of a text.
pub fn copy(s: &str) -> (r: String)
    ensures
        r@ == s@,
{
    let mut out: String = String::new();
    out.push_str(s);
    assert(Seq::<char>::empty() + s@ =~= s@);
    out
}

/// One text after the other.
pub fn concat(a: &str, b: &str) -> (r: String)
    ensures
        r@ == a@ + b@,
{
    let mut out: String = copy(a);
    out.push_str(b);
    out
}

/// Whether the same characters stand in both, from `lo` in `a` on for the length of `b`.
fn matches_at(a: &Vec<char>, lo: usize, b: &Vec<char>) -> (r: bool)
    requires
        lo + b.len() <= a.len(),
    ensures
        r == occurs_at(a@, b@, lo as int),
{
    let mut i: usize = 0;
    while i < b.len()
        invariant
            i <= b.len(),
            lo + b.len() <= a.len(),
            forall|j: int| 0 <= j < i ==> a@[lo + j] == b@[j],
        decreases b.len() - i,
    {
        if a[lo + i] != b[i] {
            assert(a@.subrange(lo as int, lo + b@.len())[i as int] != b@[i as int]);
            return false;
        }
        i = i + 1;
    }
    assert(a@.subrange(lo as int, lo + b@.len()) =~= b@);
    true
}

/// Whether two texts hold the same characters.
pub fn same_chars(a: &Vec<char>, b: &Vec<char>) -> (r: bool)
    ensures
        r == (a@ == b@),
{
    if a.len() != b.len() {
        return false;
    }
    let r: bool = matches_at(a, 0, b);
    assert(a@.subrange(0, a@.len() as int) =~= a@);
    r
}

/// Whether two texts hold the same characters.
pub fn same_text(a: &str, b: &str) -> (r: bool)
    ensures
        r == (a@ == b@),
{
    same_chars(&to_chars(a), &to_chars(b))
}

// ---------------------------------------------------------------------------------------------
// Finding one text in another
// ---------------------------------------------------------------------------------------------
/// `pat` stands in `s` at position `i`.
pub open spec fn occurs_at(s: Seq<char>, pat: Seq<char>, i: int) -> bool {
    0 <= i && i + pat.len() <= s.len() && s.subrange(i, i + pat.len()) == pat
}

/// `pat` stands somewhere in `s`.
pub open spec fn has_text(s: Seq<char>, pat: Seq<char>) -> bool {
    exists|i: int| occurs_at(s, pat, i)
}

/// The first position from `from` on at which `pat` stands in `s`.
pub open spec fn find_from(s: Seq<char>, pat: Seq<char>, from: int) -> Option<int>
    decreases s.len() + 1 - from,
{
    if from + pat.len() > s.len() {
        None
    } else if occurs_at(s, pat, from) {
        Some(from)
    } else {
        find_from(s, pat, from + 1)
    }
}

/// `s` begins with `pat`.
pub open spec fn begins_with(s: Seq<char>, pat: Seq<char>) -> bool {
    pat.len() <= s.len() && s.take(pat.len() as int) == pat
}

/// What `find_from` finds is an occurrence with none before it; it finds nothing only where there
/// is none.
pub proof fn lemma_find_from(s: Seq<char>, pat: Seq<char>, from: int)
    requires
        0 <= from,
    ensures
        find_from(s, pat, from) matches Some(i) ==> {
            &&& from <= i
            &&& occurs_at(s, pat, i)
            &&& forall|j: int| from <= j < i ==> !occurs_at(s, pat, j)
        },
        find_from(s, pat, from) is None ==> forall|j: int| from <= j ==> !occurs_at(s, pat, j),
    decreases s.len() + 1 - from,
{
    if from + pat.len() > s.len() {
    } else if occurs_at(s, pat, from) {
    } else {
        lemma_find_from(s, pat, from + 1);
    }
}

/// An occurrence with none before it from `from` on is the one that `find_from` finds.
pub proof fn lemma_find_from_is(s: Seq<char>, pat: Seq<char>, from: int, i: int)
    requires
        0 <= from <= i,
        occurs_at(s, pat, i),
        forall|j: int| from <= j < i ==> !occurs_at(s, pat, j),
    ensures
        find_from(s, pat, from) == Some(i),
{
    lemma_find_from(s, pat, from);
}

/// The first position from `from` on at which `pat` stands in `s`.
pub fn find_chars(s: &Vec<char>, pat: &Vec<char>, from: usize) -> (r: Option<usize>)
    requires
        from <= s.len(),
    ensures
        r matches Some(i) ==> find_from(s@, pat@, from as int) == Some(i as int) && i + pat.len()
            <= s.len(),
        r is None ==> find_from(s@, pat@, from as int) is None,
{
    let mut i: usize = from;
    while pat.len() <= s.len() - i
        invariant
            from <= i <= s.len(),
            find_from(s@, pat@, from as int) == find_from(s@, pat@, i as int),
        decreases s.len() - i,
    {
        if matches_at(s, i, pat) {
            return Some(i);
        }
        if i == s.len() {
            assert(s@.subrange(i as int, i as int) =~= pat@);
            return None;
        }
        i = i + 1;
    }
    None
}

/// Whether `pat` stands in `s`.
pub fn contains(s: &str, pat: &str) -> (r: bool)
    ensures
        r == has_text(s@, pat@),
{
    let cs: Vec<char> = to_chars(s);
    let ps: Vec<char> = to_chars(pat);
    let found: Option<usize> = find_chars(&cs, &ps, 0);
    proof {
        lemma_find_from(s@, pat@, 0);
    }
    found.is_some()
}

/// Whether `s` begins with `pat`.
pub fn starts_with(s: &str, pat: &str) -> (r: bool)
    ensures
        r == begins_with(s@, pat@),
{
    let cs: Vec<char> = to_chars(s);
    let ps: Vec<char> = to_chars(pat);
    ps.len() <= cs.len() && matches_at(&cs, 0, &ps)
}

// ---------------------------------------------------------------------------------------------
// Characters at the edges of a text
// ---------------------------------------------------------------------------------------------
/// The characters with Unicode's `White_Space` property.
pub open spec fn is_white(c: char) -> bool {
    ||| '\u{9}' <= c <= '\u{d}'
    ||| c == ' '
    ||| c == '\u{85}'
    ||| c == '\u{a0}'
    ||| c == '\u{1680}'
    ||| '\u{2000}' <= c <= '\u{200a}'
    ||| c == '\u{2028}'
    ||| c == '\u{2029}'
    ||| c == '\u{202f}'
    ||| c == '\u{205f}'
    ||| c == '\u{3000}'
}

/// Whether a character has Unicode's `White_Space` property.
pub fn white(c: char) -> (r: bool)
    ensures
        r == is_white(c),
{
    ('\u{9}' <= c && c <= '\u{d}') || c == ' ' || c == '\u{85}' || c == '\u{a0}' || c
        == '\u{1680}' || ('\u{2000}' <= c && c <= '\u{200a}') || c == '\u{2028}' || c
        == '\u{2029}' || c == '\u{202f}' || c == '\u{205f}' || c == '\u{3000}'
}

/// A kind of character that can be taken off the edges of a text.
#[derive(Clone, Copy)]
pub enum Edge {
    /// White space.
    White,
    /// The double quotation mark.
    Quote,
    /// The character with number zero.
    Nul,
    /// What may stand between a judgment and the text that it introduces.
    Lead,
}

impl Edge {
    /// The character is of this kind.
    pub open spec fn has(self, c: char) -> bool {
        match self {
            Edge::White => is_white(c),
            Edge::Quote => c == '"',
            Edge::Nul => c == '\0',
            Edge::Lead => {
                ||| c == '：'
                ||| c == ':'
                ||| c == '。'
                ||| c == '、'
                ||| c == ' '
                ||| c == '\u{3000}'
                ||| c == '\n'
                ||| c == '\r'
                ||| c == '\t'
                ||| c == '-'
            },
        }
    }

    /// Whether the character is of this kind.
    pub fn is(self, c: char) -> (r: bool)
        ensures
            r == self.has(c),
    {
        match self {
            Edge::White => white(c),
            Edge::Quote => c == '"',
            Edge::Nul => c == '\0',
            Edge::Lead => c == '：' || c == ':' || c == '。' || c == '、' || c == ' ' || c
                == '\u{3000}' || c == '\n' || c == '\r' || c == '\t' || c == '-',
        }
    }
}

/// The text without the characters of this kind at its front.
pub open spec fn strip_front(s: Seq<char>, k: Edge) -> Seq<char>
    decreases s.len(),
{
    if s.len() > 0 && k.has(s[0]) {
        strip_front(s.skip(1), k)
    } else {
        s
    }
}

/// The text without the characters of this kind at its end.
pub open spec fn strip_back(s: Seq<char>, k: Edge) -> Seq<char>
    decreases s.len(),
{
    if s.len() > 0 && k.has(s.last()) {
        strip_back(s.drop_last(), k)
    } else {
        s
    }
}

/// The text without the characters of this kind at both ends.
pub open spec fn strip(s: Seq<char>, k: Edge) -> Seq<char> {
    strip_back(strip_front(s, k), k)
}

/// The text without white space at both ends.
pub open spec fn trim(s: Seq<char>) -> Seq<char> {
    strip(s, Edge::White)
}

/// No character of this kind stands at either end.
pub open spec fn bare(s: Seq<char>, k: Edge) -> bool {
    s.len() > 0 ==> !k.has(s[0]) && !k.has(s.last())
}

/// Stripping the front drops a run of such characters and nothing else.
pub proof fn lemma_strip_front(s: Seq<char>, k: Edge)
    ensures
        strip_front(s, k).len() <= s.len(),
        strip_front(s, k) == s.skip(s.len() - strip_front(s, k).len()),
        strip_front(s, k).len() > 0 ==> !k.has(strip_front(s, k)[0]),
        forall|i: int| 0 <= i < s.len() - strip_front(s, k).len() ==> k.has(#[trigger] s[i]),
    decreases s.len(),
{
    if s.len() > 0 && k.has(s[0]) {
        let t = s.skip(1);
        lemma_strip_front(t, k);
        let n = t.len() - strip_front(t, k).len();
        assert(t.skip(n) =~= s.skip(n + 1));
        assert forall|i: int| 0 <= i < n + 1 implies k.has(#[trigger] s[i]) by {
            if i > 0 {
                assert(s[i] == t[i - 1]);
            }
        }
    } else {
        assert(s.skip(0) =~= s);
    }
}

/// Stripping the end drops a run of such characters and nothing else.
pub proof fn lemma_strip_back(s: Seq<char>, k: Edge)
    ensures
        strip_back(s, k).len() <= s.len(),
        strip_back(s, k) == s.take(strip_back(s, k).len() as int),
        strip_back(s, k).len() > 0 ==> !k.has(strip_back(s, k).last()),
        forall|i: int| strip_back(s, k).len() <= i < s.len() ==> k.has(#[trigger] s[i]),
    decreases s.len(),
{
    if s.len() > 0 && k.has(s.last()) {
        let t = s.drop_last();
        lemma_strip_back(t, k);
        let n = strip_back(t, k).len() as int;
        assert(t.take(n) =~= s.take(n));
        assert forall|i: int| n <= i < s.len() implies k.has(#[trigger] s[i]) by {
            if i < t.len() {
                assert(s[i] == t[i]);
            }
        }
    } else {
        assert(s.take(s.len() as int) =~= s);
    }
}

/// A text whose ends are of another kind is kept as it is.
pub proof fn lemma_strip_bare(s: Seq<char>, k: Edge)
    requires
        bare(s, k),
    ensures
        strip_front(s, k) == s,
        strip_back(s, k) == s,
        strip(s, k) == s,
{
}

/// The characters without those of this kind at the front.
pub fn strip_front_chars(cs: &Vec<char>, k: Edge) -> (r: Vec<char>)
    ensures
        r@ == strip_front(cs@, k),
{
    let mut i: usize = 0;
    assert(cs@.subrange(0, cs@.len() as int) =~= cs@);
    while i < cs.len() && k.is(cs[i])
        invariant
            i <= cs.len(),
            strip_front(cs@, k) == strip_front(cs@.subrange(i as int, cs@.len() as int), k),
        decreases cs.len() - i,
    {
        proof {
            let s = cs@.subrange(i as int, cs@.len() as int);
            assert(s.skip(1) =~= cs@.subrange(i as int + 1, cs@.len() as int));
        }
        i = i + 1;
    }
    part(cs, i, cs.len())
}

/// The characters without those of this kind at the end.
pub fn strip_back_chars(cs: &Vec<char>, k: Edge) -> (r: Vec<char>)
    ensures
        r@ == strip_back(cs@, k),
{
    let mut n: usize = cs.len();
    assert(cs@.subrange(0, cs@.len() as int) =~= cs@);
    while n > 0 && k.is(cs[n - 1])
        invariant
            n <= cs.len(),
            strip_back(cs@, k) == strip_back(cs@.subrange(0, n as int), k),
        decreases n,
    {
        proof {
            let s = cs@.subrange(0, n as int);
            assert(s.drop_last() =~= cs@.subrange(0, n - 1));
        }
        n = n - 1;
    }
    part(cs, 0, n)
}

/// The characters without those of this kind at both ends.
pub fn strip_chars(cs: &Vec<char>, k: Edge) -> (r: Vec<char>)
    ensures
        r@ == strip(cs@, k),
{
    strip_back_chars(&strip_front_chars(cs, k), k)
}

/// The characters without white space at both ends.
pub fn trim_chars(cs: &Vec<char>) -> (r: Vec<char>)
    ensures
        r@ == trim(cs@),
{
    strip_chars(cs, Edge::White)
}

/// The text without white space at both ends.
pub fn trimmed(s: &str) -> (r: String)
    ensures
        r@ == trim(s@),
{
    to_text(&trim_chars(&to_chars(s)))
}

/// Whether the text holds nothing but white space.
pub fn blank(s: &str) -> (r: bool)
    ensures
        r == (trim(s@).len() == 0),
{
    trim_chars(&to_chars(s)).len() == 0
}

// ---------------------------------------------------------------------------------------------
// Lines and words
// ---------------------------------------------------------------------------------------------
/// How many characters stand before the first `c`, or in the whole text where there is none.
pub open spec fn run_before(s: Seq<char>, c: char) -> nat
    decreases s.len(),
{
    if s.len() == 0 || s[0] == c {
        0
    } else {
        1 + run_before(s.skip(1), c)
    }
}

/// The run ends at the first `c`, or at the end of the text.
pub proof fn lemma_run_before(s: Seq<char>, c: char)
    ensures
        run_before(s, c) <= s.len(),
        forall|i: int| 0 <= i < run_before(s, c) ==> s[i] != c,
        run_before(s, c) < s.len() ==> s[run_before(s, c) as int] == c,
    decreases s.len(),
{
    if s.len() == 0 || s[0] == c {
    } else {
        lemma_run_before(s.skip(1), c);
        assert forall|i: int| 0 <= i < run_before(s, c) implies s[i] != c by {
            if i > 0 {
                assert(s[i] == s.skip(1)[i - 1]);
            }
        }
    }
}

/// A run with this length is the one before the first `c`.
pub proof fn lemma_run_before_is(s: Seq<char>, c: char, n: int)
    requires
        0 <= n <= s.len(),
        forall|i: int| 0 <= i < n ==> s[i] != c,
        n < s.len() ==> s[n] == c,
    ensures
        run_before(s, c) == n,
{
    lemma_run_before(s, c);
}

/// How many characters stand before the first `c`, counted from `from` on.
pub fn run_from(cs: &Vec<char>, from: usize, c: char) -> (r: usize)
    requires
        from <= cs.len(),
    ensures
        from <= r <= cs.len(),
        r - from == run_before(cs@.skip(from as int), c),
        r < cs.len() ==> cs@[r as int] == c,
{
    let mut i: usize = from;
    while i < cs.len() && cs[i] != c
        invariant
            from <= i <= cs.len(),
            forall|j: int| from <= j < i ==> cs@[j] != c,
        decreases cs.len() - i,
    {
        i = i + 1;
    }
    proof {
        lemma_run_before_is(cs@.skip(from as int), c, i - from);
    }
    i
}

/// The text up to the first `c`, or the whole text where there is none.
pub open spec fn up_to(s: Seq<char>, c: char) -> Seq<char> {
    s.take(run_before(s, c) as int)
}

/// The text behind the last `c`, or the whole text where there is none.
pub open spec fn behind_last(s: Seq<char>, c: char) -> Seq<char>
    decreases s.len(),
{
    if s.len() == 0 || s.last() == c {
        Seq::empty()
    } else {
        behind_last(s.drop_last(), c).push(s.last())
    }
}

/// The characters up to the first `c`.
pub fn up_to_char(cs: &Vec<char>, c: char) -> (r: Vec<char>)
    ensures
        r@ == up_to(cs@, c),
{
    let n: usize = run_from(cs, 0, c);
    let r: Vec<char> = part(cs, 0, n);
    proof {
        assert(cs@.skip(0) =~= cs@);
        assert(r@ =~= up_to(cs@, c));
    }
    r
}

/// The characters behind the last `c`.
pub fn behind_last_char(cs: &Vec<char>, c: char) -> (r: Vec<char>)
    ensures
        r@ == behind_last(cs@, c),
{
    let mut i: usize = cs.len();
    assert(cs@.take(i as int) =~= cs@);
    assert(behind_last(cs@, c) + Seq::<char>::empty() =~= behind_last(cs@, c));
    assert(cs@.skip(i as int) =~= Seq::<char>::empty());
    while i > 0 && cs[i - 1] != c
        invariant
            i <= cs.len(),
            behind_last(cs@, c) == behind_last(cs@.take(i as int), c) + cs@.skip(i as int),
        decreases i,
    {
        proof {
            let now = cs@.take(i as int);
            assert(now.drop_last() =~= cs@.take(i - 1));
            assert(behind_last(now.drop_last(), c).push(now.last()) + cs@.skip(i as int)
                =~= behind_last(now.drop_last(), c) + cs@.skip(i - 1));
        }
        i = i - 1;
    }
    let r: Vec<char> = part(cs, i, cs.len());
    assert(r@ =~= behind_last(cs@.take(i as int), c) + cs@.skip(i as int));
    r
}

/// A line without the carriage return that may end it.
pub open spec fn without_cr(s: Seq<char>) -> Seq<char> {
    if s.len() > 0 && s.last() == '\r' {
        s.drop_last()
    } else {
        s
    }
}

/// The lines of a text: each ends at a line feed, which may follow a carriage return, or at the
/// end of the text. Neither is part of the line.
pub open spec fn lines(s: Seq<char>) -> Seq<Seq<char>>
    decreases s.len(),
{
    if s.len() == 0 {
        Seq::empty()
    } else if run_before(s, '\n') >= s.len() {
        seq![s]
    } else {
        let n = run_before(s, '\n') as int;
        seq![without_cr(s.take(n))] + lines(s.skip(n + 1))
    }
}

/// A line that ends with a line feed is followed by the lines behind it.
pub proof fn lemma_lines_cons(a: Seq<char>, b: Seq<char>)
    requires
        !a.contains('\n'),
    ensures
        lines(a + "\n"@ + b) == seq![without_cr(a)] + lines(b),
{
    reveal_strlit("\n");
    let s = a + "\n"@ + b;
    let n = a.len() as int;
    assert forall|i: int| 0 <= i < n implies s[i] != '\n' by {
        assert(s[i] == a[i]);
    }
    assert(s[n] == '\n');
    lemma_run_before_is(s, '\n', n);
    assert(s.take(n) =~= a);
    assert(s.skip(n + 1) =~= b);
}

/// What is seen of a list of texts.
pub open spec fn views(v: Seq<Vec<char>>) -> Seq<Seq<char>> {
    Seq::new(v.len(), |i: int| v[i]@)
}

/// What is seen of a list of texts.
pub open spec fn texts(v: Seq<String>) -> Seq<Seq<char>> {
    Seq::new(v.len(), |i: int| v[i]@)
}

/// The lines of a text.
pub fn line_list(cs: &Vec<char>) -> (r: Vec<Vec<char>>)
    ensures
        views(r@) == lines(cs@),
{
    let mut out: Vec<Vec<char>> = Vec::new();
    let mut i: usize = 0;
    assert(cs@.skip(0) =~= cs@);
    assert(views(out@) + lines(cs@) =~= lines(cs@));
    while i < cs.len()
        invariant
            i <= cs.len(),
            views(out@) + lines(cs@.skip(i as int)) == lines(cs@),
        decreases cs.len() - i,
    {
        let end: usize = run_from(cs, i, '\n');
        let ghost rest = cs@.skip(i as int);
        let ghost before = out@;
        proof {
            lemma_run_before(rest, '\n');
        }
        if end < cs.len() {
            let mut stop: usize = end;
            if end > i && cs[end - 1] == '\r' {
                stop = end - 1;
            }
            let line: Vec<char> = part(cs, i, stop);
            proof {
                assert(rest.take(end - i) =~= cs@.subrange(i as int, end as int));
                assert(line@ =~= without_cr(rest.take(end - i)));
                assert(rest.skip(end - i + 1) =~= cs@.skip(end + 1));
            }
            out.push(line);
            i = end + 1;
        } else {
            let line: Vec<char> = part(cs, i, end);
            assert(line@ =~= rest);
            out.push(line);
            i = end;
            assert(cs@.skip(i as int) =~= Seq::<char>::empty());
        }
        proof {
            let last = out@.last()@;
            assert(views(out@) =~= views(before) + seq![last]);
            assert(views(out@) + lines(cs@.skip(i as int)) =~= views(before) + (seq![last] + lines(
                cs@.skip(i as int),
            )));
            assert(seq![last] + lines(cs@.skip(i as int)) =~= lines(rest));
        }
    }
    assert(cs@.skip(i as int) =~= Seq::<char>::empty());
    assert(views(out@) + lines(cs@.skip(i as int)) =~= views(out@));
    out
}

/// How many characters stand before the first white space.
pub open spec fn word_len(s: Seq<char>) -> nat
    decreases s.len(),
{
    if s.len() == 0 || is_white(s[0]) {
        0
    } else {
        1 + word_len(s.skip(1))
    }
}

/// The words of a text: the longest runs without white space, in order.
pub open spec fn words(s: Seq<char>) -> Seq<Seq<char>>
    decreases s.len(),
{
    if s.len() == 0 {
        Seq::empty()
    } else if is_white(s[0]) {
        words(s.skip(1))
    } else {
        let n = word_len(s) as int;
        if 0 < n <= s.len() {
            seq![s.take(n)] + words(s.skip(n))
        } else {
            Seq::empty()
        }
    }
}

proof fn lemma_word_len(s: Seq<char>, n: int)
    requires
        0 <= n <= s.len(),
        forall|i: int| 0 <= i < n ==> !is_white(#[trigger] s[i]),
        n < s.len() ==> is_white(s[n]),
    ensures
        word_len(s) == n,
    decreases s.len(),
{
    if n > 0 {
        let t = s.skip(1);
        assert forall|i: int| 0 <= i < n - 1 implies !is_white(#[trigger] t[i]) by {
            assert(t[i] == s[i + 1]);
        }
        lemma_word_len(t, n - 1);
    }
}

/// The words of a text.
fn word_list(cs: &Vec<char>) -> (r: Vec<String>)
    ensures
        texts(r@) == words(cs@),
{
    let mut out: Vec<String> = Vec::new();
    let mut i: usize = 0;
    assert(cs@.skip(0) =~= cs@);
    assert(texts(out@) + words(cs@) =~= words(cs@));
    while i < cs.len()
        invariant
            i <= cs.len(),
            texts(out@) + words(cs@.skip(i as int)) == words(cs@),
        decreases cs.len() - i,
    {
        let ghost rest = cs@.skip(i as int);
        if white(cs[i]) {
            assert(rest.skip(1) =~= cs@.skip(i + 1));
            i = i + 1;
        } else {
            let mut j: usize = i;
            while j < cs.len() && !white(cs[j])
                invariant
                    i <= j <= cs.len(),
                    forall|k: int| i <= k < j ==> !is_white(#[trigger] cs@[k]),
                decreases cs.len() - j,
            {
                j = j + 1;
            }
            let ghost before = out@;
            let word: Vec<char> = part(cs, i, j);
            proof {
                assert forall|k: int| 0 <= k < j - i implies !is_white(#[trigger] rest[k]) by {
                    assert(rest[k] == cs@[i + k]);
                }
                lemma_word_len(rest, j - i);
                assert(word@ =~= rest.take(j - i));
                assert(rest.skip(j - i) =~= cs@.skip(j as int));
            }
            out.push(to_text(&word));
            i = j;
            proof {
                assert(texts(out@) =~= texts(before) + seq![word@]);
                assert(texts(out@) + words(cs@.skip(i as int)) =~= texts(before) + (seq![word@]
                    + words(cs@.skip(i as int))));
            }
        }
    }
    assert(cs@.skip(i as int) =~= Seq::<char>::empty());
    assert(texts(out@) + words(cs@.skip(i as int)) =~= texts(out@));
    out
}

/// The texts one after the other, with `sep` between them.
pub open spec fn join(parts: Seq<Seq<char>>, sep: Seq<char>) -> Seq<char>
    decreases parts.len(),
{
    if parts.len() == 0 {
        Seq::empty()
    } else if parts.len() == 1 {
        parts[0]
    } else {
        join(parts.drop_last(), sep) + sep + parts.last()
    }
}

/// The texts one after the other, with `sep` between them.
pub fn joined(parts: &Vec<String>, sep: &str) -> (r: String)
    ensures
        r@ == join(texts(parts@), sep@),
{
    let mut out: String = String::new();
    let mut i: usize = 0;
    assert(texts(parts@).take(0) =~= Seq::<Seq<char>>::empty());
    while i < parts.len()
        invariant
            i <= parts.len(),
            out@ == join(texts(parts@).take(i as int), sep@),
        decreases parts.len() - i,
    {
        proof {
            let now = texts(parts@).take(i + 1);
            assert(now.drop_last() =~= texts(parts@).take(i as int));
            assert(now.last() == parts@[i as int]@);
            if i == 0 {
                assert(Seq::<char>::empty() + parts@[0]@ =~= parts@[0]@);
            }
        }
        if i > 0 {
            out.push_str(sep);
        }
        out.push_str(parts[i].as_str());
        i = i + 1;
    }
    assert(texts(parts@).take(parts@.len() as int) =~= texts(parts@));
    out
}

/// At most `max` characters of the text, whose words have one space between them.
pub open spec fn shortened(s: Seq<char>, max: int) -> Seq<char> {
    let cleaned = join(words(s), " "@);
    if cleaned.len() > max {
        cleaned.take(max)
    } else {
        cleaned
    }
}

/// The text with one space between its words, cut off after `max_chars` characters.
pub fn truncate(s: &str, max_chars: usize) -> (r: String)
    ensures
        r@ == shortened(s@, max_chars as int),
        r@.len() <= max_chars,
{
    let cleaned: String = joined(&word_list(&to_chars(s)), " ");
    let cs: Vec<char> = to_chars(cleaned.as_str());
    if cs.len() > max_chars {
        let r: Vec<char> = part(&cs, 0, max_chars);
        assert(r@ =~= cs@.take(max_chars as int));
        to_text(&r)
    } else {
        cleaned
    }
}

/// Every tab, carriage return and line feed becomes a space.
pub open spec fn flat(s: Seq<char>, tabs: bool) -> Seq<char> {
    s.map_values(
        |c: char| if c == '\r' || c == '\n' || (tabs && c == '\t') { ' ' } else { c },
    )
}

/// The text with a space for every carriage return, line feed and, if asked for, tab.
pub fn flattened(s: &str, tabs: bool) -> (r: String)
    ensures
        r@ == flat(s@, tabs),
{
    let cs: Vec<char> = to_chars(s);
    let mut out: String = String::new();
    let mut i: usize = 0;
    while i < cs.len()
        invariant
            i <= cs.len(),
            cs@ == s@,
            out@.len() == i,
            forall|j: int| 0 <= j < i ==> out@[j] == flat(s@, tabs)[j],
        decreases cs.len() - i,
    {
        let c: char = cs[i];
        if c == '\r' || c == '\n' || (tabs && c == '\t') {
            out.push(' ');
        } else {
            out.push(c);
        }
        i = i + 1;
    }
    assert(out@ =~= flat(s@, tabs));
    out
}

/// A flattened text stays on one line, and flattening it again changes nothing.
pub proof fn law_flat_text_is_one_line(s: Seq<char>, tabs: bool)
    ensures
        flat(s, tabs).len() == s.len(),
        !flat(s, tabs).contains('\n'),
        !flat(s, tabs).contains('\r'),
        tabs ==> !flat(s, tabs).contains('\t'),
        flat(flat(s, tabs), tabs) == flat(s, tabs),
{
    assert(flat(flat(s, tabs), tabs) =~= flat(s, tabs));
}

/// Shortening keeps within the limit.
pub proof fn law_shortened_fits(s: Seq<char>, max: int)
    requires
        0 <= max,
    ensures
        shortened(s, max).len() <= max,
{
}

proof fn lemma_word_chars(s: Seq<char>)
    ensures
        word_len(s) <= s.len(),
        forall|i: int| 0 <= i < word_len(s) ==> !is_white(#[trigger] s[i]),
    decreases s.len(),
{
    if s.len() > 0 && !is_white(s[0]) {
        let rest = s.skip(1);
        lemma_word_chars(rest);
        assert forall|i: int| 0 <= i < word_len(s) implies !is_white(#[trigger] s[i]) by {
            if i > 0 {
                assert(rest[i - 1] == s[i]);
            }
        }
    }
}

/// None of these texts has white space in it.
spec fn all_dark(parts: Seq<Seq<char>>) -> bool {
    forall|i: int, j: int|
        0 <= i < parts.len() && 0 <= j < parts[i].len() ==> !is_white(#[trigger] parts[i][j])
}

proof fn lemma_words_dark(s: Seq<char>)
    ensures
        all_dark(words(s)),
    decreases s.len(),
{
    if s.len() > 0 {
        if is_white(s[0]) {
            lemma_words_dark(s.skip(1));
        } else {
            let n = word_len(s) as int;
            lemma_word_chars(s);
            if 0 < n <= s.len() {
                let rest = words(s.skip(n));
                lemma_words_dark(s.skip(n));
                let all = words(s);
                assert forall|i: int, j: int|
                    0 <= i < all.len() && 0 <= j < all[i].len() implies !is_white(
                    #[trigger] all[i][j],
                ) by {
                    if i == 0 {
                        assert(all[0][j] == s[j]);
                    } else {
                        assert(all[i] == rest[i - 1]);
                        assert(!is_white(rest[i - 1][j]));
                    }
                }
            }
        }
    }
}

proof fn lemma_join_dark(parts: Seq<Seq<char>>)
    requires
        all_dark(parts),
    ensures
        forall|j: int|
            0 <= j < join(parts, " "@).len() && is_white(#[trigger] join(parts, " "@)[j]) ==> join(
                parts,
                " "@,
            )[j] == ' ',
    decreases parts.len(),
{
    reveal_strlit(" ");
    let all = join(parts, " "@);
    if parts.len() == 1 {
        assert forall|j: int| 0 <= j < all.len() && is_white(#[trigger] all[j]) implies all[j]
            == ' ' by {
            assert(!is_white(parts[0][j]));
        }
    } else if parts.len() > 1 {
        let front = parts.drop_last();
        assert forall|i: int, j: int| 0 <= i < front.len() && 0 <= j < front[i].len() implies !is_white(
            #[trigger] front[i][j],
        ) by {
            assert(!is_white(parts[i][j]));
        }
        lemma_join_dark(front);
        let head = join(front, " "@);
        assert forall|j: int| 0 <= j < all.len() && is_white(#[trigger] all[j]) implies all[j]
            == ' ' by {
            if j < head.len() {
                assert(all[j] == head[j]);
            } else if j > head.len() {
                let k = j - head.len() - 1;
                assert(all[j] == parts.last()[k]);
                assert(!is_white(parts[parts.len() - 1][k]));
            }
        }
    }
}

/// A shortened text has no white space in it but plain spaces, and so stands on one line.
pub proof fn law_shortened_is_one_line(s: Seq<char>, max: int)
    requires
        0 <= max,
    ensures
        forall|j: int|
            0 <= j < shortened(s, max).len() && is_white(#[trigger] shortened(s, max)[j])
                ==> shortened(s, max)[j] == ' ',
{
    lemma_words_dark(s);
    lemma_join_dark(words(s));
    let all = join(words(s), " "@);
    let short = shortened(s, max);
    assert forall|j: int| 0 <= j < short.len() && is_white(#[trigger] short[j]) implies short[j]
        == ' ' by {
        assert(short[j] == all[j]);
    }
}

/// Each of these texts is a word: it has a character, and no white space in it.
spec fn all_words(parts: Seq<Seq<char>>) -> bool {
    all_dark(parts) && forall|i: int| 0 <= i < parts.len() ==> (#[trigger] parts[i]).len() > 0
}

proof fn lemma_words(s: Seq<char>)
    ensures
        all_words(words(s)),
    decreases s.len(),
{
    lemma_words_dark(s);
    if s.len() > 0 {
        if is_white(s[0]) {
            lemma_words(s.skip(1));
        } else {
            let n = word_len(s) as int;
            if 0 < n <= s.len() {
                let rest = words(s.skip(n));
                lemma_words(s.skip(n));
                let all = words(s);
                assert forall|i: int| 0 <= i < all.len() implies (#[trigger] all[i]).len() > 0 by {
                    if i > 0 {
                        assert(all[i] == rest[i - 1]);
                    }
                }
            }
        }
    }
}

/// The text begins with a dark character, and has no white space in it but single spaces.
pub open spec fn is_tidy(s: Seq<char>) -> bool {
    forall|j: int|
        0 <= j < s.len() && is_white(#[trigger] s[j]) ==> s[j] == ' ' && j > 0 && !is_white(
            s[j - 1],
        )
}

proof fn lemma_join_tidy(parts: Seq<Seq<char>>)
    requires
        all_words(parts),
    ensures
        is_tidy(join(parts, " "@)),
        parts.len() > 0 ==> join(parts, " "@).len() > 0 && !is_white(join(parts, " "@).last()),
    decreases parts.len(),
{
    reveal_strlit(" ");
    let all = join(parts, " "@);
    if parts.len() == 1 {
        assert forall|j: int| 0 <= j < all.len() implies !is_white(#[trigger] all[j]) by {
            assert(!is_white(parts[0][j]));
        }
    } else if parts.len() > 1 {
        let front = parts.drop_last();
        let last = parts.last();
        assert forall|i: int, j: int| 0 <= i < front.len() && 0 <= j < front[i].len() implies !is_white(
            #[trigger] front[i][j],
        ) by {
            assert(!is_white(parts[i][j]));
        }
        assert forall|i: int| 0 <= i < front.len() implies (#[trigger] front[i]).len() > 0 by {
            assert(parts[i].len() > 0);
        }
        lemma_join_tidy(front);
        let head = join(front, " "@);
        assert(parts[parts.len() - 1].len() > 0);
        assert forall|k: int| 0 <= k < last.len() implies !is_white(#[trigger] last[k]) by {
            assert(!is_white(parts[parts.len() - 1][k]));
        }
        assert forall|j: int| 0 <= j < all.len() && is_white(#[trigger] all[j]) implies all[j]
            == ' ' && j > 0 && !is_white(all[j - 1]) by {
            if j < head.len() {
                assert(all[j] == head[j]);
                assert(all[j - 1] == head[j - 1]);
            } else if j == head.len() {
                assert(all[j - 1] == head.last());
            } else {
                assert(all[j] == last[j - head.len() - 1]);
            }
        }
        assert(all.last() == last.last());
    }
}

proof fn lemma_join_cons(first: Seq<char>, rest: Seq<Seq<char>>, sep: Seq<char>)
    requires
        rest.len() > 0,
    ensures
        join(seq![first] + rest, sep) == first + sep + join(rest, sep),
    decreases rest.len(),
{
    let all = seq![first] + rest;
    assert(all.drop_last() =~= seq![first] + rest.drop_last());
    assert(all.last() == rest.last());
    if rest.len() == 1 {
        assert(all.drop_last() =~= seq![first]);
        assert(join(seq![first], sep) == first);
    } else {
        lemma_join_cons(first, rest.drop_last(), sep);
        assert(first + sep + join(rest.drop_last(), sep) + sep + rest.last() =~= first + sep + (
        join(rest.drop_last(), sep) + sep + rest.last()));
    }
}

proof fn lemma_strip_back_end(a: Seq<char>, b: Seq<char>, k: Edge)
    requires
        strip_back(b, k).len() > 0,
    ensures
        strip_back(a + b, k) == a + strip_back(b, k),
    decreases b.len(),
{
    assert((a + b).last() == b.last());
    if k.has(b.last()) {
        assert((a + b).drop_last() =~= a + b.drop_last());
        lemma_strip_back_end(a, b.drop_last(), k);
    }
}

/// The words of a tidy text, with a space between each two, are the text without a space at its
/// end.
proof fn lemma_tidy_words(s: Seq<char>)
    requires
        is_tidy(s),
    ensures
        join(words(s), " "@) == strip_back(s, Edge::White),
    decreases s.len(),
{
    reveal_strlit(" ");
    if s.len() > 0 {
        let n = word_len(s) as int;
        assert(!is_white(s[0]));
        lemma_word_chars(s);
        let word = s.take(n);
        let rest = s.skip(n);
        lemma_word_end(s);
        if n == s.len() {
            assert(words(rest) =~= Seq::<Seq<char>>::empty());
            assert(word =~= s);
            assert(words(s) == seq![word] + words(rest));
            assert(words(s) =~= seq![s]);
            assert(!is_white(s[n - 1]));
        } else {
            let t = s.skip(n + 1);
            assert(is_white(s[n]));
            assert(rest[0] == s[n]);
            assert(rest.skip(1) =~= t);
            assert forall|j: int| 0 <= j < t.len() && is_white(#[trigger] t[j]) implies t[j] == ' '
                && j > 0 && !is_white(t[j - 1]) by {
                assert(t[j] == s[n + 1 + j]);
                assert(s[n + 1 + j - 1] == s[n + j]);
                if j > 0 {
                    assert(t[j - 1] == s[n + j]);
                }
            }
            lemma_tidy_words(t);
            assert(words(rest) == words(t));
            assert(words(s) == seq![word] + words(rest));
            let spaced = s.take(n + 1);
            assert(spaced =~= word + " "@);
            if t.len() == 0 {
                assert(words(s) =~= seq![word]);
                assert(s.drop_last() =~= word);
                assert(!is_white(s[n - 1]));
                assert(strip_back(word, Edge::White) == word);
            } else {
                assert(!is_white(t[0]));
                lemma_word_chars(t);
                lemma_word_end(t);
                assert(words(t).len() > 0);
                lemma_join_cons(word, words(t), " "@);
                lemma_strip_back(t, Edge::White);
                assert(Edge::White.has(t[0]) == is_white(t[0]));
                lemma_strip_back_end(spaced, t, Edge::White);
                assert(s =~= spaced + t);
            }
        }
    } else {
        assert(s =~= Seq::<char>::empty());
    }
}

proof fn lemma_word_end(s: Seq<char>)
    ensures
        s.len() > 0 && !is_white(s[0]) ==> word_len(s) > 0,
        word_len(s) < s.len() ==> is_white(s[word_len(s) as int]),
    decreases s.len(),
{
    if s.len() > 0 && !is_white(s[0]) {
        lemma_word_end(s.skip(1));
    }
}

/// A shortened text does not begin with white space, and has none in it but single spaces.
pub proof fn law_shortened_is_tidy(s: Seq<char>, max: int)
    requires
        0 <= max,
    ensures
        is_tidy(shortened(s, max)),
{
    let all = join(words(s), " "@);
    let short = shortened(s, max);
    lemma_words(s);
    lemma_join_tidy(words(s));
    assert forall|j: int| 0 <= j < short.len() && is_white(#[trigger] short[j]) implies short[j]
        == ' ' && j > 0 && !is_white(short[j - 1]) by {
        assert(short[j] == all[j]);
        assert(short[j - 1] == all[j - 1]);
    }
}

/// Only the words of a text matter for what it is shortened to. To shorten once more takes off
/// nothing but a space at the end, and a smaller limit gives the beginning of what a larger one
/// gives.
pub proof fn law_shortening_again(s: Seq<char>, t: Seq<char>, max: int, less: int)
    requires
        0 <= less <= max,
    ensures
        shortened(shortened(s, max), max) == strip_back(shortened(s, max), Edge::White),
        words(t) == words(s) ==> shortened(t, max) == shortened(s, max),
        shortened(s, less) == if shortened(s, max).len() > less {
            shortened(s, max).take(less)
        } else {
            shortened(s, max)
        },
{
    let all = join(words(s), " "@);
    let short = shortened(s, max);
    law_shortened_is_tidy(s, max);
    lemma_tidy_words(short);
    lemma_strip_back(short, Edge::White);
    if all.len() > less {
        assert(shortened(s, less) =~= short.take(less));
    }
}

// ---------------------------------------------------------------------------------------------
// What the words above mean, told by how texts are put together
// ---------------------------------------------------------------------------------------------
/// A text that stands between two others is found there, and one that is found stands between two
/// others. A text begins with another just where the other stands at its front.
pub proof fn law_found_text_is_there(a: Seq<char>, pat: Seq<char>, b: Seq<char>, s: Seq<char>)
    ensures
        has_text(a + pat + b, pat),
        begins_with(pat + b, pat),
        has_text(s, pat) ==> exists|x: Seq<char>, y: Seq<char>| s == #[trigger] (x + pat + y),
        begins_with(s, pat) ==> s == pat + s.skip(pat.len() as int),
{
    let all = a + pat + b;
    assert(all.subrange(a.len() as int, (a.len() + pat.len()) as int) =~= pat);
    assert(occurs_at(all, pat, a.len() as int));
    assert((pat + b).take(pat.len() as int) =~= pat);
    if has_text(s, pat) {
        let i = choose|i: int| occurs_at(s, pat, i);
        let x = s.take(i);
        let y = s.skip(i + pat.len());
        assert(s =~= x + s.subrange(i, i + pat.len()) + y);
        assert(s == x + pat + y);
    }
    if begins_with(s, pat) {
        assert(s =~= s.take(pat.len() as int) + s.skip(pat.len() as int));
    }
}

/// What is found first has no other before it: where a text stands behind a front, and neither
/// sooner nor across its end, it is found right behind that front.
pub proof fn law_first_is_found(a: Seq<char>, pat: Seq<char>, b: Seq<char>)
    requires
        forall|x: Seq<char>, y: Seq<char>|
            a + pat + b == #[trigger] (x + pat + y) ==> x.len() >= a.len(),
    ensures
        find_from(a + pat + b, pat, 0) == Some(a.len() as int),
{
    let s = a + pat + b;
    assert(s.subrange(a.len() as int, (a.len() + pat.len()) as int) =~= pat);
    assert forall|j: int| 0 <= j < a.len() implies !occurs_at(s, pat, j) by {
        if occurs_at(s, pat, j) {
            let x = s.take(j);
            let y = s.skip(j + pat.len());
            assert(s =~= x + s.subrange(j, j + pat.len()) + y);
            assert(s == x + pat + y);
        }
    }
    lemma_find_from_is(s, pat, 0, a.len() as int);
}

/// Characters of a kind before a text that begins with another one are taken off its front.
pub proof fn lemma_strip_front_behind(front: Seq<char>, rest: Seq<char>, k: Edge)
    requires
        forall|i: int| 0 <= i < front.len() ==> k.has(#[trigger] front[i]),
        rest.len() > 0 ==> !k.has(rest[0]),
    ensures
        strip_front(front + rest, k) == rest,
    decreases front.len(),
{
    let s = front + rest;
    if front.len() > 0 {
        let f = front.skip(1);
        assert(k.has(front[0]) && s[0] == front[0]);
        assert(s.skip(1) =~= f + rest);
        assert forall|i: int| 0 <= i < f.len() implies k.has(#[trigger] f[i]) by {
            assert(f[i] == front[i + 1]);
        }
        lemma_strip_front_behind(f, rest, k);
    } else {
        assert(s =~= rest);
    }
}

proof fn lemma_strip_back_run(rest: Seq<char>, back: Seq<char>, k: Edge)
    requires
        forall|i: int| 0 <= i < back.len() ==> k.has(#[trigger] back[i]),
        rest.len() > 0 ==> !k.has(rest.last()),
    ensures
        strip_back(rest + back, k) == rest,
    decreases back.len(),
{
    let s = rest + back;
    if back.len() > 0 {
        let f = back.drop_last();
        assert(k.has(back[back.len() - 1]) && s.last() == back.last());
        assert(s.drop_last() =~= rest + f);
        assert forall|i: int| 0 <= i < f.len() implies k.has(#[trigger] f[i]) by {
            assert(f[i] == back[i]);
        }
        lemma_strip_back_run(rest, f, k);
    } else {
        assert(s =~= rest);
    }
}

/// Stripping takes off what stands round a text and leaves the text: characters of the kind before
/// it and behind it go, and of the text itself nothing does, as long as it has others at its ends.
pub proof fn law_edges_are_stripped(front: Seq<char>, body: Seq<char>, back: Seq<char>, k: Edge)
    requires
        forall|i: int| 0 <= i < front.len() ==> k.has(#[trigger] front[i]),
        forall|i: int| 0 <= i < back.len() ==> k.has(#[trigger] back[i]),
        body.len() == 0 || (!k.has(body[0]) && !k.has(body.last())),
    ensures
        body.len() > 0 ==> strip_front(front + body + back, k) == body + back,
        body.len() > 0 ==> strip_back(front + body + back, k) == front + body,
        strip(front + body + back, k) == body,
        k is White ==> trim(front + body + back) == body,
{
    let s = front + body + back;
    if body.len() > 0 {
        assert(s =~= front + (body + back));
        lemma_strip_front_behind(front, body + back, k);
        lemma_strip_back_run(body, back, k);
        lemma_strip_back_run(front + body, back, k);
    } else {
        let all = front + back;
        let none = Seq::<char>::empty();
        assert(s =~= all);
        assert forall|i: int| 0 <= i < all.len() implies k.has(#[trigger] all[i]) by {
            if i < front.len() {
                assert(all[i] == front[i]);
            } else {
                assert(all[i] == back[i - front.len()]);
            }
        }
        assert(all + none =~= all);
        lemma_strip_front_behind(all, none, k);
        assert(body =~= none);
    }
}

/// The kinds of characters that are taken off the ends of texts are just these.
pub proof fn law_kinds_of_edges(c: char)
    ensures
        Edge::White.has(c) <==> is_white(c),
        Edge::Quote.has(c) <==> c == '"',
        Edge::Nul.has(c) <==> c as u32 == 0,
        seq!['：', ':', '。', '、', ' ', '　', '\n', '\r', '\t', '-'].contains(c) <==> Edge::Lead.has(c),
{
    let lead = seq!['：', ':', '。', '、', ' ', '　', '\n', '\r', '\t', '-'];
    assert(lead[0] == '：' && lead[1] == ':' && lead[2] == '。' && lead[3] == '、' && lead[4] == ' '
        && lead[5] == '\u{3000}' && lead[6] == '\n' && lead[7] == '\r' && lead[8] == '\t' && lead[9]
        == '-');
}

/// A text is cut at the first character of a kind, and what stands behind the last one is what
/// follows it. Without one, the text stays whole.
pub proof fn law_text_is_cut(a: Seq<char>, c: char, b: Seq<char>)
    ensures
        !a.contains(c) ==> up_to(a + seq![c] + b, c) == a && up_to(a, c) == a,
        !b.contains(c) ==> behind_last(a + seq![c] + b, c) == b && behind_last(b, c) == b,
{
    if !a.contains(c) {
        let s = a + seq![c] + b;
        assert forall|i: int| 0 <= i < a.len() implies s[i] != c && a[i] != c by {
            assert(a.contains(a[i]));
        }
        lemma_run_before_is(s, c, a.len() as int);
        lemma_run_before_is(a, c, a.len() as int);
        assert(s.take(a.len() as int) =~= a);
        assert(a.take(a.len() as int) =~= a);
    }
    if !b.contains(c) {
        lemma_behind_last_end(a + seq![c], b, c);
        lemma_behind_last_end(Seq::empty(), b, c);
        assert((a + seq![c]).last() == c);
        assert(Seq::<char>::empty() + b =~= b);
    }
}

proof fn lemma_behind_last_end(front: Seq<char>, b: Seq<char>, c: char)
    requires
        !b.contains(c),
        front.len() == 0 || front.last() == c,
    ensures
        behind_last(front + b, c) == b,
    decreases b.len(),
{
    let s = front + b;
    if b.len() > 0 {
        let d = b.drop_last();
        assert(b.contains(b[b.len() - 1]));
        assert forall|i: int| 0 <= i < d.len() implies d[i] != c by {
            assert(b.contains(b[i]));
        }
        assert(s.last() == b.last());
        assert(s.drop_last() =~= front + d);
        lemma_behind_last_end(front, d, c);
        assert(d.push(b.last()) =~= b);
    } else {
        assert(s =~= front);
        assert(behind_last(s, c) =~= b);
    }
}

/// The lines of a text: what stands before a line feed is a line, and a carriage return right
/// before the line feed does not belong to it. What stands behind the last line feed is a line
/// where it is not empty.
pub proof fn law_lines_of_text(line: Seq<char>, rest: Seq<char>)
    requires
        !line.contains('\n'),
    ensures
        lines(line + "\r\n"@ + rest) == seq![line] + lines(rest),
        line.len() == 0 || line.last() != '\r' ==> lines(line + "\n"@ + rest) == seq![line] + lines(
            rest,
        ),
        lines(line) == if line.len() == 0 {
            Seq::empty()
        } else {
            seq![line]
        },
{
    reveal_strlit("\r\n");
    reveal_strlit("\n");
    let long = line.push('\r');
    assert forall|i: int| 0 <= i < long.len() implies long[i] != '\n' by {
        if i < line.len() {
            assert(line.contains(line[i]));
        }
    }
    lemma_lines_cons(long, rest);
    assert(line + "\r\n"@ + rest =~= long + "\n"@ + rest);
    assert(long.drop_last() =~= line);
    lemma_lines_cons(line, rest);
    assert forall|i: int| 0 <= i < line.len() implies line[i] != '\n' by {
        assert(line.contains(line[i]));
    }
    lemma_run_before_is(line, '\n', line.len() as int);
}

/// The words of a text: what stands between white space is a word, white space before a word
/// belongs to none, and a text of white space has none.
pub proof fn law_words_of_text(front: Seq<char>, word: Seq<char>, c: char, rest: Seq<char>)
    requires
        forall|i: int| 0 <= i < front.len() ==> is_white(#[trigger] front[i]),
        forall|i: int| 0 <= i < word.len() ==> !is_white(#[trigger] word[i]),
        word.len() > 0,
        is_white(c),
    ensures
        words(front) == Seq::<Seq<char>>::empty(),
        words(front + rest) == words(rest),
        words(front + word) == seq![word],
        words(front + word + seq![c] + rest) == seq![word] + words(rest),
{
    let none = Seq::<char>::empty();
    lemma_words_front(front, rest);
    lemma_words_front(front, none);
    lemma_words_front(front, word);
    assert(front + none =~= front);
    assert(words(none) =~= Seq::<Seq<char>>::empty());
    assert(!is_white(word[0]));
    lemma_word_len(word, word.len() as int);
    assert(word.take(word.len() as int) =~= word);
    assert(word.skip(word.len() as int) =~= none);
    assert(words(word) =~= seq![word]);
    let tail = word + seq![c] + rest;
    lemma_words_front(front, tail);
    assert(front + word + seq![c] + rest =~= front + tail);
    assert forall|i: int| 0 <= i < word.len() implies !is_white(#[trigger] tail[i]) by {
        assert(tail[i] == word[i]);
    }
    lemma_word_len(tail, word.len() as int);
    assert(tail.take(word.len() as int) =~= word);
    assert(!is_white(tail[0]));
    let after = tail.skip(word.len() as int);
    assert(after =~= seq![c] + rest);
    assert(after.skip(1) =~= rest);
    assert(words(tail) == seq![word] + words(after));
}

proof fn lemma_words_front(front: Seq<char>, rest: Seq<char>)
    requires
        forall|i: int| 0 <= i < front.len() ==> is_white(#[trigger] front[i]),
    ensures
        words(front + rest) == words(rest),
    decreases front.len(),
{
    let s = front + rest;
    if front.len() > 0 {
        let f = front.skip(1);
        assert(is_white(front[0]) && s[0] == front[0]);
        assert(s.skip(1) =~= f + rest);
        assert forall|i: int| 0 <= i < f.len() implies is_white(#[trigger] f[i]) by {
            assert(f[i] == front[i + 1]);
        }
        lemma_words_front(f, rest);
    } else {
        assert(s =~= rest);
    }
}

/// Texts are joined in order: another text goes to the end, behind a separator where there was a
/// text before it.
pub proof fn law_texts_are_joined(parts: Seq<Seq<char>>, last: Seq<char>, sep: Seq<char>)
    ensures
        join(Seq::<Seq<char>>::empty(), sep) == Seq::<char>::empty(),
        join(parts.push(last), sep) == if parts.len() == 0 {
            last
        } else {
            join(parts, sep) + sep + last
        },
{
    let all = parts.push(last);
    assert(all.drop_last() =~= parts);
}

/// What needs no shortening is not changed: a text that begins and ends with a dark character and
/// has no white space in it but single spaces stays as it is where it is short enough, and else
/// loses what is too much at its end.
pub proof fn law_tidy_text_is_kept(s: Seq<char>, max: int)
    requires
        0 <= max,
        forall|j: int|
            0 <= j < s.len() && is_white(#[trigger] s[j]) ==> s[j] == ' ' && 0 < j < s.len() - 1
                && !is_white(s[j - 1]),
    ensures
        shortened(s, max) == if s.len() <= max {
            s
        } else {
            s.take(max)
        },
{
    lemma_tidy_words(s);
    if s.len() > 0 {
        assert(!is_white(s[s.len() - 1]));
    }
    assert(strip_back(s, Edge::White) == s);
}

/// Flattening puts a space in the place of each line feed, carriage return and, if asked for, tab,
/// and leaves every other character where it is.
pub proof fn law_flat_text_keeps_the_rest(s: Seq<char>, tabs: bool, i: int)
    requires
        0 <= i < s.len(),
    ensures
        flat(s, tabs).len() == s.len(),
        s[i] == '\n' || s[i] == '\r' ==> flat(s, tabs)[i] == ' ',
        s[i] == '\t' && tabs ==> flat(s, tabs)[i] == ' ',
        s[i] == '\t' && !tabs ==> flat(s, tabs)[i] == '\t',
        s[i] != '\n' && s[i] != '\r' && s[i] != '\t' ==> flat(s, tabs)[i] == s[i],
{
}

/// A text with a dark character in it is not blank.
pub proof fn lemma_dark_text_is_not_blank(s: Seq<char>, i: int)
    requires
        0 <= i < s.len(),
        !is_white(s[i]),
    ensures
        trim(s).len() > 0,
{
    let front = strip_front(s, Edge::White);
    lemma_strip_front(s, Edge::White);
    if front.len() == 0 {
        assert(Edge::White.has(s[i]));
    }
    lemma_strip_back(front, Edge::White);
    if strip_back(front, Edge::White).len() == 0 {
        assert(Edge::White.has(front[0]));
    }
}

/// White space is the tabulator, the line feed and the other three control characters beside them,
/// the space, the next line, and each of the spaces and separators that Unicode has: the no-break
/// space, the ogham mark, the eleven from the en quad to the hair space, the line and the paragraph
/// separator, the narrow no-break space, the mathematical and the ideographic space. A character
/// that can be seen is none, and neither is a zero width space.
pub proof fn law_white_space(c: char)
    ensures
        ({
            let n = c as u32;
            is_white(c) <==> {
                ||| n == 9 || n == 10 || n == 11 || n == 12 || n == 13
                ||| n == 32 || n == 133 || n == 160 || n == 5760
                ||| n == 8192 || n == 8193 || n == 8194 || n == 8195 || n == 8196 || n == 8197
                ||| n == 8198 || n == 8199 || n == 8200 || n == 8201 || n == 8202
                ||| n == 8232 || n == 8233 || n == 8239 || n == 8287 || n == 12288
            }
        }),
{
}

/// What is seen of a list of texts is each of them, in its place.
pub proof fn law_every_text_is_seen(v: Seq<String>, w: Seq<Vec<char>>, i: int)
    ensures
        texts(v).len() == v.len(),
        0 <= i < v.len() ==> texts(v)[i] == v[i]@,
        views(w).len() == w.len(),
        0 <= i < w.len() ==> views(w)[i] == w[i]@,
{
}

/// A text is found just where it is there.
pub proof fn law_only_missing_text_is_not_found(s: Seq<char>, pat: Seq<char>)
    ensures
        find_from(s, pat, 0) is None <==> !has_text(s, pat),
        find_from(s, pat, 0) matches Some(i) ==> 0 <= i && i + pat.len() <= s.len() && s == s.take(i)
            + pat + s.skip(i + pat.len()),
{
    lemma_find_from(s, pat, 0);
    match find_from(s, pat, 0) {
        Some(i) => {
            assert(s =~= s.take(i) + s.subrange(i, i + pat.len()) + s.skip(i + pat.len()));
        },
        None => {},
    }
}

} // verus!
