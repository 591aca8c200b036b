//! The order of texts: by their first differing character.

use vstd::prelude::*;

use crate::text;

verus! {

/// `a` comes before `b`: it is a proper beginning of `b`, or has the smaller character where the
/// two first differ.
pub open spec fn before(a: Seq<char>, b: Seq<char>) -> bool
    decreases a.len(),
{
    if b.len() == 0 {
        false
    } else if a.len() == 0 {
        true
    } else if a[0] != b[0] {
        a[0] < b[0]
    } else {
        before(a.skip(1), b.skip(1))
    }
}

/// No text comes before itself.
pub proof fn lemma_irreflexive(a: Seq<char>)
    ensures
        !before(a, a),
    decreases a.len(),
{
    if a.len() > 0 {
        lemma_irreflexive(a.skip(1));
    }
}

/// The order is transitive.
pub proof fn lemma_transitive(a: Seq<char>, b: Seq<char>, c: Seq<char>)
    requires
        before(a, b),
        before(b, c),
    ensures
        before(a, c),
    decreases a.len(),
{
    if a.len() > 0 && a[0] == b[0] && b[0] == c[0] {
        lemma_transitive(a.skip(1), b.skip(1), c.skip(1));
    }
}

/// Of two different texts one comes before the other.
pub proof fn lemma_total(a: Seq<char>, b: Seq<char>)
    ensures
        before(a, b) || a == b || before(b, a),
    decreases a.len(),
{
    if a.len() == 0 && b.len() == 0 {
        assert(a =~= b);
    } else if a.len() > 0 && b.len() > 0 && a[0] == b[0] {
        lemma_total(a.skip(1), b.skip(1));
        if a.skip(1) == b.skip(1) {
            assert(a =~= seq![a[0]] + a.skip(1));
            assert(b =~= seq![b[0]] + b.skip(1));
            assert(a == b);
        }
    }
}

/// Whether `a` comes before `b`.
pub fn is_before(a: &str, b: &str) -> (r: bool)
    ensures
        r == before(a@, b@),
{
    let x: Vec<char> = text::to_chars(a);
    let y: Vec<char> = text::to_chars(b);
    let mut i: usize = 0;
    assert(x@.skip(0) =~= x@);
    assert(y@.skip(0) =~= y@);
    while i < x.len() && i < y.len()
        invariant
            i <= x.len(),
            i <= y.len(),
            x@ == a@,
            y@ == b@,
            before(a@, b@) == before(x@.skip(i as int), y@.skip(i as int)),
        decreases x.len() - i,
    {
        proof {
            assert(x@.skip(i as int).skip(1) =~= x@.skip(i + 1));
            assert(y@.skip(i as int).skip(1) =~= y@.skip(i + 1));
        }
        if x[i] != y[i] {
            return x[i] < y[i];
        }
        i = i + 1;
    }
    i < y.len()
}

/// Each text comes before the next: the list is sorted and holds nothing twice.
pub open spec fn ascending(s: Seq<Seq<char>>) -> bool {
    forall|i: int, j: int| 0 <= i < j < s.len() ==> before(#[trigger] s[i], #[trigger] s[j])
}

/// A set of texts, which hands them out in order.
pub struct TextSet {
    items: Vec<String>,
}

impl TextSet {
    /// The texts of the set in order.
    pub closed spec fn listed(self) -> Seq<Seq<char>> {
        text::texts(self.items@)
    }

    /// The texts of the set.
    pub open spec fn view(self) -> Set<Seq<char>> {
        self.listed().to_set()
    }

    /// The list is in order and holds nothing twice.
    pub open spec fn valid(self) -> bool {
        ascending(self.listed())
    }

    /// The set without texts.
    pub fn new() -> (r: TextSet)
        ensures
            r.valid(),
            r@ == Set::<Seq<char>>::empty(),
            r.listed() == Seq::<Seq<char>>::empty(),
    {
        let r: TextSet = TextSet { items: Vec::new() };
        assert(r.listed() =~= Seq::<Seq<char>>::empty());
        assert(r@ =~= Set::<Seq<char>>::empty());
        r
    }

    /// Puts a text into the set.
    pub fn insert(&mut self, s: String)
        requires
            old(self).valid(),
        ensures
            final(self).valid(),
            final(self)@ == old(self)@.insert(s@),
    {
        let ghost was = self.listed();
        let mut i: usize = 0;
        while i < self.items.len() && is_before(self.items[i].as_str(), s.as_str())
            invariant
                i <= self.items.len(),
                self.listed() == was,
                was.len() == self.items@.len(),
                forall|j: int| 0 <= j < i ==> before(#[trigger] was[j], s@),
            decreases self.items.len() - i,
        {
            assert(was[i as int] == self.items@[i as int]@);
            i = i + 1;
        }
        if i < self.items.len() && text::same_text(self.items[i].as_str(), s.as_str()) {
            proof {
                assert(was[i as int] == s@);
                assert(self@ =~= self@.insert(s@));
            }
            return;
        }
        let ghost view = s@;
        self.items.insert(i, s);
        proof {
            let now = self.listed();
            assert(now =~= was.insert(i as int, view));
            if i < was.len() {
                lemma_total(was[i as int], view);
            }
            assert forall|j: int, k: int| 0 <= j < k < now.len() implies before(
                #[trigger] now[j],
                #[trigger] now[k],
            ) by {
                if j < i && k == i {
                } else if j == i {
                    assert(now[k] == was[k - 1]);
                    if k - 1 > i {
                        lemma_transitive(view, was[i as int], was[k - 1]);
                    }
                } else {
                    let j0 = if j < i {
                        j
                    } else {
                        j - 1
                    };
                    let k0 = if k < i {
                        k
                    } else {
                        k - 1
                    };
                    assert(before(was[j0], was[k0]));
                }
            }
            assert forall|t: Seq<char>| now.to_set().contains(t) <==> was.to_set().insert(
                view,
            ).contains(t) by {
                if now.contains(t) {
                    let j = choose|j: int| 0 <= j < now.len() && now[j] == t;
                    if j != i {
                        let j0 = if j < i {
                            j
                        } else {
                            j - 1
                        };
                        assert(was[j0] == t);
                    }
                }
                if was.contains(t) {
                    let j = choose|j: int| 0 <= j < was.len() && was[j] == t;
                    let j0 = if j < i {
                        j
                    } else {
                        j + 1
                    };
                    assert(now[j0] == t);
                }
                assert(now[i as int] == view);
            }
            assert(now.to_set() =~= was.to_set().insert(view));
        }
    }

    /// Puts every text of another set into this one.
    pub fn extend(&mut self, other: &TextSet)
        requires
            old(self).valid(),
        ensures
            final(self).valid(),
            final(self)@ == old(self)@.union(other@),
    {
        let ghost was = self@;
        let ghost rest = other.listed();
        let mut i: usize = 0;
        assert(rest.take(0).to_set() =~= Set::<Seq<char>>::empty());
        assert(was.union(rest.take(0).to_set()) =~= was);
        while i < other.items.len()
            invariant
                i <= other.items.len(),
                self.valid(),
                rest == text::texts(other.items@),
                self@ == was.union(rest.take(i as int).to_set()),
            decreases other.items.len() - i,
        {
            self.insert(other.items[i].clone());
            proof {
                let a = rest.take(i as int);
                let b = rest.take(i + 1);
                assert(b =~= a.push(other.items@[i as int]@));
                assert forall|t: Seq<char>| b.to_set().contains(t) <==> a.to_set().insert(
                    other.items@[i as int]@,
                ).contains(t) by {
                    if a.contains(t) {
                        let j = choose|j: int| 0 <= j < a.len() && a[j] == t;
                        assert(b[j] == t);
                    }
                    assert(b[i as int] == other.items@[i as int]@);
                }
                assert(self@ =~= was.union(b.to_set()));
            }
            i = i + 1;
        }
        assert(rest.take(rest.len() as int) =~= rest);
    }

    /// The texts of the set in order.
    pub fn into_list(self) -> (r: Vec<String>)
        requires
            self.valid(),
        ensures
            text::texts(r@) == self.listed(),
            ascending(text::texts(r@)),
            text::texts(r@).to_set() == self@,
    {
        self.items
    }
}

proof fn lemma_same_front(p: Seq<char>, a: Seq<char>, b: Seq<char>)
    ensures
        before(p + a, p + b) == before(a, b),
    decreases p.len(),
{
    if p.len() > 0 {
        let q = p.skip(1);
        lemma_same_front(q, a, b);
        assert((p + a)[0] == p[0] && (p + b)[0] == p[0]);
        assert((p + a).skip(1) =~= q + a);
        assert((p + b).skip(1) =~= q + b);
    } else {
        assert(p + a =~= a);
        assert(p + b =~= b);
    }
}

/// Two texts are ordered by the first characters in which they differ, whatever comes before and
/// behind, and a text comes before every longer one that begins with it.
pub proof fn law_first_difference_decides(
    front: Seq<char>,
    a: char,
    s: Seq<char>,
    b: char,
    t: Seq<char>,
)
    ensures
        a < b ==> before(front + (seq![a] + s), front + (seq![b] + t)) && !before(
            front + (seq![b] + t),
            front + (seq![a] + s),
        ),
        before(front, front + (seq![a] + s)),
        !before(front + (seq![a] + s), front),
{
    let none = Seq::<char>::empty();
    let x = seq![a] + s;
    let y = seq![b] + t;
    assert(x[0] == a && y[0] == b);
    lemma_same_front(front, x, y);
    lemma_same_front(front, y, x);
    lemma_same_front(front, none, x);
    lemma_same_front(front, x, none);
    assert(front + none =~= front);
}

/// A set holds just the texts that it lists, each of them once and in order.
pub proof fn law_set_holds_what_it_lists(set: TextSet, t: Seq<char>, i: int, j: int)
    requires
        set.valid(),
    ensures
        set@.contains(t) <==> set.listed().contains(t),
        0 <= i < j < set.listed().len() ==> before(set.listed()[i], set.listed()[j])
            && set.listed()[i] != set.listed()[j],
{
    if 0 <= i < j < set.listed().len() {
        assert(before(set.listed()[i], set.listed()[j]));
        lemma_irreflexive(set.listed()[i]);
    }
}

} // verus!
