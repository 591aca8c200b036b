//! JSON documents as plain data.

use vstd::prelude::*;

use crate::order::before;
use crate::text;

verus! {

/// A fraction of a JSON document, carried along unread.
#[verifier::external_type_specification]
#[verifier::external_body]
pub struct ExJsonNumber(serde_json::Number);

/// A JSON document as `serde_json` holds it.
#[verifier::external_type_specification]
#[verifier::external_body]
pub struct ExJsonValue(serde_json::Value);

/// The reason why a text is no JSON document.
#[verifier::external_type_specification]
#[verifier::external_body]
pub struct ExJsonError(serde_json::Error);

/// A JSON document.
pub enum Json {
    /// `null`.
    Null,
    /// `true` or `false`.
    Bool(bool),
    /// A whole number that is not negative.
    Unsigned(u64),
    /// A negative whole number.
    Negative(i64),
    /// A number that is no whole number, or too large for the two above.
    Fraction(serde_json::Number),
    /// A string.
    Text(String),
    /// An array.
    List(Vec<Json>),
    /// An object: its entries, in the order of their keys.
    Object(Vec<(String, Json)>),
}

/// What is seen of a JSON document.
pub enum JsonView {
    /// `null`.
    Null,
    /// `true` or `false`.
    Bool(bool),
    /// A whole number that is not negative.
    Unsigned(u64),
    /// A negative whole number.
    Negative(i64),
    /// A number that is no whole number, or too large for the two above.
    Fraction(serde_json::Number),
    /// A string.
    Text(Seq<char>),
    /// An array.
    List(Seq<JsonView>),
    /// An object.
    Object(Seq<(Seq<char>, JsonView)>),
}

impl Json {
    /// What is seen of the document.
    pub open spec fn view(&self) -> JsonView
        decreases self,
    {
        match self {
            Json::Null => JsonView::Null,
            Json::Bool(b) => JsonView::Bool(*b),
            Json::Unsigned(n) => JsonView::Unsigned(*n),
            Json::Negative(n) => JsonView::Negative(*n),
            Json::Fraction(n) => JsonView::Fraction(*n),
            Json::Text(s) => JsonView::Text(s@),
            Json::List(v) => JsonView::List(
                Seq::new(
                    v@.len(),
                    |i: int|
                        if 0 <= i < v@.len() {
                            v@[i].view()
                        } else {
                            JsonView::Null
                        },
                ),
            ),
            Json::Object(v) => JsonView::Object(
                Seq::new(
                    v@.len(),
                    |i: int|
                        if 0 <= i < v@.len() {
                            (v@[i].0@, v@[i].1.view())
                        } else {
                            (Seq::empty(), JsonView::Null)
                        },
                ),
            ),
        }
    }
}

// ---------------------------------------------------------------------------------------------
// Reading a document
// ---------------------------------------------------------------------------------------------
/// The value of the first entry with this key.
pub open spec fn entry(es: Seq<(Seq<char>, JsonView)>, key: Seq<char>) -> Option<JsonView>
    decreases es.len(),
{
    if es.len() == 0 {
        None
    } else if es[0].0 == key {
        Some(es[0].1)
    } else {
        entry(es.skip(1), key)
    }
}

/// The value that an object has under a key.
pub open spec fn member(v: JsonView, key: Seq<char>) -> Option<JsonView> {
    match v {
        JsonView::Object(es) => entry(es, key),
        _ => None,
    }
}

/// The value that an object has under a key, and `null` where there is none.
pub open spec fn field(v: JsonView, key: Seq<char>) -> JsonView {
    match member(v, key) {
        Some(x) => x,
        None => JsonView::Null,
    }
}

/// The characters of a string.
pub open spec fn as_text(v: JsonView) -> Option<Seq<char>> {
    match v {
        JsonView::Text(s) => Some(s),
        _ => None,
    }
}

/// The truth value.
pub open spec fn as_bool(v: JsonView) -> Option<bool> {
    match v {
        JsonView::Bool(b) => Some(b),
        _ => None,
    }
}

/// The items of an array, and none of anything else.
pub open spec fn items(v: JsonView) -> Seq<JsonView> {
    match v {
        JsonView::List(xs) => xs,
        _ => Seq::empty(),
    }
}

/// The string under a key, and the empty text where there is none.
pub open spec fn text_or_empty(v: JsonView, key: Seq<char>) -> Seq<char> {
    match as_text(field(v, key)) {
        Some(s) => s,
        None => Seq::empty(),
    }
}

/// What is seen of a text that may be missing.
pub open spec fn opt_view(o: Option<String>) -> Option<Seq<char>> {
    match o {
        Some(s) => Some(s@),
        None => None,
    }
}

/// What is seen of a list of documents.
pub open spec fn list_view(v: Seq<Json>) -> Seq<JsonView> {
    Seq::new(v.len(), |i: int| v[i]@)
}

impl Json {
    /// The value that an object has under a key.
    pub fn get(&self, key: &str) -> (r: Option<&Json>)
        ensures
            match r {
                Some(x) => member(self@, key@) == Some(x@),
                None => member(self@, key@) is None,
            },
    {
        match self {
            Json::Object(es) => {
                let ghost all = self@->Object_0;
                let mut i: usize = 0;
                assert(all.skip(0) =~= all);
                while i < es.len()
                    invariant
                        i <= es.len(),
                        self@ == JsonView::Object(all),
                        all.len() == es@.len(),
                        forall|j: int|
                            0 <= j < es@.len() ==> #[trigger] all[j] == (es@[j].0@, es@[j].1@),
                        entry(all, key@) == entry(all.skip(i as int), key@),
                    decreases es.len() - i,
                {
                    assert(all.skip(i as int)[0] == all[i as int]);
                    if text::same_text(es[i].0.as_str(), key) {
                        return Some(&es[i].1);
                    }
                    assert(all.skip(i as int).skip(1) =~= all.skip(i + 1));
                    i = i + 1;
                }
                None
            },
            _ => None,
        }
    }

    /// The string under a key.
    pub fn text_at(&self, key: &str) -> (r: Option<String>)
        ensures
            opt_view(r) == as_text(field(self@, key@)),
    {
        match self.get(key) {
            Some(Json::Text(s)) => Some(text::copy(s.as_str())),
            _ => None,
        }
    }

    /// The string under a key, and the empty text where there is none.
    pub fn text_or_empty_at(&self, key: &str) -> (r: String)
        ensures
            r@ == text_or_empty(self@, key@),
    {
        match self.text_at(key) {
            Some(s) => s,
            None => String::new(),
        }
    }

    /// The truth value under a key.
    pub fn bool_at(&self, key: &str) -> (r: Option<bool>)
        ensures
            r == as_bool(field(self@, key@)),
    {
        match self.get(key) {
            Some(Json::Bool(b)) => Some(*b),
            _ => None,
        }
    }

    /// The items of the array under a key.
    pub fn list_at(&self, key: &str) -> (r: Option<&Vec<Json>>)
        ensures
            match r {
                Some(v) => field(self@, key@) == JsonView::List(list_view(v@)),
                None => !(field(self@, key@) is List),
            },
    {
        match self.get(key) {
            Some(Json::List(v)) => {
                proof {
                    let x = field(self@, key@);
                    assert(x->List_0 =~= list_view(v@));
                }
                Some(v)
            },
            _ => None,
        }
    }
}

// ---------------------------------------------------------------------------------------------
// Documents as text
// ---------------------------------------------------------------------------------------------
/// The document that a text holds, where it holds one: what `serde_json::from_str` gives.
pub uninterp spec fn json_text(s: Seq<char>) -> Option<JsonView>;

/// The document as indented text: what `serde_json::to_string_pretty` gives.
pub uninterp spec fn json_pretty(v: JsonView) -> Seq<char>;

/// The document as text on one line: what the `Display` of `serde_json::Value` gives.
pub uninterp spec fn json_line(v: JsonView) -> Seq<char>;

/// The most arrays and objects that enclose one another in a document that is read.
pub const MAX_DEPTH: usize = 127;

/// The objects of the document list their keys in order and once each, its negative numbers are
/// negative, and no more than `depth` arrays and objects enclose one another.
pub open spec fn regular(v: JsonView, depth: nat) -> bool
    decreases depth,
{
    match v {
        JsonView::Null => true,
        JsonView::Bool(_) => true,
        JsonView::Unsigned(_) => true,
        JsonView::Negative(n) => n < 0,
        JsonView::Fraction(_) => true,
        JsonView::Text(_) => true,
        JsonView::List(xs) => depth > 0 && forall|i: int|
            0 <= i < xs.len() ==> #[trigger] regular(xs[i], (depth - 1) as nat),
        JsonView::Object(es) => {
            &&& depth > 0
            &&& forall|i: int|
                0 <= i < es.len() ==> regular((#[trigger] es[i]).1, (depth - 1) as nat)
            &&& forall|i: int, j: int|
                0 <= i < j < es.len() ==> before((#[trigger] es[i]).0, (#[trigger] es[j]).0)
        },
    }
}

/// No number in the document is a fraction.
pub open spec fn is_whole(v: JsonView) -> bool
    decreases v,
{
    match v {
        JsonView::Fraction(_) => false,
        JsonView::List(xs) => forall|i: int| 0 <= i < xs.len() ==> is_whole(#[trigger] xs[i]),
        JsonView::Object(es) => forall|i: int|
            0 <= i < es.len() ==> is_whole((#[trigger] es[i]).1),
        _ => true,
    }
}

/// A number.
pub open spec fn is_number(v: JsonView) -> bool {
    v is Unsigned || v is Negative || v is Fraction
}

/// The two documents are the same, but that for a fraction of the first one the second one may have
/// another number.
pub open spec fn same_but_fractions(a: JsonView, b: JsonView) -> bool
    decreases a,
{
    match a {
        JsonView::Fraction(_) => is_number(b),
        JsonView::List(xs) => match b {
            JsonView::List(ys) => xs.len() == ys.len() && forall|i: int|
                0 <= i < xs.len() ==> same_but_fractions(#[trigger] xs[i], ys[i]),
            _ => false,
        },
        JsonView::Object(es) => match b {
            JsonView::Object(fs) => es.len() == fs.len() && forall|i: int|
                0 <= i < es.len() ==> (#[trigger] es[i]).0 == fs[i].0 && same_but_fractions(
                    es[i].1,
                    fs[i].1,
                ),
            _ => false,
        },
        _ => a == b,
    }
}

/// Where no number is a fraction, documents that are the same but for fractions are the same.
pub proof fn lemma_same_whole(a: JsonView, b: JsonView)
    requires
        is_whole(a),
        same_but_fractions(a, b),
    ensures
        a == b,
    decreases a,
{
    match a {
        JsonView::List(xs) => {
            let ys = b->List_0;
            assert forall|i: int| 0 <= i < xs.len() implies xs[i] == ys[i] by {
                assert(is_whole(xs[i]) && same_but_fractions(xs[i], ys[i]));
                lemma_same_whole(xs[i], ys[i]);
            }
            assert(xs =~= ys);
        },
        JsonView::Object(es) => {
            let fs = b->Object_0;
            assert forall|i: int| 0 <= i < es.len() implies es[i] == fs[i] by {
                assert(is_whole(es[i].1) && same_but_fractions(es[i].1, fs[i].1));
                lemma_same_whole(es[i].1, fs[i].1);
            }
            assert(es =~= fs);
        },
        _ => {},
    }
}

/// The same document as plain data: each kind of `serde_json::Value` becomes the kind of the
/// same name here, a number the kind that `serde_json::Number` holds, and an object its entries in
/// the order in which `serde_json::Map` lists them.
#[verifier::external_body]
fn json_of(v: serde_json::Value) -> Json {
    match v {
        serde_json::Value::Null => Json::Null,
        serde_json::Value::Bool(b) => Json::Bool(b),
        serde_json::Value::Number(n) => match (n.as_u64(), n.as_i64()) {
            (Some(u), _) => Json::Unsigned(u),
            (None, Some(i)) => Json::Negative(i),
            (None, None) => Json::Fraction(n),
        },
        serde_json::Value::String(s) => Json::Text(s),
        serde_json::Value::Array(a) => Json::List(a.into_iter().map(json_of).collect()),
        serde_json::Value::Object(m) => Json::Object(
            m.into_iter().map(|e| (e.0, json_of(e.1))).collect(),
        ),
    }
}

/// The same document as `serde_json::Value` holds it: `json_of` the other way round.
#[verifier::external_body]
fn value_of(j: &Json) -> serde_json::Value {
    match j {
        Json::Null => serde_json::Value::Null,
        Json::Bool(b) => serde_json::Value::Bool(*b),
        Json::Unsigned(n) => serde_json::Value::Number((*n).into()),
        Json::Negative(n) => serde_json::Value::Number((*n).into()),
        Json::Fraction(n) => serde_json::Value::Number(n.clone()),
        Json::Text(s) => serde_json::Value::String(s.clone()),
        Json::List(a) => serde_json::Value::Array(a.iter().map(value_of).collect()),
        Json::Object(m) => serde_json::Value::Object(
            m.iter().map(|e| (e.0.clone(), value_of(&e.1))).collect(),
        ),
    }
}

/// `serde_json::from_str`: whether the text is a JSON document, and which one, depends on the
/// text alone, and has a name here. The keys of each object come in order and once each, and what
/// is nested more deeply than the reader follows is no document.
#[verifier::external_body]
fn read_value(s: &str) -> (r: Result<Json, serde_json::Error>)
    ensures
        match r {
            Ok(j) => json_text(s@) == Some(j@) && regular(j@, MAX_DEPTH as nat),
            Err(_) => json_text(s@) is None,
        },
{
    serde_json::from_str::<serde_json::Value>(s).map(json_of)
}

/// `serde_json::to_string_pretty`: the text depends on the document alone, and has a name here.
/// It reads back as the same document but for fractions, as long as that lists the keys of each
/// object in order and is not nested more deeply than the reader follows. For a fraction some
/// number is read back; which one is left unsaid, as it need not be the same to the last bit.
#[verifier::external_body]
pub(crate) fn pretty_json(j: &Json) -> (r: String)
    ensures
        r@ == json_pretty(j@),
        regular(j@, MAX_DEPTH as nat) ==> json_text(r@) is Some && same_but_fractions(
            j@,
            json_text(r@)->0,
        ),
{
    serde_json::to_string_pretty(&value_of(j)).unwrap_or_default()
}

/// The `Display` of `serde_json::Value`: the text depends on the document alone, and has a name
/// here. Of `null` and of truth values it is the word for them.
#[verifier::external_body]
fn display_json(j: &Json) -> (r: String)
    ensures
        r@ == json_line(j@),
        j@ is Null ==> r@ == "null"@,
        j@ == JsonView::Bool(true) ==> r@ == "true"@,
        j@ == JsonView::Bool(false) ==> r@ == "false"@,
{
    value_of(j).to_string()
}

/// What an object has under a key as text on one line, and `null` where it has nothing.
pub fn field_text(j: &Json, key: &str) -> (r: String)
    ensures
        r@ == json_line(field(j@, key@)),
        field(j@, key@) is Null ==> r@ == "null"@,
        field(j@, key@) == JsonView::Bool(true) ==> r@ == "true"@,
        field(j@, key@) == JsonView::Bool(false) ==> r@ == "false"@,
{
    match j.get(key) {
        Some(x) => display_json(x),
        None => display_json(&Json::Null),
    }
}

/// The document that a text holds, where it holds one.
pub fn parse_json(s: &str) -> (r: Option<Json>)
    ensures
        match r {
            Some(j) => json_text(s@) == Some(j@) && regular(j@, MAX_DEPTH as nat),
            None => json_text(s@) is None,
        },
{
    match read_value(s) {
        Ok(j) => Some(j),
        Err(_) => None,
    }
}

/// An object has under a key what its first entry with that key holds, and nothing where no entry
/// has the key.
pub proof fn law_entry_is_found(
    front: Seq<(Seq<char>, JsonView)>,
    key: Seq<char>,
    value: JsonView,
    rest: Seq<(Seq<char>, JsonView)>,
)
    requires
        forall|i: int| 0 <= i < front.len() ==> (#[trigger] front[i]).0 != key,
    ensures
        member(JsonView::Object(front), key) is None,
        field(JsonView::Object(front), key) is Null,
        member(JsonView::Object(front + seq![(key, value)] + rest), key) == Some(value),
        field(JsonView::Object(front + seq![(key, value)] + rest), key) == value,
    decreases front.len(),
{
    let all = front + seq![(key, value)] + rest;
    if front.len() > 0 {
        let f = front.skip(1);
        assert forall|i: int| 0 <= i < f.len() implies (#[trigger] f[i]).0 != key by {
            assert(f[i] == front[i + 1]);
        }
        law_entry_is_found(f, key, value, rest);
        assert(all[0] == front[0]);
        assert(all.skip(1) =~= f + seq![(key, value)] + rest);
    } else {
        assert(all[0] == (key, value));
    }
}

/// A string, a truth value and an array are read as what they are, and nothing else is read as one
/// of them. What is no object has nothing under any key.
pub proof fn law_values_are_read(v: JsonView, key: Seq<char>)
    ensures
        as_text(v) == if v is Text {
            Some(v->Text_0)
        } else {
            None
        },
        as_bool(v) == if v is Bool {
            Some(v->Bool_0)
        } else {
            None
        },
        items(v) == if v is List {
            v->List_0
        } else {
            Seq::empty()
        },
        !(v is Object) ==> member(v, key) is None && field(v, key) is Null,
        text_or_empty(v, key) == if field(v, key) is Text {
            field(v, key)->Text_0
        } else {
            Seq::empty()
        },
{
}

/// What is seen of a document is what it holds: the same kind of value with the same contents, item
/// by item and entry by entry.
pub proof fn law_document_is_seen(
    b: bool,
    n: u64,
    s: String,
    list: Vec<Json>,
    object: Vec<(String, Json)>,
    i: int,
)
    ensures
        Json::Null@ is Null,
        Json::Bool(b)@ == JsonView::Bool(b),
        Json::Unsigned(n)@ == JsonView::Unsigned(n),
        Json::Text(s)@ == JsonView::Text(s@),
        Json::List(list)@ is List && Json::List(list)@->List_0.len() == list@.len(),
        0 <= i < list@.len() ==> Json::List(list)@->List_0[i] == list@[i]@,
        Json::Object(object)@ is Object && Json::Object(object)@->Object_0.len() == object@.len(),
        0 <= i < object@.len() ==> Json::Object(object)@->Object_0[i] == (
            object@[i].0@,
            object@[i].1@,
        ),
        list_view(list@).len() == list@.len(),
        0 <= i < list@.len() ==> list_view(list@)[i] == list@[i]@,
        opt_view(Some(s)) == Some(s@),
        opt_view(None) is None,
{
    reveal_with_fuel(Json::view, 2);
}

} // verus!
