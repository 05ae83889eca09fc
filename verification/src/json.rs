//! JSON documents: the library's own tree, and the parser and printer of `serde_json`.
//!
//! A [`Json`] is what the rest of the library reads and builds. Its view is a
//! [`JsonView`], in which an object is a map: where a key was given twice, the later
//! value holds. `serde_json` turns text into values and values into text; what it
//! accepts and what it prints stand in contracts under the names [`parsed_json`],
//! [`compact_json`] and [`pretty_json`].

use crate::text::same_text;
use vstd::prelude::*;

verus! {

// ---------------------------------------------------------------------------
// The model
// ---------------------------------------------------------------------------

/// A JSON number as a mathematical value.
pub enum NumberView {
    /// An integer of 64 bits without a sign.
    Unsigned(u64),
    /// An integer below zero.
    Negative(i64),
    /// Any other number.
    Float(serde_json::Number),
}

/// A JSON document as a mathematical value.
pub enum JsonView {
    Null,
    Bool(bool),
    Number(NumberView),
    Text(Seq<char>),
    Array(Seq<JsonView>),
    Object(Map<Seq<char>, JsonView>),
}

/// What `m` holds under `key`.
pub open spec fn lookup(m: Map<Seq<char>, JsonView>, key: Seq<char>) -> Option<JsonView> {
    if m.dom().contains(key) {
        Some(m[key])
    } else {
        None
    }
}

impl JsonView {
    /// The number `n`.
    pub open spec fn number(n: nat) -> JsonView {
        JsonView::Number(NumberView::Unsigned(n as u64))
    }

    /// The object without fields.
    pub open spec fn object() -> JsonView {
        JsonView::Object(Map::empty())
    }

    /// The object with `key` set to `value`; anything but an object stays as it is.
    pub open spec fn put(self, key: Seq<char>, value: JsonView) -> JsonView {
        match self {
            JsonView::Object(m) => JsonView::Object(m.insert(key, value)),
            _ => self,
        }
    }

    /// The field `key` of an object.
    pub open spec fn field(self, key: Seq<char>) -> Option<JsonView> {
        match self {
            JsonView::Object(m) => lookup(m, key),
            _ => None,
        }
    }

    /// The element that the path segment `0` leads to: the first of an array, or the
    /// field of that name of an object.
    pub open spec fn zeroth(self) -> Option<JsonView> {
        match self {
            JsonView::Array(items) => if items.len() > 0 {
                Some(items[0])
            } else {
                None
            },
            JsonView::Object(m) => lookup(m, "0"@),
            _ => None,
        }
    }

    /// The text of a string.
    pub open spec fn text(self) -> Option<Seq<char>> {
        match self {
            JsonView::Text(t) => Some(t),
            _ => None,
        }
    }

    /// The elements of an array.
    pub open spec fn items(self) -> Option<Seq<JsonView>> {
        match self {
            JsonView::Array(items) => Some(items),
            _ => None,
        }
    }

    /// The text of the field `key`, where it is a string.
    pub open spec fn text_field(self, key: Seq<char>) -> Option<Seq<char>> {
        match self.field(key) {
            Some(v) => v.text(),
            None => None,
        }
    }

    /// The number of an unsigned integer.
    pub open spec fn unsigned(self) -> Option<u64> {
        match self {
            JsonView::Number(NumberView::Unsigned(n)) => Some(n),
            _ => None,
        }
    }
}

// ---------------------------------------------------------------------------
// The tree
// ---------------------------------------------------------------------------

/// A JSON document.
#[derive(Debug, PartialEq)]
pub enum Json {
    Null,
    Bool(bool),
    Unsigned(u64),
    Signed(i64),
    Number(serde_json::Number),
    Text(String),
    Array(Vec<Json>),
    /// The fields in the order in which they were set; of two with one key the later holds.
    Object(Vec<(String, Json)>),
}

/// The map that a list of fields stands for.
pub open spec fn fields_view(fields: Seq<(String, Json)>) -> Map<Seq<char>, JsonView>
    decreases fields,
{
    if fields.len() == 0 {
        Map::empty()
    } else {
        fields_view(fields.drop_last()).insert(fields.last().0@, fields.last().1.json_view())
    }
}

/// What an integer with a sign stands for.
pub open spec fn signed_view(n: i64) -> NumberView {
    if n >= 0 {
        NumberView::Unsigned(n as u64)
    } else {
        NumberView::Negative(n)
    }
}

impl Json {
    /// The document that the tree stands for.
    pub open spec fn json_view(self) -> JsonView
        decreases self,
    {
        match self {
            Json::Null => JsonView::Null,
            Json::Bool(b) => JsonView::Bool(b),
            Json::Unsigned(n) => JsonView::Number(NumberView::Unsigned(n)),
            Json::Signed(n) => JsonView::Number(signed_view(n)),
            Json::Number(n) => JsonView::Number(number_view(n)),
            Json::Text(t) => JsonView::Text(t@),
            Json::Array(items) => JsonView::Array(
                Seq::new(
                    items@.len(),
                    |i: int|
                        if 0 <= i < items@.len() {
                            items@[i].json_view()
                        } else {
                            JsonView::Null
                        },
                ),
            ),
            Json::Object(fields) => JsonView::Object(fields_view(fields@)),
        }
    }
}

impl View for Json {
    type V = JsonView;

    open spec fn view(&self) -> JsonView {
        self.json_view()
    }
}

/// The views of a sequence of documents.
pub open spec fn json_views(items: Seq<Json>) -> Seq<JsonView> {
    items.map_values(|item: Json| item@)
}

/// The view of an optional reference to a document.
pub open spec fn json_opt(found: Option<&Json>) -> Option<JsonView> {
    match found {
        Some(v) => Some(v@),
        None => None,
    }
}

/// An array's view is that of its elements.
pub proof fn lemma_array_view(items: Vec<Json>)
    ensures
        Json::Array(items)@ == JsonView::Array(json_views(items@)),
{
    let v = Json::Array(items)@;
    assert(v->Array_0 =~= json_views(items@));
}

/// The views of a sequence that one document was pushed to.
pub proof fn lemma_json_views_push(items: Seq<Json>, item: Json)
    ensures
        json_views(items.push(item)) == json_views(items).push(item@),
{
    assert(json_views(items.push(item)) =~= json_views(items).push(item@));
}

/// The map for a list of fields that one field was pushed to.
pub proof fn lemma_fields_push(fields: Seq<(String, Json)>, key: String, value: Json)
    ensures
        fields_view(fields.push((key, value))) == fields_view(fields).insert(key@, value@),
{
    assert(fields.push((key, value)).drop_last() =~= fields);
}

// ---------------------------------------------------------------------------
// serde_json
// ---------------------------------------------------------------------------

#[verifier::external_type_specification]
#[verifier::external_body]
pub struct ExNumber(serde_json::Number);

#[verifier::external_type_specification]
#[verifier::external_body]
pub struct ExValue(serde_json::Value);

/// What a `serde_json::Value` holds.
pub uninterp spec fn value_view(value: serde_json::Value) -> JsonView;

/// What a `serde_json::Number` holds: [`NumberView::Unsigned`] where it is an integer
/// from zero on, [`NumberView::Negative`] where it is one below zero, else
/// [`NumberView::Float`].
pub uninterp spec fn number_view(n: serde_json::Number) -> NumberView;

/// What `serde_json` reads from a text as one document, or the words of its error.
pub uninterp spec fn parsed_json(text: Seq<char>) -> Result<JsonView, Seq<char>>;

/// What `serde_json` prints for a document, on one line.
pub uninterp spec fn compact_json(value: JsonView) -> Seq<char>;

/// What `serde_json` prints for a document with indented lines, or the words of its error.
pub uninterp spec fn pretty_json(value: JsonView) -> Result<Seq<char>, Seq<char>>;

/// `serde_json::Number::clone` gives an equal number.
pub assume_specification[ <serde_json::Number as Clone>::clone ](n: &serde_json::Number) -> (copy:
    serde_json::Number)
    ensures
        copy == *n,
;

/// One level of a `serde_json::Value`.
pub enum ValueParts {
    Null,
    Bool(bool),
    Unsigned(u64),
    Signed(i64),
    Number(serde_json::Number),
    Text(String),
    Array(Vec<serde_json::Value>),
    Object(Vec<(String, serde_json::Value)>),
}

/// The map that a list of fields stands for.
pub open spec fn value_fields_view(fields: Seq<(String, serde_json::Value)>) -> Map<
    Seq<char>,
    JsonView,
>
    decreases fields.len(),
{
    if fields.len() == 0 {
        Map::empty()
    } else {
        value_fields_view(fields.drop_last()).insert(fields.last().0@, value_view(fields.last().1))
    }
}

/// Does each key stand in the list once?
pub open spec fn distinct_keys(fields: Seq<(String, serde_json::Value)>) -> bool {
    forall|i: int, j: int| 0 <= i < j < fields.len() ==> fields[i].0@ != fields[j].0@
}

impl ValueParts {
    /// Does each field of an object have a key of its own?
    pub open spec fn distinct(self) -> bool {
        self matches ValueParts::Object(fields) ==> distinct_keys(fields@)
    }

    /// The document that the level and what hangs below it stand for.
    pub open spec fn parts_view(self) -> JsonView {
        match self {
            ValueParts::Null => JsonView::Null,
            ValueParts::Bool(b) => JsonView::Bool(b),
            ValueParts::Unsigned(n) => JsonView::Number(NumberView::Unsigned(n)),
            ValueParts::Signed(n) => JsonView::Number(signed_view(n)),
            ValueParts::Number(n) => JsonView::Number(number_view(n)),
            ValueParts::Text(t) => JsonView::Text(t@),
            ValueParts::Array(items) => JsonView::Array(
                items@.map_values(|v: serde_json::Value| value_view(v)),
            ),
            ValueParts::Object(fields) => JsonView::Object(value_fields_view(fields@)),
        }
    }
}

/// The variants of `serde_json::Value`, with `Number::as_u64` and `Number::as_i64` to
/// tell the integers: the parts hold what the value held. A `serde_json::Map` holds each
/// key once.
#[verifier::external_body]
fn value_parts(value: serde_json::Value) -> (parts: ValueParts)
    ensures
        parts.parts_view() == value_view(value),
        parts matches ValueParts::Number(n) ==> number_view(n) == NumberView::Float(n),
        parts.distinct(),
{
    match value {
        serde_json::Value::Null => ValueParts::Null,
        serde_json::Value::Bool(b) => ValueParts::Bool(b),
        serde_json::Value::Number(n) => match (n.as_u64(), n.as_i64()) {
            (Some(u), _) => ValueParts::Unsigned(u),
            (None, Some(i)) => ValueParts::Signed(i),
            (None, None) => ValueParts::Number(n),
        },
        serde_json::Value::String(s) => ValueParts::Text(s),
        serde_json::Value::Array(items) => ValueParts::Array(items),
        serde_json::Value::Object(fields) => ValueParts::Object(fields.into_iter().collect()),
    }
}

/// The variants of `serde_json::Value`, with `Number::from` for the integers and the
/// collecting of `serde_json::Map` for the fields of an object, which all have keys of their
/// own: the value holds what the parts held.
#[verifier::external_body]
fn value_from_parts(parts: ValueParts) -> (value: serde_json::Value)
    requires
        parts.distinct(),
    ensures
        value_view(value) == parts.parts_view(),
{
    match parts {
        ValueParts::Null => serde_json::Value::Null,
        ValueParts::Bool(b) => serde_json::Value::Bool(b),
        ValueParts::Unsigned(u) => serde_json::Value::Number(u.into()),
        ValueParts::Signed(i) => serde_json::Value::Number(i.into()),
        ValueParts::Number(n) => serde_json::Value::Number(n),
        ValueParts::Text(s) => serde_json::Value::String(s),
        ValueParts::Array(items) => serde_json::Value::Array(items),
        ValueParts::Object(fields) => serde_json::Value::Object(fields.into_iter().collect()),
    }
}

/// `serde_json::from_str`: what it reads, and the words of its error, depend on the text
/// alone.
#[verifier::external_body]
fn value_from_text(text: &str) -> (read: Result<serde_json::Value, String>)
    ensures
        match read {
            Ok(value) => parsed_json(text@) == Ok::<JsonView, Seq<char>>(value_view(value)),
            Err(e) => parsed_json(text@) == Err::<JsonView, Seq<char>>(e@),
        },
{
    match serde_json::from_str::<serde_json::Value>(text) {
        Ok(value) => Ok(value),
        Err(e) => Err(e.to_string()),
    }
}

/// The `Display` of `serde_json::Value`, which is what `serde_json::to_string` prints:
/// the text depends on what the value holds alone.
#[verifier::external_body]
fn value_text(value: &serde_json::Value) -> (text: String)
    ensures
        text@ == compact_json(value_view(*value)),
{
    value.to_string()
}

/// `serde_json::to_string_pretty`: the text, and the words of its error, depend on what
/// the value holds alone.
#[verifier::external_body]
fn value_pretty(value: &serde_json::Value) -> (text: Result<String, String>)
    ensures
        match text {
            Ok(t) => pretty_json(value_view(*value)) == Ok::<Seq<char>, Seq<char>>(t@),
            Err(e) => pretty_json(value_view(*value)) == Err::<Seq<char>, Seq<char>>(e@),
        },
{
    match serde_json::to_string_pretty(value) {
        Ok(text) => Ok(text),
        Err(e) => Err(e.to_string()),
    }
}

proof fn lemma_value_fields_finite(fields: Seq<(String, serde_json::Value)>)
    ensures
        value_fields_view(fields).dom().finite(),
    decreases fields.len(),
{
    if fields.len() > 0 {
        lemma_value_fields_finite(fields.drop_last());
    }
}

proof fn lemma_value_field(fields: Seq<(String, serde_json::Value)>, i: int)
    requires
        0 <= i < fields.len(),
        distinct_keys(fields),
    ensures
        value_fields_view(fields).dom().contains(fields[i].0@),
        value_fields_view(fields).dom().finite(),
        value_fields_view(fields)[fields[i].0@] == value_view(fields[i].1),
    decreases fields.len(),
{
    lemma_value_fields_finite(fields);
    if i < fields.len() - 1 {
        lemma_value_field(fields.drop_last(), i);
    }
}

/// The tree for a `serde_json::Value`.
fn json_of_value(value: serde_json::Value) -> (json: Json)
    ensures
        json@ == value_view(value),
    decreases value_view(value),
{
    match value_parts(value) {
        ValueParts::Null => Json::Null,
        ValueParts::Bool(b) => Json::Bool(b),
        ValueParts::Unsigned(n) => Json::Unsigned(n),
        ValueParts::Signed(n) => Json::Signed(n),
        ValueParts::Number(n) => Json::Number(n),
        ValueParts::Text(t) => Json::Text(t),
        ValueParts::Array(items) => {
            let mut out: Vec<Json> = Vec::new();
            let ghost all = items@;
            for item in it: items.into_iter()
                invariant
                    it.seq() == all,
                    value_view(value) == JsonView::Array(
                        all.map_values(|v: serde_json::Value| value_view(v)),
                    ),
                    out@.len() == it.index(),
                    forall|k: int| 0 <= k < out@.len() ==> #[trigger] out@[k]@ == value_view(all[k]),
            {
                assert(value_view(item) == value_view(value)->Array_0[it.index() as int]);
                out.push(json_of_value(item));
            }
            proof {
                lemma_array_view(out);
                assert(json_views(out@) =~= value_view(value)->Array_0);
            }
            Json::Array(out)
        },
        ValueParts::Object(fields) => {
            let mut out: Vec<(String, Json)> = Vec::new();
            let ghost all = fields@;
            assert(all.take(0) =~= Seq::empty());
            for field in it: fields.into_iter()
                invariant
                    it.seq() == all,
                    value_view(value) == JsonView::Object(value_fields_view(all)),
                    distinct_keys(all),
                    out@.len() == it.index(),
                    fields_view(out@) == value_fields_view(all.take(it.index() as int)),
            {
                let (key, item) = field;
                proof {
                    lemma_value_field(all, it.index() as int);
                    assert(all.take(it.index() + 1).drop_last() =~= all.take(it.index() as int));
                    let m = value_view(value)->Object_0;
                    assert(decreases_to!(m => m[key@]));
                    assert(decreases_to!(value_view(value) => m));
                }
                let ghost before = out@;
                out.push((key, json_of_value(item)));
                assert(out@.drop_last() =~= before);
            }
            assert(all.take(all.len() as int) =~= all);
            Json::Object(out)
        },
    }
}

/// A field set anew holds its new value, and the others hold theirs.
proof fn lemma_value_field_set(
    fields: Seq<(String, serde_json::Value)>,
    i: int,
    field: (String, serde_json::Value),
)
    requires
        0 <= i < fields.len(),
        distinct_keys(fields),
        fields[i].0@ == field.0@,
    ensures
        distinct_keys(fields.update(i, field)),
        value_fields_view(fields.update(i, field)) == value_fields_view(fields).insert(
            field.0@,
            value_view(field.1),
        ),
    decreases fields.len(),
{
    let set = fields.update(i, field);
    let rest = fields.drop_last();
    assert forall|a: int, b: int| 0 <= a < b < set.len() implies set[a].0@ != set[b].0@ by {
        assert(set[a].0@ == fields[a].0@ && set[b].0@ == fields[b].0@);
    }
    if i == fields.len() - 1 {
        assert(set.drop_last() =~= rest);
    } else {
        lemma_value_field_set(rest, i, field);
        assert(set.drop_last() =~= rest.update(i, field));
        assert(fields.last().0@ != field.0@);
    }
    assert(value_fields_view(set) =~= value_fields_view(fields).insert(
        field.0@,
        value_view(field.1),
    ));
}

/// Sets a field, in place of one with the same key.
fn set_field(fields: &mut Vec<(String, serde_json::Value)>, key: String, value: serde_json::Value)
    requires
        distinct_keys(old(fields)@),
    ensures
        distinct_keys(final(fields)@),
        value_fields_view(final(fields)@) == value_fields_view(old(fields)@).insert(
            key@,
            value_view(value),
        ),
{
    let ghost before = fields@;
    let mut i: usize = 0;
    while i < fields.len()
        invariant
            fields@ == before,
            before == old(fields)@,
            distinct_keys(before),
            i <= before.len(),
            forall|k: int| 0 <= k < i ==> (#[trigger] before[k]).0@ != key@,
        decreases before.len() - i,
    {
        if same_text(fields[i].0.as_str(), key.as_str()) {
            let ghost field = (key, value);
            proof {
                lemma_value_field_set(before, i as int, field);
            }
            fields.set(i, (key, value));
            return;
        }
        i += 1;
    }
    fields.push((key, value));
    assert(fields@.drop_last() =~= before);
}

impl Json {
    /// The `serde_json::Value` for a tree.
    fn to_value(&self) -> (value: serde_json::Value)
        ensures
            value_view(value) == self@,
        decreases self,
    {
        match self {
            Json::Null => value_from_parts(ValueParts::Null),
            Json::Bool(b) => value_from_parts(ValueParts::Bool(*b)),
            Json::Unsigned(n) => value_from_parts(ValueParts::Unsigned(*n)),
            Json::Signed(n) => value_from_parts(ValueParts::Signed(*n)),
            Json::Number(n) => value_from_parts(ValueParts::Number(n.clone())),
            Json::Text(t) => value_from_parts(ValueParts::Text(t.clone())),
            Json::Array(items) => {
                let mut out: Vec<serde_json::Value> = Vec::new();
                let mut i: usize = 0;
                while i < items.len()
                    invariant
                        *self == Json::Array(*items),
                        i <= items@.len(),
                        out@.len() == i,
                        forall|k: int| 0 <= k < i ==> value_view(#[trigger] out@[k]) == items@[k]@,
                    decreases items@.len() - i,
                {
                    proof {
                        assert(decreases_to!(*self => self->Array_0));
                        assert(decreases_to!(*items => items@));
                        assert(decreases_to!(items@ => items@[i as int]));
                    }
                    out.push(items[i].to_value());
                    i += 1;
                }
                proof {
                    lemma_array_view(*items);
                    assert(out@.map_values(|v: serde_json::Value| value_view(v)) =~= json_views(
                        items@,
                    ));
                }
                value_from_parts(ValueParts::Array(out))
            },
            Json::Object(fields) => {
                let mut out: Vec<(String, serde_json::Value)> = Vec::new();
                let mut i: usize = 0;
                assert(fields@.take(0) =~= Seq::empty());
                while i < fields.len()
                    invariant
                        *self == Json::Object(*fields),
                        i <= fields@.len(),
                        distinct_keys(out@),
                        value_fields_view(out@) == fields_view(fields@.take(i as int)),
                    decreases fields@.len() - i,
                {
                    proof {
                        assert(decreases_to!(*self => self->Object_0));
                        assert(decreases_to!(*fields => fields@));
                        assert(decreases_to!(fields@ => fields@[i as int]));
                        assert(decreases_to!(fields@[i as int] => fields@[i as int].1));
                        assert(fields@.take(i + 1).drop_last() =~= fields@.take(i as int));
                    }
                    set_field(&mut out, fields[i].0.clone(), fields[i].1.to_value());
                    i += 1;
                }
                assert(fields@.take(i as int) =~= fields@);
                value_from_parts(ValueParts::Object(out))
            },
        }
    }
}

// ---------------------------------------------------------------------------
// Reading and printing
// ---------------------------------------------------------------------------

impl Json {
    /// Reads one document from `text`, or gives the words of the parser's error.
    pub fn parse(text: &str) -> (read: Result<Json, String>)
        ensures
            match read {
                Ok(json) => parsed_json(text@) == Ok::<JsonView, Seq<char>>(json@),
                Err(e) => parsed_json(text@) == Err::<JsonView, Seq<char>>(e@),
            },
    {
        match value_from_text(text) {
            Ok(value) => Ok(json_of_value(value)),
            Err(e) => Err(e),
        }
    }

    /// The document on one line.
    pub fn compact(&self) -> (text: String)
        ensures
            text@ == compact_json(self@),
    {
        let value = self.to_value();
        value_text(&value)
    }

    /// The document with indented lines.
    pub fn pretty(&self) -> (text: Result<String, String>)
        ensures
            match text {
                Ok(t) => pretty_json(self@) == Ok::<Seq<char>, Seq<char>>(t@),
                Err(e) => pretty_json(self@) == Err::<Seq<char>, Seq<char>>(e@),
            },
    {
        let value = self.to_value();
        value_pretty(&value)
    }

    /// The object without fields.
    pub fn object() -> (json: Json)
        ensures
            json@ == JsonView::object(),
    {
        let fields: Vec<(String, Json)> = Vec::new();
        assert(fields_view(fields@) == Map::<Seq<char>, JsonView>::empty());
        Json::Object(fields)
    }

    /// The string `text`.
    pub fn text(text: &str) -> (json: Json)
        ensures
            json@ == JsonView::Text(text@),
    {
        Json::Text(text.to_owned())
    }

    /// The object with `key` set to `value`; anything but an object stays as it is.
    pub fn put(self, key: &str, value: Json) -> (json: Json)
        ensures
            json@ == self@.put(key@, value@),
    {
        match self {
            Json::Object(fields) => {
                let mut fields: Vec<(String, Json)> = fields;
                let name: String = key.to_owned();
                proof {
                    lemma_fields_push(fields@, name, value);
                }
                fields.push((name, value));
                Json::Object(fields)
            },
            other => other,
        }
    }

    /// The field `key` of an object.
    pub fn get<'a>(&'a self, key: &str) -> (found: Option<&'a Json>)
        ensures
            json_opt(found) == self@.field(key@),
    {
        match self {
            Json::Object(fields) => {
                let mut i: usize = fields.len();
                assert(fields@.take(i as int) =~= fields@);
                while i > 0
                    invariant
                        *self == Json::Object(*fields),
                        i <= fields@.len(),
                        lookup(fields_view(fields@), key@) == lookup(
                            fields_view(fields@.take(i as int)),
                            key@,
                        ),
                    decreases i,
                {
                    proof {
                        let field = fields@[i - 1];
                        lemma_fields_push(fields@.take(i - 1), field.0, field.1);
                        assert(fields@.take(i as int) =~= fields@.take(i - 1).push(field));
                    }
                    if same_text(fields[i - 1].0.as_str(), key) {
                        return Some(&fields[i - 1].1);
                    }
                    i -= 1;
                }
                None
            },
            _ => None,
        }
    }

    /// The element that the path segment `0` leads to.
    pub fn zeroth<'a>(&'a self) -> (found: Option<&'a Json>)
        ensures
            json_opt(found) == self@.zeroth(),
    {
        match self {
            Json::Array(items) => {
                proof {
                    lemma_array_view(*items);
                }
                if items.len() > 0 {
                    Some(&items[0])
                } else {
                    None
                }
            },
            Json::Object(_) => self.get("0"),
            _ => None,
        }
    }

    /// The text of a string.
    pub fn as_text<'a>(&'a self) -> (text: Option<&'a String>)
        ensures
            match text {
                Some(t) => self@.text() == Some(t@),
                None => self@.text() is None,
            },
    {
        match self {
            Json::Text(t) => Some(t),
            _ => None,
        }
    }

    /// The elements of an array.
    pub fn as_items<'a>(&'a self) -> (items: Option<&'a Vec<Json>>)
        ensures
            match items {
                Some(v) => self@.items() == Some(json_views(v@)),
                None => self@.items() is None,
            },
    {
        match self {
            Json::Array(items) => {
                proof {
                    lemma_array_view(*items);
                }
                Some(items)
            },
            _ => None,
        }
    }

    /// The number of an integer from zero on.
    pub fn as_unsigned(&self) -> (n: Option<u64>)
        ensures
            n == self@.unsigned(),
    {
        match self {
            Json::Unsigned(n) => Some(*n),
            Json::Signed(n) => if *n >= 0 {
                Some(*n as u64)
            } else {
                None
            },
            Json::Number(n) => match value_parts(value_from_parts(ValueParts::Number(n.clone()))) {
                ValueParts::Unsigned(u) => Some(u),
                ValueParts::Signed(i) => if i >= 0 {
                    Some(i as u64)
                } else {
                    None
                },
                _ => None,
            },
            _ => None,
        }
    }

    /// The truth value of `true` and `false`.
    pub fn as_bool(&self) -> (b: Option<bool>)
        ensures
            b == (match self@ {
                JsonView::Bool(v) => Some(v),
                _ => None,
            }),
    {
        match self {
            Json::Bool(b) => Some(*b),
            _ => None,
        }
    }

    /// Is this `null`?
    pub fn is_null(&self) -> (null: bool)
        ensures
            null == (self@ is Null),
    {
        match self {
            Json::Null => true,
            _ => false,
        }
    }

    /// The text of the field `key`, where it is a string.
    pub fn text_at(&self, key: &str) -> (text: Option<String>)
        ensures
            crate::text::opt_view(text) == self@.text_field(key@),
    {
        match self.get(key) {
            Some(v) => match v.as_text() {
                Some(t) => Some(t.clone()),
                None => None,
            },
            None => None,
        }
    }

    /// A second document like this one.
    pub fn duplicate(&self) -> (copy: Json)
        ensures
            copy@ == self@,
    {
        json_of_value(self.to_value())
    }
}

// ---------------------------------------------------------------------------
// Laws of documents
// ---------------------------------------------------------------------------

/// A field that was set holds what it was set to, and the others hold what they held; only an
/// object has fields.
pub proof fn law_fields(v: JsonView, key: Seq<char>, other: Seq<char>, value: JsonView, t: Seq<char>)
    ensures
        v is Object ==> {
            &&& v.put(key, value).field(key) == Some(value)
            &&& other != key ==> v.put(key, value).field(other) == v.field(other)
            &&& v.put(key, JsonView::Text(t)).text_field(key) == Some(t)
        },
        !(v is Object) ==> v.put(key, value) == v && v.field(key) is None,
        JsonView::object().field(key) is None,
        !(value is Text) && v is Object ==> v.put(key, value).text_field(key) is None,
{
}

/// A document is read as what it is, and as nothing else.
pub proof fn law_parts_of_a_document(t: Seq<char>, items: Seq<JsonView>, first: JsonView, n: u64)
    ensures
        JsonView::Text(t).text() == Some(t),
        JsonView::Text(t).items() is None && JsonView::Text(t).unsigned() is None,
        JsonView::Array(items).items() == Some(items),
        JsonView::Array(items).text() is None,
        JsonView::Array(seq![first] + items).zeroth() == Some(first),
        JsonView::Array(Seq::empty()).zeroth() is None,
        JsonView::number(n as nat).unsigned() == Some(n),
        JsonView::number(n as nat).text() is None,
        JsonView::Null.text() is None && JsonView::Null.items() is None,
{
    assert((seq![first] + items)[0] == first);
}

/// A number below zero is no unsigned one; any other is itself.
pub proof fn law_signed_numbers(n: i64)
    ensures
        n >= 0 ==> JsonView::Number(signed_view(n)) == JsonView::number(n as nat),
        n < 0 ==> JsonView::Number(signed_view(n)).unsigned() is None,
{
}

} // verus!
