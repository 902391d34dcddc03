//! JSON documents.

use crate::text::same_text;
use vstd::prelude::*;

verus! {

/// A JSON document. A number is kept as the `u64` that it is, if it is one.
#[derive(Debug, PartialEq, Eq)]
pub enum Json {
    Null,
    Bool(bool),
    Number(Option<u64>),
    Text(String),
    Array(Vec<Json>),
    Object(Vec<(String, Json)>),
}

/// A JSON document as contracts speak of it.
pub enum JsonView {
    Null,
    Bool(bool),
    Number(Option<u64>),
    Text(Seq<char>),
    Array(Seq<JsonView>),
    Object(Seq<(Seq<char>, JsonView)>),
}

impl Json {
    pub open spec fn model(self) -> JsonView
        decreases self,
    {
        match self {
            Json::Null => JsonView::Null,
            Json::Bool(b) => JsonView::Bool(b),
            Json::Number(n) => JsonView::Number(n),
            Json::Text(s) => JsonView::Text(s@),
            Json::Array(items) => JsonView::Array(
                Seq::new(
                    items@.len(),
                    |i: int|
                        if 0 <= i < items@.len() {
                            items@[i].model()
                        } else {
                            JsonView::Null
                        },
                ),
            ),
            Json::Object(fields) => JsonView::Object(
                Seq::new(
                    fields@.len(),
                    |i: int|
                        if 0 <= i < fields@.len() {
                            (fields@[i].0@, fields@[i].1.model())
                        } else {
                            (Seq::empty(), JsonView::Null)
                        },
                ),
            ),
        }
    }
}

impl View for Json {
    type V = JsonView;

    open spec fn view(&self) -> JsonView {
        self.model()
    }
}

/// A JSON value of the `serde_json` crate.
#[verifier::external_type_specification]
#[verifier::external_body]
pub struct ExValue(serde_json::Value);

/// An error of the `serde_json` crate.
#[verifier::external_type_specification]
#[verifier::external_body]
pub struct ExJsonError(serde_json::Error);

/// What a `serde_json::Value` holds: its variant with the fields of it, a number
/// as the `u64` that it is, if it is one, an object as its entries in the order
/// of its iterator.
pub uninterp spec fn value_contents(v: serde_json::Value) -> JsonView;

/// The document that `serde_json::from_str` reads from a text, if the text is
/// one JSON value within the depth that the crate reads.
pub uninterp spec fn json_of_text(text: Seq<char>) -> Option<JsonView>;

/// The outermost layer of a `serde_json::Value`.
enum Layer<'a> {
    Null,
    Bool(bool),
    Number(Option<u64>),
    Text(&'a String),
    Array(&'a Vec<serde_json::Value>),
    Object(Vec<(&'a String, &'a serde_json::Value)>),
}

/// Whether `layer` is the outermost layer of the document `m`.
spec fn is_layer_of(layer: Layer<'_>, m: JsonView) -> bool {
    match layer {
        Layer::Null => m == JsonView::Null,
        Layer::Bool(b) => m == JsonView::Bool(b),
        Layer::Number(n) => m == JsonView::Number(n),
        Layer::Text(s) => m == JsonView::Text(s@),
        Layer::Array(items) => {
            &&& m matches JsonView::Array(views)
            &&& views.len() == items@.len()
            &&& forall|i: int|
                0 <= i < items@.len() ==> #[trigger] views[i] == value_contents(items@[i])
        },
        Layer::Object(fields) => {
            &&& m matches JsonView::Object(views)
            &&& views.len() == fields@.len()
            &&& forall|i: int|
                0 <= i < fields@.len() ==> #[trigger] views[i] == (
                    fields@[i].0@,
                    value_contents(*fields@[i].1),
                )
        },
    }
}

/// Calls `serde_json::from_str` for a `serde_json::Value`: it succeeds on the
/// texts that are one JSON document, with that document as its value.
#[verifier::external_body]
fn value_from_str(text: &str) -> (r: Result<serde_json::Value, serde_json::Error>)
    ensures
        match r {
            Ok(v) => json_of_text(text@) == Some(value_contents(v)),
            Err(_) => json_of_text(text@) is None,
        },
{
    serde_json::from_str(text)
}

/// Tells the variants of a `serde_json::Value` apart and borrows what they hold;
/// of a number, what `serde_json::Number::as_u64` returns; of an object, the
/// entries that `serde_json::Map::iter` yields.
#[verifier::external_body]
fn layer(v: &serde_json::Value) -> (r: Layer<'_>)
    ensures
        is_layer_of(r, value_contents(*v)),
{
    match v {
        serde_json::Value::Null => Layer::Null,
        serde_json::Value::Bool(b) => Layer::Bool(*b),
        serde_json::Value::Number(n) => Layer::Number(n.as_u64()),
        serde_json::Value::String(s) => Layer::Text(s),
        serde_json::Value::Array(items) => Layer::Array(items),
        serde_json::Value::Object(fields) => Layer::Object(fields.iter().collect()),
    }
}

/// The document in a `serde_json::Value`.
fn from_value(v: &serde_json::Value) -> (r: Json)
    ensures
        r@ == value_contents(*v),
    decreases value_contents(*v),
{
    let ghost m = value_contents(*v);
    match layer(v) {
        Layer::Null => Json::Null,
        Layer::Bool(b) => Json::Bool(b),
        Layer::Number(n) => Json::Number(n),
        Layer::Text(s) => Json::Text(s.clone()),
        Layer::Array(items) => {
            let mut out: Vec<Json> = Vec::new();
            for i in 0..items.len()
                invariant
                    m == value_contents(*v),
                    m matches JsonView::Array(views) && views.len() == items@.len() && forall|k: int|
                        0 <= k < items@.len() ==> #[trigger] views[k] == value_contents(items@[k]),
                    out@.len() == i,
                    forall|k: int| 0 <= k < i ==> #[trigger] out@[k]@ == value_contents(items@[k]),
            {
                proof {
                    let views = m->Array_0;
                    assert(views[i as int] == value_contents(items@[i as int]));
                    assert(decreases_to!(m => views));
                    assert(decreases_to!(views => views[i as int]));
                }
                let item = from_value(&items[i]);
                out.push(item);
            }
            let ghost done = out@;
            let r = Json::Array(out);
            proof {
                assert forall|k: int| 0 <= k < done.len() implies r@->Array_0[k]
                    == m->Array_0[k] by {
                    assert(done[k]@ == value_contents(items@[k]));
                }
                assert(r@->Array_0 =~= m->Array_0);
            }
            r
        },
        Layer::Object(fields) => {
            let mut out: Vec<(String, Json)> = Vec::new();
            for i in 0..fields.len()
                invariant
                    m == value_contents(*v),
                    m matches JsonView::Object(views) && views.len() == fields@.len()
                        && forall|k: int|
                        0 <= k < fields@.len() ==> #[trigger] views[k] == (
                            fields@[k].0@,
                            value_contents(*fields@[k].1),
                        ),
                    out@.len() == i,
                    forall|k: int|
                        0 <= k < i ==> (#[trigger] out@[k]).0@ == fields@[k].0@ && out@[k].1@
                            == value_contents(*fields@[k].1),
            {
                proof {
                    let views = m->Object_0;
                    assert(views[i as int].1 == value_contents(*fields@[i as int].1));
                    assert(decreases_to!(m => views));
                    assert(decreases_to!(views => views[i as int]));
                    assert(decreases_to!(views[i as int] => views[i as int].1));
                }
                let key: String = fields[i].0.clone();
                let item = from_value(fields[i].1);
                out.push((key, item));
            }
            let r = Json::Object(out);
            assert(r@->Object_0 =~= m->Object_0);
            r
        },
    }
}

/// Reads a JSON document.
pub fn parse_json(text: &str) -> (r: Option<Json>)
    ensures
        match r {
            Some(doc) => json_of_text(text@) == Some(doc@),
            None => json_of_text(text@) is None,
        },
{
    match value_from_str(text) {
        Ok(v) => Some(from_value(&v)),
        Err(_) => None,
    }
}

/// The value of the first field named `key`.
pub open spec fn find_field(fields: Seq<(Seq<char>, JsonView)>, key: Seq<char>) -> Option<JsonView>
    decreases fields.len(),
{
    if fields.len() == 0 {
        None
    } else if fields[0].0 == key {
        Some(fields[0].1)
    } else {
        find_field(fields.skip(1), key)
    }
}

impl JsonView {
    /// The field `key` of an object.
    pub open spec fn field(self, key: Seq<char>) -> Option<JsonView> {
        match self {
            JsonView::Object(fields) => find_field(fields, key),
            _ => None,
        }
    }

    /// The field `key` of an object, if it is a number that a `u64` can hold.
    pub open spec fn u64_field(self, key: Seq<char>) -> Option<u64> {
        match self.field(key) {
            Some(JsonView::Number(n)) => n,
            _ => None,
        }
    }

    /// The field `key` of an object, if it is a text.
    pub open spec fn text_field(self, key: Seq<char>) -> Option<Seq<char>> {
        match self.field(key) {
            Some(JsonView::Text(s)) => Some(s),
            _ => None,
        }
    }

    /// The field `key` of an object, if it is an array.
    pub open spec fn array_field(self, key: Seq<char>) -> Option<Seq<JsonView>> {
        match self.field(key) {
            Some(JsonView::Array(items)) => Some(items),
            _ => None,
        }
    }
}

impl Json {
    /// The field `key` of an object.
    pub fn field(&self, key: &str) -> (r: Option<&Json>)
        ensures
            match r {
                Some(v) => self@.field(key@) == Some(v@),
                None => self@.field(key@) is None,
            },
    {
        match self {
            Json::Object(fields) => {
                let ghost views = self@->Object_0;
                assert(views.skip(0) =~= views);
                for i in 0..fields.len()
                    invariant
                        *self == Json::Object(*fields),
                        views == self@->Object_0,
                        find_field(views, key@) == find_field(views.skip(i as int), key@),
                {
                    assert(views.skip(i as int)[0] == (fields@[i as int].0@, fields@[i as int].1@));
                    assert(views.skip(i as int).skip(1) =~= views.skip(i + 1));
                    if same_text(&fields[i].0, key) {
                        return Some(&fields[i].1);
                    }
                }
                None
            },
            _ => None,
        }
    }

    /// The field `key` of an object, if it is a number that a `u64` can hold.
    pub fn u64_field(&self, key: &str) -> (r: Option<u64>)
        ensures
            r == self@.u64_field(key@),
    {
        match self.field(key) {
            Some(Json::Number(n)) => *n,
            _ => None,
        }
    }

    /// The field `key` of an object, if it is a text.
    pub fn text_field(&self, key: &str) -> (r: Option<&String>)
        ensures
            match r {
                Some(s) => self@.text_field(key@) == Some(s@),
                None => self@.text_field(key@) is None,
            },
    {
        match self.field(key) {
            Some(Json::Text(s)) => Some(s),
            _ => None,
        }
    }

    /// The field `key` of an object, if it is an array.
    pub fn array_field(&self, key: &str) -> (r: Option<&Vec<Json>>)
        ensures
            match r {
                Some(items) => self@.array_field(key@) == Some(json_views(items@)),
                None => self@.array_field(key@) is None,
            },
    {
        match self.field(key) {
            Some(Json::Array(items)) => {
                assert(Json::Array(*items)@->Array_0 =~= json_views(items@));
                Some(items)
            },
            _ => None,
        }
    }
}

/// A list of documents as contracts speak of it.
pub open spec fn json_views(items: Seq<Json>) -> Seq<JsonView> {
    items.map_values(|v: Json| v@)
}

} // verus!
