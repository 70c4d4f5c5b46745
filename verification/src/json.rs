//! JSON: what the replies of the `herdr` command line hold.

use crate::text;
use vstd::prelude::*;
use vstd::string::*;

verus! {

/// A JSON value. Numbers carry nothing: no reply is read for one.
pub enum Json {
    Null,
    Bool(bool),
    Number,
    Str(String),
    Array(Vec<Json>),
    /// The fields, in order.
    Object(Vec<(String, Json)>),
}

/// What a JSON value holds.
pub enum JsonView {
    Null,
    Bool(bool),
    Number,
    Str(Seq<char>),
    Array(Seq<JsonView>),
    Object(Seq<(Seq<char>, JsonView)>),
}

impl View for Json {
    type V = JsonView;

    open spec fn view(&self) -> JsonView
        decreases self,
    {
        match self {
            Json::Null => JsonView::Null,
            Json::Bool(b) => JsonView::Bool(*b),
            Json::Number => JsonView::Number,
            Json::Str(s) => JsonView::Str(s@),
            Json::Array(items) => JsonView::Array(
                Seq::new(
                    items@.len(),
                    |i: int|
                        if 0 <= i < items@.len() {
                            items@[i].view()
                        } else {
                            JsonView::Null
                        },
                ),
            ),
            Json::Object(fields) => JsonView::Object(
                Seq::new(
                    fields@.len(),
                    |i: int|
                        if 0 <= i < fields@.len() {
                            (fields@[i].0@, fields@[i].1.view())
                        } else {
                            (Seq::<char>::empty(), JsonView::Null)
                        },
                ),
            ),
        }
    }
}

/// The value that `serde_json` parses text to.
#[verifier::external_type_specification]
#[verifier::external_body]
pub struct ExValue(serde_json::Value);

/// What a parsed `serde_json::Value` holds.
pub uninterp spec fn value_json(v: serde_json::Value) -> JsonView;

/// What `serde_json::from_str` parses the text to; `None` when it refuses it.
pub uninterp spec fn json_of_text(text: Seq<char>) -> Option<JsonView>;

/// One level of a parsed value, its parts still unopened.
pub enum Node {
    Null,
    Bool(bool),
    Number,
    Str(String),
    Array(Vec<serde_json::Value>),
    Object(Vec<(String, serde_json::Value)>),
}

/// What a node holds.
pub open spec fn node_json(node: Node) -> JsonView {
    match node {
        Node::Null => JsonView::Null,
        Node::Bool(b) => JsonView::Bool(b),
        Node::Number => JsonView::Number,
        Node::Str(s) => JsonView::Str(s@),
        Node::Array(items) => JsonView::Array(
            items@.map_values(|v: serde_json::Value| value_json(v)),
        ),
        Node::Object(fields) => JsonView::Object(
            fields@.map_values(|f: (String, serde_json::Value)| (f.0@, value_json(f.1))),
        ),
    }
}

/// `serde_json::from_str::<serde_json::Value>`: what the text parses to is a
/// function of the text alone, and so is whether it is refused.
#[verifier::external_body]
fn parse_value(text: &str) -> (r: Option<serde_json::Value>)
    ensures
        r is Some <==> json_of_text(text@) is Some,
        r is Some ==> value_json(r->0) == json_of_text(text@)->0,
{
    serde_json::from_str(text).ok()
}

/// The variants of `serde_json::Value` told apart: the node holds what the
/// value held, an object's fields in the order of its map.
#[verifier::external_body]
fn open_value(v: serde_json::Value) -> (r: Node)
    ensures
        node_json(r) == value_json(v),
{
    match v {
        serde_json::Value::Null => Node::Null,
        serde_json::Value::Bool(b) => Node::Bool(b),
        serde_json::Value::Number(_) => Node::Number,
        serde_json::Value::String(s) => Node::Str(s),
        serde_json::Value::Array(items) => Node::Array(items),
        serde_json::Value::Object(fields) => Node::Object(fields.into_iter().collect()),
    }
}

/// The parsed value as the palette's own JSON.
fn json_of_value(v: serde_json::Value) -> (r: Json)
    ensures
        r@ == value_json(v),
    decreases value_json(v),
{
    let ghost held = value_json(v);
    match open_value(v) {
        Node::Null => Json::Null,
        Node::Bool(b) => Json::Bool(b),
        Node::Number => Json::Number,
        Node::Str(s) => Json::Str(s),
        Node::Array(items) => {
            let ghost all = items@;
            let mut out: Vec<Json> = Vec::new();
            for item in it: items
                invariant
                    it.seq() == all,
                    out@.len() == it.index(),
                    held == value_json(v),
                    held == JsonView::Array(all.map_values(|v: serde_json::Value| value_json(v))),
                    forall|i: int|
                        0 <= i < out@.len() ==> (#[trigger] out@[i])@ == value_json(all[i]),
            {
                assert(held->Array_0[it.index() as int] == value_json(item));
                out.push(json_of_value(item));
            }
            let r = Json::Array(out);
            assert(r@->Array_0 =~= held->Array_0);
            r
        },
        Node::Object(fields) => {
            let ghost all = fields@;
            let mut out: Vec<(String, Json)> = Vec::new();
            for field in it: fields
                invariant
                    it.seq() == all,
                    out@.len() == it.index(),
                    held == value_json(v),
                    held == JsonView::Object(
                        all.map_values(
                            |f: (String, serde_json::Value)| (f.0@, value_json(f.1)),
                        ),
                    ),
                    forall|i: int|
                        #![trigger out@[i]]
                        0 <= i < out@.len() ==> out@[i].0@ == all[i].0@ && out@[i].1@ == value_json(
                            all[i].1,
                        ),
            {
                let (name, value) = field;
                assert(held->Object_0[it.index() as int] == (name@, value_json(value)));
                assert(decreases_to!(held => held->Object_0[it.index() as int].1));
                out.push((name, json_of_value(value)));
            }
            let r = Json::Object(out);
            assert(r@->Object_0 =~= held->Object_0);
            r
        },
    }
}

/// The text as JSON; `None` when it is not JSON.
pub fn parse_json(text: &str) -> (r: Option<Json>)
    ensures
        opt_json(r) == json_of_text(text@),
{
    match parse_value(text) {
        Some(v) => Some(json_of_value(v)),
        None => None,
    }
}

/// What an optional value holds.
pub open spec fn opt_json(v: Option<Json>) -> Option<JsonView> {
    match v {
        Some(v) => Some(v@),
        None => None,
    }
}

/// What an optional reference to a value holds.
pub open spec fn opt_json_ref(v: Option<&Json>) -> Option<JsonView> {
    match v {
        Some(v) => Some(v@),
        None => None,
    }
}

/// What each value of a list holds.
pub open spec fn jsons(list: Seq<Json>) -> Seq<JsonView> {
    list.map_values(|v: Json| v@)
}

/// The value of the first of `fields` that is named `name`.
pub open spec fn first_named(fields: Seq<(Seq<char>, JsonView)>, name: Seq<char>) -> Option<
    JsonView,
>
    decreases fields.len(),
{
    if fields.len() == 0 {
        None
    } else if fields[0].0 == name {
        Some(fields[0].1)
    } else {
        first_named(fields.drop_first(), name)
    }
}

impl JsonView {
    /// The field `name` of an object.
    pub open spec fn field(self, name: Seq<char>) -> Option<JsonView> {
        match self {
            JsonView::Object(fields) => first_named(fields, name),
            _ => None,
        }
    }

    /// The text of a string.
    pub open spec fn text(self) -> Option<Seq<char>> {
        match self {
            JsonView::Str(s) => Some(s),
            _ => None,
        }
    }

    /// The values of an array.
    pub open spec fn values(self) -> Option<Seq<JsonView>> {
        match self {
            JsonView::Array(items) => Some(items),
            _ => None,
        }
    }

    /// The text of the field `name`, where it is a string.
    pub open spec fn text_field(self, name: Seq<char>) -> Option<Seq<char>> {
        match self.field(name) {
            Some(v) => v.text(),
            None => None,
        }
    }

    /// Whether the field `name` is `true`.
    pub open spec fn true_field(self, name: Seq<char>) -> bool {
        self.field(name) == Some(JsonView::Bool(true))
    }
}

/// What each of a list of fields holds.
pub open spec fn field_jsons(fields: Seq<(String, Json)>) -> Seq<(Seq<char>, JsonView)> {
    fields.map_values(|f: (String, Json)| (f.0@, f.1@))
}

/// An array holds what its values hold.
pub proof fn lemma_array_holds(items: Vec<Json>)
    ensures
        Json::Array(items)@ == JsonView::Array(jsons(items@)),
{
    assert(Json::Array(items)@->Array_0 =~= jsons(items@));
}

/// An object holds what its fields hold.
pub proof fn lemma_object_holds(fields: Vec<(String, Json)>)
    ensures
        Json::Object(fields)@ == JsonView::Object(field_jsons(fields@)),
{
    reveal_with_fuel(<Json as View>::view, 2);
    assert(Json::Object(fields)@->Object_0 =~= field_jsons(fields@));
}

impl Json {
    /// The field `name` of an object.
    pub fn get(&self, name: &str) -> (r: Option<&Json>)
        ensures
            opt_json_ref(r) == self@.field(name@),
    {
        match self {
            Json::Object(fields) => {
                let ghost held = field_jsons(fields@);
                proof {
                    lemma_object_holds(*fields);
                }
                let mut i: usize = 0;
                assert(held.skip(0) == held);
                while i < fields.len()
                    invariant
                        i <= fields@.len(),
                        held == field_jsons(fields@),
                        first_named(held.skip(i as int), name@) == first_named(held, name@),
                        self@ == JsonView::Object(held),
                    decreases fields@.len() - i,
                {
                    assert(held.skip(i as int)[0] == held[i as int]);
                    assert(held.skip(i as int).drop_first() == held.skip(i + 1));
                    if fields[i].0.as_str().eq(name) {
                        return Some(&fields[i].1);
                    }
                    i += 1;
                }
                None
            },
            _ => None,
        }
    }

    /// The text of a string.
    pub fn as_str(&self) -> (r: Option<&str>)
        ensures
            text::opt_str(r) == self@.text(),
    {
        match self {
            Json::Str(s) => Some(s.as_str()),
            _ => None,
        }
    }

    /// The values of an array.
    pub fn as_array(&self) -> (r: Option<&Vec<Json>>)
        ensures
            r is Some <==> self@.values() is Some,
            r is Some ==> jsons(r->0@) == self@.values()->0,
    {
        match self {
            Json::Array(items) => {
                proof {
                    lemma_array_holds(*items);
                }
                Some(items)
            },
            _ => None,
        }
    }

    /// The text of the field `name`, where it is a string.
    pub fn get_str(&self, name: &str) -> (r: Option<&str>)
        ensures
            text::opt_str(r) == self@.text_field(name@),
    {
        match self.get(name) {
            Some(v) => v.as_str(),
            None => None,
        }
    }

    /// Whether the field `name` is `true`.
    pub fn get_true(&self, name: &str) -> (r: bool)
        ensures
            r == self@.true_field(name@),
    {
        match self.get(name) {
            Some(Json::Bool(b)) => *b,
            _ => false,
        }
    }
}

proof fn lemma_first_named(fields: Seq<(Seq<char>, JsonView)>, name: Seq<char>, i: int)
    requires
        0 <= i <= fields.len(),
        forall|j: int| 0 <= j < i ==> (#[trigger] fields[j]).0 != name,
        i < fields.len() ==> fields[i].0 == name,
    ensures
        first_named(fields, name) == if i < fields.len() {
            Some(fields[i].1)
        } else {
            None
        },
    decreases i,
{
    if i > 0 {
        assert(fields[0].0 != name);
        let rest = fields.drop_first();
        assert forall|j: int| 0 <= j < i - 1 implies (#[trigger] rest[j]).0 != name by {
            assert(rest[j] == fields[j + 1]);
        }
        lemma_first_named(rest, name, i - 1);
    }
}

/// A field of an object is the first of that name; nothing else has fields.
pub proof fn law_field_is_the_first_of_its_name(
    fields: Seq<(Seq<char>, JsonView)>,
    name: Seq<char>,
    i: int,
)
    requires
        0 <= i <= fields.len(),
        forall|j: int| 0 <= j < i ==> (#[trigger] fields[j]).0 != name,
        i < fields.len() ==> fields[i].0 == name,
    ensures
        JsonView::Object(fields).field(name) == if i < fields.len() {
            Some(fields[i].1)
        } else {
            None
        },
        forall|v: JsonView| !(v is Object) ==> (#[trigger] v.field(name)) is None,
{
    lemma_first_named(fields, name, i);
}

/// Only strings have a text, only arrays have values, and only the value `true`
/// is taken for true.
pub proof fn law_values_are_read_by_their_type(v: JsonView, name: Seq<char>, s: Seq<char>)
    ensures
        v.text() == Some(s) <==> v == JsonView::Str(s),
        v.text() is Some <==> v is Str,
        v.values() is Some <==> v is Array,
        v is Array ==> v == JsonView::Array(v.values()->0),
        v.text_field(name) == Some(s) <==> v.field(name) == Some(JsonView::Str(s)),
        v.true_field(name) <==> v.field(name) == Some(JsonView::Bool(true)),
{
}

} // verus!
