//! JSON documents as values.
//!
//! Reading and printing JSON and YAML text is the work of `serde_json` and
//! `serde_yaml`. What this crate decides about a document, it decides on a
//! `JsonValue`.
//!
//! `serde_json` keeps one member for each key of an object: where a text
//! holds a key twice, the value that `parse_json` reads has it once. So no
//! manifest is read from text here. Whoever reads the file hands the
//! top-level entries over as they stand in it.

use serde_json::Value;
use vstd::prelude::*;

verus! {

/// A JSON value. A number is held as the text that `serde_json` prints for
/// it; the members of an object are held in the order of the document, and
/// a key may stand among them more than once. A value that `parse_json`
/// or `parse_yaml` read holds no key twice.
#[derive(Debug)]
pub enum JsonValue {
    Null,
    Bool(bool),
    Number(String),
    Text(String),
    Array(Vec<JsonValue>),
    Object(Vec<(String, JsonValue)>),
}

/// What a `JsonValue` stands for.
pub enum Json {
    Null,
    Bool(bool),
    Number(Seq<char>),
    Text(Seq<char>),
    Array(Seq<Json>),
    Object(Seq<(Seq<char>, Json)>),
}

/// What `value` stands for.
pub open spec fn json_of(value: JsonValue) -> Json
    decreases value,
{
    match value {
        JsonValue::Null => Json::Null,
        JsonValue::Bool(b) => Json::Bool(b),
        JsonValue::Number(n) => Json::Number(n@),
        JsonValue::Text(s) => Json::Text(s@),
        JsonValue::Array(items) => Json::Array(
            Seq::new(
                items@.len(),
                |i: int|
                    if 0 <= i < items@.len() {
                        json_of(items@[i])
                    } else {
                        Json::Null
                    },
            ),
        ),
        JsonValue::Object(members) => Json::Object(
            Seq::new(
                members@.len(),
                |i: int|
                    if 0 <= i < members@.len() {
                        (members@[i].0@, json_of(members@[i].1))
                    } else {
                        (Seq::empty(), Json::Null)
                    },
            ),
        ),
    }
}

impl View for JsonValue {
    type V = Json;

    open spec fn view(&self) -> Json {
        json_of(*self)
    }
}

/// What a list of object members stands for.
pub open spec fn members_view(members: Seq<(String, JsonValue)>) -> Seq<(Seq<char>, Json)> {
    Seq::new(members.len(), |i: int| (members[i].0@, members[i].1@))
}

/// What a list of values stands for.
pub open spec fn items_view(items: Seq<JsonValue>) -> Seq<Json> {
    Seq::new(items.len(), |i: int| items[i]@)
}

/// An object stands for the object of what its members stand for.
pub proof fn lemma_object_view(members: Vec<(String, JsonValue)>)
    ensures
        JsonValue::Object(members)@ == Json::Object(members_view(members@)),
{
    assert(JsonValue::Object(members)@->Object_0 =~= members_view(members@));
}

/// An array stands for the array of what its items stand for.
pub proof fn lemma_array_view(items: Vec<JsonValue>)
    ensures
        JsonValue::Array(items)@ == Json::Array(items_view(items@)),
{
    assert(JsonValue::Array(items)@->Array_0 =~= items_view(items@));
}

impl JsonValue {
    /// A copy of the value.
    pub fn duplicate(&self) -> (r: JsonValue)
        ensures
            r@ == self@,
        decreases self,
    {
        match self {
            JsonValue::Null => JsonValue::Null,
            JsonValue::Bool(b) => JsonValue::Bool(*b),
            JsonValue::Number(n) => JsonValue::Number(n.clone()),
            JsonValue::Text(s) => JsonValue::Text(s.clone()),
            JsonValue::Array(items) => {
                let mut copy: Vec<JsonValue> = Vec::new();
                let mut i: usize = 0;
                while i < items.len()
                    invariant
                        i <= items.len(),
                        self is Array,
                        self->Array_0 == *items,
                        copy@.len() == i,
                        forall|j: int| 0 <= j < i ==> copy@[j]@ == items@[j]@,
                    decreases items.len() - i,
                {
                    copy.push(items[i].duplicate());
                    i += 1;
                }
                proof {
                    lemma_array_view(*items);
                    lemma_array_view(copy);
                    assert(items_view(copy@) =~= items_view(items@));
                }
                JsonValue::Array(copy)
            },
            JsonValue::Object(members) => {
                let mut copy: Vec<(String, JsonValue)> = Vec::new();
                let mut i: usize = 0;
                while i < members.len()
                    invariant
                        i <= members.len(),
                        self is Object,
                        self->Object_0 == *members,
                        copy@.len() == i,
                        forall|j: int|
                            0 <= j < i ==> copy@[j].0@ == members@[j].0@ && copy@[j].1@
                                == members@[j].1@,
                    decreases members.len() - i,
                {
                    copy.push((members[i].0.clone(), members[i].1.duplicate()));
                    i += 1;
                }
                proof {
                    lemma_object_view(*members);
                    lemma_object_view(copy);
                    assert(members_view(copy@) =~= members_view(members@));
                }
                JsonValue::Object(copy)
            },
        }
    }
}

impl Clone for JsonValue {
    fn clone(&self) -> (r: JsonValue)
        ensures
            r@ == self@,
    {
        self.duplicate()
    }
}

/// `serde_json::Value`: carried from and to `serde_json`, never read here.
#[verifier::external_type_specification]
#[verifier::external_body]
pub struct ExJsonValue(serde_json::Value);

/// `serde_json::Error`: carried to where its message is taken.
#[verifier::external_type_specification]
#[verifier::external_body]
pub struct ExJsonError(serde_json::Error);

/// `serde_yaml::Error`: carried to where its message is taken.
#[verifier::external_type_specification]
#[verifier::external_body]
pub struct ExYamlError(serde_yaml::Error);

/// The value that `serde_json::from_str` reads from a JSON text, each
/// number as the text that `serde_json` prints for it, or `None` where it
/// refuses the text. It reads a key that an object of the text holds more
/// than once as one member, at the key's first place and with its last
/// value; nothing in this crate rests on that.
pub uninterp spec fn json_parse(text: Seq<char>) -> Option<Json>;

/// The value that `serde_yaml::from_str` reads from a YAML text as a
/// `serde_json::Value`, each number as the text that `serde_json` prints
/// for it, or `None` where it refuses the text.
pub uninterp spec fn yaml_parse(text: Seq<char>) -> Option<Json>;

/// The text that `serde_json::to_string_pretty` prints for a value, or
/// `None` where `serde_json` reads no number from the text of one of the
/// value's numbers.
pub uninterp spec fn json_render(value: Json) -> Option<Seq<char>>;

/// Turns a `serde_json::Value` into a `JsonValue`, variant by variant. A
/// number becomes the text that `serde_json` prints for it. Nothing is
/// claimed of the result.
#[verifier::external_body]
fn from_serde(value: &Value) -> JsonValue {
    match value {
        Value::Null => JsonValue::Null,
        Value::Bool(b) => JsonValue::Bool(*b),
        Value::Number(n) => JsonValue::Number(n.to_string()),
        Value::String(s) => JsonValue::Text(s.clone()),
        Value::Array(a) => JsonValue::Array(a.iter().map(from_serde).collect()),
        Value::Object(m) => JsonValue::Object(
            m.iter().map(|(k, v)| (k.clone(), from_serde(v))).collect(),
        ),
    }
}

/// Turns a `JsonValue` into a `serde_json::Value`, variant by variant. A
/// number is read back with `serde_json::Number`'s `FromStr`, whose error is
/// handed on. Nothing is claimed of the result.
#[verifier::external_body]
fn to_serde(value: &JsonValue) -> Result<Value, serde_json::Error> {
    Ok(
        match value {
            JsonValue::Null => Value::Null,
            JsonValue::Bool(b) => Value::Bool(*b),
            JsonValue::Number(n) => Value::Number(n.parse()?),
            JsonValue::Text(s) => Value::String(s.clone()),
            JsonValue::Array(a) => Value::Array(a.iter().map(to_serde).collect::<Result<_, _>>()?),
            JsonValue::Object(m) => Value::Object(
                m.iter().map(|(k, v)| Ok((k.clone(), to_serde(v)?))).collect::<Result<_, _>>()?,
            ),
        },
    )
}

/// `serde_json::from_str`, reading a `serde_json::Value`, which
/// `from_serde` turns into a `JsonValue`. The contract claims that the
/// outcome depends on the text alone: it is `json_parse` of the text.
#[verifier::external_body]
fn read_json(text: &str) -> (r: Result<JsonValue, serde_json::Error>)
    ensures
        match r {
            Ok(value) => json_parse(text@) == Some(value@),
            Err(_) => json_parse(text@) is None,
        },
{
    serde_json::from_str::<Value>(text).map(|v| from_serde(&v))
}

/// `serde_yaml::from_str`, reading a `serde_json::Value`, which
/// `from_serde` turns into a `JsonValue`. The contract claims that the
/// outcome depends on the text alone: it is `yaml_parse` of the text.
#[verifier::external_body]
fn read_yaml(text: &str) -> (r: Result<JsonValue, serde_yaml::Error>)
    ensures
        match r {
            Ok(value) => yaml_parse(text@) == Some(value@),
            Err(_) => yaml_parse(text@) is None,
        },
{
    serde_yaml::from_str::<Value>(text).map(|v| from_serde(&v))
}

/// `serde_json::to_string_pretty`, printing the `serde_json::Value` that
/// `to_serde` makes of the value. The contract claims that the outcome
/// depends on the value alone: it is `json_render` of the value.
#[verifier::external_body]
fn print_json(value: &JsonValue) -> (r: Result<String, serde_json::Error>)
    ensures
        match r {
            Ok(text) => json_render(value@) == Some(text@),
            Err(_) => json_render(value@) is None,
        },
{
    serde_json::to_string_pretty(&to_serde(value)?)
}

/// `serde_json::Error`'s `Display`: the message of the error.
#[verifier::external_body]
fn json_error_text(error: &serde_json::Error) -> String {
    error.to_string()
}

/// `serde_yaml::Error`'s `Display`: the message of the error.
#[verifier::external_body]
fn yaml_error_text(error: &serde_yaml::Error) -> String {
    error.to_string()
}

/// A text that is no document, with the parser's message.
#[derive(Debug)]
pub struct SyntaxError {
    pub message: String,
}

/// Reads a JSON text. Succeeds exactly where `serde_json` does, with the
/// value it read, in which no object holds a key twice whatever the text
/// holds.
pub fn parse_json(text: &str) -> (r: Result<JsonValue, SyntaxError>)
    ensures
        match r {
            Ok(value) => json_parse(text@) == Some(value@),
            Err(_) => json_parse(text@) is None,
        },
{
    match read_json(text) {
        Ok(value) => Ok(value),
        Err(error) => Err(SyntaxError { message: json_error_text(&error) }),
    }
}

/// Reads a YAML text. Succeeds exactly where `serde_yaml` does, with the
/// value it read.
pub fn parse_yaml(text: &str) -> (r: Result<JsonValue, SyntaxError>)
    ensures
        match r {
            Ok(value) => yaml_parse(text@) == Some(value@),
            Err(_) => yaml_parse(text@) is None,
        },
{
    match read_yaml(text) {
        Ok(value) => Ok(value),
        Err(error) => Err(SyntaxError { message: yaml_error_text(&error) }),
    }
}

/// Prints a value as indented JSON. Succeeds exactly where `serde_json`
/// does, with the text it printed.
pub fn render_json(value: &JsonValue) -> (r: Result<String, SyntaxError>)
    ensures
        match r {
            Ok(text) => json_render(value@) == Some(text@),
            Err(_) => json_render(value@) is None,
        },
{
    match print_json(value) {
        Ok(text) => Ok(text),
        Err(error) => Err(SyntaxError { message: json_error_text(&error) }),
    }
}

} // verus!
