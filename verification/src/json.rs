//! JSON values as plain data.
//!
//! Reading and writing JSON text is left to `serde_json`. What is read
//! becomes a value of the library's own, which the library's code looks
//! into and builds; a number is held as its text.

use crate::text::{ascii_digit, chars_of, is_ascii_digit, same_text};
use vstd::prelude::*;

verus! {

/// A JSON value. The fields of an object are held in order; of fields with
/// the same key the last one counts.
#[derive(Debug)]
pub enum Json {
    Null,
    Bool(bool),
    Number(String),
    Text(String),
    List(Vec<Json>),
    Object(Vec<(String, Json)>),
}

/// A JSON value as specifications speak of it.
pub enum JsonModel {
    Null,
    Bool(bool),
    Number(Seq<char>),
    Text(Seq<char>),
    List(Seq<JsonModel>),
    Object(Seq<(Seq<char>, JsonModel)>),
}

/// The values that the elements of a list stand for.
pub open spec fn models(items: Seq<Json>) -> Seq<JsonModel> {
    Seq::new(items.len(), |i: int| items[i].model())
}

/// The fields that the fields of an object stand for.
pub open spec fn field_models(fields: Seq<(String, Json)>) -> Seq<(Seq<char>, JsonModel)> {
    Seq::new(fields.len(), |i: int| (fields[i].0@, fields[i].1.model()))
}

impl Json {
    /// The value that this value stands for.
    pub open spec fn model(&self) -> JsonModel
        decreases self,
    {
        match self {
            Json::Null => JsonModel::Null,
            Json::Bool(b) => JsonModel::Bool(*b),
            Json::Number(n) => JsonModel::Number(n@),
            Json::Text(t) => JsonModel::Text(t@),
            Json::List(items) => JsonModel::List(
                Seq::new(
                    items@.len(),
                    |i: int|
                        if 0 <= i < items@.len() {
                            items@[i].model()
                        } else {
                            JsonModel::Null
                        },
                ),
            ),
            Json::Object(fields) => JsonModel::Object(
                Seq::new(
                    fields@.len(),
                    |i: int|
                        if 0 <= i < fields@.len() {
                            (fields@[i].0@, fields@[i].1.model())
                        } else {
                            (Seq::empty(), JsonModel::Null)
                        },
                ),
            ),
        }
    }

    /// The model of a list is the list of the models.
    pub proof fn lemma_list_model(items: Vec<Json>)
        ensures
            Json::List(items).model() == JsonModel::List(models(items@)),
    {
        assert(Json::List(items).model()->List_0 =~= models(items@));
    }

    /// The model of an object is the list of the models of its fields.
    pub proof fn lemma_object_model(fields: Vec<(String, Json)>)
        ensures
            Json::Object(fields).model() == JsonModel::Object(field_models(fields@)),
    {
        assert(Json::Object(fields).model()->Object_0 =~= field_models(fields@));
    }

    /// A copy of the value.
    #[verifier::loop_isolation(false)]
    pub fn copy(&self) -> (r: Json)
        ensures
            r.model() == self.model(),
        decreases self,
    {
        match self {
            Json::Null => Json::Null,
            Json::Bool(b) => Json::Bool(*b),
            Json::Number(n) => Json::Number(n.clone()),
            Json::Text(t) => Json::Text(t.clone()),
            Json::List(items) => {
                let mut out: Vec<Json> = Vec::new();
                let mut i: usize = 0;
                while i < items.len()
                    invariant
                        i <= items.len(),
                        out@.len() == i,
                        forall|j: int| 0 <= j < i ==> (#[trigger] out@[j]).model() == items@[j].model(),
                    decreases items.len() - i,
                {
                    proof {
                        vstd::std_specs::vec::axiom_vec_index_decreases(*items, i as int);
                        assert(decreases_to!(*items => items[i as int]));
                        assert(decreases_to!(*self => *items));
                    }
                    out.push(items[i].copy());
                    i += 1;
                }
                proof {
                    Json::lemma_list_model(out);
                    Json::lemma_list_model(*items);
                    assert(models(out@) =~= models(items@));
                }
                Json::List(out)
            },
            Json::Object(fields) => {
                let mut out: Vec<(String, Json)> = Vec::new();
                let mut i: usize = 0;
                while i < fields.len()
                    invariant
                        i <= fields.len(),
                        out@.len() == i,
                        forall|j: int|
                            0 <= j < i ==> (#[trigger] out@[j]).0@ == fields@[j].0@
                                && out@[j].1.model() == fields@[j].1.model(),
                    decreases fields.len() - i,
                {
                    proof {
                        vstd::std_specs::vec::axiom_vec_index_decreases(*fields, i as int);
                        assert(decreases_to!(*fields => fields[i as int]));
                        assert(decreases_to!(*self => *fields));
                    }
                    let value = fields[i].1.copy();
                    out.push((fields[i].0.clone(), value));
                    i += 1;
                }
                proof {
                    Json::lemma_object_model(out);
                    Json::lemma_object_model(*fields);
                    assert(field_models(out@) =~= field_models(fields@));
                }
                Json::Object(out)
            },
        }
    }
}

// ---------------------------------------------------------------------------
// Reading and writing
// ---------------------------------------------------------------------------

/// What `serde_json::from_str` makes of a text: the value it stands for, or
/// the message of the error.
pub uninterp spec fn parsed_json(text: Seq<char>) -> Result<JsonModel, Seq<char>>;

/// What `serde_json::to_string` makes of a value: its text, or the message
/// of the error.
pub uninterp spec fn rendered(value: JsonModel) -> Result<Seq<char>, Seq<char>>;

/// What `serde_json::to_string_pretty` makes of a value: its text on
/// several lines, or the message of the error.
pub uninterp spec fn rendered_pretty(value: JsonModel) -> Result<Seq<char>, Seq<char>>;

/// `serde_json::Value`, the JSON value of `serde_json`. Nothing is known
/// of what it holds.
#[verifier::external_type_specification]
#[verifier::external_body]
pub struct ExValue(serde_json::Value);

/// Turns a value of `serde_json` into one of the library, variant by
/// variant; a number becomes the text that `Number` shows itself as.
#[verifier::external_body]
fn from_value(value: &serde_json::Value) -> Json {
    match value {
        serde_json::Value::Null => Json::Null,
        serde_json::Value::Bool(b) => Json::Bool(*b),
        serde_json::Value::Number(n) => Json::Number(n.to_string()),
        serde_json::Value::String(s) => Json::Text(s.clone()),
        serde_json::Value::Array(a) => Json::List(a.iter().map(from_value).collect()),
        serde_json::Value::Object(m) => Json::Object(
            m.iter().map(|(k, v)| (k.clone(), from_value(v))).collect(),
        ),
    }
}

/// Turns a value of the library into one of `serde_json`, variant by
/// variant; a number is read from its text, and is null if it is none.
#[verifier::external_body]
fn to_value(value: &Json) -> serde_json::Value {
    match value {
        Json::Null => serde_json::Value::Null,
        Json::Bool(b) => serde_json::Value::Bool(*b),
        Json::Number(n) => n.parse::<serde_json::Number>().map_or(
            serde_json::Value::Null,
            serde_json::Value::Number,
        ),
        Json::Text(s) => serde_json::Value::String(s.clone()),
        Json::List(a) => serde_json::Value::Array(a.iter().map(to_value).collect()),
        Json::Object(m) => serde_json::Value::Object(
            m.iter().map(|(k, v)| (k.clone(), to_value(v))).collect(),
        ),
    }
}

/// Reads a JSON text with `serde_json::from_str`. The result is what
/// `parsed_json` names: it depends on the text alone.
#[verifier::external_body]
pub(crate) fn parse_json(text: &str) -> (r: Result<Json, String>)
    ensures
        match r {
            Ok(value) => parsed_json(text@) == Ok::<JsonModel, Seq<char>>(value.model()),
            Err(message) => parsed_json(text@) == Err::<JsonModel, Seq<char>>(message@),
        },
{
    match serde_json::from_str::<serde_json::Value>(text) {
        Ok(value) => Ok(from_value(&value)),
        Err(error) => Err(error.to_string()),
    }
}

/// Writes a value as JSON text with `serde_json::to_string`. The result is
/// what `rendered` names: it depends on the value alone.
#[verifier::external_body]
pub(crate) fn render_json(value: &Json) -> (r: Result<String, String>)
    ensures
        match r {
            Ok(text) => rendered(value.model()) == Ok::<Seq<char>, Seq<char>>(text@),
            Err(message) => rendered(value.model()) == Err::<Seq<char>, Seq<char>>(message@),
        },
{
    serde_json::to_string(&to_value(value)).map_err(|error| error.to_string())
}

/// Writes a value as JSON text on several lines with
/// `serde_json::to_string_pretty`. The result is what `rendered_pretty`
/// names: it depends on the value alone.
#[verifier::external_body]
pub(crate) fn render_json_pretty(value: &Json) -> (r: Result<String, String>)
    ensures
        match r {
            Ok(text) => rendered_pretty(value.model()) == Ok::<Seq<char>, Seq<char>>(text@),
            Err(message) => rendered_pretty(value.model()) == Err::<Seq<char>, Seq<char>>(
                message@,
            ),
        },
{
    serde_json::to_string_pretty(&to_value(value)).map_err(|error| error.to_string())
}

// ---------------------------------------------------------------------------
// Looking into values
// ---------------------------------------------------------------------------

/// The index of the last of the first `upto` fields that has the key.
pub open spec fn field_index(fields: Seq<(Seq<char>, JsonModel)>, key: Seq<char>, upto: int) -> Option<
    int,
>
    decreases upto,
{
    if upto <= 0 || upto > fields.len() {
        None
    } else if fields[upto - 1].0 == key {
        Some(upto - 1)
    } else {
        field_index(fields, key, upto - 1)
    }
}

impl JsonModel {
    /// The value of the field with the key, if this is an object that has one.
    pub open spec fn field(self, key: Seq<char>) -> Option<JsonModel> {
        match self {
            JsonModel::Object(fields) => match field_index(fields, key, fields.len() as int) {
                Some(i) => Some(fields[i].1),
                None => None,
            },
            _ => None,
        }
    }

    /// The text, if this is one.
    pub open spec fn text(self) -> Option<Seq<char>> {
        match self {
            JsonModel::Text(t) => Some(t),
            _ => None,
        }
    }

    /// The elements, if this is a list.
    pub open spec fn list(self) -> Option<Seq<JsonModel>> {
        match self {
            JsonModel::List(items) => Some(items),
            _ => None,
        }
    }

    /// The number, if this is a whole number from 0 to 2^64 - 1.
    pub open spec fn count(self) -> Option<nat> {
        match self {
            JsonModel::Number(digits) => match digits_value(digits, digits.len() as int) {
                Some(n) => if n <= u64::MAX {
                    Some(n)
                } else {
                    None
                },
                None => None,
            },
            _ => None,
        }
    }
}

/// The number that the first `upto` characters are the decimal digits of.
pub open spec fn digits_value(digits: Seq<char>, upto: int) -> Option<nat>
    decreases upto,
{
    if upto <= 0 || upto > digits.len() {
        None
    } else if !is_ascii_digit(digits[upto - 1]) {
        None
    } else {
        let d = ((digits[upto - 1] as u32) - ('0' as u32)) as nat;
        if upto == 1 {
            Some(d)
        } else {
            match digits_value(digits, upto - 1) {
                Some(n) => Some(n * 10 + d),
                None => None,
            }
        }
    }
}

impl Json {
    /// The value of the field with the key, if this is an object that has one.
    #[verifier::loop_isolation(false)]
    pub fn get(&self, key: &str) -> (r: Option<&Json>)
        ensures
            match r {
                Some(value) => self.model().field(key@) == Some(value.model()),
                None => self.model().field(key@) is None,
            },
    {
        match self {
            Json::Object(fields) => {
                let ghost fm = field_models(fields@);
                proof {
                    Json::lemma_object_model(*fields);
                }
                let mut i: usize = fields.len();
                while i > 0
                    invariant
                        i <= fields.len(),
                        fm == field_models(fields@),
                        field_index(fm, key@, fields@.len() as int) == field_index(
                            fm,
                            key@,
                            i as int,
                        ),
                    decreases i,
                {
                    i -= 1;
                    assert(fm[i as int] == (fields@[i as int].0@, fields@[i as int].1.model()));
                    if same_text(fields[i].0.as_str(), key) {
                        return Some(&fields[i].1);
                    }
                }
                None
            },
            _ => None,
        }
    }

    /// The text, if this is one.
    pub fn as_str(&self) -> (r: Option<&str>)
        ensures
            match r {
                Some(text) => self.model().text() == Some(text@),
                None => self.model().text() is None,
            },
    {
        match self {
            Json::Text(t) => Some(t.as_str()),
            _ => None,
        }
    }

    /// The elements, if this is a list.
    pub fn as_array(&self) -> (r: Option<&Vec<Json>>)
        ensures
            match r {
                Some(items) => self.model().list() == Some(models(items@)),
                None => self.model().list() is None,
            },
    {
        match self {
            Json::List(items) => {
                proof {
                    Json::lemma_list_model(*items);
                }
                Some(items)
            },
            _ => None,
        }
    }

    pub fn is_object(&self) -> (r: bool)
        ensures
            r == (self.model() is Object),
    {
        match self {
            Json::Object(_) => true,
            _ => false,
        }
    }

    /// The number, if this is a whole number from 0 to 2^64 - 1.
    #[verifier::loop_isolation(false)]
    pub fn as_u64(&self) -> (r: Option<u64>)
        ensures
            match r {
                Some(n) => self.model().count() == Some(n as nat),
                None => self.model().count() is None,
            },
    {
        match self {
            Json::Number(text) => {
                let digits = chars_of(text.as_str());
                if digits.len() == 0 {
                    return None;
                }
                let mut value: u128 = 0;
                let mut i: usize = 0;
                while i < digits.len()
                    invariant
                        i <= digits.len(),
                        digits@ == text@,
                        i > 0 ==> digits_value(digits@, i as int) == Some(value as nat),
                        i == 0 ==> value == 0,
                        value <= u64::MAX,
                    decreases digits.len() - i,
                {
                    let c = digits[i];
                    if !ascii_digit(c) {
                        proof {
                            lemma_digits_stop(digits@, i + 1, digits@.len() as int);
                        }
                        return None;
                    }
                    let d: u128 = (c as u32 - '0' as u32) as u128;
                    value = value * 10 + d;
                    i += 1;
                    assert(digits_value(digits@, i as int) == Some(value as nat));
                    if value > u64::MAX as u128 {
                        proof {
                            lemma_digits_grow(digits@, i as int, digits@.len() as int);
                        }
                        return None;
                    }
                }
                Some(value as u64)
            },
            _ => None,
        }
    }
}

/// Digits that are no number up to some place are none beyond it.
proof fn lemma_digits_stop(digits: Seq<char>, upto: int, end: int)
    requires
        1 <= upto <= end <= digits.len(),
        digits_value(digits, upto) is None,
    ensures
        digits_value(digits, end) is None,
    decreases end - upto,
{
    if end > upto {
        lemma_digits_stop(digits, upto, end - 1);
    }
}

/// More digits do not make a smaller number.
proof fn lemma_digits_grow(digits: Seq<char>, upto: int, end: int)
    requires
        1 <= upto <= end <= digits.len(),
        digits_value(digits, upto) is Some,
    ensures
        digits_value(digits, end) is Some ==> digits_value(digits, end)->0 >= digits_value(
            digits,
            upto,
        )->0,
    decreases end - upto,
{
    if end > upto {
        lemma_digits_grow(digits, upto, end - 1);
        if digits_value(digits, end) is Some {
            assert(digits_value(digits, end - 1) is Some);
            let n = digits_value(digits, end - 1)->0;
            assert(n * 10 >= n) by (nonlinear_arith)
                requires
                    n >= 0,
            ;
        }
    }
}

} // verus!
