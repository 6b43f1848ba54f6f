//! JSON documents as plain values.

use vstd::prelude::*;
use crate::digits;
use crate::text;

verus! {

/// A JSON value. Numbers keep their decimal text.
#[derive(Debug)]
pub enum Json {
    Null,
    Bool(bool),
    Number(String),
    Text(String),
    List(Vec<Json>),
    Fields(Vec<(String, Json)>),
}

/// The parsed document type of `serde_json`.
#[verifier::external_type_specification]
#[verifier::external_body]
pub struct ExValue(serde_json::Value);

/// Reads a `serde_json::Value` one for one into [`Json`]; only [`parse_json`]
/// hands values to it, and nothing is claimed of it on its own.
#[verifier::external_body]
fn json_of(v: serde_json::Value) -> Json {
    match v {
        serde_json::Value::Null => Json::Null,
        serde_json::Value::Bool(b) => Json::Bool(b),
        serde_json::Value::Number(n) => Json::Number(n.to_string()),
        serde_json::Value::String(s) => Json::Text(s),
        serde_json::Value::Array(a) => Json::List(a.into_iter().map(json_of).collect()),
        serde_json::Value::Object(m) => {
            Json::Fields(m.into_iter().map(|(k, x)| (k, json_of(x))).collect())
        },
    }
}

/// What [`parse_json`] returns.
pub uninterp spec fn document(s: Seq<char>) -> Option<Json>;

/// Calls `serde_json::from_str` and reads the value into [`Json`]. The result is
/// named by [`document`]; there is none where the text is not JSON.
#[verifier::external_body]
pub(crate) fn parse_json(s: &str) -> (r: Option<Json>)
    ensures
        r == document(s@),
{
    serde_json::from_str::<serde_json::Value>(s).ok().map(json_of)
}

/// The value of the first field from `i` on with this name.
pub open spec fn field_from(fields: Seq<(String, Json)>, key: Seq<char>, i: int) -> Option<Json>
    decreases fields.len() - i,
{
    if i < 0 || i >= fields.len() {
        None
    } else if fields[i].0@ == key {
        Some(fields[i].1)
    } else {
        field_from(fields, key, i + 1)
    }
}

fn find_field<'a>(fields: &'a Vec<(String, Json)>, key: &str) -> (r: Option<&'a Json>)
    ensures
        match r {
            Some(j) => field_from(fields@, key@, 0) == Some(*j),
            None => field_from(fields@, key@, 0) is None,
        },
{
    let mut i: usize = 0;
    while i < fields.len()
        invariant
            i <= fields@.len(),
            field_from(fields@, key@, 0) == field_from(fields@, key@, i as int),
        decreases fields@.len() - i,
    {
        if text::same_str(fields[i].0.as_str(), key) {
            return Some(&fields[i].1);
        }
        i += 1;
    }
    None
}

impl Json {
    /// The value of a field; only objects have fields.
    pub open spec fn at(self, key: Seq<char>) -> Option<Json> {
        match self {
            Json::Fields(fields) => field_from(fields@, key, 0),
            _ => None,
        }
    }

    /// The text of a string.
    pub open spec fn text(self) -> Option<Seq<char>> {
        match self {
            Json::Text(s) => Some(s@),
            _ => None,
        }
    }

    /// The truth value of a boolean.
    pub open spec fn truth(self) -> Option<bool> {
        match self {
            Json::Bool(b) => Some(b),
            _ => None,
        }
    }

    /// The elements of a list.
    pub open spec fn items(self) -> Option<Seq<Json>> {
        match self {
            Json::List(v) => Some(v@),
            _ => None,
        }
    }

    /// The value of a whole number of 64 bits with a sign.
    pub open spec fn whole(self) -> Option<int> {
        match self {
            Json::Number(s) => digits::signed_upto(s@, i64::MAX as int),
            _ => None,
        }
    }

    /// The value of a whole number of 64 bits without a sign.
    pub open spec fn natural(self) -> Option<int> {
        match self {
            Json::Number(s) => digits::nat_upto(s@, u64::MAX as int),
            _ => None,
        }
    }

    /// The value of a number in billionths (seconds as nanoseconds).
    pub open spec fn billionths(self) -> Option<int> {
        match self {
            Json::Number(s) => digits::nanos(s@),
            _ => None,
        }
    }

    /// The text of a field.
    pub open spec fn text_at(self, key: Seq<char>) -> Option<Seq<char>> {
        match self.at(key) {
            Some(j) => j.text(),
            None => None,
        }
    }

    /// The elements of a field.
    pub open spec fn items_at(self, key: Seq<char>) -> Option<Seq<Json>> {
        match self.at(key) {
            Some(j) => j.items(),
            None => None,
        }
    }

    /// The value of a field.
    pub fn get(&self, key: &str) -> (r: Option<&Json>)
        ensures
            match r {
                Some(j) => self.at(key@) == Some(*j),
                None => self.at(key@) is None,
            },
    {
        match self {
            Json::Fields(fields) => find_field(fields, key),
            _ => None,
        }
    }

    /// The text of a string.
    pub fn as_str(&self) -> (r: Option<&str>)
        ensures
            match r {
                Some(s) => self.text() == Some(s@),
                None => self.text() is None,
            },
    {
        match self {
            Json::Text(s) => Some(s.as_str()),
            _ => None,
        }
    }

    /// The truth value of a boolean.
    pub fn as_bool(&self) -> (r: Option<bool>)
        ensures
            r == self.truth(),
    {
        match self {
            Json::Bool(b) => Some(*b),
            _ => None,
        }
    }

    /// The elements of a list.
    pub fn as_list(&self) -> (r: Option<&Vec<Json>>)
        ensures
            match r {
                Some(v) => self.items() == Some(v@),
                None => self.items() is None,
            },
    {
        match self {
            Json::List(v) => Some(v),
            _ => None,
        }
    }

    /// A whole number with a sign.
    pub fn as_i64(&self) -> (r: Option<i64>)
        ensures
            match r {
                Some(n) => self.whole() == Some(n as int),
                None => self.whole() is None,
            },
    {
        match self {
            Json::Number(s) => {
                let v = text::chars_of(s.as_str());
                digits::read_signed(v.as_slice(), i64::MAX)
            },
            _ => None,
        }
    }

    /// A whole number without a sign.
    pub fn as_u64(&self) -> (r: Option<u64>)
        ensures
            match r {
                Some(n) => self.natural() == Some(n as int),
                None => self.natural() is None,
            },
    {
        match self {
            Json::Number(s) => {
                let v = text::chars_of(s.as_str());
                digits::read_digits(v.as_slice(), u64::MAX)
            },
            _ => None,
        }
    }

    /// A number in billionths.
    pub fn as_billionths(&self) -> (r: Option<i64>)
        ensures
            match r {
                Some(n) => self.billionths() == Some(n as int) && -digits::TIME_LIMIT <= n
                    <= digits::TIME_LIMIT,
                None => self.billionths() is None,
            },
    {
        match self {
            Json::Number(s) => {
                let v = text::chars_of(s.as_str());
                digits::read_nanos(v.as_slice())
            },
            _ => None,
        }
    }

    /// The text of a field.
    pub fn str_at(&self, key: &str) -> (r: Option<&str>)
        ensures
            match r {
                Some(s) => self.text_at(key@) == Some(s@),
                None => self.text_at(key@) is None,
            },
    {
        match self.get(key) {
            Some(j) => j.as_str(),
            None => None,
        }
    }

    /// The elements of a field.
    pub fn list_at(&self, key: &str) -> (r: Option<&Vec<Json>>)
        ensures
            match r {
                Some(v) => self.items_at(key@) == Some(v@),
                None => self.items_at(key@) is None,
            },
    {
        match self.get(key) {
            Some(j) => j.as_list(),
            None => None,
        }
    }
}

// ---------------------------------------------------------------------------
// Laws of documents.
// ---------------------------------------------------------------------------

/// A field is found by its key: it has the value of the first field of that key, and there is
/// none where no field has it.
pub proof fn fields_are_found_by_their_key(fields: Seq<(String, Json)>, key: Seq<char>, i: int)
    requires
        0 <= i <= fields.len(),
        forall|j: int| 0 <= j < i ==> (#[trigger] fields[j]).0@ != key,
    ensures
        i < fields.len() && fields[i].0@ == key ==> field_from(fields, key, 0) == Some(
            fields[i].1,
        ),
        i == fields.len() ==> field_from(fields, key, 0) is None,
{
    field_is(fields, key, i, 0);
}

proof fn field_is(fields: Seq<(String, Json)>, key: Seq<char>, i: int, from: int)
    requires
        0 <= from <= i <= fields.len(),
        forall|j: int| 0 <= j < i ==> (#[trigger] fields[j]).0@ != key,
    ensures
        field_from(fields, key, from) == field_from(fields, key, i),
    decreases i - from,
{
    if from < i {
        field_is(fields, key, i, from + 1);
    }
}

/// A value is read only as what it is: no text has fields, no number is a text, and so on.
pub proof fn values_are_read_as_what_they_are(j: Json, key: Seq<char>)
    ensures
        j !is Fields ==> j.at(key) is None && j.text_at(key) is None && j.items_at(key) is None,
        j.text() is Some == j is Text,
        j.truth() is Some == j is Bool,
        j.items() is Some == j is List,
        j !is Number ==> j.whole() is None && j.natural() is None && j.billionths() is None,
        (j.at(key) matches Some(v) && v is Text) == j.text_at(key) is Some,
        (j.at(key) matches Some(v) && v is List) == j.items_at(key) is Some,
{
}

} // verus!
