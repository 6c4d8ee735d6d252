//! Tolerant JSON reads for the `json_semantic` assertion: either side may be
//! JSONC (comments, trailing commas), read with `jsonc-parser` into a
//! `serde_json` value and compared as values. Blank text means an empty
//! object.
use vstd::prelude::*;
use crate::text::{chars_of, push_str, trim, trimmed};
use crate::json_value::{from_serde, lemma_empty_object, Json, JsonV};

verus! {

/// What `jsonc-parser` makes of a text.
#[derive(Debug)]
pub enum JsoncRead {
    /// Not JSONC: the parser's complaint.
    Invalid(String),
    /// No value at all.
    NoValue,
    /// One value.
    Value,
}

pub enum JsoncReadV {
    Invalid(Seq<char>),
    NoValue,
    Value,
}

impl View for JsoncRead {
    type V = JsoncReadV;

    open spec fn view(&self) -> JsoncReadV {
        match self {
            JsoncRead::Invalid(m) => JsoncReadV::Invalid(m@),
            JsoncRead::NoValue => JsoncReadV::NoValue,
            JsoncRead::Value => JsoncReadV::Value,
        }
    }
}

/// What `jsonc-parser` makes of a text, read as an optional `serde_json`
/// value.
pub uninterp spec fn jsonc_read(text: Seq<char>) -> JsoncReadV;

/// Whether two texts read as optional `serde_json` values read as equal
/// ones.
pub uninterp spec fn jsonc_equal(a: Seq<char>, b: Seq<char>) -> bool;

/// Calls `jsonc_parser::parse_to_serde_value::<Option<serde_json::Value>>`
/// with default options; names the outcome and claims nothing more.
#[verifier::external_body]
fn read_jsonc(text: &str) -> (r: JsoncRead)
    ensures
        r@ == jsonc_read(text@),
{
    let opts = jsonc_parser::ParseOptions::default();
    match jsonc_parser::parse_to_serde_value::<Option<serde_json::Value>>(text, &opts) {
        Err(e) => JsoncRead::Invalid(e.to_string()),
        Ok(None) => JsoncRead::NoValue,
        Ok(Some(_)) => JsoncRead::Value,
    }
}

/// Parses both texts as above and compares the outcomes' values with
/// `serde_json`'s `PartialEq`.
#[verifier::external_body]
fn equal_jsonc(a: &str, b: &str) -> (r: bool)
    ensures
        r == jsonc_equal(a@, b@),
{
    let opts = jsonc_parser::ParseOptions::default();
    let va = jsonc_parser::parse_to_serde_value::<Option<serde_json::Value>>(a, &opts);
    let vb = jsonc_parser::parse_to_serde_value::<Option<serde_json::Value>>(b, &opts);
    va.ok().flatten() == vb.ok().flatten()
}

/// Why a JSON file could not be read.
#[derive(Debug)]
pub enum JsoncError {
    /// Not JSONC: the parser's complaint.
    Parse(String),
    /// The text holds no value.
    NoValue,
}

pub enum JsoncErrorV {
    Parse(Seq<char>),
    NoValue,
}

impl View for JsoncError {
    type V = JsoncErrorV;

    open spec fn view(&self) -> JsoncErrorV {
        match self {
            JsoncError::Parse(m) => JsoncErrorV::Parse(m@),
            JsoncError::NoValue => JsoncErrorV::NoValue,
        }
    }
}

impl JsoncError {
    pub open spec fn message_spec(self) -> Seq<char> {
        match self {
            JsoncError::Parse(m) => "parsing JSONC: "@ + m@,
            JsoncError::NoValue => "JSONC contained no value"@,
        }
    }

    /// The message shown for the failure.
    pub fn message(&self) -> (r: String)
        ensures
            r@ == self.message_spec(),
    {
        let mut r = String::new();
        match self {
            JsoncError::Parse(m) => {
                push_str(&mut r, "parsing JSONC: ");
                push_str(&mut r, m.as_str());
            },
            JsoncError::NoValue => push_str(&mut r, "JSONC contained no value"),
        }
        r
    }
}

/// The text whose value a file means: blank text is an empty object; other
/// text must hold one JSONC value.
pub open spec fn meant_spec(text: Seq<char>) -> Result<Seq<char>, JsoncErrorV> {
    if trim(text).len() == 0 {
        Ok("{}"@)
    } else {
        match jsonc_read(text) {
            JsoncReadV::Invalid(m) => Err(JsoncErrorV::Parse(m)),
            JsoncReadV::NoValue => Err(JsoncErrorV::NoValue),
            JsoncReadV::Value => Ok(text),
        }
    }
}

fn meant(text: &str) -> (r: Result<String, JsoncError>)
    ensures
        match r {
            Ok(s) => meant_spec(text@) == Ok::<Seq<char>, JsoncErrorV>(s@),
            Err(e) => meant_spec(text@) == Err::<Seq<char>, JsoncErrorV>(e@),
        },
{
    if trimmed(chars_of(text).as_slice()).len() == 0 {
        let mut r = String::new();
        push_str(&mut r, "{}");
        return Ok(r);
    }
    match read_jsonc(text) {
        JsoncRead::Invalid(m) => Err(JsoncError::Parse(m)),
        JsoncRead::NoValue => Err(JsoncError::NoValue),
        JsoncRead::Value => {
            let mut r = String::new();
            push_str(&mut r, text);
            Ok(r)
        },
    }
}

/// What a `json_semantic` assertion reads: none when the deployed file is
/// missing, else whether it means the same JSON as its reference.
pub open spec fn json_same_spec(dep: Option<Seq<char>>, reference: Seq<char>) -> Result<Option<bool>, JsoncErrorV> {
    match dep {
        None => Ok(None),
        Some(d) => match meant_spec(d) {
            Err(e) => Err(e),
            Ok(a) => match meant_spec(reference) {
                Err(e) => Err(e),
                Ok(b) => Ok(Some(jsonc_equal(a, b))),
            },
        },
    }
}

/// Compares a deployed JSON file (none when missing) with its reference,
/// as values: comments, formatting and key order do not count.
pub fn json_same(dep: Option<&str>, reference: &str) -> (r: Result<Option<bool>, JsoncError>)
    ensures
        match r {
            Ok(v) => json_same_spec(
                match dep {
                    Some(d) => Some(d@),
                    None => None,
                },
                reference@,
            ) == Ok::<Option<bool>, JsoncErrorV>(v),
            Err(e) => json_same_spec(
                match dep {
                    Some(d) => Some(d@),
                    None => None,
                },
                reference@,
            ) == Err::<Option<bool>, JsoncErrorV>(e@),
        },
{
    let d = match dep {
        None => return Ok(None),
        Some(d) => d,
    };
    let a = match meant(d) {
        Err(e) => return Err(e),
        Ok(a) => a,
    };
    let b = match meant(reference) {
        Err(e) => return Err(e),
        Ok(b) => b,
    };
    Ok(Some(equal_jsonc(a.as_str(), b.as_str())))
}

/// What `jsonc_parser::parse_to_serde_value` reads a text as: its
/// complaint, no value, or the value.
pub uninterp spec fn jsonc_value_of(text: Seq<char>) -> Result<Option<JsonV>, Seq<char>>;

pub open spec fn value_read_view(r: Result<Option<Json>, String>) -> Result<Option<JsonV>, Seq<char>> {
    match r {
        Ok(Some(j)) => Ok(Some(j@)),
        Ok(None) => Ok(None),
        Err(e) => Err(e@),
    }
}

/// Calls `jsonc_parser::parse_to_serde_value::<Option<serde_json::Value>>`
/// with default options and converts the value.
#[verifier::external_body]
fn read_jsonc_value(text: &str) -> (r: Result<Option<Json>, String>)
    ensures
        value_read_view(r) == jsonc_value_of(text@),
{
    let opts = jsonc_parser::ParseOptions::default();
    match jsonc_parser::parse_to_serde_value::<Option<serde_json::Value>>(text, &opts) {
        Err(e) => Err(e.to_string()),
        Ok(Some(v)) => Ok(Some(from_serde(&v))),
        Ok(None) => Ok(None),
    }
}

/// A tolerant read: blank text is an empty object; otherwise the JSONC
/// value, refused where the text is not JSONC or holds no value.
pub open spec fn parse_value_spec(text: Seq<char>) -> Result<JsonV, Seq<char>> {
    if trim(text).len() == 0 {
        Ok(JsonV::Object(Seq::empty()))
    } else {
        match jsonc_value_of(text) {
            Err(e) => Err("parsing JSONC: "@ + e),
            Ok(None) => Err("JSONC contained no value"@),
            Ok(Some(v)) => Ok(v),
        }
    }
}

/// Reads JSONC (comments, trailing commas) into a [`Json`] value.
pub fn parse_value(text: &str) -> (r: Result<Json, String>)
    ensures
        match r {
            Ok(j) => parse_value_spec(text@) == Ok::<JsonV, Seq<char>>(j@),
            Err(e) => parse_value_spec(text@) == Err::<JsonV, Seq<char>>(e@),
        },
{
    if trimmed(chars_of(text).as_slice()).len() == 0 {
        let empty: Vec<(String, Json)> = Vec::new();
        proof {
            lemma_empty_object(empty);
        }
        return Ok(Json::Object(empty));
    }
    match read_jsonc_value(text) {
        Err(e) => {
            let mut m = String::new();
            push_str(&mut m, "parsing JSONC: ");
            push_str(&mut m, e.as_str());
            Err(m)
        },
        Ok(None) => {
            let mut m = String::new();
            push_str(&mut m, "JSONC contained no value");
            Err(m)
        },
        Ok(Some(j)) => Ok(j),
    }
}

} // verus!
