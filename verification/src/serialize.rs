//! Typed insertion helpers: converting arbitrary values into artifact
//! entries through `serde_json` and the standard formatting traits. Only the
//! conversions themselves are trusted; everything around them is verified.

use vstd::prelude::*;

use crate::artifact::{Artifact, EntryV, artifact_wf, entry_wf, has_key, insert_pos};
use crate::error::ErrorKind;
use crate::json::{Json, JsonV, Num, json_wf, num_wf};

verus! {

#[verifier::external_type_specification]
#[verifier::external_body]
pub struct ExValue(serde_json::Value);

#[verifier::external_type_specification]
#[verifier::external_body]
pub struct ExNumber(serde_json::Number);

/// Relies on `serde_json::to_value` to turn any serde-serializable value
/// into a JSON document value; a serialization failure is returned as the
/// error's message. Nothing is promised of the result: it depends on the
/// value's `Serialize` implementation.
#[verifier::external_body]
fn serialize_to_value<T: serde::Serialize>(value: &T) -> (r: Result<serde_json::Value, String>) {
    match serde_json::to_value(value) {
        Ok(v) => Ok(v),
        Err(e) => Err(e.to_string()),
    }
}

/// Relies on `serde_json::Number::as_i64`, `as_u64` and `as_f64`: a number
/// is a 64-bit signed integer, a 64-bit unsigned integer, or a binary64
/// value, and `serde_json` only ever holds finite binary64 values (its
/// constructors refuse NaN and the infinities, and its parser rejects
/// out-of-range numbers).
#[verifier::external_body]
fn number_to_num(n: &serde_json::Number) -> (r: Num)
    ensures
        num_wf(r),
{
    if let Some(i) = n.as_i64() {
        Num::Int(i)
    } else if let Some(u) = n.as_u64() {
        Num::UInt(u)
    } else {
        Num::Float(n.as_f64().unwrap().to_bits())
    }
}

/// Relies on `serde_json::Value`: its six variants map one-for-one onto the
/// library's JSON model, its object maps hold unique keys, and its numbers
/// are finite (see `number_to_num`), so the result is well formed.
#[verifier::external_body]
fn value_to_json(v: &serde_json::Value) -> (r: Json)
    ensures
        json_wf(r@),
{
    match v {
        serde_json::Value::Null => Json::Null,
        serde_json::Value::Bool(b) => Json::Bool(*b),
        serde_json::Value::Number(n) => Json::Num(number_to_num(n)),
        serde_json::Value::String(s) => Json::Str(s.clone()),
        serde_json::Value::Array(a) => Json::Arr(a.iter().map(value_to_json).collect()),
        serde_json::Value::Object(m) => Json::Obj(
            m.iter().map(|(k, x)| (k.clone(), value_to_json(x))).collect(),
        ),
    }
}

/// Relies on `format!` with `core::fmt::Debug` (the alternate form). Nothing
/// is promised of the result: it depends on the value's `Debug`
/// implementation.
#[verifier::external_body]
fn debug_string<T: core::fmt::Debug>(value: &T) -> String {
    format!("{:#?}", value)
}

/// Relies on `format!` with `core::fmt::Display`. Nothing is promised of the
/// result: it depends on the value's `Display` implementation.
#[verifier::external_body]
fn display_string<T: core::fmt::Display>(value: &T) -> String {
    format!("{}", value)
}

impl Artifact {
    /// Inserts a JSON document value under `name`; fails with `DuplicateKey`
    /// exactly when the key is already present, leaving the artifact
    /// unchanged.
    pub fn insert_json(&mut self, name: &str, json_value: Json) -> (r: Result<(), ErrorKind>)
        requires
            artifact_wf(old(self)@),
            json_wf(json_value@),
        ensures
            artifact_wf(final(self)@),
            match r {
                Ok(()) => !has_key(old(self)@, name@) && final(self)@ == old(self)@.insert(
                    insert_pos(old(self)@, name@),
                    (name@, EntryV::Json(json_value@)),
                ),
                Err(e) => has_key(old(self)@, name@) && final(self)@ == old(self)@ && (
                e matches ErrorKind::DuplicateKey(k) && k@ == name@),
            },
    {
        self.insert(name, crate::artifact::Entry::Json(json_value))
    }

    /// Serializes `value` through `serde_json` and inserts the resulting
    /// document under `name`. A value that cannot be serialized yields a
    /// `JsonError` and a key already present a `DuplicateKey`; either way
    /// the artifact is unchanged.
    pub fn insert_serialize<T: serde::Serialize>(&mut self, name: &str, value: &T) -> (r: Result<
        (),
        ErrorKind,
    >)
        requires
            artifact_wf(old(self)@),
        ensures
            artifact_wf(final(self)@),
            match r {
                Ok(()) => !has_key(old(self)@, name@) && exists|j: JsonV|
                    json_wf(j) && final(self)@ == old(self)@.insert(
                        insert_pos(old(self)@, name@),
                        (name@, EntryV::Json(j)),
                    ),
                Err(e) => final(self)@ == old(self)@ && match e {
                    ErrorKind::JsonError(_) => true,
                    ErrorKind::DuplicateKey(k) => k@ == name@ && has_key(old(self)@, name@),
                    _ => false,
                },
            },
    {
        match serialize_to_value(value) {
            Ok(v) => {
                let j = value_to_json(&v);
                let ghost jv = j@;
                match self.insert_json(name, j) {
                    Ok(()) => {
                        proof {
                            assert(json_wf(jv) && final(self)@ == old(self)@.insert(
                                insert_pos(old(self)@, name@),
                                (name@, EntryV::Json(jv)),
                            ));
                        }
                        Ok(())
                    },
                    Err(e) => Err(e),
                }
            },
            Err(msg) => Err(ErrorKind::JsonError(msg)),
        }
    }

    /// Renders `value` with the alternate `Debug` format and inserts the
    /// text under `name`; fails with `DuplicateKey` exactly when the key is
    /// already present, leaving the artifact unchanged.
    pub fn insert_debug<T: core::fmt::Debug>(&mut self, name: &str, value: &T) -> (r: Result<
        (),
        ErrorKind,
    >)
        requires
            artifact_wf(old(self)@),
        ensures
            artifact_wf(final(self)@),
            match r {
                Ok(()) => !has_key(old(self)@, name@) && exists|s: Seq<char>|
                    final(self)@ == old(self)@.insert(
                        insert_pos(old(self)@, name@),
                        (name@, EntryV::Str(s)),
                    ),
                Err(e) => has_key(old(self)@, name@) && final(self)@ == old(self)@ && (
                e matches ErrorKind::DuplicateKey(k) && k@ == name@),
            },
    {
        let text = debug_string(value);
        let ghost sv = text@;
        match self.insert(name, crate::artifact::Entry::Str(text)) {
            Ok(()) => {
                proof {
                    assert(final(self)@ == old(self)@.insert(
                        insert_pos(old(self)@, name@),
                        (name@, EntryV::Str(sv)),
                    ));
                }
                Ok(())
            },
            Err(e) => Err(e),
        }
    }

    /// Renders `value` with the `Display` format and inserts the text under
    /// `name`; fails with `DuplicateKey` exactly when the key is already
    /// present, leaving the artifact unchanged.
    pub fn insert_display<T: core::fmt::Display>(&mut self, name: &str, value: &T) -> (r: Result<
        (),
        ErrorKind,
    >)
        requires
            artifact_wf(old(self)@),
        ensures
            artifact_wf(final(self)@),
            match r {
                Ok(()) => !has_key(old(self)@, name@) && exists|s: Seq<char>|
                    final(self)@ == old(self)@.insert(
                        insert_pos(old(self)@, name@),
                        (name@, EntryV::Str(s)),
                    ),
                Err(e) => has_key(old(self)@, name@) && final(self)@ == old(self)@ && (
                e matches ErrorKind::DuplicateKey(k) && k@ == name@),
            },
    {
        let text = display_string(value);
        let ghost sv = text@;
        match self.insert(name, crate::artifact::Entry::Str(text)) {
            Ok(()) => {
                proof {
                    assert(final(self)@ == old(self)@.insert(
                        insert_pos(old(self)@, name@),
                        (name@, EntryV::Str(sv)),
                    ));
                }
                Ok(())
            },
            Err(e) => Err(e),
        }
    }
}

} // verus!
