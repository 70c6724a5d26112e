//! Applying settings documents: each document, given as TOML or as JSON, is
//! read into the JSON text of its `settings` table, and the changes are sent to
//! the API in one transaction that is then committed and applied.
//!
//! Fetching the documents and sending the requests stand outside this library;
//! the order of the steps and the requests themselves are decided here.
use crate::text::{push_str, string_of};
use serde::de::{Deserialize, IntoDeserializer};
use vstd::prelude::*;

verus! {

/// The top-level key that holds the settings in a settings document.
pub const SETTINGS_KEY: &'static str = "settings";

/// Why a settings document cannot be sent to the API.
#[derive(Clone, Debug)]
pub enum ApplyError {
    /// The document is TOML, but it has no JSON equivalent.
    TomlToJson { input_source: String, message: String },
    /// The document is neither TOML nor JSON; both parsers' messages are kept.
    InputType { input_source: String, toml_message: String, json_message: String },
    /// The document is not a table (object).
    ModelType { input_source: String },
    /// The document has no top-level `settings` key.
    MissingSettings { input_source: String },
}

/// What `toml::from_str::<toml::Value>`, followed by serde's conversion of the
/// TOML value into a `serde_json::Value`, makes of a text, looked up at `key`:
/// `Err(m)` when the text is not TOML (the parser's message); `Ok(Err(Some(m)))`
/// when the conversion fails; `Ok(Err(None))` when the value is not an object;
/// `Ok(Ok(None))` when the object has no member `key`; `Ok(Ok(Some(t)))` with
/// the member's compact JSON text otherwise.
pub uninterp spec fn toml_member_as_json(input: Seq<char>, key: Seq<char>) -> Result<
    Result<Option<Seq<char>>, Option<Seq<char>>>,
    Seq<char>,
>;

/// What `serde_json::from_str::<serde_json::Value>` makes of a text, looked up
/// at `key`: `Err(Some(m))` when the text is not JSON (the parser's message);
/// `Err(None)` when the value is not an object; `Ok(None)` when the object has
/// no member `key`; `Ok(Some(t))` with the member's compact JSON text otherwise.
pub uninterp spec fn json_member_as_json(input: Seq<char>, key: Seq<char>) -> Result<Option<Seq<char>>, Option<Seq<char>>>;

/// `toml::from_str::<toml::Value>`, then `serde_json::Value::deserialize` of the
/// TOML value, then the object's member at `key` as compact JSON. The contract
/// only names the result.
#[verifier::external_body]
fn toml_member(input: &str, key: &str) -> (r: Result<Result<Option<String>, Option<String>>, String>)
    ensures
        toml_member_as_json(input@, key@) == match r {
            Err(m) => Err(m@),
            Ok(Err(Some(m))) => Ok(Err(Some(m@))),
            Ok(Err(None)) => Ok(Err(None)),
            Ok(Ok(None)) => Ok(Ok(None)),
            Ok(Ok(Some(t))) => Ok(Ok(Some(t@))),
        },
{
    let toml_val = match toml::from_str::<toml::Value>(input) {
        Ok(v) => v,
        Err(e) => return Err(e.to_string()),
    };
    let mut json_val = match serde_json::Value::deserialize(toml_val.into_deserializer()) {
        Ok(v) => v,
        Err(e) => return Ok(Err(Some(e.to_string()))),
    };
    match json_val.as_object_mut() {
        None => Ok(Err(None)),
        Some(obj) => Ok(Ok(obj.remove(key).as_ref().map(serde_json::Value::to_string))),
    }
}

/// `serde_json::from_str::<serde_json::Value>`, then the object's member at
/// `key` as compact JSON. The contract only names the result.
#[verifier::external_body]
fn json_member(input: &str, key: &str) -> (r: Result<Option<String>, Option<String>>)
    ensures
        json_member_as_json(input@, key@) == match r {
            Err(Some(m)) => Err(Some(m@)),
            Err(None) => Err(None),
            Ok(None) => Ok(None),
            Ok(Some(t)) => Ok(Some(t@)),
        },
{
    let mut json_val = match serde_json::from_str::<serde_json::Value>(input) {
        Ok(v) => v,
        Err(e) => return Err(Some(e.to_string())),
    };
    match json_val.as_object_mut() {
        None => Err(None),
        Some(obj) => Ok(obj.remove(key).as_ref().map(serde_json::Value::to_string)),
    }
}

/// The settings member found in a document, as the API wants it.
fn settings_from_member(member: Option<String>, input_source: &str) -> (r: Result<String, ApplyError>)
    ensures
        match member {
            None => r matches Err(ApplyError::MissingSettings { input_source: s }) && s@ == input_source@,
            Some(t) => r matches Ok(j) && j@ == t@,
        },
{
    match member {
        None => Err(ApplyError::MissingSettings { input_source: string_of(input_source) }),
        Some(t) => Ok(t),
    }
}

/// Reads a settings document as TOML or, when it is not TOML, as JSON, and
/// gives the compact JSON text of its top-level `settings` member.
pub fn format_change(input: &str, input_source: &str) -> (r: Result<String, ApplyError>)
    ensures
        match toml_member_as_json(input@, SETTINGS_KEY@) {
            Ok(Err(Some(m))) => r matches Err(ApplyError::TomlToJson { input_source: s, message })
                && s@ == input_source@ && message@ == m,
            Ok(Err(None)) => r matches Err(ApplyError::ModelType { input_source: s }) && s@ == input_source@,
            Ok(Ok(None)) => r matches Err(ApplyError::MissingSettings { input_source: s }) && s@ == input_source@,
            Ok(Ok(Some(t))) => r matches Ok(j) && j@ == t,
            Err(toml_message) => match json_member_as_json(input@, SETTINGS_KEY@) {
                Err(Some(m)) => r matches Err(ApplyError::InputType { input_source: s, toml_message: tm, json_message: jm })
                    && s@ == input_source@ && tm@ == toml_message && jm@ == m,
                Err(None) => r matches Err(ApplyError::ModelType { input_source: s }) && s@ == input_source@,
                Ok(None) => r matches Err(ApplyError::MissingSettings { input_source: s }) && s@ == input_source@,
                Ok(Some(t)) => r matches Ok(j) && j@ == t,
            },
        },
{
    match toml_member(input, SETTINGS_KEY) {
        Ok(Err(Some(message))) => Err(ApplyError::TomlToJson { input_source: string_of(input_source), message }),
        Ok(Err(None)) => Err(ApplyError::ModelType { input_source: string_of(input_source) }),
        Ok(Ok(member)) => settings_from_member(member, input_source),
        Err(toml_message) => match json_member(input, SETTINGS_KEY) {
            Err(Some(json_message)) => Err(ApplyError::InputType {
                input_source: string_of(input_source),
                toml_message,
                json_message,
            }),
            Err(None) => Err(ApplyError::ModelType { input_source: string_of(input_source) }),
            Ok(member) => settings_from_member(member, input_source),
        },
    }
}

/// Prefix of the transaction in which settings documents are applied.
pub const TRANSACTION_PREFIX: &'static str = "apiclient-apply-";

/// The transaction name for a random suffix, so that no other pending change
/// is committed with the applied documents.
pub fn transaction_name(suffix: &str) -> (r: String)
    ensures
        r@ == TRANSACTION_PREFIX@ + suffix@,
{
    let mut r = string_of(TRANSACTION_PREFIX);
    push_str(&mut r, suffix);
    r
}

/// The changes to send, once every document has been fetched and read: the
/// first failure, in input order, ends the apply before any request is sent;
/// otherwise the changes, in input order.
pub fn collect_changes<E>(results: Vec<Result<String, E>>) -> (r: Result<Vec<String>, E>)
    ensures
        match r {
            Ok(v) => v@.len() == results@.len() && forall|i: int| 0 <= i < results@.len() ==> (
                #[trigger] results@[i] matches Ok(c) && c@ == v@[i]@),
            Err(e) => exists|k: int| 0 <= k < results@.len() && results@[k] == Err::<String, E>(e) && forall|j: int|
                0 <= j < k ==> (#[trigger] results@[j]) is Ok,
        },
{
    let mut out: Vec<String> = Vec::new();
    let ghost orig = results@;
    let mut rest = results;
    // `rest` holds the results not yet taken, in order.
    let mut i: usize = 0;
    while rest.len() > 0
        invariant
            i == out@.len(),
            orig == results@,
            i + rest@.len() == orig.len(),
            rest@ == orig.skip(i as int),
            forall|k: int| 0 <= k < i ==> ((#[trigger] orig[k]) matches Ok(c) && c@ == out@[k]@),
        decreases rest@.len(),
    {
        let next = rest.remove(0);
        assert(next == orig[i as int]);
        assert(rest@ =~= orig.skip(i + 1));
        match next {
            Ok(c) => {
                out.push(c);
                i = out.len();
            },
            Err(e) => {
                assert(orig[i as int] == Err::<String, E>(e));
                assert(forall|j: int| 0 <= j < i ==> (#[trigger] orig[j]) is Ok);
                return Err(e);
            },
        }
    }
    assert(i == orig.len());
    Ok(out)
}

/// One request to the API: method, URI, and body, if any.
pub type ApiRequest = (String, String, Option<String>);

/// The requests that apply the changes in transaction `transaction`: one
/// `PATCH` of the settings per change, in order, then the commit that applies
/// the transaction to the system. The requests are sent in this order, and a
/// failing request ends the apply.
pub fn apply_requests(transaction: &str, changes: &Vec<String>) -> (r: Vec<(String, String, Option<String>)>)
    ensures
        r@.len() == changes@.len() + 1,
        forall|i: int| 0 <= i < changes@.len() ==> ((#[trigger] r@[i]).0@ == "PATCH"@ && r@[i].1@ == "/settings?tx="@
            + transaction@ && r@[i].2 is Some && r@[i].2->0@ == changes@[i]@),
        r@[changes@.len() as int].0@ == "POST"@,
        r@[changes@.len() as int].1@ == "/tx/commit_and_apply?tx="@ + transaction@,
        r@[changes@.len() as int].2 is None,
{
    let mut r: Vec<(String, String, Option<String>)> = Vec::new();
    let mut i: usize = 0;
    while i < changes.len()
        invariant
            i <= changes@.len(),
            r@.len() == i,
            forall|k: int| 0 <= k < i ==> ((#[trigger] r@[k]).0@ == "PATCH"@ && r@[k].1@ == "/settings?tx="@
                + transaction@ && r@[k].2 is Some && r@[k].2->0@ == changes@[k]@),
        decreases changes@.len() - i,
    {
        let mut uri = string_of("/settings?tx=");
        push_str(&mut uri, transaction);
        let body = string_of(changes[i].as_str());
        r.push((string_of("PATCH"), uri, Some(body)));
        i = i + 1;
    }
    let mut uri = string_of("/tx/commit_and_apply?tx=");
    push_str(&mut uri, transaction);
    r.push((string_of("POST"), uri, None));
    r
}

} // verus!
