//! Decisions of the settings generator `schnauzer`: which tool a program name
//! selects, the API request URIs it builds, and what it accepts as a template
//! from the metadata API.
use crate::brush::file_name_of;
use crate::text::{chars_eq, chars_of, push_char, push_str, string_from_chars, string_of};
use vstd::prelude::*;
use vstd::utf8::encode_utf8;

verus! {

/// Program name of the first tool.
pub const SCHNAUZER_NAME: &'static str = "schnauzer";
/// Program name of the second tool.
pub const SCHNAUZER_V2_NAME: &'static str = "schnauzer-v2";
/// Base of the metadata API.
pub const API_METADATA_URI_BASE: &'static str = "/metadata/";

/// The tools of the multicall program.
#[derive(Clone, Copy, Debug, PartialEq, Eq, Structural)]
pub enum ToolName {
    SchnauzerV1,
    SchnauzerV2,
}

impl ToolName {
    /// The tool that a program name selects: the first tool for `schnauzer`,
    /// the second for every other name.
    pub fn from_program_name(name: &str) -> (t: ToolName)
        ensures
            t == (if name@ == SCHNAUZER_NAME@ { ToolName::SchnauzerV1 } else { ToolName::SchnauzerV2 }),
    {
        let v = chars_of(name);
        let n = chars_of(SCHNAUZER_NAME);
        if chars_eq(v.as_slice(), n.as_slice()) {
            ToolName::SchnauzerV1
        } else {
            ToolName::SchnauzerV2
        }
    }
}

/// The program name under which the program was started: the file name of its
/// first argument, or the second tool's name when there is none.
pub fn program_name(arg0: Option<&str>) -> (r: String)
    ensures
        match arg0 {
            Some(a) => match file_name_of(a@) {
                Some(n) => r@ == n,
                None => r@ == SCHNAUZER_V2_NAME@,
            },
            None => r@ == SCHNAUZER_V2_NAME@,
        },
{
    match arg0 {
        Some(a) => match crate::brush::filename(a) {
            Ok(n) => n,
            Err(_) => string_of(SCHNAUZER_V2_NAME),
        },
        None => string_of(SCHNAUZER_V2_NAME),
    }
}

/// Bytes that the query component of a request URI escapes: controls, bytes
/// outside ASCII, and space, `"`, `#`, `<`, `>`.
pub open spec fn query_escapes(b: u8) -> bool {
    b < 0x20 || b >= 0x7F || b == 0x20 || b == 0x22 || b == 0x23 || b == 0x3C || b == 0x3E
}

/// Upper-case hexadecimal digit.
pub open spec fn hex_upper(d: nat) -> char {
    if d < 10 {
        ((d + 0x30) as u8) as char
    } else {
        ((d - 10 + 0x41) as u8) as char
    }
}

/// The text of one byte in a percent-encoded query.
pub open spec fn percent_piece(b: u8) -> Seq<char> {
    if query_escapes(b) {
        seq!['%', hex_upper((b / 16) as nat), hex_upper((b % 16) as nat)]
    } else {
        seq![b as char]
    }
}

/// Percent-encodes bytes for the query component of a request URI.
pub open spec fn percent_encoded(bytes: Seq<u8>) -> Seq<char>
    decreases bytes.len(),
{
    if bytes.len() == 0 {
        Seq::empty()
    } else {
        percent_encoded(bytes.drop_last()) + percent_piece(bytes.last())
    }
}

fn hex_upper_char(d: u8) -> (c: char)
    requires
        d < 16,
    ensures
        c == hex_upper(d as nat),
{
    if d < 10 {
        (d + 0x30) as char
    } else {
        (d - 10 + 0x41) as char
    }
}

/// Appends the percent-encoding of the UTF-8 bytes of `text` to `s`.
pub fn push_percent_encoded(s: &mut String, text: &str)
    ensures
        final(s)@ == old(s)@ + percent_encoded(encode_utf8(text@)),
{
    let bytes = text.as_bytes();
    let n = bytes.len();
    let mut i: usize = 0;
    while i < n
        invariant
            n == bytes@.len(),
            bytes@ == encode_utf8(text@),
            i <= n,
            s@ == old(s)@ + percent_encoded(bytes@.take(i as int)),
        decreases n - i,
    {
        let b = bytes[i];
        assert(bytes@.take(i + 1).drop_last() =~= bytes@.take(i as int));
        assert(bytes@.take(i + 1).last() == b);
        if b < 0x20 || b >= 0x7F || b == 0x20 || b == 0x22 || b == 0x23 || b == 0x3C || b == 0x3E {
            push_char(s, '%');
            push_char(s, hex_upper_char(b / 16));
            push_char(s, hex_upper_char(b % 16));
        } else {
            push_char(s, b as char);
        }
        assert(s@ =~= old(s)@ + percent_encoded(bytes@.take(i + 1)));
        i = i + 1;
    }
    assert(bytes@.take(n as int) =~= bytes@);
}

/// The request URI for `uri` with an optional query parameter: the parameter
/// and its value, joined by `=`, percent-encoded and put after a `?`.
pub fn query_uri(uri: &str, query: Option<(&str, &str)>) -> (r: String)
    ensures
        match query {
            None => r@ == uri@,
            Some((param, arg)) => r@ == uri@ + seq!['?'] + percent_encoded(encode_utf8(param@ + seq!['='] + arg@)),
        },
{
    let mut r = string_of(uri);
    match query {
        None => {},
        Some((param, arg)) => {
            let mut raw = string_of(param);
            push_char(&mut raw, '=');
            push_str(&mut raw, arg);
            push_char(&mut r, '?');
            assert(raw@ =~= param@ + seq!['='] + arg@);
            let ghost before = r@;
            assert(before =~= uri@ + seq!['?']);
            push_percent_encoded(&mut r, raw.as_str());
        },
    }
    r
}

/// The metadata API request for one metadata kind of one data key.
pub fn metadata_uri(key: &str, meta: &str) -> (r: String)
    ensures
        r@ == API_METADATA_URI_BASE@ + meta@ + "?keys="@ + key@,
{
    let mut r = string_of(API_METADATA_URI_BASE);
    push_str(&mut r, meta);
    push_str(&mut r, "?keys=");
    push_str(&mut r, key);
    r
}

/// A metadata value as the API returned it.
#[derive(Clone, Debug)]
pub enum MetadataValue {
    /// A JSON string.
    Text(String),
    /// Any other JSON value, in its JSON rendering.
    Other(String),
}

/// Why an API response or a metadata value cannot be used.
#[derive(Clone, Debug)]
pub enum SchnauzerError {
    /// The API answered with a status code outside the success range.
    Response { method: String, uri: String, code: u16, response_body: String },
    /// The response body is not a JSON object.
    DeserializeJson { message: String },
    /// The metadata is absent or an empty string.
    MissingMetadata { meta: String, key: String },
    /// The metadata is not a string.
    MetadataWrongType { meta: String, expected: String, value: String },
}

/// The metadata text for `key`, given the value that the response holds for it
/// (`None` when it holds none): it must be a non-empty string.
pub fn metadata_string(key: &str, meta: &str, value: Option<MetadataValue>) -> (r: Result<String, SchnauzerError>)
    ensures
        match value {
            None => r matches Err(SchnauzerError::MissingMetadata { meta: m, key: k }) && m@ == meta@ && k@ == key@,
            Some(MetadataValue::Other(json)) => r matches Err(SchnauzerError::MetadataWrongType { meta: m, expected, value: v })
                && m@ == meta@ && expected@ == "string"@ && v@ == json@,
            Some(MetadataValue::Text(t)) => if t@.len() == 0 {
                r matches Err(SchnauzerError::MissingMetadata { meta: m, key: k }) && m@ == meta@ && k@ == key@
            } else {
                r matches Ok(s) && s@ == t@
            },
        },
{
    match value {
        None => Err(SchnauzerError::MissingMetadata { meta: string_of(meta), key: string_of(key) }),
        Some(MetadataValue::Other(json)) => Err(SchnauzerError::MetadataWrongType {
            meta: string_of(meta),
            expected: string_of("string"),
            value: json,
        }),
        Some(MetadataValue::Text(t)) => {
            if t.as_str().is_empty() {
                Err(SchnauzerError::MissingMetadata { meta: string_of(meta), key: string_of(key) })
            } else {
                Ok(t)
            }
        },
    }
}

/// A success status code (`2xx`).
pub open spec fn is_success(code: u16) -> bool {
    200 <= code < 300
}

/// Accepts an API response whose status code is a success; any other is
/// reported with the request and the response body.
pub fn checked_response(method: &str, uri: &str, code: u16, response_body: &str) -> (r: Result<(), SchnauzerError>)
    ensures
        is_success(code) ==> r is Ok,
        !is_success(code) ==> (r matches Err(SchnauzerError::Response { method: m, uri: u, code: c, response_body: b })
            && m@ == method@ && u@ == uri@ && c == code && b@ == response_body@),
{
    if 200 <= code && code < 300 {
        Ok(())
    } else {
        Err(SchnauzerError::Response {
            method: string_of(method),
            uri: string_of(uri),
            code,
            response_body: string_of(response_body),
        })
    }
}

/// What `serde_json::from_str` into a map from keys to JSON values makes of a
/// response body, looked up at `key`: the parser's message when the body is not
/// a JSON object; otherwise the member, if any, as whether it is a string and
/// either the string's text or the value's compact JSON.
pub uninterp spec fn json_object_member(body: Seq<char>, key: Seq<char>) -> Result<Option<(bool, Seq<char>)>, Seq<char>>;

/// The metadata value as a plain value.
pub open spec fn metadata_view(v: MetadataValue) -> (bool, Seq<char>) {
    match v {
        MetadataValue::Text(t) => (true, t@),
        MetadataValue::Other(j) => (false, j@),
    }
}

/// `serde_json::from_str::<HashMap<String, serde_json::Value>>` on the body, then
/// the member at `key`. The contract only names the result.
#[verifier::external_body]
fn json_member(body: &str, key: &str) -> (r: Result<Option<MetadataValue>, String>)
    ensures
        match r {
            Err(m) => json_object_member(body@, key@) == Err::<Option<(bool, Seq<char>)>, Seq<char>>(m@),
            Ok(None) => json_object_member(body@, key@) == Ok::<Option<(bool, Seq<char>)>, Seq<char>>(None),
            Ok(Some(v)) => json_object_member(body@, key@) == Ok::<Option<(bool, Seq<char>)>, Seq<char>>(
                Some(metadata_view(v)),
            ),
        },
{
    let map: std::collections::HashMap<String, serde_json::Value> = match serde_json::from_str(body) {
        Ok(m) => m,
        Err(e) => return Err(e.to_string()),
    };
    match map.get(key) {
        None => Ok(None),
        Some(serde_json::Value::String(t)) => Ok(Some(MetadataValue::Text(t.clone()))),
        Some(other) => Ok(Some(MetadataValue::Other(other.to_string()))),
    }
}

/// The metadata value from the answer to a metadata request: the status code
/// must be a success, the body a JSON object, and its member at `key` a
/// non-empty string.
pub fn metadata_from_response(code: u16, body: &str, key: &str, meta: &str) -> (r: Result<String, SchnauzerError>)
    ensures
        !is_success(code) ==> (r matches Err(SchnauzerError::Response { method, uri, code: c, response_body })
            && method@ == "GET"@ && uri@ == API_METADATA_URI_BASE@ + meta@ + "?keys="@ + key@ && c == code
            && response_body@ == body@),
        is_success(code) ==> match json_object_member(body@, key@) {
            Err(m) => r matches Err(SchnauzerError::DeserializeJson { message }) && message@ == m,
            Ok(None) => r matches Err(SchnauzerError::MissingMetadata { meta: m, key: k }) && m@ == meta@ && k@ == key@,
            Ok(Some((false, json))) => r matches Err(SchnauzerError::MetadataWrongType { meta: m, expected, value: v })
                && m@ == meta@ && expected@ == "string"@ && v@ == json,
            Ok(Some((true, t))) => if t.len() == 0 {
                r matches Err(SchnauzerError::MissingMetadata { meta: m, key: k }) && m@ == meta@ && k@ == key@
            } else {
                r matches Ok(s) && s@ == t
            },
        },
{
    let uri = metadata_uri(key, meta);
    match checked_response("GET", uri.as_str(), code, body) {
        Err(e) => Err(e),
        Ok(()) => match json_member(body, key) {
            Err(message) => Err(SchnauzerError::DeserializeJson { message }),
            Ok(value) => metadata_string(key, meta, value),
        },
    }
}

/// The setting name that the first tool is asked for: its first argument after
/// the program name; `None` (show the usage) when there is none or it is
/// `--help` or `-h`.
pub fn parse_args(args: &Vec<String>) -> (r: Option<String>)
    ensures
        args@.len() < 2 ==> r is None,
        args@.len() >= 2 && (args@[1]@ == "--help"@ || args@[1]@ == "-h"@) ==> r is None,
        args@.len() >= 2 && !(args@[1]@ == "--help"@ || args@[1]@ == "-h"@) ==> (r matches Some(s) && s@ == args@[1]@),
{
    if args.len() < 2 {
        return None;
    }
    let a = chars_of(args[1].as_str());
    let help = chars_of("--help");
    let h = chars_of("-h");
    if chars_eq(a.as_slice(), help.as_slice()) || chars_eq(a.as_slice(), h.as_slice()) {
        None
    } else {
        Some(string_from_chars(a.as_slice()))
    }
}


/// A character that may stand in an encoded query as it is: printable ASCII
/// other than space, `"`, `#`, `<`, `>`.
pub open spec fn query_safe(c: char) -> bool {
    0x21 <= (c as u32) < 0x7F && c != '"' && c != '#' && c != '<' && c != '>'
}

/// The encoded query holds no character that the query component escapes,
/// whatever the text was.
pub proof fn lemma_percent_encoded_is_safe(bytes: Seq<u8>)
    ensures
        forall|i: int| 0 <= i < percent_encoded(bytes).len() ==> query_safe(#[trigger] percent_encoded(bytes)[i]),
    decreases bytes.len(),
{
    if bytes.len() > 0 {
        lemma_percent_encoded_is_safe(bytes.drop_last());
        let prev = percent_encoded(bytes.drop_last());
        let b = bytes.last();
        let piece = percent_piece(b);
        assert forall|i: int| 0 <= i < piece.len() implies query_safe(#[trigger] piece[i]) by {
            if query_escapes(b) {
                let hi = (b / 16) as nat;
                let lo = (b % 16) as nat;
                assert(hi < 16 && lo < 16);
            }
        }
        assert forall|i: int| 0 <= i < percent_encoded(bytes).len() implies query_safe(#[trigger] percent_encoded(bytes)[i]) by {
            if i < prev.len() {
                assert(percent_encoded(bytes)[i] == prev[i]);
            } else {
                assert(percent_encoded(bytes)[i] == piece[i - prev.len()]);
            }
        }
    }
}

} // verus!
