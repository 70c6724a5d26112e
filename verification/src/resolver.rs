//! Settings sources named by a URI-like text, and the choice of the resolver
//! that fetches each one.
//!
//! A source is `-` (standard input), `base64:DATA`, a `file://` URL, an
//! `http(s)://` URL, `s3://bucket/key`, `secretsmanager://id`, `ssm://name`, or a
//! Secrets Manager or SSM parameter ARN. Every kind has a parser (`try_from`);
//! [`select_resolver`] takes the first parser, in that order, that accepts the
//! text. Fetching is I/O and stands outside this library, except what needs no
//! I/O: decoding `base64:` data, and bounding the size of an HTTP body as its
//! chunks arrive ([`BoundedBody`]).
use crate::cloud::{
    arn_of, s3_parts, CloudError, S3Uri, SecretsManagerArn, SecretsManagerUri, SsmArn, SsmUri,
};
use crate::text::{
    chars_eq, chars_of, find_char, has_prefix, index_of, push_decimal, push_signed_decimal,
    push_str, string_from_chars, string_of, strip_prefix, sub_chars, decimal, signed_decimal,
};
use base64::Engine as _;
use vstd::prelude::*;
use vstd::utf8::{decode_utf8, valid_utf8};

verus! {

/// Largest object that a remote source may deliver (2 MiB).
pub const MAX_SIZE_BYTES: u64 = 2 * 1024 * 1024;

/// Why a text is not a usable ARN.
#[derive(Clone, Copy, Debug, PartialEq, Eq, Structural)]
pub enum ArnFormatReason {
    /// The text does not start with `arn:aws:`.
    MissingPrefix,
    /// The text has only `pieces` `:`-separated pieces, not more than four.
    TooFewParts { pieces: usize },
    /// The ARN kind needs `expected` pieces; the text has `found` (counted as an `i8`).
    WrongPartCount { expected: i8, found: i8 },
}

/// The text that describes an ARN format problem.
pub open spec fn arn_reason_text(r: ArnFormatReason) -> Seq<char> {
    match r {
        ArnFormatReason::MissingPrefix => "must start with 'arn:aws:'"@,
        ArnFormatReason::TooFewParts { pieces } => "expected at least 4 ':' separators, found "@ + decimal(
            pieces as nat,
        ),
        ArnFormatReason::WrongPartCount { expected, found } => "expected "@ + signed_decimal(expected - 1)
            + " ':' separators ("@ + signed_decimal(expected as int) + " parts), found "@ + signed_decimal(
            found as int,
        ),
    }
}

impl ArnFormatReason {
    /// Describes the problem, e.g. `expected 6 ':' separators (7 parts), found 5`.
    pub fn message(&self) -> (m: String)
        ensures
            m@ == arn_reason_text(*self),
    {
        match self {
            ArnFormatReason::MissingPrefix => string_of("must start with 'arn:aws:'"),
            ArnFormatReason::TooFewParts { pieces } => {
                let mut m = string_of("expected at least 4 ':' separators, found ");
                push_decimal(&mut m, *pieces as u64);
                m
            },
            ArnFormatReason::WrongPartCount { expected, found } => {
                let mut m = string_of("expected ");
                push_signed_decimal(&mut m, *expected as i32 - 1);
                push_str(&mut m, " ':' separators (");
                push_signed_decimal(&mut m, *expected as i32);
                push_str(&mut m, " parts), found ");
                push_signed_decimal(&mut m, *found as i32);
                m
            },
        }
    }
}

/// Why `base64:` data could not be decoded (the kinds of the `base64` crate's
/// `DecodeError`).
#[derive(Clone, Copy, Debug, PartialEq, Eq, Structural)]
pub enum Base64DecodeError {
    InvalidByte { offset: usize, byte: u8 },
    InvalidLength { length: usize },
    InvalidLastSymbol { offset: usize, byte: u8 },
    InvalidPadding,
}

/// Errors of the source parsers, of selecting a resolver, and of the fetches
/// that need no I/O.
#[derive(Clone, Debug)]
pub enum ResolverError {
    /// No resolver accepts the text.
    NoResolver { input_source: String },
    /// The text is not an ARN of the expected form.
    InvalidArnFormat { input_source: String, reason: ArnFormatReason },
    /// The text is not `base64:` followed by data.
    Base64Uri { input_source: String },
    /// The data is not standard base64.
    Base64Decode { input_source: String, source: Base64DecodeError },
    /// The text is not a `file:` URL with a local path.
    FileUri { input_source: String },
    /// The text is not an `http:` or `https:` URL.
    InvalidHTTPUri { input_source: String },
    /// The HTTP body is larger than allowed.
    HttpObjectTooLarge { size: u64, max_size: u64, uri: String },
    /// The fetched bytes are not UTF-8.
    Utf8Decode { uri: String },
    /// An AWS source problem.
    Cloud { source: CloudError },
}

impl From<CloudError> for ResolverError {
    /// An AWS source problem is a resolver problem.
    fn from(e: CloudError) -> (r: ResolverError) {
        ResolverError::Cloud { source: e }
    }
}

impl vstd::std_specs::convert::FromSpecImpl<CloudError> for ResolverError {
    open spec fn obeys_from_spec() -> bool {
        true
    }

    open spec fn from_spec(e: CloudError) -> ResolverError {
        ResolverError::Cloud { source: e }
    }
}

/// What `url::Url::parse` makes of a text: the URL's serialization, or `None`
/// when the text is not a URL.
pub uninterp spec fn url_parse(input: Seq<char>) -> Option<Seq<char>>;

/// The bytes of the local path that `url::Url::to_file_path` gives for the URL
/// with this serialization (as the platform encodes paths), or `None` when it
/// gives none.
pub uninterp spec fn url_file_path(serialization: Seq<char>) -> Option<Seq<u8>>;

/// `url::Url::parse`, keeping the serialization of the parsed URL
/// (`String::from(url)`). The contract only names the result.
#[verifier::external_body]
fn parse_url(input: &str) -> (r: Option<String>)
    ensures
        match r {
            Some(u) => url_parse(input@) == Some(u@),
            None => url_parse(input@) is None,
        },
{
    url::Url::parse(input).ok().map(String::from)
}

/// `url::Url::to_file_path` of the URL with the given serialization (read back
/// into a `Url` by `Url::parse`, which gives the same URL for its own
/// serialization), as the path's encoded bytes. The contract only names the
/// result.
#[verifier::external_body]
fn file_path_of_url(serialization: &str) -> (r: Option<Vec<u8>>)
    ensures
        match r {
            Some(p) => url_file_path(serialization@) == Some(p@),
            None => url_file_path(serialization@) is None,
        },
{
    let url = url::Url::parse(serialization).ok()?;
    let path = url.to_file_path().ok()?;
    Some(path.into_os_string().into_encoded_bytes())
}

/// What the standard base64 engine of the `base64` crate decodes a text to.
pub uninterp spec fn base64_standard_decode(input: Seq<char>) -> Result<Seq<u8>, Base64DecodeError>;

/// `base64::engine::general_purpose::STANDARD.decode`; its error is carried over
/// variant by variant. The contract only names the result.
#[verifier::external_body]
fn decode_base64_standard(data: &str) -> (r: Result<Vec<u8>, Base64DecodeError>)
    ensures
        match r {
            Ok(b) => base64_standard_decode(data@) == Ok::<Seq<u8>, Base64DecodeError>(b@),
            Err(e) => base64_standard_decode(data@) == Err::<Seq<u8>, Base64DecodeError>(e),
        },
{
    match base64::engine::general_purpose::STANDARD.decode(data) {
        Ok(b) => Ok(b),
        Err(base64::DecodeError::InvalidByte(offset, byte)) => Err(Base64DecodeError::InvalidByte { offset, byte }),
        Err(base64::DecodeError::InvalidLength(length)) => Err(Base64DecodeError::InvalidLength { length }),
        Err(base64::DecodeError::InvalidLastSymbol(offset, byte)) => Err(
            Base64DecodeError::InvalidLastSymbol { offset, byte },
        ),
        Err(base64::DecodeError::InvalidPadding) => Err(Base64DecodeError::InvalidPadding),
    }
}

/// `String::from_utf8`: the bytes as text exactly when they are valid UTF-8.
#[verifier::external_body]
pub(crate) fn string_from_utf8(bytes: Vec<u8>) -> (r: Option<String>)
    ensures
        match r {
            Some(s) => valid_utf8(bytes@) && s@ == decode_utf8(bytes@),
            None => !valid_utf8(bytes@),
        },
{
    String::from_utf8(bytes).ok()
}

/// A URL as parsed from a source text, kept as its serialization.
#[derive(Clone, Debug)]
pub struct ParsedUrl {
    pub serialization: String,
}

/// The scheme of a URL serialization: everything before its first `:`.
pub open spec fn url_scheme(serialization: Seq<char>) -> Seq<char> {
    match index_of(serialization, ':') {
        Some(p) => serialization.take(p),
        None => serialization,
    }
}

impl ParsedUrl {
    /// The serialization of the URL.
    pub fn as_str(&self) -> (r: &str)
        ensures
            r@ == self.serialization@,
    {
        self.serialization.as_str()
    }

    /// The URL's scheme (lower case, without the `:`).
    pub fn scheme(&self) -> (r: Vec<char>)
        ensures
            r@ == url_scheme(self.serialization@),
    {
        let v = chars_of(self.serialization.as_str());
        match find_char(v.as_slice(), ':') {
            Some(p) => sub_chars(v.as_slice(), 0, p),
            None => v,
        }
    }
}

/// A settings source text, with its reading as a URL when it is one.
#[derive(Clone, Debug)]
pub struct SettingsInput {
    pub input: String,
    pub parsed_url: Option<ParsedUrl>,
}

impl SettingsInput {
    /// Keeps the text and parses it as a URL once.
    pub fn new(input: &str) -> (r: SettingsInput)
        ensures
            r.input@ == input@,
            match r.parsed_url {
                Some(u) => url_parse(input@) == Some(u.serialization@),
                None => url_parse(input@) is None,
            },
    {
        let parsed_url = match parse_url(input) {
            Some(s) => Some(ParsedUrl { serialization: s }),
            None => None,
        };
        SettingsInput { input: string_of(input), parsed_url }
    }
}

/// Standard input, named by `-`.
pub struct StdinUri;

impl StdinUri {
    /// Accepts exactly `-`.
    pub fn try_from(input: &SettingsInput) -> (r: Result<StdinUri, ()>)
        ensures
            r is Ok <==> input.input@ == "-"@,
    {
        let v = chars_of(input.input.as_str());
        let dash = chars_of("-");
        if chars_eq(v.as_slice(), dash.as_slice()) {
            Ok(StdinUri)
        } else {
            Err(())
        }
    }
}

/// Data given inline as `base64:DATA`.
pub struct Base64Uri {
    pub encoded_data: String,
}

/// The text that names base64 data: `base64:` and the data.
pub open spec fn base64_source_text(data: Seq<char>) -> Seq<char> {
    "base64:"@ + data
}

impl Base64Uri {
    /// Accepts `base64:` followed by non-empty data.
    pub fn try_from(input: &SettingsInput) -> (r: Result<Base64Uri, ResolverError>)
        ensures
            if has_prefix(input.input@, "base64:"@) && input.input@.len() > "base64:"@.len() {
                r matches Ok(u) && u.encoded_data@ == input.input@.skip("base64:"@.len() as int)
            } else {
                r matches Err(ResolverError::Base64Uri { input_source }) && input_source@ == input.input@
            },
    {
        let v = chars_of(input.input.as_str());
        match strip_prefix(v.as_slice(), "base64:") {
            Some(rest) if rest.len() > 0 => Ok(Base64Uri { encoded_data: string_from_chars(rest.as_slice()) }),
            _ => Err(ResolverError::Base64Uri { input_source: input.input.clone() }),
        }
    }

    /// Turns the result of decoding the data into the source's text: a decoding
    /// error is reported as such, the decoded bytes must be UTF-8.
    pub fn decoded_text(&self, decoded: Result<Vec<u8>, Base64DecodeError>) -> (r: Result<String, ResolverError>)
        ensures
            match decoded {
                Err(e) => r matches Err(ResolverError::Base64Decode { input_source, source })
                    && input_source@ == base64_source_text(self.encoded_data@) && source == e,
                Ok(bytes) => if valid_utf8(bytes@) {
                    r matches Ok(s) && s@ == decode_utf8(bytes@)
                } else {
                    r matches Err(ResolverError::Utf8Decode { uri }) && uri@ == base64_source_text(
                        self.encoded_data@,
                    )
                },
            },
    {
        let mut name = string_of("base64:");
        push_str(&mut name, self.encoded_data.as_str());
        match decoded {
            Err(e) => Err(ResolverError::Base64Decode { input_source: name, source: e }),
            Ok(bytes) => match string_from_utf8(bytes) {
                Some(s) => Ok(s),
                None => Err(ResolverError::Utf8Decode { uri: name }),
            },
        }
    }

    /// The text that the data stands for: the data decoded as standard base64,
    /// read as UTF-8.
    pub fn resolve(&self) -> (r: Result<String, ResolverError>)
        ensures
            match base64_standard_decode(self.encoded_data@) {
                Err(e) => r matches Err(ResolverError::Base64Decode { input_source, source })
                    && input_source@ == base64_source_text(self.encoded_data@) && source == e,
                Ok(bytes) => if valid_utf8(bytes) {
                    r matches Ok(s) && s@ == decode_utf8(bytes)
                } else {
                    r matches Err(ResolverError::Utf8Decode { uri }) && uri@ == base64_source_text(
                        self.encoded_data@,
                    )
                },
            },
    {
        let decoded = decode_base64_standard(self.encoded_data.as_str());
        self.decoded_text(decoded)
    }
}

/// A local file named by a `file:` URL.
pub struct FileUri {
    /// The bytes of the file's path, as the platform encodes paths.
    pub path: Vec<u8>,
}

impl FileUri {
    /// The file's path as text, or `None` when it is not UTF-8.
    pub fn path_text(&self) -> (r: Option<String>)
        ensures
            valid_utf8(self.path@) ==> (r matches Some(s) && s@ == decode_utf8(self.path@)),
            !valid_utf8(self.path@) ==> r is None,
    {
        let mut bytes: Vec<u8> = Vec::new();
        let mut i: usize = 0;
        while i < self.path.len()
            invariant
                i <= self.path@.len(),
                bytes@ == self.path@.take(i as int),
            decreases self.path@.len() - i,
        {
            bytes.push(self.path[i]);
            assert(bytes@ =~= self.path@.take(i + 1));
            i = i + 1;
        }
        assert(bytes@ =~= self.path@);
        string_from_utf8(bytes)
    }

    /// Accepts a URL whose scheme is `file` and that names a local path.
    pub fn try_from(input: &SettingsInput) -> (r: Result<FileUri, ResolverError>)
        ensures
            match input.parsed_url {
                None => r matches Err(ResolverError::FileUri { input_source }) && input_source@ == input.input@,
                Some(u) => if url_scheme(u.serialization@) != "file"@ {
                    r matches Err(ResolverError::FileUri { input_source }) && input_source@ == u.serialization@
                } else {
                    match url_file_path(u.serialization@) {
                        Some(p) => r matches Ok(f) && f.path@ == p,
                        None => r matches Err(ResolverError::FileUri { input_source })
                            && input_source@ == u.serialization@,
                    }
                },
            },
    {
        let url = match &input.parsed_url {
            Some(u) => u,
            None => {
                return Err(ResolverError::FileUri { input_source: input.input.clone() });
            },
        };
        let scheme = url.scheme();
        let file = chars_of("file");
        if !chars_eq(scheme.as_slice(), file.as_slice()) {
            return Err(ResolverError::FileUri { input_source: url.serialization.clone() });
        }
        match file_path_of_url(url.as_str()) {
            Some(path) => Ok(FileUri { path }),
            None => Err(ResolverError::FileUri { input_source: url.serialization.clone() }),
        }
    }
}

/// A document named by an `http:` or `https:` URL.
pub struct HttpUri {
    /// Serialization of the URL.
    pub url: String,
}

impl HttpUri {
    /// Accepts a URL whose scheme is `http` or `https`.
    pub fn try_from(input: &SettingsInput) -> (r: Result<HttpUri, ResolverError>)
        ensures
            match input.parsed_url {
                None => r matches Err(ResolverError::InvalidHTTPUri { input_source })
                    && input_source@ == input.input@,
                Some(u) => if url_scheme(u.serialization@) == "http"@ || url_scheme(u.serialization@)
                    == "https"@ {
                    r matches Ok(h) && h.url@ == u.serialization@
                } else {
                    r matches Err(ResolverError::InvalidHTTPUri { input_source })
                        && input_source@ == u.serialization@
                },
            },
    {
        let url = match &input.parsed_url {
            Some(u) => u,
            None => {
                return Err(ResolverError::InvalidHTTPUri { input_source: input.input.clone() });
            },
        };
        let scheme = url.scheme();
        let http = chars_of("http");
        let https = chars_of("https");
        if chars_eq(scheme.as_slice(), http.as_slice()) || chars_eq(scheme.as_slice(), https.as_slice()) {
            Ok(HttpUri { url: url.serialization.clone() })
        } else {
            Err(ResolverError::InvalidHTTPUri { input_source: url.serialization.clone() })
        }
    }
}


/// Whether the source text is standard input.
pub open spec fn stdin_accepts(input: SettingsInput) -> bool {
    input.input@ == "-"@
}

/// Whether the source text is inline base64 data.
pub open spec fn base64_accepts(input: SettingsInput) -> bool {
    has_prefix(input.input@, "base64:"@) && input.input@.len() > "base64:"@.len()
}

/// Whether the source text is a `file:` URL with a local path.
pub open spec fn file_accepts(input: SettingsInput) -> bool {
    input.parsed_url matches Some(u) && url_scheme(u.serialization@) == "file"@ && url_file_path(
        u.serialization@,
    ) is Some
}

/// Whether the source text is an `http:` or `https:` URL.
pub open spec fn http_accepts(input: SettingsInput) -> bool {
    input.parsed_url matches Some(u) && (url_scheme(u.serialization@) == "http"@ || url_scheme(
        u.serialization@,
    ) == "https"@)
}

/// Whether the source text names an S3 object.
pub open spec fn s3_accepts(input: SettingsInput) -> bool {
    has_prefix(input.input@, "s3://"@) && s3_parts(input.input@) is Some
}

/// Whether the source text is a Secrets Manager ARN.
pub open spec fn secrets_manager_arn_accepts(input: SettingsInput) -> bool {
    arn_of(input.input@) matches Ok((service, _, parts)) && parts == 7 && service == "secretsmanager"@
}

/// Whether the source text is a `secretsmanager://` name.
pub open spec fn secrets_manager_uri_accepts(input: SettingsInput) -> bool {
    has_prefix(input.input@, "secretsmanager://"@) && input.input@.len() > "secretsmanager://"@.len()
}

/// Whether the source text is an SSM parameter ARN.
pub open spec fn ssm_arn_accepts(input: SettingsInput) -> bool {
    arn_of(input.input@) matches Ok((service, _, parts)) && parts == 6 && service == "ssm"@
}

/// Whether the source text is an `ssm://` name.
pub open spec fn ssm_uri_accepts(input: SettingsInput) -> bool {
    has_prefix(input.input@, "ssm://"@) && input.input@.len() > "ssm://"@.len()
}

/// The resolver chosen for a source.
pub enum Resolver {
    Stdin(StdinUri),
    Base64(Base64Uri),
    File(FileUri),
    Http(HttpUri),
    S3(S3Uri),
    SecretsManagerArn(SecretsManagerArn),
    SecretsManagerUri(SecretsManagerUri),
    SsmArn(SsmArn),
    SsmUri(SsmUri),
}

/// Chooses the resolver for a source: the first, in the order standard input,
/// base64, file, HTTP(S), S3, Secrets Manager ARN, Secrets Manager name, SSM ARN,
/// SSM name, whose parser accepts the text.
pub fn select_resolver(input: &SettingsInput) -> (r: Result<Resolver, ResolverError>)
    ensures
        stdin_accepts(*input) ==> r matches Ok(Resolver::Stdin(_)),
        !stdin_accepts(*input) && base64_accepts(*input) ==> (r matches Ok(Resolver::Base64(b))
            && b.encoded_data@ == input.input@.skip("base64:"@.len() as int)),
        !stdin_accepts(*input) && !base64_accepts(*input) && file_accepts(*input) ==> (r matches Ok(
            Resolver::File(f),
        ) && Some(f.path@) == url_file_path(input.parsed_url->0.serialization@)),
        !stdin_accepts(*input) && !base64_accepts(*input) && !file_accepts(*input) && http_accepts(*input)
            ==> (r matches Ok(Resolver::Http(h)) && h.url@ == input.parsed_url->0.serialization@),
        !stdin_accepts(*input) && !base64_accepts(*input) && !file_accepts(*input) && !http_accepts(*input)
            && s3_accepts(*input) ==> (r matches Ok(Resolver::S3(u)) && s3_parts(input.input@)
            == Some((u.bucket@, u.key@))),
        !stdin_accepts(*input) && !base64_accepts(*input) && !file_accepts(*input) && !http_accepts(*input)
            && !s3_accepts(*input) && secrets_manager_arn_accepts(*input) ==> (r matches Ok(
            Resolver::SecretsManagerArn(a),
        ) && a.full_arn@ == input.input@ && a.region@ == arn_of(input.input@)->Ok_0.1),
        !stdin_accepts(*input) && !base64_accepts(*input) && !file_accepts(*input) && !http_accepts(*input)
            && !s3_accepts(*input) && !secrets_manager_arn_accepts(*input) && secrets_manager_uri_accepts(
            *input,
        ) ==> (r matches Ok(Resolver::SecretsManagerUri(u)) && u.secret_id@ == input.input@.skip(
            "secretsmanager://"@.len() as int,
        )),
        !stdin_accepts(*input) && !base64_accepts(*input) && !file_accepts(*input) && !http_accepts(*input)
            && !s3_accepts(*input) && !secrets_manager_arn_accepts(*input) && !secrets_manager_uri_accepts(
            *input,
        ) && ssm_arn_accepts(*input) ==> (r matches Ok(Resolver::SsmArn(a)) && a.full_arn@ == input.input@
            && a.region@ == arn_of(input.input@)->Ok_0.1),
        !stdin_accepts(*input) && !base64_accepts(*input) && !file_accepts(*input) && !http_accepts(*input)
            && !s3_accepts(*input) && !secrets_manager_arn_accepts(*input) && !secrets_manager_uri_accepts(
            *input,
        ) && !ssm_arn_accepts(*input) && ssm_uri_accepts(*input) ==> (r matches Ok(Resolver::SsmUri(u))
            && u.parameter_name@ == input.input@.skip("ssm://"@.len() as int)),
        !stdin_accepts(*input) && !base64_accepts(*input) && !file_accepts(*input) && !http_accepts(*input)
            && !s3_accepts(*input) && !secrets_manager_arn_accepts(*input) && !secrets_manager_uri_accepts(
            *input,
        ) && !ssm_arn_accepts(*input) && !ssm_uri_accepts(*input) ==> (r matches Err(
            ResolverError::NoResolver { input_source },
        ) && input_source@ == input.input@),
{
    if let Ok(x) = StdinUri::try_from(input) {
        return Ok(Resolver::Stdin(x));
    }
    if let Ok(x) = Base64Uri::try_from(input) {
        return Ok(Resolver::Base64(x));
    }
    if let Ok(x) = FileUri::try_from(input) {
        return Ok(Resolver::File(x));
    }
    if let Ok(x) = HttpUri::try_from(input) {
        return Ok(Resolver::Http(x));
    }
    if let Ok(x) = S3Uri::try_from(input) {
        return Ok(Resolver::S3(x));
    }
    if let Ok(x) = SecretsManagerArn::try_from(input) {
        return Ok(Resolver::SecretsManagerArn(x));
    }
    if let Ok(x) = SecretsManagerUri::try_from(input) {
        return Ok(Resolver::SecretsManagerUri(x));
    }
    if let Ok(x) = SsmArn::try_from(input) {
        return Ok(Resolver::SsmArn(x));
    }
    if let Ok(x) = SsmUri::try_from(input) {
        return Ok(Resolver::SsmUri(x));
    }
    Err(ResolverError::NoResolver { input_source: input.input.clone() })
}

/// An HTTP body collected chunk by chunk under a size limit.
pub struct BoundedBody {
    bytes: Vec<u8>,
    max_size: u64,
    uri: String,
}

impl BoundedBody {
    /// The bytes collected so far.
    pub closed spec fn contents(&self) -> Seq<u8> {
        self.bytes@
    }

    /// The size limit.
    pub closed spec fn limit(&self) -> u64 {
        self.max_size
    }

    /// The URI that errors name.
    pub closed spec fn source_uri(&self) -> Seq<char> {
        self.uri@
    }

    /// What holds of every body: it never exceeds its limit.
    pub closed spec fn wf(&self) -> bool {
        self.bytes@.len() <= self.max_size
    }

    /// Starts collecting a body; a declared content length above the limit is
    /// refused before anything is read.
    pub fn new(content_length: Option<u64>, max_size: u64, uri: &str) -> (r: Result<BoundedBody, ResolverError>)
        ensures
            match content_length {
                Some(len) if len > max_size => r matches Err(ResolverError::HttpObjectTooLarge {
                    size,
                    max_size: m,
                    uri: u,
                }) && size == len && m == max_size && u@ == uri@,
                _ => r matches Ok(b) && b.wf() && b.contents() == Seq::<u8>::empty() && b.limit() == max_size
                    && b.source_uri() == uri@,
            },
    {
        if let Some(len) = content_length {
            if len > max_size {
                return Err(ResolverError::HttpObjectTooLarge { size: len, max_size, uri: string_of(uri) });
            }
        }
        Ok(BoundedBody { bytes: Vec::new(), max_size, uri: string_of(uri) })
    }

    /// Adds the next chunk, unless the body would then exceed the limit; then the
    /// error names the size that it would have reached, and the body is unchanged.
    pub fn push_chunk(&mut self, chunk: &[u8]) -> (r: Result<(), ResolverError>)
        requires
            old(self).wf(),
            old(self).contents().len() + chunk@.len() <= u64::MAX,
        ensures
            final(self).wf(),
            final(self).limit() == old(self).limit(),
            final(self).source_uri() == old(self).source_uri(),
            old(self).contents().len() + chunk@.len() > old(self).limit() ==> (r matches Err(
                ResolverError::HttpObjectTooLarge { size, max_size, uri },
            ) && size == old(self).contents().len() + chunk@.len() && max_size == old(self).limit()
                && uri@ == old(self).source_uri() && final(self).contents() == old(self).contents()),
            old(self).contents().len() + chunk@.len() <= old(self).limit() ==> (r is Ok && final(self).contents()
                == old(self).contents() + chunk@),
    {
        let total: u64 = self.bytes.len() as u64 + chunk.len() as u64;
        if total > self.max_size {
            return Err(ResolverError::HttpObjectTooLarge {
                size: total,
                max_size: self.max_size,
                uri: self.uri.clone(),
            });
        }
        let n = chunk.len();
        let mut i: usize = 0;
        while i < n
            invariant
                n == chunk@.len(),
                i <= n,
                self.bytes@ == old(self).bytes@ + chunk@.take(i as int),
                self.max_size == old(self).max_size,
                self.uri == old(self).uri,
            decreases n - i,
        {
            self.bytes.push(chunk[i]);
            assert(chunk@.take(i + 1) == chunk@.take(i as int).push(chunk@[i as int]));
            i = i + 1;
        }
        assert(chunk@.take(n as int) =~= chunk@);
        Ok(())
    }

    /// The collected bytes.
    pub fn into_bytes(self) -> (b: Vec<u8>)
        ensures
            b@ == self.contents(),
    {
        self.bytes
    }
}


proof fn lemma_prefix_char(s: Seq<char>, p: Seq<char>, k: int)
    requires
        has_prefix(s, p),
        0 <= k < p.len(),
    ensures
        s[k] == p[k],
{
    assert(s.subrange(0, p.len() as int)[k] == s[k]);
}

/// The sources named by their text alone (standard input, base64 data, S3,
/// Secrets Manager and SSM names and ARNs) never overlap: no text is accepted
/// by two of their parsers, so their order in [`select_resolver`] does not
/// matter among them.
pub proof fn lemma_text_sources_exclusive(input: SettingsInput)
    ensures
        !(stdin_accepts(input) && base64_accepts(input)),
        !(stdin_accepts(input) && s3_accepts(input)),
        !(stdin_accepts(input) && secrets_manager_arn_accepts(input)),
        !(stdin_accepts(input) && secrets_manager_uri_accepts(input)),
        !(stdin_accepts(input) && ssm_arn_accepts(input)),
        !(stdin_accepts(input) && ssm_uri_accepts(input)),
        !(base64_accepts(input) && s3_accepts(input)),
        !(base64_accepts(input) && secrets_manager_arn_accepts(input)),
        !(base64_accepts(input) && secrets_manager_uri_accepts(input)),
        !(base64_accepts(input) && ssm_arn_accepts(input)),
        !(base64_accepts(input) && ssm_uri_accepts(input)),
        !(s3_accepts(input) && secrets_manager_arn_accepts(input)),
        !(s3_accepts(input) && secrets_manager_uri_accepts(input)),
        !(s3_accepts(input) && ssm_arn_accepts(input)),
        !(s3_accepts(input) && ssm_uri_accepts(input)),
        !(secrets_manager_arn_accepts(input) && secrets_manager_uri_accepts(input)),
        !(secrets_manager_arn_accepts(input) && ssm_arn_accepts(input)),
        !(secrets_manager_arn_accepts(input) && ssm_uri_accepts(input)),
        !(secrets_manager_uri_accepts(input) && ssm_arn_accepts(input)),
        !(secrets_manager_uri_accepts(input) && ssm_uri_accepts(input)),
        !(ssm_arn_accepts(input) && ssm_uri_accepts(input)),
{
    reveal_strlit("-");
    reveal_strlit("base64:");
    reveal_strlit("s3://");
    reveal_strlit("arn:aws:");
    reveal_strlit("secretsmanager://");
    reveal_strlit("ssm://");
    let t = input.input@;
    if has_prefix(t, "base64:"@) {
        lemma_prefix_char(t, "base64:"@, 0);
        lemma_prefix_char(t, "base64:"@, 1);
    }
    if has_prefix(t, "s3://"@) {
        lemma_prefix_char(t, "s3://"@, 0);
        lemma_prefix_char(t, "s3://"@, 1);
    }
    if has_prefix(t, "arn:aws:"@) {
        lemma_prefix_char(t, "arn:aws:"@, 0);
        lemma_prefix_char(t, "arn:aws:"@, 1);
    }
    if has_prefix(t, "secretsmanager://"@) {
        lemma_prefix_char(t, "secretsmanager://"@, 0);
        lemma_prefix_char(t, "secretsmanager://"@, 1);
    }
    if has_prefix(t, "ssm://"@) {
        lemma_prefix_char(t, "ssm://"@, 0);
        lemma_prefix_char(t, "ssm://"@, 1);
    }
}

} // verus!
