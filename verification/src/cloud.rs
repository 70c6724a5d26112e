//! Parsers for the AWS forms of a settings source: `s3://bucket/key`,
//! `secretsmanager://id`, `ssm://name`, and the Secrets Manager and SSM
//! parameter ARNs.
//!
//! The fetches themselves (S3, Secrets Manager, SSM) are network calls and stand
//! outside this library; what a fetch decides on its own, the size check of an
//! S3 object and the reading of its body as text, stands here.
use crate::resolver::{
    string_from_utf8, ArnFormatReason, ResolverError, SettingsInput, MAX_SIZE_BYTES,
};
use vstd::utf8::{decode_utf8, valid_utf8};
use crate::text::{
    lemma_index_of, chars_of, chars_eq, find_char, push_str, has_prefix, index_of, split_chars, split_on, string_from_chars,
    string_of, strip_prefix, sub_chars,
};
use vstd::prelude::*;

verus! {

/// Errors of the AWS source parsers and of the S3 size check.
#[derive(Clone, Debug)]
pub enum CloudError {
    /// The S3 object is larger than the limit.
    S3ObjectTooLarge { size: u64, max_size: u64, bucket: String, key: String },
    /// The text does not start with `s3://`.
    S3UriScheme { input_source: String },
    /// The S3 text names no bucket.
    S3UriMissingBucket { input_source: String },
    /// The S3 text has no `/` after the bucket.
    S3UriMissingKey { input_source: String },
    /// The S3 object's metadata carries no content length.
    S3MissingContentLength { bucket: String, key: String },
    /// The text is not `secretsmanager://` followed by an id.
    SecretsManagerUri { input_source: String },
    /// The ARN does not name the `secretsmanager` service.
    SecretsManagerArn { input_source: String },
    /// The ARN does not name the `ssm` service.
    SsmArn { input_source: String },
    /// The text is not `ssm://` followed by a name.
    SsmUri { input_source: String },
}

/// The pieces of an ARN that the ARN parsers look at.
pub struct Arn {
    /// Third `:`-separated piece.
    pub service: String,
    /// Fourth `:`-separated piece.
    pub region: String,
    /// Number of `:`-separated pieces, kept as an `i8`, so that it wraps for
    /// more than 127 pieces.
    pub parts: i8,
}

/// How `Arn::parse` answers for a text: the error reason, or the service,
/// region and (wrapped) piece count.
pub open spec fn arn_of(s: Seq<char>) -> Result<(Seq<char>, Seq<char>, i8), ArnFormatReason> {
    let parts = split_on(s, ':');
    if !has_prefix(s, "arn:aws:"@) {
        Err(ArnFormatReason::MissingPrefix)
    } else if parts.len() <= 4 {
        Err(ArnFormatReason::TooFewParts { pieces: parts.len() as usize })
    } else {
        Ok((parts[2], parts[3], parts.len() as i8))
    }
}

impl Arn {
    /// Splits an ARN at its `:`s; it must start with `arn:aws:` and have more than
    /// four pieces.
    pub fn parse(input: &str) -> (r: Result<Arn, ResolverError>)
        ensures
            match arn_of(input@) {
                Ok((service, region, parts)) => r matches Ok(a) && a.service@ == service
                    && a.region@ == region && a.parts == parts,
                Err(reason) => r matches Err(ResolverError::InvalidArnFormat { input_source, reason: rr })
                    && input_source@ == input@ && rr == reason,
            },
    {
        let v = chars_of(input);
        let prefix = chars_of("arn:aws:");
        if !crate::text::starts_with(v.as_slice(), prefix.as_slice()) {
            return Err(ResolverError::InvalidArnFormat {
                input_source: string_of(input),
                reason: ArnFormatReason::MissingPrefix,
            });
        }
        let parts = split_chars(v.as_slice(), ':');
        if parts.len() <= 4 {
            return Err(ResolverError::InvalidArnFormat {
                input_source: string_of(input),
                reason: ArnFormatReason::TooFewParts { pieces: parts.len() },
            });
        }
        let n = parts.len();
        Ok(Arn {
            service: string_from_chars(parts[2].as_slice()),
            region: string_from_chars(parts[3].as_slice()),
            parts: n as i8,
        })
    }
}

/// An object in S3.
pub struct S3Uri {
    pub bucket: String,
    pub key: String,
}

/// The bucket and key of an `s3://bucket/key` text: what follows `s3://` is
/// cut at its first `/`.
pub open spec fn s3_parts(s: Seq<char>) -> Option<(Seq<char>, Seq<char>)> {
    let rest = s.skip("s3://"@.len() as int);
    match index_of(rest, '/') {
        Some(p) => Some((rest.take(p), rest.skip(p + 1))),
        None => None,
    }
}

impl S3Uri {
    /// Parses `s3://bucket/key`: the bucket runs to the first `/` after the
    /// scheme (it may be empty), the key is everything after that `/`.
    pub fn try_from(input: &SettingsInput) -> (r: Result<S3Uri, ResolverError>)
        ensures
            !has_prefix(input.input@, "s3://"@) ==> (r matches Err(ResolverError::Cloud {
                source: CloudError::S3UriScheme { input_source },
            }) && input_source@ == input.input@),
            has_prefix(input.input@, "s3://"@) ==> match s3_parts(input.input@) {
                Some((bucket, key)) => r matches Ok(u) && u.bucket@ == bucket && u.key@ == key,
                None => r matches Err(ResolverError::Cloud {
                    source: CloudError::S3UriMissingKey { input_source },
                }) && input_source@ == input.input@,
            },
    {
        let v = chars_of(input.input.as_str());
        let rest = match strip_prefix(v.as_slice(), "s3://") {
            Some(rest) => rest,
            None => {
                return Err(ResolverError::Cloud {
                    source: CloudError::S3UriScheme { input_source: input.input.clone() },
                });
            },
        };
        match find_char(rest.as_slice(), '/') {
            Some(p) => {
                let bucket = sub_chars(rest.as_slice(), 0, p);
                let key = sub_chars(rest.as_slice(), p + 1, rest.len());
                Ok(S3Uri { bucket: string_from_chars(bucket.as_slice()), key: string_from_chars(key.as_slice()) })
            },
            None => Err(ResolverError::Cloud {
                source: CloudError::S3UriMissingKey { input_source: input.input.clone() },
            }),
        }
    }

    /// Checks the content length that the object's metadata reports before the
    /// object is fetched: it must be present, and (read as an unsigned number)
    /// at most [`MAX_SIZE_BYTES`], the largest size allowed.
    pub fn check_object_size(&self, content_length: Option<i64>) -> (r: Result<u64, CloudError>)
        ensures
            match content_length {
                None => r matches Err(CloudError::S3MissingContentLength { bucket, key })
                    && bucket@ == self.bucket@ && key@ == self.key@,
                Some(len) => if (len as u64) <= MAX_SIZE_BYTES {
                    r == Ok::<u64, CloudError>(len as u64)
                } else {
                    r matches Err(CloudError::S3ObjectTooLarge { size, max_size, bucket, key })
                        && size == len as u64 && max_size == MAX_SIZE_BYTES && bucket@ == self.bucket@
                        && key@ == self.key@
                },
            },
    {
        match content_length {
            None => Err(CloudError::S3MissingContentLength { bucket: self.bucket.clone(), key: self.key.clone() }),
            Some(len) => {
                let size = len as u64;
                if size <= MAX_SIZE_BYTES {
                    Ok(size)
                } else {
                    Err(CloudError::S3ObjectTooLarge {
                        size,
                        max_size: MAX_SIZE_BYTES,
                        bucket: self.bucket.clone(),
                        key: self.key.clone(),
                    })
                }
            },
        }
    }

    /// The step after the object's metadata has been read: the object is fetched
    /// only when its size check passes; otherwise resolving ends with that
    /// check's error.
    pub fn after_head(&self, content_length: Option<i64>) -> (r: S3Step)
        ensures
            match content_length {
                None => r matches S3Step::Fail(
                    ResolverError::Cloud { source: CloudError::S3MissingContentLength { bucket, key } },
                ) && bucket@ == self.bucket@ && key@ == self.key@,
                Some(len) => if (len as u64) <= MAX_SIZE_BYTES {
                    r is GetObject
                } else {
                    r matches S3Step::Fail(
                        ResolverError::Cloud { source: CloudError::S3ObjectTooLarge { size, max_size, bucket, key } },
                    ) && size == len as u64 && max_size == MAX_SIZE_BYTES && bucket@ == self.bucket@
                        && key@ == self.key@
                },
            },
    {
        match self.check_object_size(content_length) {
            Ok(_) => S3Step::GetObject,
            Err(e) => S3Step::Fail(ResolverError::Cloud { source: e }),
        }
    }

    /// Reads the fetched object's bytes as text; bytes that are not UTF-8 are
    /// reported with the object's `s3://bucket/key` URI.
    pub fn decode_body(&self, bytes: Vec<u8>) -> (r: Result<String, ResolverError>)
        ensures
            valid_utf8(bytes@) ==> (r matches Ok(s) && s@ == decode_utf8(bytes@)),
            !valid_utf8(bytes@) ==> (r matches Err(ResolverError::Utf8Decode { uri })
                && uri@ == "s3://"@ + self.bucket@ + "/"@ + self.key@),
    {
        match string_from_utf8(bytes) {
            Some(s) => Ok(s),
            None => {
                let mut uri = string_of("s3://");
                push_str(&mut uri, self.bucket.as_str());
                push_str(&mut uri, "/");
                push_str(&mut uri, self.key.as_str());
                Err(ResolverError::Utf8Decode { uri })
            },
        }
    }
}

/// What resolving an S3 source does next.
#[derive(Clone, Debug)]
pub enum S3Step {
    /// Fetch the object.
    GetObject,
    /// Stop with this error.
    Fail(ResolverError),
}

/// A secret named by its full Secrets Manager ARN.
pub struct SecretsManagerArn {
    pub region: String,
    pub full_arn: String,
}

impl SecretsManagerArn {
    /// Accepts an ARN of seven pieces whose service is `secretsmanager`.
    pub fn try_from(input: &SettingsInput) -> (r: Result<SecretsManagerArn, ResolverError>)
        ensures
            match arn_of(input.input@) {
                Err(reason) => r matches Err(ResolverError::InvalidArnFormat { input_source, reason: rr })
                    && input_source@ == input.input@ && rr == reason,
                Ok((service, region, parts)) => if parts != 7 {
                    r matches Err(ResolverError::InvalidArnFormat { input_source, reason: rr })
                        && input_source@ == input.input@
                        && rr == (ArnFormatReason::WrongPartCount { expected: 7, found: parts })
                } else if service != "secretsmanager"@ {
                    r matches Err(ResolverError::Cloud { source: CloudError::SecretsManagerArn { input_source } })
                        && input_source@ == input.input@
                } else {
                    r matches Ok(a) && a.region@ == region && a.full_arn@ == input.input@
                },
            },
    {
        let arn = Arn::parse(input.input.as_str())?;
        if arn.parts != 7 {
            return Err(ResolverError::InvalidArnFormat {
                input_source: input.input.clone(),
                reason: ArnFormatReason::WrongPartCount { expected: 7, found: arn.parts },
            });
        }
        let service = chars_of(arn.service.as_str());
        let expected = chars_of("secretsmanager");
        if !chars_eq(service.as_slice(), expected.as_slice()) {
            return Err(ResolverError::Cloud {
                source: CloudError::SecretsManagerArn { input_source: input.input.clone() },
            });
        }
        Ok(SecretsManagerArn { region: arn.region, full_arn: input.input.clone() })
    }
}

/// A secret named by `secretsmanager://id` (looked up in the default region).
pub struct SecretsManagerUri {
    pub secret_id: String,
}

impl SecretsManagerUri {
    /// Accepts `secretsmanager://` followed by a non-empty secret id.
    pub fn try_from(input: &SettingsInput) -> (r: Result<SecretsManagerUri, ResolverError>)
        ensures
            if has_prefix(input.input@, "secretsmanager://"@) && input.input@.len()
                > "secretsmanager://"@.len() {
                r matches Ok(u) && u.secret_id@ == input.input@.skip("secretsmanager://"@.len() as int)
            } else {
                r matches Err(ResolverError::Cloud { source: CloudError::SecretsManagerUri { input_source } })
                    && input_source@ == input.input@
            },
    {
        let v = chars_of(input.input.as_str());
        match strip_prefix(v.as_slice(), "secretsmanager://") {
            Some(rest) if rest.len() > 0 => Ok(SecretsManagerUri { secret_id: string_from_chars(rest.as_slice()) }),
            _ => Err(ResolverError::Cloud {
                source: CloudError::SecretsManagerUri { input_source: input.input.clone() },
            }),
        }
    }
}

/// A parameter named by its full SSM ARN.
pub struct SsmArn {
    pub region: String,
    pub full_arn: String,
}

impl SsmArn {
    /// Accepts an ARN of six pieces whose service is `ssm`.
    pub fn try_from(input: &SettingsInput) -> (r: Result<SsmArn, ResolverError>)
        ensures
            match arn_of(input.input@) {
                Err(reason) => r matches Err(ResolverError::InvalidArnFormat { input_source, reason: rr })
                    && input_source@ == input.input@ && rr == reason,
                Ok((service, region, parts)) => if parts != 6 {
                    r matches Err(ResolverError::InvalidArnFormat { input_source, reason: rr })
                        && input_source@ == input.input@
                        && rr == (ArnFormatReason::WrongPartCount { expected: 6, found: parts })
                } else if service != "ssm"@ {
                    r matches Err(ResolverError::Cloud { source: CloudError::SsmArn { input_source } })
                        && input_source@ == input.input@
                } else {
                    r matches Ok(a) && a.region@ == region && a.full_arn@ == input.input@
                },
            },
    {
        let arn = Arn::parse(input.input.as_str())?;
        if arn.parts != 6 {
            return Err(ResolverError::InvalidArnFormat {
                input_source: input.input.clone(),
                reason: ArnFormatReason::WrongPartCount { expected: 6, found: arn.parts },
            });
        }
        let service = chars_of(arn.service.as_str());
        let expected = chars_of("ssm");
        if !chars_eq(service.as_slice(), expected.as_slice()) {
            return Err(ResolverError::Cloud { source: CloudError::SsmArn { input_source: input.input.clone() } });
        }
        Ok(SsmArn { region: arn.region, full_arn: input.input.clone() })
    }
}

/// A parameter named by `ssm://name` (looked up in the default region).
pub struct SsmUri {
    pub parameter_name: String,
}

impl SsmUri {
    /// Accepts `ssm://` followed by a non-empty parameter name.
    pub fn try_from(input: &SettingsInput) -> (r: Result<SsmUri, ResolverError>)
        ensures
            if has_prefix(input.input@, "ssm://"@) && input.input@.len() > "ssm://"@.len() {
                r matches Ok(u) && u.parameter_name@ == input.input@.skip("ssm://"@.len() as int)
            } else {
                r matches Err(ResolverError::Cloud { source: CloudError::SsmUri { input_source } })
                    && input_source@ == input.input@
            },
    {
        let v = chars_of(input.input.as_str());
        match strip_prefix(v.as_slice(), "ssm://") {
            Some(rest) if rest.len() > 0 => Ok(SsmUri { parameter_name: string_from_chars(rest.as_slice()) }),
            _ => Err(ResolverError::Cloud { source: CloudError::SsmUri { input_source: input.input.clone() } }),
        }
    }
}


/// An S3 text built from a bucket without `/` and any key reads back as that
/// bucket and key.
pub proof fn lemma_s3_uri_roundtrip(bucket: Seq<char>, key: Seq<char>)
    requires
        !bucket.contains('/'),
    ensures
        has_prefix("s3://"@ + bucket + seq!['/'] + key, "s3://"@),
        s3_parts("s3://"@ + bucket + seq!['/'] + key) == Some((bucket, key)),
{
    let p = "s3://"@;
    let t = p + bucket + seq!['/'] + key;
    assert(t.subrange(0, p.len() as int) =~= p);
    let rest = t.skip(p.len() as int);
    assert(rest =~= bucket + seq!['/'] + key);
    lemma_index_of(rest, '/');
    assert(rest[bucket.len() as int] == '/');
    assert forall|k: int| 0 <= k < bucket.len() implies rest[k] != '/' by {
        assert(rest[k] == bucket[k]);
    }
    let i = index_of(rest, '/');
    assert(i == Some(bucket.len() as int)) by {
        match i {
            Some(q) => {
                if q < bucket.len() {
                    assert(rest[q] == bucket[q]);
                }
            },
            None => {},
        }
    }
    assert(rest.take(bucket.len() as int) =~= bucket);
    assert(rest.skip(bucket.len() as int + 1) =~= key);
}

/// A non-empty name after `ssm://` or `secretsmanager://` reads back as itself.
pub proof fn lemma_named_source_roundtrip(name: Seq<char>)
    ensures
        has_prefix("ssm://"@ + name, "ssm://"@),
        ("ssm://"@ + name).skip("ssm://"@.len() as int) == name,
        has_prefix("secretsmanager://"@ + name, "secretsmanager://"@),
        ("secretsmanager://"@ + name).skip("secretsmanager://"@.len() as int) == name,
{
    assert(("ssm://"@ + name).subrange(0, "ssm://"@.len() as int) =~= "ssm://"@);
    assert(("ssm://"@ + name).skip("ssm://"@.len() as int) =~= name);
    assert(("secretsmanager://"@ + name).subrange(0, "secretsmanager://"@.len() as int) =~= "secretsmanager://"@);
    assert(("secretsmanager://"@ + name).skip("secretsmanager://"@.len() as int) =~= name);
}

} // verus!
