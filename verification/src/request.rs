use vstd::prelude::*;
use vstd::string::StringExecFns;
use std::fmt::Write;
use bytes::Bytes;
use crate::buffer::bytes_contents;
use crate::event::{EncodedEvent, ids_of};
use crate::metadata::RequestMetadata;
use crate::partition::{PartitionKey, clone_opt_string};

verus! {

/// View of an optional string.
pub open spec fn opt_string_view(s: Option<String>) -> Option<Seq<char>> {
    match s {
        Some(x) => Some(x@),
        None => None,
    }
}

/// Per-destination options carried on every request; the encryption key
/// identifier travels on the partition key and overrides the default here.
pub struct S3Options {
    pub ssekms_key_id: Option<String>,
    pub storage_class: Option<String>,
}

impl Clone for S3Options {
    fn clone(&self) -> (r: Self)
        ensures
            opt_string_view(r.ssekms_key_id) == opt_string_view(self.ssekms_key_id),
            opt_string_view(r.storage_class) == opt_string_view(self.storage_class),
    {
        S3Options {
            ssekms_key_id: clone_opt_string(&self.ssekms_key_id),
            storage_class: clone_opt_string(&self.storage_class),
        }
    }
}

/// The compression scheme applied to payloads. Compression algorithms are
/// an outside collaborator; this core supports the identity scheme only, so
/// the payload travels exactly as framed, no content-encoding header is
/// claimed, and the transmitted size equals the payload size.
#[derive(Clone, Copy, PartialEq, Eq, Structural, Debug)]
pub enum Compression {
    Uncompressed,
}

impl Compression {
    pub open spec fn extension_spec(self) -> Seq<char> {
        match self {
            Compression::Uncompressed => "log"@,
        }
    }

    /// Canonical object-key extension of the scheme.
    pub fn extension(&self) -> (r: &'static str)
        ensures
            r@ == self.extension_spec(),
    {
        match self {
            Compression::Uncompressed => "log",
        }
    }

    pub open spec fn content_encoding_spec(self) -> Option<Seq<char>> {
        match self {
            Compression::Uncompressed => None,
        }
    }

    /// Content-encoding header value of the scheme, if any. The identity
    /// scheme claims none, so the header always agrees with the body.
    pub fn content_encoding(&self) -> (r: Option<&'static str>)
        ensures
            match r {
                Some(s) => self.content_encoding_spec() == Some(s@),
                None => self.content_encoding_spec() is None,
            },
    {
        match self {
            Compression::Uncompressed => None,
        }
    }
}

/// Routing metadata of one request: the key it was batched under, the
/// destination object key, and the finalizer tickets of exactly the events
/// whose bytes the request carries.
pub struct S3Metadata {
    pub partition_key: PartitionKey,
    pub s3_key: String,
    pub finalizers: Vec<u64>,
}

/// One wire-ready request: the framed payload and everything the delivery
/// service needs to place it.
pub struct S3Request {
    pub body: Bytes,
    pub bucket: String,
    pub metadata: S3Metadata,
    pub request_metadata: RequestMetadata,
    pub content_encoding: Option<&'static str>,
    pub options: S3Options,
}

/// Extracts the finalizer tickets of every event, in order.
pub fn take_finalizers(events: &Vec<EncodedEvent>) -> (r: Vec<u64>)
    ensures
        r@ == ids_of(events@),
{
    let mut out: Vec<u64> = Vec::new();
    let mut i: usize = 0;
    let n = events.len();
    while i < n
        invariant
            n == events@.len(),
            i <= n,
            out@.len() == i,
            forall|j: int| 0 <= j < i ==> (#[trigger] out@[j]) == events@[j].event.finalizer_id,
        decreases n - i,
    {
        out.push(events[i].event.finalizer_id);
        i += 1;
    }
    proof {
        assert(out@ =~= ids_of(events@));
    }
    out
}

/// The destination object key: routing prefix, then the formatted timestamp,
/// then `-token` when a uniqueness token is appended, then a dot and the
/// extension.
pub open spec fn object_key_spec(
    prefix: Seq<char>,
    ts: Seq<char>,
    token: Option<Seq<char>>,
    ext: Seq<char>,
) -> Seq<char> {
    prefix + ts + (match token {
        Some(u) => "-"@ + u,
        None => Seq::<char>::empty(),
    }) + "."@ + ext
}

/// Renders the destination object key from its parts.
pub fn object_key_for(prefix: &String, timestamp: &String, token: Option<&String>, extension: &str)
    -> (r: String)
    ensures
        r@ == object_key_spec(
            prefix@,
            timestamp@,
            match token {
                Some(t) => Some(t@),
                None => None,
            },
            extension@,
        ),
{
    let mut out = prefix.clone();
    out.append(timestamp.as_str());
    match token {
        Some(t) => {
            out.append("-");
            out.append(t.as_str());
        },
        None => {},
    }
    out.append(".");
    out.append(extension);
    out
}

/// Whether chrono can render a UTC datetime with this strftime pattern.
/// Rendering a `DateTime<Utc>` supplies every field, so failure depends on
/// the pattern alone: it fails exactly on a pattern the parser rejects.
pub uninterp spec fn strftime_renders(pattern: Seq<char>) -> bool;

/// Relies on chrono's `Utc::now` and `DateTime::format`: renders the current
/// UTC wall-clock time with the given strftime pattern; yields nothing
/// exactly when the pattern cannot be rendered.
#[verifier::external_body]
fn utc_now_formatted(pattern: &str) -> (r: Option<String>)
    ensures
        r is Some <==> strftime_renders(pattern@),
{
    let now = chrono::Utc::now();
    let mut out = String::new();
    match now.format(pattern).write_to(&mut out) {
        Ok(()) => Some(out),
        Err(_) => None,
    }
}

/// Relies on `Uuid::new_v4` and its hyphenated form: a fresh random
/// identifier rendered as 36 characters.
#[verifier::external_body]
fn fresh_uuid_token() -> (r: String)
    ensures
        r@.len() == 36,
{
    uuid::Uuid::new_v4().hyphenated().to_string()
}

/// Everything needed to turn one finished batch into a wire request.
pub struct S3RequestOptions {
    pub bucket: String,
    pub filename_time_format: String,
    pub filename_append_uuid: bool,
    pub filename_extension: Option<String>,
    pub api_options: S3Options,
    pub compression: Compression,
}

impl S3RequestOptions {
    pub fn compression(&self) -> (r: Compression)
        ensures
            r == self.compression,
    {
        self.compression
    }

    /// The object-key extension in force: the explicit override, or the
    /// compression scheme's canonical extension.
    pub open spec fn extension_view(self) -> Seq<char> {
        match self.filename_extension {
            Some(e) => e@,
            None => self.compression.extension_spec(),
        }
    }

    /// Splits one (key, batch) pair into the request's routing metadata,
    /// consuming the events' finalizer tickets.
    pub fn split_input(&self, partition_key: PartitionKey, events: &Vec<EncodedEvent>) -> (r:
        S3Metadata)
        ensures
            r.partition_key == partition_key,
            r.s3_key@ == partition_key.key_prefix@,
            r.finalizers@ == ids_of(events@),
    {
        let s3_key = partition_key.key_prefix.clone();
        let finalizers = take_finalizers(events);
        S3Metadata { partition_key, s3_key, finalizers }
    }

    /// How a built request relates to what it was built from, for a given
    /// timestamp and uniqueness token.
    pub open spec fn request_built(
        self,
        req: S3Request,
        md: S3Metadata,
        rm: RequestMetadata,
        payload: Bytes,
        ts: Seq<char>,
        tok: Option<Seq<char>>,
    ) -> bool {
        &&& bytes_contents(req.body) == bytes_contents(payload)
        &&& req.bucket@ == self.bucket@
        &&& req.metadata.partition_key == md.partition_key
        &&& req.metadata.finalizers == md.finalizers
        &&& req.metadata.s3_key@ == object_key_spec(md.s3_key@, ts, tok, self.extension_view())
        &&& req.request_metadata == rm
        &&& (match req.content_encoding {
            Some(s) => self.compression.content_encoding_spec() == Some(s@),
            None => self.compression.content_encoding_spec() is None,
        })
        &&& opt_string_view(req.options.ssekms_key_id) == opt_string_view(
            md.partition_key.ssekms_key_id,
        )
        &&& opt_string_view(req.options.storage_class) == opt_string_view(
            self.api_options.storage_class,
        )
    }

    /// Assembles the request around the payload for a given timestamp and
    /// optional uniqueness token, deriving the destination object key and
    /// the per-key destination options.
    pub fn build_request_with(
        &self,
        s3metadata: S3Metadata,
        request_metadata: RequestMetadata,
        payload: Bytes,
        timestamp: &String,
        token: Option<&String>,
    ) -> (r: S3Request)
        ensures
            self.request_built(
                r,
                s3metadata,
                request_metadata,
                payload,
                timestamp@,
                match token {
                    Some(t) => Some(t@),
                    None => None,
                },
            ),
    {
        let s3_key = match &self.filename_extension {
            Some(e) => object_key_for(&s3metadata.s3_key, timestamp, token, e.as_str()),
            None => object_key_for(
                &s3metadata.s3_key,
                timestamp,
                token,
                self.compression.extension(),
            ),
        };
        let ssekms_key_id = clone_opt_string(&s3metadata.partition_key.ssekms_key_id);
        let mut options = self.api_options.clone();
        options.ssekms_key_id = ssekms_key_id;
        S3Request {
            body: payload,
            bucket: self.bucket.clone(),
            metadata: S3Metadata {
                partition_key: s3metadata.partition_key,
                s3_key,
                finalizers: s3metadata.finalizers,
            },
            request_metadata,
            content_encoding: self.compression.content_encoding(),
            options,
        }
    }

    /// Assembles the request, reading the wall clock for the object-key
    /// timestamp and, when configured, drawing a fresh uniqueness token.
    /// Yields a request exactly when the configured time format renders;
    /// whatever the clock and the token turned out to be, the built request
    /// relates to its parts exactly.
    pub fn build_request(
        &self,
        s3metadata: S3Metadata,
        request_metadata: RequestMetadata,
        payload: Bytes,
    ) -> (r: Option<S3Request>)
        ensures
            r is Some <==> strftime_renders(self.filename_time_format@),
            r matches Some(req) ==> exists|ts: Seq<char>, tok: Option<Seq<char>>|
                self.request_built(req, s3metadata, request_metadata, payload, ts, tok) && (
                tok is Some <==> self.filename_append_uuid),
    {
        match utc_now_formatted(self.filename_time_format.as_str()) {
            None => None,
            Some(timestamp) => {
                if self.filename_append_uuid {
                    let token = fresh_uuid_token();
                    let req = self.build_request_with(
                        s3metadata,
                        request_metadata,
                        payload,
                        &timestamp,
                        Some(&token),
                    );
                    proof {
                        assert(self.request_built(
                            req,
                            s3metadata,
                            request_metadata,
                            payload,
                            timestamp@,
                            Some(token@),
                        ));
                    }
                    Some(req)
                } else {
                    let req = self.build_request_with(
                        s3metadata,
                        request_metadata,
                        payload,
                        &timestamp,
                        None,
                    );
                    proof {
                        assert(self.request_built(
                            req,
                            s3metadata,
                            request_metadata,
                            payload,
                            timestamp@,
                            None::<Seq<char>>,
                        ));
                    }
                    Some(req)
                }
            },
        }
    }
}

} // verus!
