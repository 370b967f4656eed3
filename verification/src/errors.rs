//! Error taxonomy of the client, and the parser for the service's error
//! documents.

use vstd::prelude::*;

use crate::strutil::first_occurrence_from;
use crate::strutil::lemma_first_occurrence_some;
use crate::strutil::find_from;
use crate::types::InvalidEndPoint;
use vstd::string::StrSliceExecFns;

verus! {

/// The credential cannot key the signing primitive.
#[derive(Clone, Copy, Debug, PartialEq, Eq, Structural)]
pub enum SignError {
    InvalidKey,
}

/// A plugin failed, or several plugins claimed the same request.
#[derive(Debug)]
pub struct PluginError {
    /// Name of the offending plugin, or a synthetic identity for a conflict.
    pub name: String,
    /// What went wrong, in words.
    pub message: String,
}

/// The unified error type at the client boundary.
#[derive(Debug)]
pub enum OssError {
    /// An input value was rejected before any request went out.
    Input(String),
    /// The signing engine rejected the credential.
    Sign(SignError),
    /// A plugin failed or conflicted.
    Plugin(PluginError),
    /// The service answered with an error document.
    Service(OssService),
    /// An endpoint string named no known region.
    Config(InvalidEndPoint),
}

/// Result type of the client's fallible operations.
pub type OssResult<T> = Result<T, OssError>;

/// What an error says about itself, in one line.
pub open spec fn spec_describe(e: OssError) -> Seq<char> {
    match e {
        OssError::Input(s) => s@,
        OssError::Sign(_) => "the secret cannot key the signing primitive"@,
        OssError::Plugin(p) => p.message@,
        OssError::Service(s) => s.message@,
        OssError::Config(_) => "endpoint names no known region"@,
    }
}

impl OssError {
    /// The error's message, in one line.
    pub fn describe(&self) -> (r: String)
        ensures
            r@ == spec_describe(*self),
    {
        match self {
            OssError::Input(s) => s.clone(),
            OssError::Sign(_) => "the secret cannot key the signing primitive".to_owned(),
            OssError::Plugin(p) => p.message.clone(),
            OssError::Service(s) => s.message.clone(),
            OssError::Config(_) => "endpoint names no known region".to_owned(),
        }
    }
}

/// The text between the first occurrence of `open` and the first occurrence
/// of `close`, when both exist in that order.
pub open spec fn spec_tag_inner(src: Seq<char>, open: Seq<char>, close: Seq<char>) -> Option<
    Seq<char>,
> {
    match (first_occurrence_from(src, open, 0), first_occurrence_from(src, close, 0)) {
        (Some(a), Some(b)) => if a + open.len() <= b {
            Some(src.subrange(a + open.len(), b))
        } else {
            None
        },
        _ => None,
    }
}

/// The three fields of a well-formed service error document.
pub open spec fn spec_service_fields(src: Seq<char>) -> Option<(Seq<char>, Seq<char>, Seq<char>)> {
    let code = spec_tag_inner(src, "<Code>"@, "</Code>"@);
    let message = spec_tag_inner(src, "<Message>"@, "</Message>"@);
    let request_id = spec_tag_inner(src, "<RequestId>"@, "</RequestId>"@);
    match (code, message, request_id) {
        (Some(c), Some(m), Some(r)) => Some((c, m, r)),
        _ => None,
    }
}

/// Extracts the text between the first `open` and the first `close` marker.
pub(crate) fn tag_inner(src: &str, open: &str, close: &str) -> (r: Option<String>)
    ensures
        match r {
            Some(v) => spec_tag_inner(src@, open@, close@) == Some(v@),
            None => spec_tag_inner(src@, open@, close@) is None,
        },
{
    let srclen = src.unicode_len();
    let openlen = open.unicode_len();
    match (find_from(src, open, 0), find_from(src, close, 0)) {
        (Some(a), Some(b)) => {
            proof {
                lemma_first_occurrence_some(src@, open@, 0, a as int);
                lemma_first_occurrence_some(src@, close@, 0, b as int);
            }
            assert(a + openlen <= srclen);
            if b < a + openlen {
                None
            } else {
                Some(src.substring_char(a + openlen, b).to_owned())
            }
        },
        _ => None,
    }
}

/// What the service reported: the parsed error document of a non-success
/// response, or a fixed placeholder where no document could be parsed.
#[derive(Debug, PartialEq, Eq)]
pub struct OssService {
    /// Error code named by the service.
    pub code: String,
    /// HTTP status of the response.
    pub status: u16,
    /// Human-readable message of the service.
    pub message: String,
    /// Request identity, for support inquiries.
    pub request_id: String,
}

impl Default for OssService {
    fn default() -> (r: Self)
        ensures
            r.code@ == "Undefined"@,
            r.status == 200,
            r.message@ == "Parse aliyun response xml error message failed."@,
            r.request_id@ == "XXXXXXXXXXXXXXXXXXXXXXXX"@,
    {
        Self {
            code: "Undefined".to_owned(),
            status: 200,
            message: "Parse aliyun response xml error message failed.".to_owned(),
            request_id: "XXXXXXXXXXXXXXXXXXXXXXXX".to_owned(),
        }
    }
}

impl OssService {
    /// Parses a service error document; a document missing any of the three
    /// fields yields the placeholder value.
    pub fn new(source: &str, status: u16) -> (r: Self)
        ensures
            match spec_service_fields(source@) {
                Some(t) => r.code@ == t.0 && r.status == status && r.message@ == t.1
                    && r.request_id@ == t.2,
                None => r.code@ == "Undefined"@ && r.status == 200 && r.message@
                    == "Parse aliyun response xml error message failed."@ && r.request_id@
                    == "XXXXXXXXXXXXXXXXXXXXXXXX"@,
            },
    {
        match (
            tag_inner(source, "<Code>", "</Code>"),
            tag_inner(source, "<Message>", "</Message>"),
            tag_inner(source, "<RequestId>", "</RequestId>"),
        ) {
            (Some(code), Some(message), Some(request_id)) => Self {
                code,
                status,
                message,
                request_id,
            },
            _ => Self::default(),
        }
    }

    /// Parses a service error document handed over as an owned string.
    pub fn new2(source: String, status: u16) -> (r: Self)
        ensures
            match spec_service_fields(source@) {
                Some(t) => r.code@ == t.0 && r.status == status && r.message@ == t.1
                    && r.request_id@ == t.2,
                None => r.code@ == "Undefined"@ && r.status == 200 && r.message@
                    == "Parse aliyun response xml error message failed."@ && r.request_id@
                    == "XXXXXXXXXXXXXXXXXXXXXXXX"@,
            },
    {
        Self::new(source.as_str(), status)
    }
}

} // verus!
