//! Error taxonomy: I/O, network, format and cache failures.

use vstd::prelude::*;

verus! {

/// Everything that can go wrong while fetching, normalizing or caching a
/// document. Cache-layer failures are always recovered internally; only
/// fetch-and-normalize failures reach a caller.
#[derive(Debug, Clone, PartialEq)]
pub enum OasError {
    /// A local source file does not exist.
    FileNotFound(String),
    /// A local source file exists but may not be read.
    PermissionDenied(String),
    /// A local source path holds a parent-directory segment.
    PathTraversal(String),
    /// Any other failure while reading a local source.
    ReadError(String),
    /// The transport could not complete a request.
    ConnectionFailed(String),
    /// The far end answered with a non-success status.
    HttpError { status: u16, message: String },
    /// The document is not well-formed JSON.
    InvalidJson(String),
    /// The document is not well-formed YAML.
    InvalidYaml(String),
    /// The document lacks a field the model requires.
    InvalidOpenApi(String),
    /// The document declares a dialect version outside the supported set.
    UnsupportedVersion(String),
    /// No persisted cache record exists.
    CacheNotFound,
    /// A persisted cache record exists but cannot be decoded.
    CacheCorrupted(String),
    /// A cache record could not be persisted.
    CacheWriteFailed(String),
}

pub type OasResult<T> = Result<T, OasError>;

impl OasError {
    /// A short label for the error kind.
    pub open spec fn kind_label(self) -> Seq<char> {
        match self {
            OasError::FileNotFound(_) => "file not found: "@,
            OasError::PermissionDenied(_) => "permission denied: "@,
            OasError::PathTraversal(_) => "path traversal attempt: "@,
            OasError::ReadError(_) => "read failed: "@,
            OasError::ConnectionFailed(_) => "connection failed: "@,
            OasError::HttpError { .. } => "http error "@,
            OasError::InvalidJson(_) => "invalid json: "@,
            OasError::InvalidYaml(_) => "invalid yaml: "@,
            OasError::InvalidOpenApi(_) => "invalid document: "@,
            OasError::UnsupportedVersion(_) => "unsupported version: "@,
            OasError::CacheNotFound => "cache record not found"@,
            OasError::CacheCorrupted(_) => "cache record corrupted: "@,
            OasError::CacheWriteFailed(_) => "cache write failed: "@,
        }
    }

    /// The human-readable message: the kind label followed by the detail.
    pub open spec fn message_of(self) -> Seq<char> {
        match self {
            OasError::FileNotFound(d) => self.kind_label() + d@,
            OasError::PermissionDenied(d) => self.kind_label() + d@,
            OasError::PathTraversal(d) => self.kind_label() + d@,
            OasError::ReadError(d) => self.kind_label() + d@,
            OasError::ConnectionFailed(d) => self.kind_label() + d@,
            OasError::HttpError { status, message } => self.kind_label()
                + crate::text::dec_of(status as nat) + ": "@ + message@,
            OasError::InvalidJson(d) => self.kind_label() + d@,
            OasError::InvalidYaml(d) => self.kind_label() + d@,
            OasError::InvalidOpenApi(d) => self.kind_label() + d@,
            OasError::UnsupportedVersion(d) => self.kind_label() + d@,
            OasError::CacheNotFound => self.kind_label(),
            OasError::CacheCorrupted(d) => self.kind_label() + d@,
            OasError::CacheWriteFailed(d) => self.kind_label() + d@,
        }
    }

    /// Renders the error for display, identifying its kind.
    pub fn message(&self) -> (r: String)
        ensures
            r@ == self.message_of(),
    {
        let mut out = String::new();
        match self {
            OasError::FileNotFound(d) => {
                out.append("file not found: ");
                out.append(d.as_str());
            },
            OasError::PermissionDenied(d) => {
                out.append("permission denied: ");
                out.append(d.as_str());
            },
            OasError::PathTraversal(d) => {
                out.append("path traversal attempt: ");
                out.append(d.as_str());
            },
            OasError::ReadError(d) => {
                out.append("read failed: ");
                out.append(d.as_str());
            },
            OasError::ConnectionFailed(d) => {
                out.append("connection failed: ");
                out.append(d.as_str());
            },
            OasError::HttpError { status, message } => {
                out.append("http error ");
                let code = crate::text::u64_to_dec(*status as u64);
                out.append(code.as_str());
                out.append(": ");
                out.append(message.as_str());
            },
            OasError::InvalidJson(d) => {
                out.append("invalid json: ");
                out.append(d.as_str());
            },
            OasError::InvalidYaml(d) => {
                out.append("invalid yaml: ");
                out.append(d.as_str());
            },
            OasError::InvalidOpenApi(d) => {
                out.append("invalid document: ");
                out.append(d.as_str());
            },
            OasError::UnsupportedVersion(d) => {
                out.append("unsupported version: ");
                out.append(d.as_str());
            },
            OasError::CacheNotFound => {
                out.append("cache record not found");
            },
            OasError::CacheCorrupted(d) => {
                out.append("cache record corrupted: ");
                out.append(d.as_str());
            },
            OasError::CacheWriteFailed(d) => {
                out.append("cache write failed: ");
                out.append(d.as_str());
            },
        }
        out
    }
}

} // verus!
