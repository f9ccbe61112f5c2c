//! The error type shared by the library.
use vstd::prelude::*;

use crate::text::{chars_of, concat_chars, string_of};

verus! {

/// Errors reported by the library.
#[derive(Debug)]
pub enum SyncwebError {
    InvalidConfig(String),
    InvalidTicket(String),
    InvalidSignature(String),
    InvalidIdentity(String),
    Operation { context: String, detail: String },
    NamespaceNotAvailable,
    FolderNotFound(String),
    MissingSignature(String),
}

/// The result type used throughout the library.
pub type Result<T> = core::result::Result<T, SyncwebError>;

/// The text of an error: a short description of its kind, a colon and the
/// detail it carries.
pub open spec fn error_text(e: SyncwebError) -> Seq<char> {
    match e {
        SyncwebError::InvalidConfig(m) => "invalid configuration: "@ + m@,
        SyncwebError::InvalidTicket(m) => "invalid ticket: "@ + m@,
        SyncwebError::InvalidSignature(m) => "invalid signature: "@ + m@,
        SyncwebError::InvalidIdentity(m) => "invalid identity: "@ + m@,
        SyncwebError::Operation { context, detail } => context@ + ": "@ + detail@,
        SyncwebError::NamespaceNotAvailable => "namespace not available"@,
        SyncwebError::FolderNotFound(m) => "folder not found: "@ + m@,
        SyncwebError::MissingSignature(m) => "missing signature: "@ + m@,
    }
}

impl SyncwebError {
    /// The error's text.
    pub fn to_string(&self) -> (s: String)
        ensures
            s@ == error_text(*self),
    {
        let v = match self {
            SyncwebError::InvalidConfig(m) => concat_chars(&chars_of("invalid configuration: "), &chars_of(m.as_str())),
            SyncwebError::InvalidTicket(m) => concat_chars(&chars_of("invalid ticket: "), &chars_of(m.as_str())),
            SyncwebError::InvalidSignature(m) => concat_chars(&chars_of("invalid signature: "), &chars_of(m.as_str())),
            SyncwebError::InvalidIdentity(m) => concat_chars(&chars_of("invalid identity: "), &chars_of(m.as_str())),
            SyncwebError::Operation { context, detail } => {
                let a = concat_chars(&chars_of(context.as_str()), &chars_of(": "));
                concat_chars(&a, &chars_of(detail.as_str()))
            },
            SyncwebError::NamespaceNotAvailable => chars_of("namespace not available"),
            SyncwebError::FolderNotFound(m) => concat_chars(&chars_of("folder not found: "), &chars_of(m.as_str())),
            SyncwebError::MissingSignature(m) => concat_chars(&chars_of("missing signature: "), &chars_of(m.as_str())),
        };
        string_of(&v)
    }

    /// An operation failure with its context and detail text.
    pub fn operation(context: &str, detail: &str) -> (e: SyncwebError)
        ensures
            e == (SyncwebError::Operation { context: e->context, detail: e->detail }),
            e->context@ == context@,
            e->detail@ == detail@,
    {
        SyncwebError::Operation { context: context.to_string(), detail: detail.to_string() }
    }
}

} // verus!
