//! What can go wrong while a fax is received.

use crate::text::{join2, join3};
use vstd::prelude::*;
use vstd::string::*;

verus! {

/// A fax error.
#[derive(Debug)]
pub enum FaxError {
    /// A message could not be posted.
    Discord(String),
    /// The bot token is not one.
    InvalidToken(String),
    /// A file operation failed.
    Io { context: String, detail: String },
    /// A path is not valid UTF-8.
    NonUtf8Path(String),
    /// The modem library refused an operation.
    SpanDsp { operation: String, detail: String },
    /// The TIFF data cannot be read.
    Tiff(String),
    /// The fax has no pages.
    NoPages,
}

/// What is said of an error.
pub open spec fn fax_error_text(e: FaxError) -> Seq<char> {
    match e {
        FaxError::Discord(d) => "Discord post failed: "@ + d@,
        FaxError::InvalidToken(d) => "invalid Discord bot token: "@ + d@,
        FaxError::Io { context, detail } => "fax I/O ("@ + context@ + "): "@ + detail@,
        FaxError::NonUtf8Path(p) => "path is not valid UTF-8: "@ + p@,
        FaxError::SpanDsp { operation, detail } => "SpanDSP ("@ + operation@ + "): "@ + detail@,
        FaxError::Tiff(m) => "TIFF decode: "@ + m@,
        FaxError::NoPages => "no pages in received fax"@,
    }
}

impl FaxError {
    /// What is said of the error.
    pub fn message(&self) -> (r: String)
        ensures
            r@ == fax_error_text(*self),
    {
        match self {
            FaxError::Discord(d) => join2("Discord post failed: ", d.as_str()),
            FaxError::InvalidToken(d) => join2("invalid Discord bot token: ", d.as_str()),
            FaxError::Io { context, detail } => {
                let head: String = join3("fax I/O (", context.as_str(), "): ");
                join2(head.as_str(), detail.as_str())
            },
            FaxError::NonUtf8Path(p) => join2("path is not valid UTF-8: ", p.as_str()),
            FaxError::SpanDsp { operation, detail } => {
                let head: String = join3("SpanDSP (", operation.as_str(), "): ");
                join2(head.as_str(), detail.as_str())
            },
            FaxError::Tiff(m) => join2("TIFF decode: ", m.as_str()),
            FaxError::NoPages => String::from_str("no pages in received fax"),
        }
    }
}

/// The result is a TIFF error with the given message.
pub open spec fn is_tiff_error<T>(r: Result<T, FaxError>, message: Seq<char>) -> bool {
    r is Err && r->Err_0 is Tiff && r->Err_0->Tiff_0@ == message
}

/// A TIFF error with the given message.
pub fn tiff_error(message: &str) -> (e: FaxError)
    ensures
        e is Tiff,
        e->Tiff_0@ == message@,
{
    FaxError::Tiff(String::from_str(message))
}

} // verus!
