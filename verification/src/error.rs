//! The crate's error type: a tagged error with an explicit cause chain and an
//! optional diagnostic trace.

use vstd::prelude::*;

verus! {

/// The category of a failure.
#[derive(Clone, Copy, Debug, PartialEq, Eq, Structural)]
pub enum ErrorKind {
    /// A filesystem operation failed.
    Io,
    /// A persisted record is malformed.
    Parse,
    /// A required record is absent.
    NotFound,
    /// A path escapes the webroot or decomposes into a non-plain component.
    Security,
    /// A filename or content is not valid UTF-8.
    Encoding,
    /// A timestamp lies outside the representable range.
    Range,
    /// A date could not be rendered in the required text format.
    Format,
    /// The requested hash output size is invalid.
    HashConfig,
}

/// A fatal error: a kind, a human-readable description, an optional chained
/// cause, and an optional diagnostic trace (captured only on request).
#[derive(Debug)]
pub struct Error {
    /// The error category.
    pub kind: ErrorKind,
    /// The human-readable description.
    pub message: String,
    /// The underlying error, if any.
    pub cause: Option<Box<Error>>,
    /// A capturable diagnostic trace, if one was requested.
    pub trace: Option<String>,
}

/// The full description of an error: its own message followed by the messages
/// of its cause chain.
pub open spec fn spec_describe(e: Error) -> Seq<char>
    decreases e,
{
    match e.cause {
        None => e.message@,
        Some(c) => e.message@ + " caused by: "@ + spec_describe(*c),
    }
}

impl Error {
    /// Creates a new error without a cause.
    pub fn new(kind: ErrorKind, message: String) -> (r: Self)
        ensures
            r.kind == kind,
            r.message == message,
            r.cause is None,
            r.trace is None,
    {
        Self { kind, message, cause: None, trace: None }
    }

    /// Creates a new error chained onto the error that caused it.
    pub fn caused(kind: ErrorKind, message: String, cause: Error) -> (r: Self)
        ensures
            r.kind == kind,
            r.message == message,
            r.cause matches Some(c) && *c == cause,
            r.trace is None,
    {
        Self { kind, message, cause: Some(Box::new(cause)), trace: None }
    }

    /// Attaches a diagnostic trace; meant for a verbose or debug mode, so that
    /// capture cost is only paid when asked for.
    pub fn with_trace(self, trace: String) -> (r: Self)
        ensures
            r.kind == self.kind,
            r.message == self.message,
            r.cause == self.cause,
            r.trace matches Some(t) && t == trace,
    {
        Self { trace: Some(trace), ..self }
    }

    /// Renders the description and the cause chain as one line of text.
    pub fn describe(&self) -> (r: String)
        ensures
            r@ == spec_describe(*self),
        decreases *self,
    {
        match &self.cause {
            None => self.message.clone(),
            Some(c) => {
                let mut out = self.message.clone();
                out.append(" caused by: ");
                let tail = c.describe();
                out.append(tail.as_str());
                out
            },
        }
    }
}

} // verus!
