//! What can go wrong inside a callback, and what is done about it. Nothing
//! here stops the instrumented program unless strictness was asked for.

use vstd::prelude::*;

verus! {

/// A broken contract between the instrumented program and the profiler.
#[derive(Clone, Copy, Debug, PartialEq, Eq, Structural)]
pub enum TraceError {
    /// A callback named a span id that nothing is stored for.
    SpanNotFound,
    /// The span is known, but not the kind of storage that the callback needs.
    StorageNotFound,
    /// The lock round the shared index was poisoned by a panic of its holder.
    LockPoisoned,
}

/// What the caller does with a diagnostic.
#[derive(Clone, Copy, Debug, PartialEq, Eq, Structural)]
pub enum Reaction {
    /// Write the message to the error stream and go on; the callback did nothing.
    Log,
    /// Write the message and abort.
    Abort,
}

/// The message of each error.
pub open spec fn message_text(error: TraceError) -> Seq<char> {
    match error {
        TraceError::SpanNotFound => "failed to get span"@,
        TraceError::StorageNotFound => "failed to get storage"@,
        TraceError::LockPoisoned => "failed to get mutex"@,
    }
}

impl TraceError {
    /// The message that describes this error.
    pub fn message(&self) -> (text: String)
        ensures
            text@ == message_text(*self),
    {
        match self {
            TraceError::SpanNotFound => String::from_str("failed to get span"),
            TraceError::StorageNotFound => String::from_str("failed to get storage"),
            TraceError::LockPoisoned => String::from_str("failed to get mutex"),
        }
    }
}

/// How to react to an error: every error is logged and passed over, unless
/// `strict` turns each of them into an abort.
pub fn reaction(error: TraceError, strict: bool) -> (r: Reaction)
    ensures
        r == (if strict {
            Reaction::Abort
        } else {
            Reaction::Log
        }),
{
    if strict {
        Reaction::Abort
    } else {
        Reaction::Log
    }
}

} // verus!
