use vstd::prelude::*;

verus! {

/// The error kinds of the library. Failures of a single file during a batch
/// (an unreadable or unparsable file) are recovered locally and never
/// surface through these; the variants here are the run-level failures.
#[derive(Debug, Clone, PartialEq, Eq)]
pub enum ArbolError {
    /// An input or output failure, with its message.
    Io(String),
    /// A serialization failure, with its message.
    SerdeJson(String),
    /// The grammar could not be activated on the engine.
    SetLanguage(String),
    /// The engine produced no tree for a source.
    ParseFailed,
    /// The pattern source did not compile.
    QueryCompile,
    /// A usage error, with its message.
    Cli(String),
}

} // verus!
