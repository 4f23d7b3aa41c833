//! Failure modes of the library: I/O and encoding faults reported by the
//! host, caller-contract violations, and serialization failures.

use vstd::prelude::*;

verus! {

/// Possible failure modes for building artifacts and for opening and closing
/// snapshot contexts. I/O and configuration-encoding faults originate in the
/// host that performs file access; the variants carry its message.
#[derive(Debug)]
pub enum ErrorKind {
    /// An I/O fault while reading or writing config or baseline files.
    IoError(String),
    /// Config data could not be serialized to its on-disk form.
    TomlSerError(String),
    /// Config data could not be deserialized from its on-disk form.
    TomlDeError(String),
    /// An artifact could not be serialized to or deserialized from JSON.
    JsonError(String),
    /// An entry was inserted under a key this artifact already holds.
    DuplicateKey(String),
    /// An artifact name was claimed more than once in a run.
    DuplicateArtifact(String),
    /// An artifact name is not a bare identifier.
    InvalidName(String),
}

} // verus!
