//! A small regression/snapshot-testing library.
//!
//! A test builds one or more named artifacts (ordered, uniquely keyed trees
//! of entries: strings, byte blobs, JSON-like documents, or nested
//! artifacts). The first run stores each artifact as a baseline; later runs
//! compare the freshly produced artifact against the stored baseline and
//! report every structural difference as a path-annotated mismatch.
//!
//! All file access, configuration parsing and floating-point arithmetic
//! belong to the host around the library: the host loads baselines and hands
//! them to `Egress::close`, answers the numeric tolerance checks among the
//! returned findings (they carry IEEE 754 bit patterns), and lets
//! `compare::resolve` fold the answers into the final `Report`.

pub mod artifact;
pub mod compare;
pub mod egress;
pub mod error;
pub mod json;
pub mod laws;
pub mod report;
pub mod serialize;
pub mod strings;

pub use artifact::{Artifact, Entry};
pub use compare::{Finding, Mismatch};
pub use egress::Egress;
pub use error::ErrorKind;
pub use json::{Json, Num};
pub use report::Report;
