//! What can go wrong in the library.

use vstd::prelude::*;

verus! {

/// Failures reported by the store, the file format and the expander.
#[derive(Debug, Clone, PartialEq, Eq)]
pub enum Error {
    /// A definition without the `=` between origin and alias.
    InvalidAliasFormat,
    /// No record carries the requested alias; holds that alias.
    AliasNotFound(String),
    /// A grouped reference asks for more arguments than follow it; holds the
    /// offending argument.
    MalformedGroup(String),
    /// The store file is too short to hold a version tag.
    Corrupted,
    /// The store file is larger than the format allows.
    TooLarge,
    /// The store file carries a version tag other than the supported one;
    /// holds the tag found.
    UnsupportedVersion(u32),
    /// The record section of the store file could not be decoded.
    DecodeFailed,
    /// The records could not be encoded.
    EncodeFailed,
    /// The store file exists and could not be read.
    ReadFailed,
}

} // verus!
