//! The library's error kinds: handshake failures, fetch-pipeline failures,
//! and the older protocol client's failures.
use vstd::prelude::*;

verus! {

/// Why a patch-info handshake failed.
#[derive(Debug, Clone, Copy, PartialEq, Eq, Structural)]
pub enum PatchInfoError {
    /// A read ran past the response buffer.
    IO,
    /// The upstream host did not resolve.
    AddrResolve,
    /// The frame did not open with the FOOD magic.
    InvalidHeaderSequence,
    /// The frame carried the wrong service or message id.
    InvalidProtocol(u8, u8),
    /// No revision segment could be read from the list file URL.
    InvalidRevisionFormat,
    /// A hex string would not decode.
    InvalidHex,
}

/// Why the fetch pipeline failed.
#[derive(Debug, Clone, Copy, PartialEq, Eq, Structural)]
pub enum AssetFetcherError {
    /// A file could not be read or written.
    Parse,
    /// A file could not be fetched.
    Fetch,
    /// The manifest XML would not parse.
    XMLParser,
}

/// Why the older protocol client failed.
#[derive(Debug, Clone, Copy, PartialEq, Eq, Structural)]
pub enum RevisionError {
    /// A read ran past the response buffer.
    IO,
    /// The frame did not open with the FOOD magic.
    InvalidHeaderSequence,
    /// The frame carried the wrong service or message id.
    InvalidProtocol(u8, u8),
    /// No revision segment could be read from the list file URL.
    InvalidRevisionFormat,
}

} // verus!
