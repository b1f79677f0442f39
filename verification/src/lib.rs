//! A verified patch-mirror library for a proprietary game client.
//!
//! The library models the vendor's patch protocol and manifest format:
//! hex and byte-cursor utilities, the binary handshake frame, the XML
//! asset manifest, per-revision asset inventories and their diffs, the
//! revision store with content-addressed lookup, and the decision logic
//! of the fetch pipeline, the serving layer and the mirror backup client.
//! Network and filesystem work stays outside; the functions here take
//! plain values and return plain values, each under a contract.
pub mod asset;
pub mod backup;
pub mod cursor;
pub mod diff;
pub mod errors;
pub mod fetcher;
pub mod hex;
pub mod http_request;
pub mod jsonio;
pub mod patch_info;
pub mod rate_limiter;
pub mod revision;
pub mod serve;
pub mod store;
pub mod strutil;
pub mod xml;
