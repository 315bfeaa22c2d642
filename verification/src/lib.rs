//! Keeps a remote hostname's DNS record pointed at this host's public
//! address while avoiding redundant calls to the update endpoint.
//!
//! The library holds the decision logic: the outcome codec, the response
//! cache's bookkeeping, and the per-host and batch update policy. Reading
//! and writing cache files, watching the cache directory, and talking to
//! the update endpoint are the callers' side; each operation here states
//! what must be done with its result.

pub mod config;
pub mod ddns;
pub mod ip;
pub mod ip_cache;
pub mod response_cache;
pub mod update;
