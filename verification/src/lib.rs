//! Aggregation of IPv4 and IPv6 prefixes into the smallest list of CIDR
//! blocks that covers the same addresses.
//!
//! Tokens are read into networks (`parse`), let in or turned down
//! (`filter`), kept in one working set for each family (`range`) and
//! aggregated (`aggregate`). What an aggregate is, and what holds of every
//! aggregate, is stated over blocks of addresses (`block`, `cover`, `laws`).

pub mod aggregate;
pub mod block;
pub mod cover;
pub mod decimal;
pub mod error;
pub mod filter;
pub mod laws;
pub mod net;
pub mod parse;
pub mod prefix;
pub mod prefixlen;
pub mod range;
pub mod sort;
pub mod text;
