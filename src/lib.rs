//! Image transformation service core.
//!
//! * `ops`: the closed set of image operations and their parameters;
//! * `codec`: the binary schema of an operation chain and its URL-safe token;
//! * `engine`: applies a chain to an RGBA image and encodes the result;
//! * `cache`: the bounded, least-recently-used cache of fetched sources;
//! * `dialect`: SQL identifier rules that admit URLs as table names;
//! * `kv`: `key=value` command-line arguments.
use vstd::prelude::*;

pub mod cache;
pub mod codec;
pub mod dialect;
pub mod engine;
pub mod kv;
pub mod ops;
