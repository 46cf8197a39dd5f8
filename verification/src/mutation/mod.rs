//! The mutation engine: compound edits of a graph.
//!
//! Each edit has two phases. A snapshot reads the consistent core and checks
//! everything that can fail; what it hands back is a plain value, the cache of
//! the edit. The commit applies a cache to the core with elementary edits that
//! cannot fail. An edit that is refused leaves the core untouched.

pub mod edge;
pub mod face;
