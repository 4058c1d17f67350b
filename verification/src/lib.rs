//! A pluggable token-to-role resolver.
//!
//! Given an opaque bearer token (a string), the resolver answers whether the
//! token currently grants an authorization role, and if so, which one. Each
//! registered token carries its own consumption policy: a one-shot rule yields
//! its role exactly once and then vanishes, while a regenerable rule computes a
//! fresh (possibly absent) role on every lookup.

pub mod checkers;
