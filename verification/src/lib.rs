//! Core pipeline of a command-line client for conversational-workflow
//! backends: flow configuration lookup, placeholder and credential
//! resolution, request-payload construction, request planning, and
//! normalization of backend responses.
//!
//! File and network I/O live outside this crate; every function here is
//! a pure computation over plain values, verified against its contract.

use vstd::prelude::*;

pub mod config;
pub mod dispatch;
pub mod errors;
pub mod json;
pub mod normalize;
pub mod payload;
pub mod resolve;
pub mod text;
