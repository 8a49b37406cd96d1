//! An incremental, resumable, optionally streaming JSON decoder.
//!
//! The decoder runs in bounded time slices: each call consumes up to a byte
//! budget, then yields a suspended continuation that the caller re-enters
//! with more input. A user-supplied tree spec can steer how map keys and
//! value subtrees are materialized (renamed atoms, tagged structures,
//! subtree streaming via yielded fragments).

pub mod value;
pub mod input;
pub mod strings;
pub mod parser;
pub mod numbers;
pub mod sink;
pub mod basic;
pub mod tree_spec;
pub mod walker;
pub mod path_tracker;
pub mod from_term;
pub mod streaming;
