//! Incremental, cancelable commit search.
//!
//! A free-form query over a commit history is compiled into a disjunction of
//! conjunctions of field-scoped terms, commits are matched against it as they
//! stream in, and a generation-tagged engine accumulates the matches while
//! supporting instant cancel and restart.

pub mod mask;
pub mod text;
pub mod matcher;
pub mod engine;
pub mod revlog;
