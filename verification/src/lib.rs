//! Point-in-time process introspection: parses kernel-exposed text
//! formats (process stat records, socket tables, cgroup membership,
//! descriptor symlinks), tracks per-process CPU-usage deltas across
//! collection passes, classifies what supervises each process,
//! correlates sockets to their owning processes, and answers queries
//! by name substring, exact pid, or listening port.
//!
//! Everything the engine computes is specified; reading the live
//! tables, running the unit manager, and rendering are left to the
//! caller, which hands text and numbers in and takes plain values
//! back.

use vstd::prelude::*;

pub mod clock;
pub mod collector;
pub mod history;
pub mod history_state;
pub mod modules;
pub mod network;
pub mod procstate;
pub mod query;
pub mod settings;
pub mod sorting;
mod strutil;
pub mod systemd;
pub mod view;

pub use strutil::{
    contains_sub, lowercase, parse_i64_dec, parse_u64_dec, parse_u64_hex, split_fields,
    split_lines, str_eq, trim_str, u64_to_string,
};

verus! {

} // verus!
