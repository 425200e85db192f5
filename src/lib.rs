//! A verified core for a `head`-style command: count parsing, source
//! selection, line and byte truncation, and the per-source banner rules.
//! Reading files and standard input, and writing the output, are left to
//! the caller, which hands the library plain bytes and strings.

pub mod bytes;
pub mod count;
pub mod lines;
pub mod runner;
pub mod source;
