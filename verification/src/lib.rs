//! Verified core of a witness generator for zkVM benchmarks: it plans the
//! RPC requests that collect blocks and execution witnesses, validates the
//! request headers, names the collected blocks, and selects fixture files.

pub mod format;
pub mod text;
pub mod headers;
pub mod rpc;
pub mod fixtures;
pub mod cli;
