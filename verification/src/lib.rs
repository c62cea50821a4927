//! Verified core of a `head`-style tool: it resolves command-line arguments
//! into a configuration, extracts line- or byte-counted prefixes of inputs,
//! and assembles the labeled output blocks for a run over several inputs.

pub mod args;
pub mod output;
pub mod prefix;
