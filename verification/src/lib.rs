//! Target-aware system-dependency install commands and build-environment
//! merging for a release-packaging pipeline.
//!
//! The crate has two independent halves. The resolver half
//! ([`resolver::resolve`]) walks a list of target triples, picks the first
//! one belonging to a known package-manager family, and renders the shell
//! command(s) that install the applicable system dependencies. The
//! environment half parses `KEY=value` text captured from a package
//! manager's subshell ([`snapshot::parse_env`]), extracts dependency
//! install prefixes, and derives exportable variables and linker/compiler
//! flags ([`brew`]).

pub mod brew;
pub mod docker;
pub mod resolver;
pub mod snapshot;
pub mod strutil;
