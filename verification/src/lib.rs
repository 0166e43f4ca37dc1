//! Locally exclude files from a git working copy without touching any
//! shared ignore configuration.
//!
//! The crate locates the enclosing repository by walking up from a starting
//! directory, and manipulates the per-repository exclusion file: it reads the
//! stored patterns (skipping comment lines), appends new entries after
//! rewriting them relative to the repository root, and clears the list.
//! All path and text manipulation is verified; reading and writing the file
//! itself is left to the caller, who hands the stored text in and writes the
//! returned text out.

pub mod cli;
pub mod git;
pub mod paths;
pub mod store;
