//! Bulk, pattern-driven search and replace across a tree of repositories.
//!
//! The pipeline finds the repositories below a root, checks out matching
//! branches, finds candidate files and the lines in them that match a
//! pattern, computes a replacement for each such line, and decides which
//! files to rewrite, which paths to stage, and which repositories to commit
//! and push. The file system and the repositories are the caller's: the
//! walks take directory listings one at a time (`func`), matching takes the
//! lines read from a file, and the later stages hand back `steps::Step`s to
//! perform, or only to report in a dry run.

pub mod config;
pub mod pattern;
pub mod paths;
pub mod text;
pub mod structs;
pub mod func;
pub mod raider;
pub mod steps;
pub mod laws;
