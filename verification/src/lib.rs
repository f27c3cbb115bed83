//! A line-oriented pattern search library.
//!
//! Given a compiled pattern, the library scans text for matching lines,
//! decides which directory entries a traversal should visit (hidden-file
//! policy, ignore rules with a memo of ignored subtrees), and formats the
//! matches for output. It also carries the whole traversal out over a
//! directory tree held in memory. File and directory access, as well as
//! the ignore oracle, are supplied by the caller: a caller walking a real
//! directory drives the same per-entry decisions and hands their answers
//! back.

pub mod config;
pub mod ignore;
pub mod matcher;
pub mod scan;
pub mod text;
pub mod tree;
pub mod walk;
