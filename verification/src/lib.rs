//! Selective extraction of named member files from batches of zip archives.
//!
//! The crate holds the decision logic of the tool: which archives a source
//! directory offers and in what order ([`discovery`]), which member paths of
//! an archive are admitted against the configured target file names and
//! excluded folder names ([`path_verifier`]), and what a pass over one
//! archive does member by member ([`extraction`]). All file reading and
//! writing stays with the caller, who feeds plain values in and carries the
//! returned plan out.

pub mod discovery;
pub mod extraction;
pub mod lex;
pub mod member_path;
pub mod path_verifier;
