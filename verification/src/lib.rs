//! A text-rewrite engine that adapts a readme markdown file for use as crate
//! documentation.
//!
//! The engine performs two independent, composable rewrites over a document
//! held as UTF-8 bytes:
//!
//! * [`augment::augment_code_blocks`] inserts a fixed marker line before the
//!   closing fence of every fenced code block tagged `rust` or `rs`, so that
//!   examples using the `?` operator run as doctests without an explicit
//!   function signature or return type;
//! * [`rewrite::rewrite_links`] replaces every literal occurrence of one
//!   substring (typically an absolute docs URL) with another (typically a
//!   relative one).
//!
//! [`engine::transform`] composes the two, augmenting first and then
//! rewriting. Every function is total and pure: the same input always yields
//! the same output, and no input is ever rejected.

pub mod augment;
pub mod engine;
pub mod laws;
pub mod example;
pub mod lines;
pub mod rewrite;
