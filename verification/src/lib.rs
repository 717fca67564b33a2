//! Republishes a long-form document as an ordered chain of character-limited
//! posts.
//!
//! The document is split at sentence and paragraph boundaries
//! ([`boundaries`]), greedily packed into the fewest segments that respect
//! the per-post budget, and tagged with a `" (i/N)"` numbering suffix
//! ([`segment`], [`digits`]). A leading metadata block may name a content
//! notice, whose length comes off every post's budget ([`options`]). The
//! segments are then published in order as a reply chain under a rollback
//! guard that, on failure, names every already-created post for deletion
//! ([`publish`]); the network calls themselves stay outside this crate.

pub mod boundaries;
pub mod digits;
pub mod options;
pub mod publish;
pub mod segment;
