//! Judging generated answers against reference answers: classification of a
//! judge's free-text reply, majority voting over repeated judge replies,
//! merging generated answers with their reference answers, and per-model
//! accuracy.

pub mod text;
pub mod verdict;
pub mod vote;
pub mod records;
pub mod evaluate;
pub mod accuracy;
