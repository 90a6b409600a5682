//! Verified building blocks for four small line-oriented text utilities:
//! numbering lines, taking the head of a file, collapsing adjacent duplicate
//! lines into counted runs, and counting lines, words, bytes and characters.
//!
//! Each module holds the pure transformation of one utility, specified over
//! sequences of characters; reading files and printing belong to the caller.

pub mod cat;
pub mod decimal;
pub mod head;
pub mod uniq;
pub mod wc;
