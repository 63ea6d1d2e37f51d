//! Pairwise-comparison rating of a named list of items.
//!
//! A store holds rated entries in order, each with a tally of wins and votes.
//! A selection strategy picks two entries to set against each other, a
//! verdict moves their tallies, and the store is kept between sessions as a
//! small binary image.
//!
//! - [`rel_vec`]: the entry, the store, its ranking and its pair selections.
//! - [`rate`]: win rates set against each other exactly, as fractions.
//! - [`order`]: what holds of the order of win rates and of the ranking.
//! - [`vote`]: the strategies by name and the rounds of a voting session.
//! - [`commands`]: the batch changes and listings behind the commands.
//! - [`stats`]: the figures of the report on a store.
//! - [`storage`]: the binary image of a store and the text import.
//! - [`rate_vec`], [`entry_struct`]: the store and the entry of the earlier
//!   file format.
//! - [`pattern`], [`random`], [`text`]: filters, the random source and text
//!   out of bytes, where the library leans on code from outside.
//! - [`error`]: what can go wrong in a command.

pub mod commands;
pub mod entry_struct;
pub mod error;
pub mod order;
pub mod pattern;
pub mod random;
pub mod rate;
pub mod rate_vec;
pub mod rel_vec;
pub mod stats;
pub mod storage;
pub mod text;
pub mod vote;
