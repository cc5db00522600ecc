//! A viewer's core for hierarchical medical-image metadata records: the tree
//! of tags, its flattening into rows, expansion by path, search, comparison
//! of two records and validation of mandatory fields, each with its contract.

/// Small facts about filtered sequences.
pub mod seqs;
/// Texts: order, and what the standard library does to them.
pub mod text;
/// Identifiers, numbers and display values as texts.
pub mod format;
/// The standard data dictionary.
pub mod dictionary;
/// The node of a record and what is read from it.
pub mod dicom;
/// Forests as mathematical values: rows, paths, expansion flags.
pub mod tree;
/// Rows and the nodes on display.
pub mod paths;
/// What expanding and collapsing do to the rows.
pub mod expansion;
/// Decoded records and the forests built from them.
pub mod record;
/// Comparison of two records.
pub mod diff;
/// Inline differences of changed values.
pub mod inline;
/// The search filter.
pub mod search;
/// The tables of mandatory fields.
pub mod rules;
/// Validation of a record against rule tables.
pub mod validation;
/// The cursor of the table.
pub mod cursor;
/// Input events.
pub mod events;
/// The viewer's state as a value, and its transitions.
pub mod state;
/// The viewer's state and its operations.
pub mod app;
/// The texts of the display.
pub mod display;
