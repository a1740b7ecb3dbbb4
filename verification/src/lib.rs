//! A single-pass, zero-copy JSON reader, verified with Verus.
//!
//! `parse_json_bytes` turns a buffer into a [`Json`]: two flat tables, one
//! with the members of all objects and one with the elements of all arrays,
//! and the value of the root. A collection is a range of slots of the table
//! of its kind; a string is a span of the buffer. A [`JsonContext`] walks the
//! direct children of one collection and passes a nested collection of the
//! same kind in one step.
//!
//! The dialect is lenient on purpose: whitespace, commas and colons are all
//! separators without meaning, keys may repeat, escapes are kept as they
//! stand, the root must be an object or an array, and what follows the root
//! is not looked at.
//!
//! - `token`: the tokenizer and what a token is (`scan_token`).
//! - `model`: the values of a document, the tree that a buffer denotes
//!   (`document_tree`), its layout in the two tables (`layout`), and what the
//!   cursor gives (`cursor_step`, `cursor_walk`).
//! - `document`: the parser and the cursor.
//! - `laws`: what holds of every document: its spans are spans of its
//!   buffer, a cursor gives the children of a collection and nothing else,
//!   and walking a document gives back its tree; the last two of the
//!   documents that keep the children of each collection apart from what
//!   lies below them, and of no others.
//! - `pairs`: reading a list of pairs of points out of a document.
//! - `format`, `clocks`, `profiler`, `repetition`, `dataset`, `timing`,
//!   `defer`: the integer side of the programs that measure the reader.

pub mod clocks;
pub mod dataset;
pub mod defer;
pub mod document;
pub mod format;
pub mod laws;
pub mod model;
pub mod pairs;
pub mod profiler;
pub mod repetition;
pub mod timing;
pub mod token;

pub use clocks::{cpu_clocks_per_second, os_wait_clocks};
pub use dataset::{answers_layout, cluster_sizes, AnswersError, AnswersLayout};
pub use defer::Defer;
pub use document::{parse_json_bytes, Json, JsonContext};
pub use format::{frequency_unit, printable_large_num, FrequencyUnit};
pub use model::{JsonValue, Kind};
pub use pairs::{pairs_from_root_json, PairsError, PointPair};
pub use profiler::{ProfileAnchor, ProfileBlock, ProfileTotals, Profiler, PROFILE_CAPACITY};
pub use repetition::{RepetitionTestData, RunningCount};
pub use timing::StopWatch;
pub use token::{parse_token, ByteSpan, JsonError, JsonNumber, JsonToken};
