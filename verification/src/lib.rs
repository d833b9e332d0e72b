//! Structural comparison of INI-style configuration files.
//!
//! A base document, the template, is compared with a target document, an
//! instance of it. Both are classified line by line ([`parser`]). The lines
//! of the target are indexed by section, and every line of the base is paired
//! with its counterpart in the same section of the target ([`diff`]). The
//! pairs are turned into a report: the text to show for each line, whether
//! the line is there, emptied or missing, and the totals ([`report`]).
//!
//! What the pairing amounts to is proved in [`matching`] (the counterpart is
//! the first fitting line of the same section, wherever it stands),
//! [`reorder`] (whole sections of the target can change places) and [`merge`]
//! (what a second comparison finds once the report has been written over the
//! target). [`text`] holds the work on characters and lines, [`config`] the
//! reading of a command line, [`console`] the lines that a run prints.
pub mod config;
pub mod console;
pub mod diff;
pub mod matching;
pub mod merge;
pub mod parser;
pub mod reorder;
pub mod report;
pub mod text;
