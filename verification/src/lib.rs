//! Reconstructs package-manager transactions from rotated history log files
//! and answers list / detail queries against the reconstructed history.
//!
//! The crate is organised along the data flow: `discovery` orders the log
//! file names, `parser` turns each file's lines into `entry::HistoryEntry`
//! records with globally dense identifiers, `pkg` parses the free-text
//! affected-package lists, `query` resolves selectors against the store,
//! and `output` shapes the selected transactions into plain rows for a
//! presentation layer. All file reading, decompression and rendering live
//! outside this crate; it only ever sees plain values.

pub mod dates;

pub mod discovery;

pub mod entry;

pub mod errors;

pub mod output;

pub mod parser;

pub mod pkg;

pub mod query;

pub mod strutil;
