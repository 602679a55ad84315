//! The failure taxonomy of the library.

use vstd::prelude::*;

verus! {

/// Why a query invocation failed.
///
/// `MalformedLog` reports an unrecognized field key, an unparsable
/// timestamp, or a field line without a `": "` separator; `MalformedPackage`
/// an affected-package token without its `name:architecture` separator;
/// `UnknownCommand` a subcommand that is neither `list` nor `info`. Log
/// parsing is strict: the first anomaly aborts the invocation.
#[derive(Clone, Copy, PartialEq, Eq, Structural, Debug)]
pub enum HistoryError {
    MalformedLog,
    MalformedPackage,
    UnknownCommand,
}

} // verus!
