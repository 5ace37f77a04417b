//! What can be wrong with a command line.

use vstd::prelude::*;

verus! {

/// Why a command line names no command.
#[derive(Clone, Copy, Debug, PartialEq, Eq, Structural)]
pub enum Error {
    /// The options are not ones the program knows, or are misused.
    BadCommandlineOptions,
    /// Not exactly one input file is named, but this many.
    WrongNumberOfInputFiles(usize),
    /// No output directory is given, and the input file's name has no stem
    /// to take one from.
    CouldntGuessOutputName,
}

} // verus!
