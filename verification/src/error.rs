//! The failure conditions of the library, one variant per kind.

use vstd::prelude::*;

verus! {

/// Everything that can go wrong while serving a subcommand.
///
/// Fallible operations report one of these; the caller turns it into a
/// single logged line and stops, printing nothing to standard output.
#[derive(Clone, Copy, Debug, PartialEq, Eq, Structural)]
pub enum Error {
    /// The home directory could not be determined, so no storage root exists.
    Config,
    /// No stored entry matches the requested server URL.
    NotFound,
    /// The protocol input could not be parsed as a credential record.
    Malformed,
    /// A subprocess stream could not be read or written, or held invalid text.
    Io,
    /// A directory to erase was missing or could not be removed.
    Filesystem,
    /// A directory name was not a valid encoded server URL.
    Decode,
}

impl Error {
    /// A one-line human-readable message for the log stream.
    pub fn message(&self) -> (r: &'static str)
        ensures
            r@ == match *self {
                Error::Config => "The home directory could not be determined."@,
                Error::NotFound => "No entry for the given server found."@,
                Error::Malformed => "The input could not be parsed."@,
                Error::Io => "A subprocess stream could not be used."@,
                Error::Filesystem => "The entry's directory could not be removed."@,
                Error::Decode => "A directory name is not a valid encoded URL."@,
            },
    {
        match self {
            Error::Config => "The home directory could not be determined.",
            Error::NotFound => "No entry for the given server found.",
            Error::Malformed => "The input could not be parsed.",
            Error::Io => "A subprocess stream could not be used.",
            Error::Filesystem => "The entry's directory could not be removed.",
            Error::Decode => "A directory name is not a valid encoded URL.",
        }
    }
}

} // verus!
