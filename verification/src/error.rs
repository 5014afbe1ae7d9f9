//! The ways in which an expansion can fail.

use vstd::prelude::*;

verus! {

/// Why a schema could not be expanded. Every one of these ends the run:
/// no partial output is produced.
#[derive(Clone, Copy, Debug, PartialEq, Eq, Structural)]
pub enum ExpandError {
    /// A segment of a reference names no entry of `definitions`.
    UnresolvedReference,
    /// A reference to `#` was met and no name was given for the root.
    MissingRootName,
    /// An `enum` holds a value that is not a string.
    NonStringEnum,
    /// `allOf` compositions are nested deeper than the document has nodes:
    /// a composition contains itself.
    TooDeep,
    /// A name is longer than `MAX_NAME_LEN` characters.
    NameTooLong,
}

} // verus!
