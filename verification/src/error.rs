use vstd::prelude::*;

verus! {

/// The recoverable failures of barcode construction.
#[derive(Debug, PartialEq, Eq, Clone, Copy)]
pub enum Error {
    /// An input character (or digit pair) cannot be encoded in the active
    /// character set, or an escape directive is malformed.
    Character,
    /// The input produced no data units (empty or directive-only input).
    Length,
}

} // verus!
