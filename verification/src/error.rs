use vstd::prelude::*;

verus! {

/// Why a decode or import call failed. Every failure aborts the whole
/// call: no partial model or terrain is ever returned.
#[derive(Clone, Copy, Debug, PartialEq, Eq, Structural)]
pub enum Error {
    /// The stream ended before the declared structure was complete.
    TruncatedInput,
    /// An index points past its array, or a count or field is garbage.
    MalformedGeometry,
    /// A terrain byte buffer does not match the declared dimensions.
    MalformedTerrain,
    /// No conversion path exists between the two requested forms.
    UnsupportedConversion,
    /// A mesh with zero vertices where at least one is required.
    EmptyGeometry,
}

} // verus!
