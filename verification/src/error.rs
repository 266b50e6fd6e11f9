use vstd::prelude::*;

verus! {

/// Errors of the data pipeline.
///
/// Container-level failures are fatal for the call that meets them;
/// per-record failures are reported to the caller, which skips the
/// record and counts the drop.
#[derive(Debug, Clone, Copy, PartialEq, Eq, Structural)]
pub enum DataError {
    /// The byte stream is not a readable delimited-text table.
    Csv,
    /// A parcel record lacks the mandatory map identifier.
    MissingId,
    /// A parcel feature carries a geometry kind other than a multipolygon.
    NotMultiPolygon,
    /// A coordinate lies outside the range the engine works in.
    CoordRange,
    /// A binary cache buffer does not match the expected layout.
    Decode,
}

} // verus!
