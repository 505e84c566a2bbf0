use vstd::prelude::*;

verus! {

/// The failures of the copy, diff, apply and validate operations.
#[derive(Clone, Debug, PartialEq, Eq)]
pub enum MbtError {
    /// The file matches neither the flat nor the deduplicated layout.
    UnsupportedSchema,
    /// The destination already holds schema objects.
    NonEmptyTargetFile(String),
    /// An explicit set of zoom levels was combined with a zoom bound.
    ArgumentConflict,
    /// The lower zoom bound exceeds the upper one.
    InvalidZoomRange,
    /// Both snapshots hold a tile at this coordinate, with differing content.
    DuplicateTileError(u8, u32, u32),
    /// A diff record cannot be applied to the target as it stands.
    SchemaMismatch,
}

} // verus!
