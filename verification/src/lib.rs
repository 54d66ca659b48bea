//! A CAD kernel layer over OpenCASCADE: the decisions and data layout that
//! sit between OCCT's raw results and the typed values users see.
use vstd::prelude::*;

pub mod assembly;
pub mod cursor;
pub mod extrema;
pub mod parallel;
pub mod primitives;

verus! {

/// The ways an operation of the library can fail.
#[derive(Debug, PartialEq, Eq)]
pub enum Error {
    /// failed to write STL file
    StlWriteFailed,
    /// failed to read STEP file
    StepReadFailed,
    /// failed to read IGES file
    IgesReadFailed,
    /// failed to read KiCAD PCB file; holds the parser's message
    KicadReadFailed(String),
    /// failed to write STEP file
    StepWriteFailed,
    /// failed to write IGES file
    IgesWriteFailed,
    /// failed to triangulate Shape
    TriangulationFailed,
    /// encountered a face with no triangulation
    UntriangulatedFace,
    /// at least 2 points are required for creating a wire
    NotEnoughPoints,
    /// loft operation failed
    LoftFailed,
    /// distance computation failed
    DistanceComputationFailed,
    /// shape offset operation failed
    OffsetFailed,
}

} // verus!
