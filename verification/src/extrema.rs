//! Distance computation between shapes: decoding what the distance solver
//! reports about each closest-point pair, and when a computation counts as
//! failed.
use vstd::prelude::*;

use crate::Error;

verus! {

/// Type of geometric support where a closest point lies.
#[derive(Debug, Clone, Copy, PartialEq, Eq, Structural)]
pub enum SupportType {
    /// Point lies on a vertex
    Vertex,
    /// Point lies on an edge
    Edge,
    /// Point lies on a face
    Face,
}

impl SupportType {
    /// Decodes the raw code of a support kind as reported by the distance
    /// solver (vertex = 0, on an edge = 1, in a face = 2).  Any other code
    /// falls back to `Vertex`.
    pub fn from_raw(repr: u32) -> (st: SupportType)
        ensures
            st == (if repr == 1 {
                SupportType::Edge
            } else if repr == 2 {
                SupportType::Face
            } else {
                SupportType::Vertex
            }),
    {
        if repr == 0 {
            SupportType::Vertex
        } else if repr == 1 {
            SupportType::Edge
        } else if repr == 2 {
            SupportType::Face
        } else {
            SupportType::Vertex
        }
    }
}

/// The kind of parametric information recorded for a closest point: none
/// (the point is taken as a vertex), the curve parameter `t` on an edge, or
/// the surface parameters `(u, v)` on a face.
#[derive(Debug, Clone, Copy, PartialEq, Eq, Structural)]
pub enum LocationKind {
    Vertex,
    Edge,
    Face,
}

/// The parametric location recorded for a point with the given support,
/// given whether the solver could give its parameters.
pub open spec fn parametric_kind(support: SupportType, parameters_found: bool) -> LocationKind {
    match support {
        SupportType::Vertex => LocationKind::Vertex,
        SupportType::Edge => if parameters_found {
            LocationKind::Edge
        } else {
            LocationKind::Vertex
        },
        SupportType::Face => if parameters_found {
            LocationKind::Face
        } else {
            LocationKind::Vertex
        },
    }
}

/// Whether the parameters of a point with the given support are looked up
/// at all: those of a point on an edge or in a face are, a vertex has none.
pub fn has_parameters(support: SupportType) -> (b: bool)
    ensures
        b <==> support != SupportType::Vertex,
{
    match support {
        SupportType::Vertex => false,
        SupportType::Edge => true,
        SupportType::Face => true,
    }
}

/// The parametric location recorded for a closest point: a point on a vertex
/// has none; a point on an edge or in a face has its edge or face parameters
/// when the solver could give them, and is recorded as a vertex when it
/// could not.
pub fn location_kind(support: SupportType, parameters_found: bool) -> (k: LocationKind)
    ensures
        k == parametric_kind(support, parameters_found),
{
    match support {
        SupportType::Vertex => LocationKind::Vertex,
        SupportType::Edge => {
            if parameters_found {
                LocationKind::Edge
            } else {
                LocationKind::Vertex
            }
        },
        SupportType::Face => {
            if parameters_found {
                LocationKind::Face
            } else {
                LocationKind::Vertex
            }
        },
    }
}

/// Whether a distance computation can be read: it fails with
/// `DistanceComputationFailed` unless the solver ran successfully and
/// reports itself done.
pub fn computation_status(performed: bool, done: bool) -> (r: Result<(), Error>)
    ensures
        r is Ok <==> performed && done,
        r is Err ==> r == Err::<(), Error>(Error::DistanceComputationFailed),
{
    if !performed || !done {
        return Err(Error::DistanceComputationFailed);
    }
    Ok(())
}

/// Law: the parametric location of a point never claims more than its
/// support: an edge location only for a point on an edge, a face location
/// only for a point in a face; and it claims exactly that when the solver
/// gives the parameters.
pub proof fn lemma_location_within_support(support: SupportType, parameters_found: bool)
    ensures
        parametric_kind(support, parameters_found) == LocationKind::Edge ==> support
            == SupportType::Edge,
        parametric_kind(support, parameters_found) == LocationKind::Face ==> support
            == SupportType::Face,
        parameters_found && support == SupportType::Edge ==> parametric_kind(support, parameters_found)
            == LocationKind::Edge,
        parameters_found && support == SupportType::Face ==> parametric_kind(support, parameters_found)
            == LocationKind::Face,
{
}

} // verus!
