//! Edges: the kind of curve an edge lies on.
use vstd::prelude::*;

verus! {

/// The kind of curve underlying an edge.
#[derive(Debug, Copy, Clone, PartialEq, Eq, Structural)]
pub enum EdgeType {
    Line,
    Circle,
    Ellipse,
    Hyperbola,
    Parabola,
    BezierCurve,
    BSplineCurve,
    OffsetCurve,
    OtherCurve,
}

/// The edge type that OCCT's curve type code `repr` stands for, in the
/// order of `GeomAbs_CurveType`: line, circle, ellipse, hyperbola, parabola,
/// Bezier curve, B-spline curve, offset curve, other curve (codes 0 to 8).
pub open spec fn edge_type_of(repr: u32) -> Option<EdgeType> {
    if repr == 0 {
        Some(EdgeType::Line)
    } else if repr == 1 {
        Some(EdgeType::Circle)
    } else if repr == 2 {
        Some(EdgeType::Ellipse)
    } else if repr == 3 {
        Some(EdgeType::Hyperbola)
    } else if repr == 4 {
        Some(EdgeType::Parabola)
    } else if repr == 5 {
        Some(EdgeType::BezierCurve)
    } else if repr == 6 {
        Some(EdgeType::BSplineCurve)
    } else if repr == 7 {
        Some(EdgeType::OffsetCurve)
    } else if repr == 8 {
        Some(EdgeType::OtherCurve)
    } else {
        None
    }
}

impl EdgeType {
    /// Decodes OCCT's curve type code; `None` for a code that names no
    /// curve type.
    pub fn from_raw(repr: u32) -> (t: Option<EdgeType>)
        ensures
            t == edge_type_of(repr),
            t is None <==> repr > 8,
    {
        match repr {
            0 => Some(EdgeType::Line),
            1 => Some(EdgeType::Circle),
            2 => Some(EdgeType::Ellipse),
            3 => Some(EdgeType::Hyperbola),
            4 => Some(EdgeType::Parabola),
            5 => Some(EdgeType::BezierCurve),
            6 => Some(EdgeType::BSplineCurve),
            7 => Some(EdgeType::OffsetCurve),
            8 => Some(EdgeType::OtherCurve),
            _ => None,
        }
    }
}

/// Law: distinct curve type codes decode to distinct edge types.
pub proof fn lemma_edge_type_codes_distinct(a: u32, b: u32)
    requires
        a <= 8,
        b <= 8,
        a != b,
    ensures
        edge_type_of(a) != edge_type_of(b),
{
}

} // verus!
