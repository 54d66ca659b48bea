//! Faces: their orientation and the kind of surface they lie on.
use vstd::prelude::*;

verus! {

/// The orientation of a face relative to its underlying surface.
#[derive(Debug, Copy, Clone, PartialEq, Eq, Structural)]
pub enum FaceOrientation {
    Forward,
    Reversed,
    Internal,
    External,
}

/// The orientation that OCCT's orientation code `repr` stands for, in the
/// order of `TopAbs_Orientation`: forward, reversed, internal, external
/// (codes 0 to 3).
pub open spec fn orientation_of(repr: u32) -> Option<FaceOrientation> {
    if repr == 0 {
        Some(FaceOrientation::Forward)
    } else if repr == 1 {
        Some(FaceOrientation::Reversed)
    } else if repr == 2 {
        Some(FaceOrientation::Internal)
    } else if repr == 3 {
        Some(FaceOrientation::External)
    } else {
        None
    }
}

impl FaceOrientation {
    /// Decodes OCCT's orientation code; `None` for a code that names no
    /// orientation.
    pub fn from_raw(repr: u32) -> (o: Option<FaceOrientation>)
        ensures
            o == orientation_of(repr),
            o is None <==> repr > 3,
    {
        match repr {
            0 => Some(FaceOrientation::Forward),
            1 => Some(FaceOrientation::Reversed),
            2 => Some(FaceOrientation::Internal),
            3 => Some(FaceOrientation::External),
            _ => None,
        }
    }
}

/// The kind of geometric surface underlying a face.  For the analytic kinds
/// (plane, cylinder, cone, sphere, torus) the face's surface carries the
/// parameters of that surface; the other kinds carry none.
#[derive(Debug, Copy, Clone, PartialEq, Eq, Structural)]
pub enum SurfaceKind {
    Plane,
    Cylinder,
    Cone,
    Sphere,
    Torus,
    Bezier,
    BSpline,
    Revolution,
    Extrusion,
    Offset,
    Other,
}

/// The surface kind that OCCT's surface type code `repr` stands for, in the
/// order of `GeomAbs_SurfaceType`: plane, cylinder, cone, sphere, torus,
/// Bezier surface, B-spline surface, surface of revolution, surface of
/// extrusion, offset surface, other surface (codes 0 to 10).
pub open spec fn surface_kind_of(repr: u32) -> Option<SurfaceKind> {
    if repr == 0 {
        Some(SurfaceKind::Plane)
    } else if repr == 1 {
        Some(SurfaceKind::Cylinder)
    } else if repr == 2 {
        Some(SurfaceKind::Cone)
    } else if repr == 3 {
        Some(SurfaceKind::Sphere)
    } else if repr == 4 {
        Some(SurfaceKind::Torus)
    } else if repr == 5 {
        Some(SurfaceKind::Bezier)
    } else if repr == 6 {
        Some(SurfaceKind::BSpline)
    } else if repr == 7 {
        Some(SurfaceKind::Revolution)
    } else if repr == 8 {
        Some(SurfaceKind::Extrusion)
    } else if repr == 9 {
        Some(SurfaceKind::Offset)
    } else if repr == 10 {
        Some(SurfaceKind::Other)
    } else {
        None
    }
}

impl SurfaceKind {
    /// Decodes OCCT's surface type code; `None` for a code that names no
    /// surface type.
    pub fn from_raw(repr: u32) -> (k: Option<SurfaceKind>)
        ensures
            k == surface_kind_of(repr),
            k is None <==> repr > 10,
    {
        match repr {
            0 => Some(SurfaceKind::Plane),
            1 => Some(SurfaceKind::Cylinder),
            2 => Some(SurfaceKind::Cone),
            3 => Some(SurfaceKind::Sphere),
            4 => Some(SurfaceKind::Torus),
            5 => Some(SurfaceKind::Bezier),
            6 => Some(SurfaceKind::BSpline),
            7 => Some(SurfaceKind::Revolution),
            8 => Some(SurfaceKind::Extrusion),
            9 => Some(SurfaceKind::Offset),
            10 => Some(SurfaceKind::Other),
            _ => None,
        }
    }
}

/// Law: distinct orientation codes decode to distinct orientations.
pub proof fn lemma_orientation_codes_distinct(a: u32, b: u32)
    requires
        a <= 3,
        b <= 3,
        a != b,
    ensures
        orientation_of(a) != orientation_of(b),
{
}

/// Law: distinct surface type codes decode to distinct surface kinds.
pub proof fn lemma_surface_kind_codes_distinct(a: u32, b: u32)
    requires
        a <= 10,
        b <= 10,
        a != b,
    ensures
        surface_kind_of(a) != surface_kind_of(b),
{
}

} // verus!
