use opencascade::primitives::edge::EdgeType;
use opencascade::primitives::face::{FaceOrientation, SurfaceKind};

#[test]
fn edge_type_codes() {
    let expected = [
        EdgeType::Line,
        EdgeType::Circle,
        EdgeType::Ellipse,
        EdgeType::Hyperbola,
        EdgeType::Parabola,
        EdgeType::BezierCurve,
        EdgeType::BSplineCurve,
        EdgeType::OffsetCurve,
        EdgeType::OtherCurve,
    ];
    for (code, t) in expected.iter().enumerate() {
        assert_eq!(EdgeType::from_raw(code as u32), Some(*t));
    }
    assert_eq!(EdgeType::from_raw(9), None);
    assert_eq!(EdgeType::from_raw(1000), None);
}

#[test]
fn face_orientation_codes() {
    assert_eq!(FaceOrientation::from_raw(0), Some(FaceOrientation::Forward));
    assert_eq!(FaceOrientation::from_raw(1), Some(FaceOrientation::Reversed));
    assert_eq!(FaceOrientation::from_raw(2), Some(FaceOrientation::Internal));
    assert_eq!(FaceOrientation::from_raw(3), Some(FaceOrientation::External));
    assert_eq!(FaceOrientation::from_raw(4), None);
}

#[test]
fn surface_kind_codes() {
    let expected = [
        SurfaceKind::Plane,
        SurfaceKind::Cylinder,
        SurfaceKind::Cone,
        SurfaceKind::Sphere,
        SurfaceKind::Torus,
        SurfaceKind::Bezier,
        SurfaceKind::BSpline,
        SurfaceKind::Revolution,
        SurfaceKind::Extrusion,
        SurfaceKind::Offset,
        SurfaceKind::Other,
    ];
    for (code, k) in expected.iter().enumerate() {
        assert_eq!(SurfaceKind::from_raw(code as u32), Some(*k));
    }
    assert_eq!(SurfaceKind::from_raw(11), None);
}
