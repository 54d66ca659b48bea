use opencascade::extrema::{
    computation_status, has_parameters, location_kind, LocationKind, SupportType,
};
use opencascade::Error;

#[test]
fn support_type_codes() {
    assert_eq!(SupportType::from_raw(0), SupportType::Vertex);
    assert_eq!(SupportType::from_raw(1), SupportType::Edge);
    assert_eq!(SupportType::from_raw(2), SupportType::Face);
}

#[test]
fn support_type_unknown_code_falls_back_to_vertex() {
    assert_eq!(SupportType::from_raw(3), SupportType::Vertex);
    assert_eq!(SupportType::from_raw(u32::MAX), SupportType::Vertex);
}

#[test]
fn parameters_looked_up_for_edges_and_faces() {
    assert!(!has_parameters(SupportType::Vertex));
    assert!(has_parameters(SupportType::Edge));
    assert!(has_parameters(SupportType::Face));
}

#[test]
fn location_kind_table() {
    assert_eq!(location_kind(SupportType::Vertex, true), LocationKind::Vertex);
    assert_eq!(location_kind(SupportType::Vertex, false), LocationKind::Vertex);
    assert_eq!(location_kind(SupportType::Edge, true), LocationKind::Edge);
    assert_eq!(location_kind(SupportType::Edge, false), LocationKind::Vertex);
    assert_eq!(location_kind(SupportType::Face, true), LocationKind::Face);
    assert_eq!(location_kind(SupportType::Face, false), LocationKind::Vertex);
}

#[test]
fn computation_status_cases() {
    assert_eq!(computation_status(true, true), Ok(()));
    assert_eq!(computation_status(false, true), Err(Error::DistanceComputationFailed));
    assert_eq!(computation_status(true, false), Err(Error::DistanceComputationFailed));
    assert_eq!(computation_status(false, false), Err(Error::DistanceComputationFailed));
}
