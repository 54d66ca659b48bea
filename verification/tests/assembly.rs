use opencascade::assembly::{
    dmat4_to_trsf, read_status_done, shape_source, step_read_check, trsf_to_dmat4, AssemblyTree,
    ShapeSource,
};
use opencascade::Error;

const IDENTITY_COLS: [f64; 16] = [
    1.0, 0.0, 0.0, 0.0, 0.0, 1.0, 0.0, 0.0, 0.0, 0.0, 1.0, 0.0, 0.0, 0.0, 0.0, 1.0,
];

#[test]
fn test_trsf_to_dmat4_identity() {
    // The identity location: unit vectorial part, no translation.
    let rotation = [1.0, 0.0, 0.0, 0.0, 1.0, 0.0, 0.0, 0.0, 1.0];
    let mat = trsf_to_dmat4(&rotation, [0.0, 0.0, 0.0], 0.0, 1.0);
    for k in 0..16 {
        assert!((mat[k] - IDENTITY_COLS[k]).abs() <= 1e-10);
    }
}

#[test]
fn trsf_layout_is_column_major() {
    let rotation = [11, 12, 13, 21, 22, 23, 31, 32, 33];
    let cols = trsf_to_dmat4(&rotation, [14, 24, 34], 0, 1);
    assert_eq!(cols, [11, 21, 31, 0, 12, 22, 32, 0, 13, 23, 33, 0, 14, 24, 34, 1]);
}

#[test]
fn trsf_layout_reads_first_nine_values() {
    let rotation = [1, 2, 3, 4, 5, 6, 7, 8, 9, 99];
    let cols = trsf_to_dmat4(&rotation, [10, 11, 12], 0, 1);
    assert_eq!(cols, [1, 4, 7, 0, 2, 5, 8, 0, 3, 6, 9, 0, 10, 11, 12, 1]);
}

#[test]
fn dmat4_to_trsf_gives_rows() {
    let cols = [0, 1, 2, 3, 4, 5, 6, 7, 8, 9, 10, 11, 12, 13, 14, 15];
    assert_eq!(dmat4_to_trsf(cols), [0, 4, 8, 12, 1, 5, 9, 13, 2, 6, 10, 14]);
}

#[test]
fn trsf_round_trip() {
    let rotation = [0.0, -1.0, 0.0, 1.0, 0.0, 0.0, 0.0, 0.0, 1.0];
    let rows = dmat4_to_trsf(trsf_to_dmat4(&rotation, [5.0, 6.0, 7.0], 0.0, 1.0));
    assert_eq!(rows, [0.0, -1.0, 0.0, 5.0, 1.0, 0.0, 0.0, 6.0, 0.0, 0.0, 1.0, 7.0]);
}

#[test]
fn affine_matrix_round_trip() {
    let cols = [2, 3, 4, 0, 5, 6, 7, 0, 8, 9, 10, 0, 11, 12, 13, 1];
    let rows = dmat4_to_trsf(cols);
    let rotation = [rows[0], rows[1], rows[2], rows[4], rows[5], rows[6], rows[8], rows[9], rows[10]];
    let back = trsf_to_dmat4(&rotation, [rows[3], rows[7], rows[11]], 0, 1);
    assert_eq!(back, cols);
}

#[test]
fn shape_source_cases() {
    assert_eq!(shape_source(true, true), ShapeSource::Referred);
    assert_eq!(shape_source(true, false), ShapeSource::Own);
    assert_eq!(shape_source(false, true), ShapeSource::Own);
    assert_eq!(shape_source(false, false), ShapeSource::Own);
}

#[test]
fn step_reading_checks() {
    assert!(read_status_done(1));
    assert!(!read_status_done(0));
    assert!(!read_status_done(2));
    assert!(!read_status_done(3));
    assert!(!read_status_done(4));
    assert_eq!(step_read_check(true), Ok(()));
    assert_eq!(step_read_check(false), Err(Error::StepReadFailed));
}

#[test]
fn leaf_paths_of_empty_tree() {
    let tree = AssemblyTree::new();
    assert_eq!(tree.node_count(), 0);
    assert!(tree.leaf_paths().is_empty());
}

#[test]
fn leaf_paths_of_single_part() {
    let mut tree = AssemblyTree::new();
    let part = tree.add_node(false, Vec::new());
    tree.add_root(part);
    assert_eq!(tree.leaf_paths(), vec![vec![part]]);
}

#[test]
fn leaf_paths_depth_first_in_document_order() {
    // root (3) -> [sub (2) -> [a (0), b (1)], c (4)]; second root d (5)
    let mut tree = AssemblyTree::new();
    let a = tree.add_node(false, Vec::new());
    let b = tree.add_node(false, Vec::new());
    let sub = tree.add_node(true, vec![a, b]);
    let c = tree.add_node(false, Vec::new());
    let root = tree.add_node(true, vec![sub, c]);
    let d = tree.add_node(false, Vec::new());
    tree.add_root(root);
    tree.add_root(d);
    assert_eq!(
        tree.leaf_paths(),
        vec![vec![root, sub, a], vec![root, sub, b], vec![root, c], vec![d]]
    );
}

#[test]
fn leaf_paths_empty_assembly_contributes_nothing() {
    let mut tree = AssemblyTree::new();
    let empty = tree.add_node(true, Vec::new());
    let part = tree.add_node(false, Vec::new());
    tree.add_root(empty);
    tree.add_root(part);
    assert_eq!(tree.leaf_paths(), vec![vec![part]]);
}

#[test]
fn leaf_paths_part_children_not_visited() {
    // A node that is not an assembly is a leaf, whatever children it lists.
    let mut tree = AssemblyTree::new();
    let inner = tree.add_node(false, Vec::new());
    let part = tree.add_node(false, vec![inner]);
    tree.add_root(part);
    assert_eq!(tree.leaf_paths(), vec![vec![part]]);
}

#[test]
fn leaf_paths_shared_part_visited_per_instance() {
    let mut tree = AssemblyTree::new();
    let bolt = tree.add_node(false, Vec::new());
    let root = tree.add_node(true, vec![bolt, bolt]);
    tree.add_root(root);
    assert_eq!(tree.leaf_paths(), vec![vec![root, bolt], vec![root, bolt]]);
}
