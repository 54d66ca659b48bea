use opencascade::parallel::{disable_all, enable_all, ParallelSettings};

#[test]
fn mesh_parallel_off_by_default() {
    let s = ParallelSettings::default();
    assert!(!s.is_mesh_parallel());
}

#[test]
fn enable_and_disable_all() {
    let mut s = ParallelSettings::new(false);
    enable_all(&mut s);
    assert!(s.is_mesh_parallel());
    enable_all(&mut s);
    assert!(s.is_mesh_parallel());
    disable_all(&mut s);
    assert!(!s.is_mesh_parallel());
    disable_all(&mut s);
    assert!(!s.is_mesh_parallel());
}

#[test]
fn set_mesh_parallel_reads_back() {
    let mut s = ParallelSettings::new(true);
    assert!(s.is_mesh_parallel());
    s.set_mesh_parallel(false);
    assert!(!s.is_mesh_parallel());
    s.set_mesh_parallel(true);
    s.set_mesh_parallel(true);
    assert!(s.is_mesh_parallel());
}
