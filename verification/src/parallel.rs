//! Global parallel processing settings for OpenCASCADE operations.
//!
//! OCCT can run several operations on its own thread pool.  The settings
//! are held in a `ParallelSettings` value; the process-wide OCCT switch is
//! set from it.
//!
//! Affected operations:
//! - meshing (`BRepMesh_IncrementalMesh`): triangulation for visualization
//!   and export;
//! - distance computation (`BRepExtrema_DistShapeShape`): parallel by default.
use vstd::prelude::*;

verus! {

/// The parallel processing switches.
pub struct ParallelSettings {
    mesh: bool,
}

impl View for ParallelSettings {
    /// Whether meshing runs in parallel.
    type V = bool;

    closed spec fn view(&self) -> bool {
        self.mesh
    }
}

impl Default for ParallelSettings {
    /// The settings OCCT starts with: parallel meshing is off.
    fn default() -> (s: ParallelSettings)
        ensures
            s@ == false,
    {
        ParallelSettings { mesh: false }
    }
}

impl ParallelSettings {
    /// Settings with parallel meshing on or off as given (for instance as
    /// read back from OCCT).
    pub fn new(mesh_parallel: bool) -> (s: ParallelSettings)
        ensures
            s@ == mesh_parallel,
    {
        ParallelSettings { mesh: mesh_parallel }
    }

    /// Enable or disable parallel processing for meshing operations.
    ///
    /// When enabled, `BRepMesh_IncrementalMesh` uses multiple threads to
    /// triangulate faces in parallel.
    pub fn set_mesh_parallel(&mut self, enabled: bool)
        ensures
            final(self)@ == enabled,
    {
        self.mesh = enabled;
    }

    /// Whether parallel meshing is enabled.
    pub fn is_mesh_parallel(&self) -> (r: bool)
        ensures
            r == self@,
    {
        self.mesh
    }
}

/// Enable parallel processing for all supported operations (meshing;
/// distance computation is parallel already).
pub fn enable_all(settings: &mut ParallelSettings)
    ensures
        final(settings)@ == true,
{
    settings.set_mesh_parallel(true);
}

/// Disable parallel processing for all operations, for instance when OCCT
/// is already driven from several threads.
pub fn disable_all(settings: &mut ParallelSettings)
    ensures
        final(settings)@ == false,
{
    settings.set_mesh_parallel(false);
}

} // verus!
