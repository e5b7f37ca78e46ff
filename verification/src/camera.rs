//! What the host's camera is allowed to do.

use vstd::prelude::*;

verus! {

/// Which parts of the camera handling are switched on.
#[derive(Debug, Clone, Copy, PartialEq, Eq, Structural)]
pub struct CameraConfig {
    pub enable_camera: bool,
    pub enable_pancam: bool,
}

impl Default for CameraConfig {
    /// Everything switched on.
    fn default() -> (config: Self)
        ensures
            config == (CameraConfig { enable_camera: true, enable_pancam: true }),
    {
        CameraConfig { enable_camera: true, enable_pancam: true }
    }
}

} // verus!
