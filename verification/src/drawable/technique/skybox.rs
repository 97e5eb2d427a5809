use vstd::prelude::*;

use crate::resources::StaticMeshHandle;

verus! {

/// Draws the sky on a full-screen quad.
pub struct SkyboxTechnique {
    quad_handle: StaticMeshHandle,
}

impl SkyboxTechnique {
    /// The name of the render pass.
    pub const PASS_NAME: &'static str = "skybox";

    /// The framebuffer the sky is drawn into.
    pub const FRAMEBUFFER_NAME: &'static str = "shade_direct_out";

    /// The quad mesh the sky is drawn on.
    pub closed spec fn quad(&self) -> StaticMeshHandle {
        self.quad_handle
    }

    /// A sky drawn on the quad mesh `quad_handle`.
    pub fn new(quad_handle: StaticMeshHandle) -> (s: Self)
        ensures
            s.quad() == quad_handle,
    {
        SkyboxTechnique { quad_handle }
    }

    /// The quad mesh the sky is drawn on.
    pub fn quad_handle(&self) -> (h: StaticMeshHandle)
        ensures
            h == self.quad(),
    {
        self.quad_handle
    }
}

} // verus!
