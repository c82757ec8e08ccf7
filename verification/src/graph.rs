//! Labels of the render graph nodes of the lighting pipeline.

use vstd::prelude::*;

verus! {

/// The render graph nodes that lighting adds.
#[derive(Debug, Hash, PartialEq, Eq, Clone, Copy, Structural)]
pub enum NodePbr {
    /// Label for the shadow pass node.
    ShadowPass,
    /// Label for the screen space ambient occlusion render node.
    ScreenSpaceAmbientOcclusion,
    DeferredLightingPass,
}

} // verus!
