//! Engine configuration.
use vstd::prelude::*;

verus! {

/// Which graphics API the renderer runs on.
#[derive(Clone, Copy, Debug, PartialEq, Eq, Structural)]
pub enum RendererBackend {
    Vulkan,
    OpenGl,
}

#[derive(Clone, Debug)]
pub struct EngineConfig {
    pub app_name: String,
    pub renderer: RendererBackend,
    pub target_fps: u32,
}

impl Default for EngineConfig {
    /// "MaxEngine" on Vulkan at 60 frames per second.
    fn default() -> (c: Self)
        ensures
            c.app_name@ == "MaxEngine"@,
            c.renderer == RendererBackend::Vulkan,
            c.target_fps == 60,
    {
        EngineConfig {
            app_name: "MaxEngine".to_owned(),
            renderer: RendererBackend::Vulkan,
            target_fps: 60,
        }
    }
}

} // verus!
