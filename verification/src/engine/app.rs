//! The engine: a configuration and the renderer built from it.
use vstd::prelude::*;

use crate::engine::config::EngineConfig;
use crate::engine::render::WgpuRenderer;

verus! {

#[derive(Clone, Debug)]
pub struct Engine {
    config: EngineConfig,
    renderer: WgpuRenderer,
}

impl Engine {
    pub closed spec fn spec_config(self) -> EngineConfig {
        self.config
    }

    pub closed spec fn spec_renderer(self) -> WgpuRenderer {
        self.renderer
    }

    /// An engine whose renderer runs on the configured backend.
    pub fn new(config: EngineConfig) -> (e: Self)
        ensures
            e.spec_config() == config,
            e.spec_renderer().spec_backend() == config.renderer,
    {
        let renderer = WgpuRenderer::new(config.renderer);
        Engine { config, renderer }
    }

    pub fn config(&self) -> (c: &EngineConfig)
        ensures
            *c == self.spec_config(),
    {
        &self.config
    }

    pub fn renderer(&self) -> (r: &WgpuRenderer)
        ensures
            *r == self.spec_renderer(),
    {
        &self.renderer
    }
}

} // verus!
