//! The renderer the engine drives frame by frame.
use vstd::prelude::*;

use crate::engine::config::RendererBackend;

verus! {

/// The name under which a backend is reported.
pub open spec fn backend_label(backend: RendererBackend) -> Seq<char> {
    match backend {
        RendererBackend::Vulkan => "Vulkan (wgpu)"@,
        RendererBackend::OpenGl => "OpenGL (wgpu)"@,
    }
}

#[derive(Clone, Copy, Debug)]
pub struct WgpuRenderer {
    backend: RendererBackend,
}

impl WgpuRenderer {
    pub closed spec fn spec_backend(self) -> RendererBackend {
        self.backend
    }

    pub fn new(backend: RendererBackend) -> (r: Self)
        ensures
            r.spec_backend() == backend,
    {
        WgpuRenderer { backend }
    }

    pub fn backend(&self) -> (b: RendererBackend)
        ensures
            b == self.spec_backend(),
    {
        self.backend
    }

    /// "Vulkan (wgpu)" or "OpenGL (wgpu)".
    pub fn backend_name(&self) -> (name: &'static str)
        ensures
            name@ == backend_label(self.spec_backend()),
    {
        match self.backend {
            RendererBackend::Vulkan => {
                proof {
                    reveal_strlit("Vulkan (wgpu)");
                }
                "Vulkan (wgpu)"
            },
            RendererBackend::OpenGl => {
                proof {
                    reveal_strlit("OpenGL (wgpu)");
                }
                "OpenGL (wgpu)"
            },
        }
    }
}

} // verus!
