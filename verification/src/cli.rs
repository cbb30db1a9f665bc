//! The argument set a render run is configured with.

use vstd::prelude::*;

use crate::render::RenderMode;

verus! {

/// What a caller supplies for one run: the mesh path, the output path for
/// batch rendering, the target size, the interactive flag and the render
/// mode.
#[derive(Debug)]
pub struct RendererArgs {
    pub model: String,
    pub out: Option<String>,
    pub width: u32,
    pub height: u32,
    pub interactive: bool,
    pub mode: RenderMode,
}

} // verus!
