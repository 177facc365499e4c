//! Bookkeeping core of a gfx-based rendering backend for an immediate-mode
//! GUI: allocation of texture slots with their 1-based ids, and planning of
//! the draw calls that a frame's command list asks for.
//!
//! The GPU work itself (buffer uploads, pipeline state, the draw calls) is
//! done by the host application through its graphics library; this crate
//! proves the decisions that drive it.

use vstd::prelude::*;

pub mod commands;
pub mod textures;

verus! {

/// Shading language that the host application compiled its pipeline for.
pub enum GfxBackend {
    OpenGlsl150,
    DX11Hlsl,
}

} // verus!
