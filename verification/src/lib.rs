//! Verified core of a 3D renderer: spatial indexing, scene bookkeeping,
//! batching and image post-processing.
use vstd::prelude::*;

pub mod bone_channels;
pub mod config;
pub mod draw_plan;
mod fx_map;
pub mod materials;
pub mod models;
pub mod plane_instances;
pub mod render_pass;
pub mod scene;
pub mod spatial_index;
pub mod static_batch;
pub mod skinned_instancing;
pub mod sprite_batch;
pub mod texture;
pub mod uniforms;
pub mod vertex_layout;

verus! {
} // verus!
