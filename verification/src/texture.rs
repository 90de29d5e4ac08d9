//! Texture integration bridge: the caller's texture manager binds
//! textures to slots.
use vstd::prelude::*;

verus! {

/// Trait for texture manager integration.
pub trait TextureManagerTrait {
    /// Bind a texture to a slot.
    fn bind_texture(&self, texture_id: u32, slot: u32);
}

} // verus!
