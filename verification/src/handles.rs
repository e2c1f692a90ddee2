use vstd::prelude::*;

verus! {

/// Opaque handle for a mesh registered with the renderer. Obtained from
/// mesh creation; passed to entity creation and mesh destruction.
#[derive(Clone, Copy, Debug, PartialEq, Eq, Structural, Hash, PartialOrd, Ord)]
pub struct MeshHandle(pub u64);

/// Handle for a texture uploaded by the user. The inner value is the
/// shader-side descriptor slot.
#[derive(Clone, Copy, Debug, PartialEq, Eq, Structural, Hash, PartialOrd, Ord)]
pub struct TextureHandle(pub u32);

/// Identifier of a scene entity (one instance of a mesh in the scene).
#[derive(Clone, Copy, Debug, PartialEq, Eq, Structural, Hash, PartialOrd, Ord)]
pub struct EntityId(pub u64);

impl TextureHandle {
    /// The texture slot index usable as a material texture index.
    pub fn slot(&self) -> (slot: usize)
        ensures
            slot == self.0,
    {
        self.0 as usize
    }
}

} // verus!
