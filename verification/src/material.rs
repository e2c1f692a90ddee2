//! Encoding of material texture references for the GPU material layout.
use vstd::prelude::*;

verus! {

/// Sentinel stored in a texture index field to mean "no texture: fall back
/// to the scalar factor".
pub const NULL_TEXTURE_INDEX: u32 = 0xffff_ffff;

/// The GPU encoding of an optional texture slot.
pub open spec fn texture_index_value(index: Option<usize>) -> u32 {
    match index {
        Some(i) => i as u32,
        None => NULL_TEXTURE_INDEX,
    }
}

/// Encodes an optional texture slot for the GPU material: the slot itself
/// (truncated to 32 bits) when present, `NULL_TEXTURE_INDEX` when absent.
pub fn texture_index(index: Option<usize>) -> (encoded: u32)
    ensures
        encoded == texture_index_value(index),
        index is None ==> encoded == NULL_TEXTURE_INDEX,
        forall|i: usize| index == Some(i) && i < NULL_TEXTURE_INDEX ==> encoded == i,
{
    match index {
        Some(i) => i as u32,
        None => NULL_TEXTURE_INDEX,
    }
}

} // verus!
