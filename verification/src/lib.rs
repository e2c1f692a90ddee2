//! Bookkeeping core of a hardware ray-tracing renderer: handles, mesh
//! topology, material texture indices and the resource registry that maps
//! entities, meshes, images and texture slots to the GPU objects behind them.

mod handles;
pub mod mesh;
pub mod material;
pub mod keys;
pub mod ordered;
pub mod copies;
pub mod resource_manager;
pub mod surface;
pub mod frame;
pub mod shader;
pub mod fallback;

pub use handles::{EntityId, MeshHandle, TextureHandle};
