# sunray (verified core)

The bookkeeping core of a hardware ray-tracing renderer, written in Verus:

- `src/handles.rs` — mesh, texture and entity handles.
- `src/mesh.rs` — index buffers of the built-in cube, plane and UV sphere,
  per-vertex attribute defaults, emissive triangle corners.
- `src/material.rs` — GPU encoding of optional texture slots.
- `src/keys.rs` — fresh random registry keys (`rand`).
- `src/ordered.rs` — ascending key listing of a `BTreeMap<u64, _>`.
- `src/copies.rs` — merging of queued staging copies (last copy per region).
- `src/resource_manager.rs` — the registry of entities, meshes, images,
  texture slots and the emissive indirection list, with its laws.
- `src/surface.rs` — window-system extensions and surface kinds.
- `src/frame.rs` — decisions and per-frame state of the presentation loop.
- `src/fallback.rs` — pixel data of the fallback texture.
- `src/shader.rs` — SPIR-V bytes as 32-bit words (`bytemuck`).

`app/` holds the floating-point geometry and materials and the Vulkan calls
(`ash`, `raw-window-handle`, `gltf`) built on the library.
