//! The registry behind the renderer's scene: entities (mesh instances with a
//! transform and a material), meshes (bottom-level acceleration structures),
//! owned images, the descriptor table of texture slots, the emissive-triangle
//! indirection list and the queue of pending staging copies.
//!
//! GPU objects are not held here: the registry keeps the plain values its
//! decisions read (raw Vulkan handles, device addresses, arena slots) and the
//! caller performs the uploads the registry asks for.
use std::collections::BTreeMap;
use vstd::prelude::*;

use crate::copies::{keep_last, last_copy_per_target, BufferCopy};
use crate::handles::{EntityId, MeshHandle, TextureHandle};
use crate::keys::generate;
use crate::ordered::{key_listing, sorted_keys};

verus! {

/// Size of the descriptor table of texture slots.
pub const NUMBER_OF_SAMPLERS: usize = 1024;

/// A sampler and an image view bound together in a texture slot (raw Vulkan
/// handles).
#[derive(Clone, Copy, Debug, PartialEq, Eq, Structural)]
pub struct TextureBinding {
    pub sampler: u64,
    pub image_view: u64,
}

/// A texture of a loaded scene: its sampler (an index into the scene's
/// samplers, or `None` for the default sampler) and its source image (an
/// index into the scene's images).
#[derive(Clone, Copy, Debug, PartialEq, Eq, Structural)]
pub struct SceneTexture {
    pub sampler: Option<usize>,
    pub source: usize,
}

/// One entity of a loaded scene: the index of its mesh among the scene's
/// meshes, its material and transform, the arena slot its GPU data was
/// placed in, and the staging copies of its GPU record and its transform.
#[derive(Clone, Copy, Debug)]
pub struct SceneInstance<X, M> {
    pub blas: usize,
    pub material: M,
    pub transform: X,
    pub slot: u64,
    pub entity_copy: BufferCopy,
    pub transform_copy: BufferCopy,
}

/// CPU-side record of an entity: the mesh it instances, its transform, its
/// material and the arena slot of its GPU data (also its instance index in
/// the top-level acceleration structure).
#[derive(Clone, Copy, Debug)]
pub struct Entity<X, M> {
    pub id: EntityId,
    pub blas_index: u64,
    pub transform: X,
    pub material: M,
    pub blas_instance_index: u64,
}

/// What the registry knows of a mesh's bottom-level acceleration structure:
/// the device addresses of its vertex and index buffers and the half-open
/// slot ranges of its emissive triangles.
#[derive(Clone, Debug)]
pub struct BlasRecord {
    pub vertex_buffer_address: u64,
    pub index_buffer_address: u64,
    pub emissive_triangle_ranges: Vec<(u32, u32)>,
}

/// The per-entity GPU record: the mesh's buffer addresses and the material.
#[derive(Clone, Copy, Debug)]
pub struct EntityGpuData<M> {
    pub vertex_buffer: u64,
    pub index_buffer: u64,
    pub material: M,
}

/// One entry of the emissive indirection buffer sampled by next-event
/// estimation: an emissive triangle slot and the arena slot of the entity
/// that instances it (truncated to 32 bits).
#[derive(Clone, Copy, Debug, PartialEq, Eq, Structural)]
pub struct EmissiveIndirectionEntry {
    pub blas_tri_index: u32,
    pub entity_id: u32,
}

/// Errors of the registry.
#[derive(Clone, Copy, Debug, PartialEq, Eq, Structural)]
pub enum ResourceError {
    /// Every user texture slot is taken.
    TextureSlotsExhausted,
    /// No entity has the given id.
    NoEntity(u64),
}

/// The entry the indirection buffer holds when nothing is emissive, so that
/// the buffer is never empty.
pub open spec fn dummy_indirection_entry() -> EmissiveIndirectionEntry {
    EmissiveIndirectionEntry { blas_tri_index: 0, entity_id: 0 }
}

/// The entries of one emissive slot range `lo..hi` for an entity in `slot`.
pub open spec fn range_entries(range: (u32, u32), slot: u32) -> Seq<EmissiveIndirectionEntry> {
    if range.0 < range.1 {
        Seq::new(
            (range.1 - range.0) as nat,
            |k: int| EmissiveIndirectionEntry { blas_tri_index: (range.0 + k) as u32, entity_id: slot },
        )
    } else {
        Seq::empty()
    }
}

/// The entries of a list of emissive ranges, range after range.
pub open spec fn ranges_entries(ranges: Seq<(u32, u32)>, slot: u32) -> Seq<EmissiveIndirectionEntry>
    decreases ranges.len(),
{
    if ranges.len() == 0 {
        Seq::empty()
    } else {
        ranges_entries(ranges.drop_last(), slot) + range_entries(ranges.last(), slot)
    }
}

/// The entries of one entity: its mesh's emissive ranges, tagged with the
/// entity's arena slot.
pub open spec fn entity_entries<X, M>(e: Entity<X, M>, blases: Map<u64, BlasRecord>) -> Seq<
    EmissiveIndirectionEntry,
> {
    ranges_entries(blases[e.blas_index].emissive_triangle_ranges@, e.blas_instance_index as u32)
}

/// The entries of the entities listed in `ids`, entity after entity.
pub open spec fn entities_entries<X, M>(
    ids: Seq<u64>,
    entities: Map<u64, Entity<X, M>>,
    blases: Map<u64, BlasRecord>,
) -> Seq<EmissiveIndirectionEntry>
    decreases ids.len(),
{
    if ids.len() == 0 {
        Seq::empty()
    } else {
        entities_entries(ids.drop_last(), entities, blases) + entity_entries(
            entities[ids.last()],
            blases,
        )
    }
}

/// The emissive indirection list: for every entity in increasing id order,
/// every emissive triangle slot of its mesh; a single dummy entry when that
/// is empty.
pub open spec fn indirection_entries<X, M>(
    entities: Map<u64, Entity<X, M>>,
    blases: Map<u64, BlasRecord>,
) -> Seq<EmissiveIndirectionEntry> {
    let e = entities_entries(key_listing(entities.dom()), entities, blases);
    if e.len() == 0 {
        seq![dummy_indirection_entry()]
    } else {
        e
    }
}

/// The GPU record of an entity instancing `blas` with `material`.
pub open spec fn gpu_data_of<M>(blas: BlasRecord, material: M) -> EntityGpuData<M> {
    EntityGpuData {
        vertex_buffer: blas.vertex_buffer_address,
        index_buffer: blas.index_buffer_address,
        material,
    }
}

/// The binding a scene texture resolves to.
pub open spec fn scene_binding(
    t: SceneTexture,
    image_views: Seq<u64>,
    samplers: Seq<u64>,
    default_sampler: u64,
) -> TextureBinding {
    TextureBinding {
        sampler: match t.sampler {
            Some(i) => samplers[i as int],
            None => default_sampler,
        },
        image_view: image_views[t.source as int],
    }
}

/// Whether every scene texture names an existing sampler and image.
pub open spec fn scene_textures_valid(
    textures: Seq<SceneTexture>,
    image_count: int,
    sampler_count: int,
) -> bool {
    forall|i: int|
        0 <= i < textures.len() ==> {
            &&& (#[trigger] textures[i]).source < image_count
            &&& textures[i].sampler matches Some(s) ==> s < sampler_count
        }
}

/// The slot the next user texture gets after `slot` was handed out: one
/// lower, stopping at zero.
pub open spec fn next_slot_after(slot: u32) -> u32 {
    if slot > 0 {
        (slot - 1) as u32
    } else {
        0
    }
}

/// Whether `new` is `old` with the fresh, pairwise distinct keys `keys`
/// added, mapped to `vals` in order, and nothing else changed.
pub open spec fn fresh_entries<V>(old: Map<u64, V>, new: Map<u64, V>, keys: Seq<u64>, vals: Seq<V>) -> bool {
    &&& keys.len() == vals.len()
    &&& forall|i: int| 0 <= i < keys.len() ==> !old.contains_key(#[trigger] keys[i])
    &&& forall|i: int, j: int| 0 <= i < j < keys.len() ==> keys[i] != keys[j]
    &&& forall|i: int|
        0 <= i < keys.len() ==> new.contains_key(#[trigger] keys[i]) && new[keys[i]] == vals[i]
    &&& forall|k: u64| #[trigger] new.contains_key(k) <==> (old.contains_key(k) || keys.contains(k))
    &&& forall|k: u64| #[trigger] old.contains_key(k) ==> new[k] == old[k]
}

/// The record of scene entity `inst` registered under `id`, its mesh being
/// the scene mesh registered under `mesh_ids[inst.blas]`.
pub open spec fn scene_entity<X, M>(inst: SceneInstance<X, M>, id: EntityId, mesh_ids: Seq<u64>) -> Entity<
    X,
    M,
> {
    Entity {
        id,
        blas_index: mesh_ids[inst.blas as int],
        transform: inst.transform,
        material: inst.material,
        blas_instance_index: inst.slot,
    }
}

/// The instance map after the scene entities `insts` were registered under
/// `ids`, one after the other.
pub open spec fn scene_instance_map<X, M>(
    m: Map<u64, u64>,
    insts: Seq<SceneInstance<X, M>>,
    ids: Seq<EntityId>,
) -> Map<u64, u64>
    decreases insts.len(),
{
    if insts.len() == 0 {
        m
    } else {
        scene_instance_map(m, insts.drop_last(), ids.drop_last()).insert(
            insts.last().slot,
            ids[insts.len() - 1].0,
        )
    }
}

/// The staging copies the scene entities queue: for each, its GPU record's
/// copy and then its transform's.
pub open spec fn scene_instance_copies<X, M>(insts: Seq<SceneInstance<X, M>>) -> Seq<BufferCopy>
    decreases insts.len(),
{
    if insts.len() == 0 {
        Seq::empty()
    } else {
        scene_instance_copies(insts.drop_last()) + seq![
            insts.last().entity_copy,
            insts.last().transform_copy,
        ]
    }
}

/// The registry. `X` is the transform type and `M` the material type the
/// entities carry; the registry stores and hands them back unchanged.
pub struct ResourceManager<X, M> {
    entity_data: BTreeMap<u64, Entity<X, M>>,
    instance_to_entity: BTreeMap<u64, u64>,
    blases: BTreeMap<u64, BlasRecord>,
    textures: Vec<TextureBinding>,
    images: BTreeMap<u64, u64>,
    user_texture_samplers: BTreeMap<u32, u64>,
    user_texture_images: BTreeMap<u32, u64>,
    next_user_texture_slot: u32,
    user_slots_exhausted: bool,
    fallback_texture: TextureBinding,
    default_sampler: u64,
    buffer_copies_queued: Vec<BufferCopy>,
    emissive_indirection: Vec<EmissiveIndirectionEntry>,
}

impl<X: Copy, M: Copy> ResourceManager<X, M> {
    /// Entities by id.
    pub closed spec fn entities(&self) -> Map<u64, Entity<X, M>> {
        self.entity_data@
    }

    /// Entity id by instance index (arena slot).
    pub closed spec fn instances(&self) -> Map<u64, u64> {
        self.instance_to_entity@
    }

    /// Meshes by id.
    pub closed spec fn meshes(&self) -> Map<u64, BlasRecord> {
        self.blases@
    }

    /// The texture slot table.
    pub closed spec fn texture_table(&self) -> Seq<TextureBinding> {
        self.textures@
    }

    /// Owned images: image view by image id.
    pub closed spec fn images(&self) -> Map<u64, u64> {
        self.images@
    }

    /// User texture slots: their samplers.
    pub closed spec fn user_samplers(&self) -> Map<u32, u64> {
        self.user_texture_samplers@
    }

    /// User texture slots: the ids of their images.
    pub closed spec fn user_images(&self) -> Map<u32, u64> {
        self.user_texture_images@
    }

    /// The slot the next user texture gets.
    pub closed spec fn next_texture_slot(&self) -> u32 {
        self.next_user_texture_slot
    }

    /// Whether slot zero, the last user slot, has been handed out.
    pub closed spec fn slots_exhausted(&self) -> bool {
        self.user_slots_exhausted
    }

    /// Every slot ever handed out to a user texture: the slots above the
    /// next one, and slot zero too once it has been handed out.
    pub open spec fn handed_out_slots(&self) -> Set<u32> {
        Set::new(
            |s: u32|
                s < NUMBER_OF_SAMPLERS && (s > self.next_texture_slot() || self.slots_exhausted()),
        )
    }

    /// The binding of a slot with no texture.
    pub closed spec fn fallback(&self) -> TextureBinding {
        self.fallback_texture
    }

    /// The sampler of scene textures that name none.
    pub closed spec fn default_sampler_handle(&self) -> u64 {
        self.default_sampler
    }

    /// Copies queued since the last start of frame.
    pub closed spec fn pending_copies(&self) -> Seq<BufferCopy> {
        self.buffer_copies_queued@
    }

    /// The emissive indirection list last built.
    pub closed spec fn indirection(&self) -> Seq<EmissiveIndirectionEntry> {
        self.emissive_indirection@
    }

    /// Well-formedness: the slot table has its full size; user slots are in
    /// the table, have both a sampler and an image, and are among the slots
    /// handed out (those above the next free slot, and slot zero once it was
    /// handed out);
    /// each entity is stored under its own id; the indirection list is
    /// never empty.
    pub closed spec fn wf(&self) -> bool {
        &&& self.textures@.len() == NUMBER_OF_SAMPLERS
        &&& self.next_user_texture_slot < NUMBER_OF_SAMPLERS
        &&& self.user_texture_samplers@.dom() == self.user_texture_images@.dom()
        &&& forall|s: u32| #[trigger]
            self.user_texture_samplers@.contains_key(s) ==> s < NUMBER_OF_SAMPLERS && (s
                > self.next_user_texture_slot || self.user_slots_exhausted)
        &&& self.user_slots_exhausted ==> self.next_user_texture_slot == 0
        &&& forall|k: u64| #[trigger]
            self.entity_data@.contains_key(k) ==> self.entity_data@[k].id.0 == k
        &&& self.emissive_indirection@.len() >= 1
    }

    /// Whether every entity's mesh is registered.
    pub open spec fn meshes_cover_entities(&self) -> bool {
        forall|k: u64| #[trigger]
            self.entities().contains_key(k) ==> self.meshes().contains_key(
                self.entities()[k].blas_index,
            )
    }

    /// The binding user slot `slot` imposes on the table, if its image is
    /// still owned.
    pub open spec fn user_binding(&self, slot: u32) -> Option<TextureBinding> {
        if self.user_samplers().contains_key(slot) && self.user_images().contains_key(slot)
            && self.images().contains_key(self.user_images()[slot]) {
            Some(
                TextureBinding {
                    sampler: self.user_samplers()[slot],
                    image_view: self.images()[self.user_images()[slot]],
                },
            )
        } else {
            None
        }
    }

    /// An empty registry: no entities, meshes or images, every texture slot
    /// bound to the fallback texture, user slots handed out from the top of
    /// the table down, and the indirection list holding its dummy entry.
    pub fn new_empty(fallback_texture: TextureBinding, default_sampler: u64) -> (rm: Self)
        ensures
            rm.wf(),
            rm.entities() == Map::<u64, Entity<X, M>>::empty(),
            rm.instances() == Map::<u64, u64>::empty(),
            rm.meshes() == Map::<u64, BlasRecord>::empty(),
            rm.images() == Map::<u64, u64>::empty(),
            rm.user_samplers() == Map::<u32, u64>::empty(),
            rm.user_images() == Map::<u32, u64>::empty(),
            rm.next_texture_slot() == NUMBER_OF_SAMPLERS - 1,
            !rm.slots_exhausted(),
            rm.fallback() == fallback_texture,
            rm.default_sampler_handle() == default_sampler,
            rm.texture_table() == Seq::new(NUMBER_OF_SAMPLERS as nat, |i: int| fallback_texture),
            rm.pending_copies() == Seq::<BufferCopy>::empty(),
            rm.indirection() == seq![dummy_indirection_entry()],
    {
        let mut textures: Vec<TextureBinding> = Vec::new();
        let mut i: usize = 0;
        while i < NUMBER_OF_SAMPLERS
            invariant
                i <= NUMBER_OF_SAMPLERS,
                textures@ == Seq::new(i as nat, |k: int| fallback_texture),
            decreases NUMBER_OF_SAMPLERS - i,
        {
            textures.push(fallback_texture);
            i = i + 1;
            assert(textures@ =~= Seq::new(i as nat, |k: int| fallback_texture));
        }
        let mut indirection: Vec<EmissiveIndirectionEntry> = Vec::new();
        indirection.push(EmissiveIndirectionEntry { blas_tri_index: 0, entity_id: 0 });
        let rm = ResourceManager {
            entity_data: BTreeMap::new(),
            instance_to_entity: BTreeMap::new(),
            blases: BTreeMap::new(),
            textures,
            images: BTreeMap::new(),
            user_texture_samplers: BTreeMap::new(),
            user_texture_images: BTreeMap::new(),
            next_user_texture_slot: (NUMBER_OF_SAMPLERS - 1) as u32,
            user_slots_exhausted: false,
            fallback_texture,
            default_sampler,
            buffer_copies_queued: Vec::new(),
            emissive_indirection: indirection,
        };
        assert(rm.indirection() =~= seq![dummy_indirection_entry()]);
        rm
    }

    /// Discards everything and starts over with new fallback and default
    /// samplers, as `new_empty` does.
    pub fn empty_out(self, fallback_texture: TextureBinding, default_sampler: u64) -> (rm: Self)
        ensures
            rm.wf(),
            rm.entities() == Map::<u64, Entity<X, M>>::empty(),
            rm.instances() == Map::<u64, u64>::empty(),
            rm.meshes() == Map::<u64, BlasRecord>::empty(),
            rm.images() == Map::<u64, u64>::empty(),
            rm.user_samplers() == Map::<u32, u64>::empty(),
            rm.user_images() == Map::<u32, u64>::empty(),
            rm.next_texture_slot() == NUMBER_OF_SAMPLERS - 1,
            !rm.slots_exhausted(),
            rm.fallback() == fallback_texture,
            rm.default_sampler_handle() == default_sampler,
            rm.texture_table() == Seq::new(NUMBER_OF_SAMPLERS as nat, |i: int| fallback_texture),
            rm.pending_copies() == Seq::<BufferCopy>::empty(),
            rm.indirection() == seq![dummy_indirection_entry()],
    {
        Self::new_empty(fallback_texture, default_sampler)
    }

    /// Takes the queued copies for submission at the start of a frame: the
    /// last copy into each destination region, in queue order. The queue is
    /// left empty.
    pub fn start_of_frame(&mut self) -> (copies: Vec<BufferCopy>)
        requires
            old(self).wf(),
        ensures
            final(self).wf(),
            copies@ == keep_last(old(self).pending_copies()),
            final(self).pending_copies() == Seq::<BufferCopy>::empty(),
            final(self).entities() == old(self).entities(),
            final(self).instances() == old(self).instances(),
            final(self).meshes() == old(self).meshes(),
            final(self).texture_table() == old(self).texture_table(),
            final(self).images() == old(self).images(),
            final(self).user_samplers() == old(self).user_samplers(),
            final(self).user_images() == old(self).user_images(),
            final(self).next_texture_slot() == old(self).next_texture_slot(),
            final(self).slots_exhausted() == old(self).slots_exhausted(),
            final(self).fallback() == old(self).fallback(),
            final(self).default_sampler_handle() == old(self).default_sampler_handle(),
            final(self).indirection() == old(self).indirection(),
    {
        if self.buffer_copies_queued.len() == 0 {
            assert(keep_last(self.buffer_copies_queued@) =~= Seq::<BufferCopy>::empty());
            return Vec::new();
        }
        let copies = last_copy_per_target(&self.buffer_copies_queued);
        self.buffer_copies_queued = Vec::new();
        copies
    }

    /// Queues a staging copy for the next start of frame.
    pub fn copy_commands_queue(&mut self, copy: BufferCopy)
        requires
            old(self).wf(),
        ensures
            final(self).wf(),
            final(self).pending_copies() == old(self).pending_copies().push(copy),
            final(self).entities() == old(self).entities(),
            final(self).instances() == old(self).instances(),
            final(self).meshes() == old(self).meshes(),
            final(self).texture_table() == old(self).texture_table(),
            final(self).images() == old(self).images(),
            final(self).user_samplers() == old(self).user_samplers(),
            final(self).user_images() == old(self).user_images(),
            final(self).next_texture_slot() == old(self).next_texture_slot(),
            final(self).slots_exhausted() == old(self).slots_exhausted(),
            final(self).fallback() == old(self).fallback(),
            final(self).default_sampler_handle() == old(self).default_sampler_handle(),
            final(self).indirection() == old(self).indirection(),
    {
        self.buffer_copies_queued.push(copy);
    }

    /// The GPU record of an entity instancing `blas` with `material`.
    pub fn build_entity_gpu_data(blas: &BlasRecord, material: M) -> (data: EntityGpuData<M>)
        ensures
            data == gpu_data_of(*blas, material),
    {
        EntityGpuData {
            vertex_buffer: blas.vertex_buffer_address,
            index_buffer: blas.index_buffer_address,
            material,
        }
    }

    /// The GPU record of an entity instancing mesh `blas_index` with
    /// `material`; the mesh must be registered.
    pub fn entity_gpu_data(&self, blas_index: u64, material: M) -> (data: EntityGpuData<M>)
        requires
            self.meshes().contains_key(blas_index),
        ensures
            data == gpu_data_of(self.meshes()[blas_index], material),
    {
        let blas = self.blases.get(&blas_index).unwrap();
        Self::build_entity_gpu_data(blas, material)
    }

    /// A fresh entity id: one that no entity has.
    pub fn new_entity_id(&self) -> (id: EntityId)
        ensures
            !self.entities().contains_key(id.0),
    {
        EntityId(generate(&self.entity_data))
    }

    /// Registers an entity under the fresh id `id`, instancing the registered
    /// mesh `blas_index`, whose GPU data was placed in arena slot `slot`. The
    /// slot becomes the entity's instance index. The staging copies of the
    /// entity's GPU record (`entity_copy`) and of its transform
    /// (`transform_copy`) are queued for the next start of frame.
    pub fn create_entity(
        &mut self,
        id: EntityId,
        blas_index: u64,
        material: M,
        transform: X,
        slot: u64,
        entity_copy: BufferCopy,
        transform_copy: BufferCopy,
    ) -> (created: EntityId)
        requires
            old(self).wf(),
            !old(self).entities().contains_key(id.0),
            old(self).meshes().contains_key(blas_index),
        ensures
            final(self).wf(),
            created == id,
            final(self).entities() == old(self).entities().insert(
                id.0,
                Entity { id, blas_index, transform, material, blas_instance_index: slot },
            ),
            final(self).instances() == old(self).instances().insert(slot, id.0),
            final(self).meshes() == old(self).meshes(),
            final(self).texture_table() == old(self).texture_table(),
            final(self).images() == old(self).images(),
            final(self).user_samplers() == old(self).user_samplers(),
            final(self).user_images() == old(self).user_images(),
            final(self).next_texture_slot() == old(self).next_texture_slot(),
            final(self).slots_exhausted() == old(self).slots_exhausted(),
            final(self).fallback() == old(self).fallback(),
            final(self).default_sampler_handle() == old(self).default_sampler_handle(),
            final(self).pending_copies() == old(self).pending_copies().push(entity_copy).push(
                transform_copy,
            ),
            final(self).indirection() == old(self).indirection(),
    {
        let entity = Entity { id, blas_index, transform, material, blas_instance_index: slot };
        self.copy_commands_queue(entity_copy);
        self.copy_commands_queue(transform_copy);
        self.instance_to_entity.insert(slot, id.0);
        self.entity_data.insert(id.0, entity);
        id
    }

    /// Registers an entity under the fresh id `id` that shares the mesh and
    /// material of entity `src` but has its own transform; its GPU data was
    /// placed in arena slot `slot`, and the staging copies of its GPU record
    /// and transform are queued. Fails, changing nothing, when `src` is not an
    /// entity.
    pub fn clone_entity(
        &mut self,
        src: EntityId,
        id: EntityId,
        transform: X,
        slot: u64,
        entity_copy: BufferCopy,
        transform_copy: BufferCopy,
    ) -> (result: Result<EntityId, ResourceError>)
        requires
            old(self).wf(),
            !old(self).entities().contains_key(id.0),
            old(self).meshes_cover_entities(),
        ensures
            final(self).wf(),
            !old(self).entities().contains_key(src.0) ==> result == Err::<EntityId, ResourceError>(
                ResourceError::NoEntity(src.0),
            ) && final(self).entities() == old(self).entities() && final(self).instances()
                == old(self).instances() && final(self).pending_copies() == old(
                self,
            ).pending_copies(),
            old(self).entities().contains_key(src.0) ==> {
                let s = old(self).entities()[src.0];
                &&& result == Ok::<EntityId, ResourceError>(id)
                &&& final(self).entities() == old(self).entities().insert(
                    id.0,
                    Entity {
                        id,
                        blas_index: s.blas_index,
                        transform,
                        material: s.material,
                        blas_instance_index: slot,
                    },
                )
                &&& final(self).instances() == old(self).instances().insert(slot, id.0)
                &&& final(self).pending_copies() == old(self).pending_copies().push(
                    entity_copy,
                ).push(transform_copy)
            },
            final(self).meshes() == old(self).meshes(),
            final(self).texture_table() == old(self).texture_table(),
            final(self).images() == old(self).images(),
            final(self).user_samplers() == old(self).user_samplers(),
            final(self).user_images() == old(self).user_images(),
            final(self).next_texture_slot() == old(self).next_texture_slot(),
            final(self).slots_exhausted() == old(self).slots_exhausted(),
            final(self).fallback() == old(self).fallback(),
            final(self).default_sampler_handle() == old(self).default_sampler_handle(),
            final(self).indirection() == old(self).indirection(),
    {
        let (blas_index, material) = match self.entity_data.get(&src.0) {
            Some(e) => (e.blas_index, e.material),
            None => {
                return Err(ResourceError::NoEntity(src.0));
            },
        };
        let created = self.create_entity(
            id,
            blas_index,
            material,
            transform,
            slot,
            entity_copy,
            transform_copy,
        );
        Ok(created)
    }

    /// Removes an entity and its instance index, handing back its record so
    /// the caller can free its arena slots. An id that is no entity changes
    /// nothing.
    pub fn destroy_entity(&mut self, id: EntityId) -> (removed: Option<Entity<X, M>>)
        requires
            old(self).wf(),
        ensures
            final(self).wf(),
            old(self).entities().contains_key(id.0) ==> {
                let e = old(self).entities()[id.0];
                &&& removed == Some(e)
                &&& final(self).entities() == old(self).entities().remove(id.0)
                &&& final(self).instances() == old(self).instances().remove(e.blas_instance_index)
            },
            !old(self).entities().contains_key(id.0) ==> removed is None && final(self).entities()
                == old(self).entities() && final(self).instances() == old(self).instances(),
            final(self).meshes() == old(self).meshes(),
            final(self).texture_table() == old(self).texture_table(),
            final(self).images() == old(self).images(),
            final(self).user_samplers() == old(self).user_samplers(),
            final(self).user_images() == old(self).user_images(),
            final(self).next_texture_slot() == old(self).next_texture_slot(),
            final(self).slots_exhausted() == old(self).slots_exhausted(),
            final(self).fallback() == old(self).fallback(),
            final(self).default_sampler_handle() == old(self).default_sampler_handle(),
            final(self).pending_copies() == old(self).pending_copies(),
            final(self).indirection() == old(self).indirection(),
    {
        match self.entity_data.remove(&id.0) {
            Some(entity) => {
                self.instance_to_entity.remove(&entity.blas_instance_index);
                Some(entity)
            },
            None => None,
        }
    }

    /// Replaces an entity's transform and queues `copy`, the staging copy of
    /// the new transform into the entity's slot; reports whether `id` is an
    /// entity. An id that is no entity changes nothing.
    pub fn set_entity_transform(&mut self, id: EntityId, transform: X, copy: BufferCopy) -> (found:
        bool)
        requires
            old(self).wf(),
        ensures
            final(self).wf(),
            found == old(self).entities().contains_key(id.0),
            found ==> final(self).entities() == old(self).entities().insert(
                id.0,
                Entity { transform, ..old(self).entities()[id.0] },
            ),
            !found ==> final(self).entities() == old(self).entities(),
            final(self).instances() == old(self).instances(),
            final(self).meshes() == old(self).meshes(),
            final(self).texture_table() == old(self).texture_table(),
            final(self).images() == old(self).images(),
            final(self).user_samplers() == old(self).user_samplers(),
            final(self).user_images() == old(self).user_images(),
            final(self).next_texture_slot() == old(self).next_texture_slot(),
            final(self).slots_exhausted() == old(self).slots_exhausted(),
            final(self).fallback() == old(self).fallback(),
            final(self).default_sampler_handle() == old(self).default_sampler_handle(),
            found ==> final(self).pending_copies() == old(self).pending_copies().push(copy),
            !found ==> final(self).pending_copies() == old(self).pending_copies(),
            final(self).indirection() == old(self).indirection(),
    {
        match self.entity_data.get(&id.0) {
            Some(e) => {
                let updated = Entity { transform, ..*e };
                self.entity_data.insert(id.0, updated);
                self.copy_commands_queue(copy);
                true
            },
            None => false,
        }
    }

    /// Replaces an entity's material (mesh and transform unchanged), queues
    /// `copy`, the staging copy of the entity's new GPU record into its slot,
    /// and hands back that record. An id that is no entity changes nothing
    /// and gives `None`.
    pub fn set_entity_material(&mut self, id: EntityId, material: M, copy: BufferCopy) -> (data:
        Option<EntityGpuData<M>>)
        requires
            old(self).wf(),
            old(self).meshes_cover_entities(),
        ensures
            final(self).wf(),
            final(self).meshes_cover_entities(),
            old(self).entities().contains_key(id.0) ==> {
                let e = old(self).entities()[id.0];
                &&& data == Some(gpu_data_of(old(self).meshes()[e.blas_index], material))
                &&& final(self).entities() == old(self).entities().insert(
                    id.0,
                    Entity { material, ..e },
                )
                &&& final(self).pending_copies() == old(self).pending_copies().push(copy)
            },
            !old(self).entities().contains_key(id.0) ==> data is None && final(self).entities()
                == old(self).entities() && final(self).pending_copies() == old(
                self,
            ).pending_copies(),
            final(self).instances() == old(self).instances(),
            final(self).meshes() == old(self).meshes(),
            final(self).texture_table() == old(self).texture_table(),
            final(self).images() == old(self).images(),
            final(self).user_samplers() == old(self).user_samplers(),
            final(self).user_images() == old(self).user_images(),
            final(self).next_texture_slot() == old(self).next_texture_slot(),
            final(self).slots_exhausted() == old(self).slots_exhausted(),
            final(self).fallback() == old(self).fallback(),
            final(self).default_sampler_handle() == old(self).default_sampler_handle(),
            final(self).indirection() == old(self).indirection(),
    {
        let e = match self.entity_data.get(&id.0) {
            Some(e) => *e,
            None => {
                return None;
            },
        };
        let updated = Entity { material, ..e };
        self.entity_data.insert(id.0, updated);
        self.copy_commands_queue(copy);
        let blas = self.blases.get(&e.blas_index).unwrap();
        Some(Self::build_entity_gpu_data(blas, material))
    }

    /// The record of entity `id`, if there is one.
    pub fn get_entity(&self, id: EntityId) -> (entity: Option<&Entity<X, M>>)
        ensures
            self.entities().contains_key(id.0) ==> entity == Some(&self.entities()[id.0]),
            !self.entities().contains_key(id.0) ==> entity is None,
    {
        self.entity_data.get(&id.0)
    }

    /// The transform of entity `id` as stored on the CPU side; `None` if the
    /// entity was destroyed or never created.
    pub fn get_entity_transform(&self, id: EntityId) -> (transform: Option<X>)
        ensures
            self.entities().contains_key(id.0) ==> transform == Some(
                self.entities()[id.0].transform,
            ),
            !self.entities().contains_key(id.0) ==> transform is None,
    {
        match self.entity_data.get(&id.0) {
            Some(e) => Some(e.transform),
            None => None,
        }
    }

    /// All entity records, by id.
    pub fn entity_data(&self) -> (entities: &BTreeMap<u64, Entity<X, M>>)
        ensures
            entities@ == self.entities(),
    {
        &self.entity_data
    }

    /// Entity id by instance index.
    pub fn instance_to_entity(&self) -> (instances: &BTreeMap<u64, u64>)
        ensures
            instances@ == self.instances(),
    {
        &self.instance_to_entity
    }
}

impl<X: Copy, M: Copy> ResourceManager<X, M> {
    /// Registers a mesh under a fresh id.
    pub fn create_mesh(&mut self, blas: BlasRecord) -> (handle: MeshHandle)
        requires
            old(self).wf(),
        ensures
            final(self).wf(),
            !old(self).meshes().contains_key(handle.0),
            final(self).meshes() == old(self).meshes().insert(handle.0, blas),
            final(self).entities() == old(self).entities(),
            final(self).instances() == old(self).instances(),
            final(self).texture_table() == old(self).texture_table(),
            final(self).images() == old(self).images(),
            final(self).user_samplers() == old(self).user_samplers(),
            final(self).user_images() == old(self).user_images(),
            final(self).next_texture_slot() == old(self).next_texture_slot(),
            final(self).slots_exhausted() == old(self).slots_exhausted(),
            final(self).fallback() == old(self).fallback(),
            final(self).default_sampler_handle() == old(self).default_sampler_handle(),
            final(self).pending_copies() == old(self).pending_copies(),
            final(self).indirection() == old(self).indirection(),
    {
        let id = generate(&self.blases);
        self.blases.insert(id, blas);
        MeshHandle(id)
    }

    /// Registers the meshes of a loaded scene, each under a fresh id;
    /// `ids[i]` is the id of `blases[i]`.
    pub fn register_scene_blases(&mut self, blases: Vec<BlasRecord>) -> (ids: Vec<u64>)
        requires
            old(self).wf(),
        ensures
            final(self).wf(),
            ids.len() == blases.len(),
            forall|i: int| 0 <= i < ids.len() ==> !old(self).meshes().contains_key(#[trigger] ids@[i]),
            forall|i: int, j: int| 0 <= i < j < ids.len() ==> ids@[i] != ids@[j],
            forall|i: int|
                0 <= i < ids.len() ==> final(self).meshes().contains_key(#[trigger] ids@[i])
                    && final(self).meshes()[ids@[i]] == blases@[i],
            forall|k: u64| #[trigger]
                final(self).meshes().contains_key(k) <==> (old(self).meshes().contains_key(k)
                    || ids@.contains(k)),
            forall|k: u64| #[trigger]
                old(self).meshes().contains_key(k) ==> final(self).meshes()[k] == old(
                    self,
                ).meshes()[k],
            final(self).entities() == old(self).entities(),
            final(self).instances() == old(self).instances(),
            final(self).texture_table() == old(self).texture_table(),
            final(self).images() == old(self).images(),
            final(self).user_samplers() == old(self).user_samplers(),
            final(self).user_images() == old(self).user_images(),
            final(self).next_texture_slot() == old(self).next_texture_slot(),
            final(self).slots_exhausted() == old(self).slots_exhausted(),
            final(self).fallback() == old(self).fallback(),
            final(self).default_sampler_handle() == old(self).default_sampler_handle(),
            final(self).pending_copies() == old(self).pending_copies(),
            final(self).indirection() == old(self).indirection(),
    {
        let ghost input = blases@;
        let ghost before = self.blases@;
        let n = blases.len();
        let mut records = blases;
        let mut ids: Vec<u64> = Vec::new();
        let mut k: usize = 0;
        while k < n
            invariant
                k <= n,
                ids.len() == k,
            decreases n - k,
        {
            ids.push(0);
            k = k + 1;
        }
        let mut i: usize = n;
        while i > 0
            invariant
                i <= n,
                n == input.len(),
                ids.len() == n,
                records@ == input.take(i as int),
                forall|a: int| i <= a < n ==> !before.contains_key(#[trigger] ids@[a]),
                forall|a: int, b: int| i <= a < b < n ==> ids@[a] != ids@[b],
                forall|a: int|
                    i <= a < n ==> self.blases@.contains_key(#[trigger] ids@[a])
                        && self.blases@[ids@[a]] == input[a],
                forall|key: u64| #[trigger]
                    self.blases@.contains_key(key) <==> (before.contains_key(key) || exists|a: int|
                        i <= a < n && ids@[a] == key),
                forall|key: u64| #[trigger]
                    before.contains_key(key) ==> self.blases@[key] == before[key],
                self.wf(),
                self.entity_data@ == old(self).entity_data@,
                self.instance_to_entity@ == old(self).instance_to_entity@,
                self.textures@ == old(self).textures@,
                self.images@ == old(self).images@,
                self.user_texture_samplers@ == old(self).user_texture_samplers@,
                self.user_texture_images@ == old(self).user_texture_images@,
                self.next_user_texture_slot == old(self).next_user_texture_slot,
                self.user_slots_exhausted == old(self).user_slots_exhausted,
                self.fallback_texture == old(self).fallback_texture,
                self.default_sampler == old(self).default_sampler,
                self.buffer_copies_queued@ == old(self).buffer_copies_queued@,
                self.emissive_indirection@ == old(self).emissive_indirection@,
            decreases i,
        {
            let record = records.pop().unwrap();
            assert(record == input[i - 1]);
            assert(records@ =~= input.take(i - 1));
            let id = generate(&self.blases);
            assert(!before.contains_key(id));
            assert forall|a: int| i <= a < n implies ids@[a] != id by {
                assert(self.blases@.contains_key(ids@[a]));
            }
            let ghost old_ids = ids@;
            let ghost old_map = self.blases@;
            self.blases.insert(id, record);
            ids.set(i - 1, id);
            assert forall|key: u64| #[trigger]
                self.blases@.contains_key(key) <==> (before.contains_key(key) || exists|a: int|
                    i - 1 <= a < n && ids@[a] == key) by {
                if key == id {
                    assert(ids@[i - 1] == key);
                } else {
                    if exists|a: int| i <= a < n && old_ids[a] == key {
                        let a = choose|a: int| i <= a < n && old_ids[a] == key;
                        assert(ids@[a] == key);
                    }
                    if exists|a: int| i - 1 <= a < n && ids@[a] == key {
                        let a = choose|a: int| i - 1 <= a < n && ids@[a] == key;
                        assert(a != i - 1);
                        assert(old_ids[a] == key);
                    }
                    assert(self.blases@.contains_key(key) == old_map.contains_key(key));
                }
            }
            i = i - 1;
        }
        assert forall|key: u64| #[trigger]
            self.blases@.contains_key(key) <==> (before.contains_key(key) || ids@.contains(key)) by {
            if exists|a: int| 0 <= a < n && ids@[a] == key {
                let a = choose|a: int| 0 <= a < n && ids@[a] == key;
                assert(ids@.contains(key));
            }
            if ids@.contains(key) {
                let a = choose|a: int| 0 <= a < ids.len() && ids@[a] == key;
                assert(self.blases@.contains_key(ids@[a]));
            }
        }
        ids
    }

    /// Drops the mesh behind `handle`; a handle of no mesh changes nothing.
    /// Entities still instancing it must be destroyed first.
    pub fn destroy_mesh(&mut self, handle: MeshHandle)
        requires
            old(self).wf(),
            forall|k: u64| #[trigger]
                old(self).entities().contains_key(k) ==> old(self).entities()[k].blas_index
                    != handle.0,
        ensures
            final(self).wf(),
            old(self).meshes_cover_entities() ==> final(self).meshes_cover_entities(),
            final(self).meshes() == old(self).meshes().remove(handle.0),
            final(self).entities() == old(self).entities(),
            final(self).instances() == old(self).instances(),
            final(self).texture_table() == old(self).texture_table(),
            final(self).images() == old(self).images(),
            final(self).user_samplers() == old(self).user_samplers(),
            final(self).user_images() == old(self).user_images(),
            final(self).next_texture_slot() == old(self).next_texture_slot(),
            final(self).slots_exhausted() == old(self).slots_exhausted(),
            final(self).fallback() == old(self).fallback(),
            final(self).default_sampler_handle() == old(self).default_sampler_handle(),
            final(self).pending_copies() == old(self).pending_copies(),
            final(self).indirection() == old(self).indirection(),
    {
        self.blases.remove(&handle.0);
        assert forall|k: u64| #[trigger] self.entities().contains_key(k) implies (old(
            self,
        ).meshes_cover_entities() ==> self.meshes().contains_key(self.entities()[k].blas_index)) by {
            assert(old(self).entities().contains_key(k));
        }
    }

    /// All meshes, by id.
    pub fn blases(&self) -> (meshes: &BTreeMap<u64, BlasRecord>)
        ensures
            meshes@ == self.meshes(),
    {
        &self.blases
    }

    /// Takes ownership of an image (given by its view) and returns a fresh
    /// id for it.
    pub fn add_image(&mut self, image_view: u64) -> (id: u64)
        requires
            old(self).wf(),
        ensures
            final(self).wf(),
            !old(self).images().contains_key(id),
            final(self).images() == old(self).images().insert(id, image_view),
            final(self).entities() == old(self).entities(),
            final(self).instances() == old(self).instances(),
            final(self).meshes() == old(self).meshes(),
            final(self).texture_table() == old(self).texture_table(),
            final(self).user_samplers() == old(self).user_samplers(),
            final(self).user_images() == old(self).user_images(),
            final(self).next_texture_slot() == old(self).next_texture_slot(),
            final(self).slots_exhausted() == old(self).slots_exhausted(),
            final(self).fallback() == old(self).fallback(),
            final(self).default_sampler_handle() == old(self).default_sampler_handle(),
            final(self).pending_copies() == old(self).pending_copies(),
            final(self).indirection() == old(self).indirection(),
    {
        let id = generate(&self.images);
        self.images.insert(id, image_view);
        id
    }

    /// Releases an image; an id of no image changes nothing.
    pub fn remove_image(&mut self, id: u64)
        requires
            old(self).wf(),
        ensures
            final(self).wf(),
            final(self).images() == old(self).images().remove(id),
            final(self).entities() == old(self).entities(),
            final(self).instances() == old(self).instances(),
            final(self).meshes() == old(self).meshes(),
            final(self).texture_table() == old(self).texture_table(),
            final(self).user_samplers() == old(self).user_samplers(),
            final(self).user_images() == old(self).user_images(),
            final(self).next_texture_slot() == old(self).next_texture_slot(),
            final(self).slots_exhausted() == old(self).slots_exhausted(),
            final(self).fallback() == old(self).fallback(),
            final(self).default_sampler_handle() == old(self).default_sampler_handle(),
            final(self).pending_copies() == old(self).pending_copies(),
            final(self).indirection() == old(self).indirection(),
    {
        self.images.remove(&id);
    }

    /// The view of image `id`, if it is owned.
    pub fn get_image(&self, id: u64) -> (view: Option<u64>)
        ensures
            self.images().contains_key(id) ==> view == Some(self.images()[id]),
            !self.images().contains_key(id) ==> view is None,
    {
        match self.images.get(&id) {
            Some(v) => Some(*v),
            None => None,
        }
    }

    /// The sampler of scene textures that name none.
    pub fn default_sampler(&self) -> (sampler: u64)
        ensures
            sampler == self.default_sampler_handle(),
    {
        self.default_sampler
    }

    /// The texture slot table, one binding per slot.
    pub fn get_textures(&self) -> (table: &Vec<TextureBinding>)
        ensures
            table@ == self.texture_table(),
    {
        &self.textures
    }

    /// The id of the image of user slot `slot`, if the slot is taken.
    pub fn user_texture_image(&self, slot: u32) -> (id: Option<u64>)
        ensures
            self.user_images().contains_key(slot) ==> id == Some(self.user_images()[slot]),
            !self.user_images().contains_key(slot) ==> id is None,
    {
        match self.user_texture_images.get(&slot) {
            Some(i) => Some(*i),
            None => None,
        }
    }

    /// Rebuilds the slot table from a scene's textures: slot `i` gets scene
    /// texture `i` (its sampler, or the default sampler, with its image), the
    /// remaining slots the fallback texture; then every user texture whose
    /// image is still owned is put back into its slot.
    pub fn set_textures(
        &mut self,
        image_views: &Vec<u64>,
        samplers: &Vec<u64>,
        textures: &Vec<SceneTexture>,
    )
        requires
            old(self).wf(),
            textures.len() <= NUMBER_OF_SAMPLERS,
            scene_textures_valid(textures@, image_views.len() as int, samplers.len() as int),
        ensures
            final(self).wf(),
            final(self).texture_table().len() == NUMBER_OF_SAMPLERS,
            forall|i: int|
                0 <= i < NUMBER_OF_SAMPLERS ==> #[trigger] final(self).texture_table()[i] == match old(
                    self,
                ).user_binding(i as u32) {
                    Some(b) => b,
                    None => if i < textures.len() {
                        scene_binding(
                            textures@[i],
                            image_views@,
                            samplers@,
                            old(self).default_sampler_handle(),
                        )
                    } else {
                        old(self).fallback()
                    },
                },
            forall|i: int|
                0 <= i < textures.len() && old(self).user_binding(i as u32) is None ==> {
                    &&& (#[trigger] final(self).texture_table()[i]).image_view
                        == image_views@[textures@[i].source as int]
                    &&& textures@[i].sampler matches Some(s) ==> final(self).texture_table()[i].sampler
                        == samplers@[s as int]
                    &&& textures@[i].sampler is None ==> final(self).texture_table()[i].sampler == old(
                        self,
                    ).default_sampler_handle()
                },
            forall|i: int|
                textures.len() <= i < NUMBER_OF_SAMPLERS && old(self).user_binding(i as u32) is None
                    ==> #[trigger] final(self).texture_table()[i] == old(self).fallback(),
            final(self).entities() == old(self).entities(),
            final(self).instances() == old(self).instances(),
            final(self).meshes() == old(self).meshes(),
            final(self).images() == old(self).images(),
            final(self).user_samplers() == old(self).user_samplers(),
            final(self).user_images() == old(self).user_images(),
            final(self).next_texture_slot() == old(self).next_texture_slot(),
            final(self).slots_exhausted() == old(self).slots_exhausted(),
            final(self).fallback() == old(self).fallback(),
            final(self).default_sampler_handle() == old(self).default_sampler_handle(),
            final(self).pending_copies() == old(self).pending_copies(),
            final(self).indirection() == old(self).indirection(),
    {
        let ghost pre = *self;
        let mut table: Vec<TextureBinding> = Vec::new();
        let mut i: usize = 0;
        while i < textures.len()
            invariant
                i <= textures.len(),
                textures.len() <= NUMBER_OF_SAMPLERS,
                scene_textures_valid(textures@, image_views.len() as int, samplers.len() as int),
                table.len() == i,
                forall|k: int|
                    0 <= k < i ==> #[trigger] table@[k] == scene_binding(
                        textures@[k],
                        image_views@,
                        samplers@,
                        self.default_sampler,
                    ),
            decreases textures.len() - i,
        {
            let tex = textures[i];
            let sampler = match tex.sampler {
                Some(s) => samplers[s],
                None => self.default_sampler,
            };
            let image_view = image_views[tex.source];
            table.push(TextureBinding { sampler, image_view });
            i = i + 1;
        }
        while i < NUMBER_OF_SAMPLERS
            invariant
                textures.len() <= i <= NUMBER_OF_SAMPLERS,
                table.len() == i,
                forall|k: int|
                    0 <= k < textures.len() ==> #[trigger] table@[k] == scene_binding(
                        textures@[k],
                        image_views@,
                        samplers@,
                        self.default_sampler,
                    ),
                forall|k: int| textures.len() <= k < i ==> #[trigger] table@[k] == self.fallback_texture,
            decreases NUMBER_OF_SAMPLERS - i,
        {
            table.push(self.fallback_texture);
            i = i + 1;
        }
        let mut slot: u32 = 0;
        while slot < NUMBER_OF_SAMPLERS as u32
            invariant
                slot <= NUMBER_OF_SAMPLERS,
                table.len() == NUMBER_OF_SAMPLERS,
                *self == pre,
                forall|k: int|
                    0 <= k < NUMBER_OF_SAMPLERS ==> #[trigger] table@[k] == if k < slot
                        && pre.user_binding(k as u32) is Some {
                        pre.user_binding(k as u32)->0
                    } else if k < textures.len() {
                        scene_binding(textures@[k], image_views@, samplers@, pre.default_sampler)
                    } else {
                        pre.fallback_texture
                    },
            decreases NUMBER_OF_SAMPLERS - slot,
        {
            match self.user_texture_samplers.get(&slot) {
                Some(sampler) => {
                    match self.user_texture_images.get(&slot) {
                        Some(img_id) => {
                            match self.images.get(img_id) {
                                Some(view) => {
                                    table.set(
                                        slot as usize,
                                        TextureBinding { sampler: *sampler, image_view: *view },
                                    );
                                },
                                None => {},
                            }
                        },
                        None => {},
                    }
                },
                None => {},
            }
            slot = slot + 1;
        }
        self.textures = table;
        assert forall|i: int| 0 <= i < NUMBER_OF_SAMPLERS implies #[trigger] self.texture_table()[i]
            == match pre.user_binding(i as u32) {
            Some(b) => b,
            None => if i < textures.len() {
                scene_binding(textures@[i], image_views@, samplers@, pre.default_sampler_handle())
            } else {
                pre.fallback()
            },
        } by {
            assert(self.textures@[i] == if i < NUMBER_OF_SAMPLERS && pre.user_binding(
                i as u32,
            ) is Some {
                pre.user_binding(i as u32)->0
            } else if i < textures.len() {
                scene_binding(textures@[i], image_views@, samplers@, pre.default_sampler)
            } else {
                pre.fallback_texture
            });
        }
    }

    /// Whether a user texture slot is still free to hand out.
    pub open spec fn has_free_texture_slot(&self) -> bool {
        self.user_samplers().len() < NUMBER_OF_SAMPLERS && !self.slots_exhausted()
    }

    /// Registers a user texture (its image view and sampler; the registry
    /// takes ownership of the image) in the next user slot, binds it there
    /// and returns the slot. User slots are handed out from the top of the
    /// table down, each at most once: a released slot is never handed out
    /// again, since materials may still refer to it. Fails, changing nothing,
    /// once every slot down to zero has been handed out.
    pub fn create_texture(&mut self, image_view: u64, sampler: u64) -> (result: Result<
        TextureHandle,
        ResourceError,
    >)
        requires
            old(self).wf(),
        ensures
            final(self).wf(),
            !old(self).has_free_texture_slot() ==> result == Err::<TextureHandle, ResourceError>(
                ResourceError::TextureSlotsExhausted,
            ) && *final(self) == *old(self),
            old(self).has_free_texture_slot() ==> {
                let slot = old(self).next_texture_slot();
                let image_id = final(self).user_images()[slot];
                &&& result == Ok::<TextureHandle, ResourceError>(TextureHandle(slot))
                &&& !old(self).handed_out_slots().contains(slot)
                &&& !old(self).user_samplers().contains_key(slot)
                &&& final(self).handed_out_slots() == old(self).handed_out_slots().insert(slot)
                &&& !old(self).images().contains_key(image_id)
                &&& final(self).images() == old(self).images().insert(image_id, image_view)
                &&& final(self).user_samplers() == old(self).user_samplers().insert(slot, sampler)
                &&& final(self).user_images() == old(self).user_images().insert(slot, image_id)
                &&& final(self).texture_table() == old(self).texture_table().update(
                    slot as int,
                    TextureBinding { sampler, image_view },
                )
                &&& final(self).next_texture_slot() == next_slot_after(slot)
                &&& final(self).slots_exhausted() == (slot == 0)
                &&& final(self).entities() == old(self).entities()
                &&& final(self).instances() == old(self).instances()
                &&& final(self).meshes() == old(self).meshes()
                &&& final(self).fallback() == old(self).fallback()
                &&& final(self).default_sampler_handle() == old(self).default_sampler_handle()
                &&& final(self).pending_copies() == old(self).pending_copies()
                &&& final(self).indirection() == old(self).indirection()
            },
    {
        if self.user_texture_samplers.len() >= NUMBER_OF_SAMPLERS || self.user_slots_exhausted {
            return Err(ResourceError::TextureSlotsExhausted);
        }
        let slot = self.next_user_texture_slot;
        let image_id = self.add_image(image_view);
        self.textures.set(slot as usize, TextureBinding { sampler, image_view });
        self.user_texture_samplers.insert(slot, sampler);
        self.user_texture_images.insert(slot, image_id);
        if slot > 0 {
            self.next_user_texture_slot = slot - 1;
        } else {
            self.user_slots_exhausted = true;
        }
        assert(self.handed_out_slots() =~= old(self).handed_out_slots().insert(slot));
        Ok(TextureHandle(slot))
    }

    /// Releases a user texture: its image is dropped, its slot reverts to the
    /// fallback texture and is not handed out again. Returns the id of the
    /// dropped image, if the slot held one.
    pub fn destroy_texture(&mut self, handle: TextureHandle) -> (image: Option<u64>)
        requires
            old(self).wf(),
        ensures
            final(self).wf(),
            old(self).user_images().contains_key(handle.0) ==> image == Some(
                old(self).user_images()[handle.0],
            ) && final(self).images() == old(self).images().remove(
                old(self).user_images()[handle.0],
            ),
            !old(self).user_images().contains_key(handle.0) ==> image is None && final(self).images()
                == old(self).images(),
            final(self).user_images() == old(self).user_images().remove(handle.0),
            final(self).user_samplers() == old(self).user_samplers().remove(handle.0),
            handle.0 < NUMBER_OF_SAMPLERS ==> final(self).texture_table() == old(
                self,
            ).texture_table().update(handle.0 as int, old(self).fallback()),
            handle.0 >= NUMBER_OF_SAMPLERS ==> final(self).texture_table() == old(
                self,
            ).texture_table(),
            final(self).next_texture_slot() == old(self).next_texture_slot(),
            final(self).slots_exhausted() == old(self).slots_exhausted(),
            final(self).fallback() == old(self).fallback(),
            final(self).default_sampler_handle() == old(self).default_sampler_handle(),
            final(self).entities() == old(self).entities(),
            final(self).instances() == old(self).instances(),
            final(self).meshes() == old(self).meshes(),
            final(self).fallback() == old(self).fallback(),
            final(self).pending_copies() == old(self).pending_copies(),
            final(self).indirection() == old(self).indirection(),
    {
        let slot = handle.0;
        let image = self.user_texture_images.remove(&slot);
        match image {
            Some(img_id) => {
                self.images.remove(&img_id);
            },
            None => {},
        }
        self.user_texture_samplers.remove(&slot);
        if (slot as usize) < self.textures.len() {
            self.textures.set(slot as usize, self.fallback_texture);
        }
        image
    }
}

/// The slot range `first..last + 1` that triangles placed in `slots` (in
/// placement order) occupy; `0..0` when there are none.
pub open spec fn slot_range(slots: Seq<u64>) -> (u32, u32) {
    if slots.len() == 0 {
        (0, 0)
    } else {
        (slots[0] as u32, (slots.last() as u32 + 1) as u32)
    }
}

/// Whether the slots follow one another, `slots[0] + k` at position `k`,
/// all below `u32::MAX`.
pub open spec fn consecutive_slots(slots: Seq<u64>) -> bool {
    &&& forall|k: int| 0 <= k < slots.len() ==> #[trigger] slots[k] == slots[0] + k
    &&& slots.len() > 0 ==> slots.last() < u32::MAX
}

/// The number of emissive triangles a mesh registers: one per complete index
/// triple when it has an emission, none otherwise.
pub open spec fn emissive_triangle_total(emission_present: bool, index_count: int) -> int {
    if emission_present {
        index_count / 3
    } else {
        0
    }
}

/// The number of emissive triangles a new mesh registers, and so the number
/// of arena slots to place them in: one per complete index triple when the
/// mesh has an emission, none otherwise.
pub fn emissive_triangle_count(emission_present: bool, index_count: usize) -> (count: usize)
    ensures
        count == emissive_triangle_total(emission_present, index_count as int),
{
    if emission_present {
        index_count / 3
    } else {
        0
    }
}

/// The emissive ranges of a new mesh's record: none when the mesh has no
/// emission or no complete triangle, otherwise the one slot range `range`
/// its emissive triangles were placed in.
pub fn mesh_emissive_ranges(emission_present: bool, index_count: usize, range: (u32, u32)) -> (ranges:
    Vec<(u32, u32)>)
    ensures
        emissive_triangle_total(emission_present, index_count as int) == 0 ==> ranges@ == Seq::<
            (u32, u32),
        >::empty(),
        emissive_triangle_total(emission_present, index_count as int) > 0 ==> ranges@ == seq![
            range,
        ],
{
    let mut ranges: Vec<(u32, u32)> = Vec::new();
    if emissive_triangle_count(emission_present, index_count) > 0 {
        ranges.push(range);
        assert(ranges@ =~= seq![range]);
    }
    ranges
}

/// The slot range occupied by emissive triangles placed, in order, in the
/// arena slots `slots`: from the first slot to one past the last (slots
/// truncated to 32 bits); `0..0` for no triangles. The range describes the
/// triangles only when the slots are consecutive.
pub fn emissive_slot_range(slots: &Vec<u64>) -> (range: (u32, u32))
    requires
        slots.len() > 0 ==> (slots@.last() as u32) < u32::MAX,
    ensures
        range == slot_range(slots@),
        consecutive_slots(slots@) ==> range.1 - range.0 == slots.len(),
{
    if slots.len() == 0 {
        return (0, 0);
    }
    let first = slots[0] as u32;
    let last = slots[slots.len() - 1] as u32;
    (first, last + 1)
}

/// Appends the indirection entries of `ranges` for an entity in `slot`.
fn push_range_entries(entries: &mut Vec<EmissiveIndirectionEntry>, ranges: &Vec<(u32, u32)>, slot: u32)
    ensures
        final(entries)@ == old(entries)@ + ranges_entries(ranges@, slot),
{
    let ghost start = entries@;
    let mut r: usize = 0;
    while r < ranges.len()
        invariant
            r <= ranges.len(),
            entries@ == start + ranges_entries(ranges@.take(r as int), slot),
        decreases ranges.len() - r,
    {
        let (lo, hi) = ranges[r];
        let ghost before = entries@;
        if lo < hi {
            let mut t: u32 = lo;
            while t < hi
                invariant
                    lo <= t <= hi,
                    entries@ == before + Seq::new(
                        (t - lo) as nat,
                        |k: int| EmissiveIndirectionEntry { blas_tri_index: (lo + k) as u32, entity_id: slot },
                    ),
                decreases hi - t,
            {
                entries.push(EmissiveIndirectionEntry { blas_tri_index: t, entity_id: slot });
                t = t + 1;
                assert(entries@ =~= before + Seq::new(
                    (t - lo) as nat,
                    |k: int| EmissiveIndirectionEntry { blas_tri_index: (lo + k) as u32, entity_id: slot },
                ));
            }
        }
        assert(entries@ =~= before + range_entries(ranges@[r as int], slot));
        assert(ranges@.take(r + 1).drop_last() =~= ranges@.take(r as int));
        assert(ranges@.take(r + 1).last() == ranges@[r as int]);
        r = r + 1;
        assert(entries@ =~= start + ranges_entries(ranges@.take(r as int), slot));
    }
    assert(ranges@.take(ranges.len() as int) =~= ranges@);
}

impl<X: Copy, M: Copy> ResourceManager<X, M> {
    /// Records emissive triangles placed, in order, in the arena slots
    /// `slots`: queues their staging copies `copies` (one per triangle, in
    /// order) and returns the slot range they occupy, from the first slot to
    /// one past the last; `0..0` and nothing queued for no triangles.
    pub fn add_blas_emissive_triangles(&mut self, slots: &Vec<u64>, copies: &Vec<BufferCopy>) -> (range:
        (u32, u32))
        requires
            old(self).wf(),
            slots.len() == copies.len(),
            slots.len() > 0 ==> (slots@.last() as u32) < u32::MAX,
        ensures
            final(self).wf(),
            range == slot_range(slots@),
            consecutive_slots(slots@) ==> range.1 - range.0 == slots.len(),
            final(self).pending_copies() == old(self).pending_copies() + copies@,
            final(self).entities() == old(self).entities(),
            final(self).instances() == old(self).instances(),
            final(self).meshes() == old(self).meshes(),
            final(self).texture_table() == old(self).texture_table(),
            final(self).images() == old(self).images(),
            final(self).user_samplers() == old(self).user_samplers(),
            final(self).user_images() == old(self).user_images(),
            final(self).next_texture_slot() == old(self).next_texture_slot(),
            final(self).slots_exhausted() == old(self).slots_exhausted(),
            final(self).fallback() == old(self).fallback(),
            final(self).default_sampler_handle() == old(self).default_sampler_handle(),
            final(self).indirection() == old(self).indirection(),
    {
        let mut i: usize = 0;
        while i < copies.len()
            invariant
                i <= copies.len(),
                self.wf(),
                self.buffer_copies_queued@ == old(self).buffer_copies_queued@ + copies@.take(i as int),
                self.entity_data@ == old(self).entity_data@,
                self.instance_to_entity@ == old(self).instance_to_entity@,
                self.blases@ == old(self).blases@,
                self.textures@ == old(self).textures@,
                self.images@ == old(self).images@,
                self.user_texture_samplers@ == old(self).user_texture_samplers@,
                self.user_texture_images@ == old(self).user_texture_images@,
                self.next_user_texture_slot == old(self).next_user_texture_slot,
                self.user_slots_exhausted == old(self).user_slots_exhausted,
                self.fallback_texture == old(self).fallback_texture,
                self.default_sampler == old(self).default_sampler,
                self.emissive_indirection@ == old(self).emissive_indirection@,
            decreases copies.len() - i,
        {
            self.copy_commands_queue(copies[i]);
            assert(copies@.take(i + 1) =~= copies@.take(i as int).push(copies@[i as int]));
            i = i + 1;
        }
        assert(copies@.take(copies.len() as int) =~= copies@);
        emissive_slot_range(slots)
    }

    /// Rebuilds the emissive indirection list from the live entities and
    /// their meshes' emissive ranges: entity by entity in increasing id
    /// order, every emissive triangle slot tagged with the entity's arena
    /// slot; a single dummy entry when nothing is emissive.
    pub fn rebuild_emissive_indirection(&mut self)
        requires
            old(self).wf(),
            old(self).meshes_cover_entities(),
        ensures
            final(self).wf(),
            final(self).indirection() == indirection_entries(old(self).entities(), old(self).meshes()),
            forall|j: int|
                0 <= j < final(self).indirection().len() ==> #[trigger] final(self).indirection()[j]
                    == dummy_indirection_entry() || exists|key: u64|
                    old(self).entities().contains_key(key) && final(self).indirection()[j].entity_id
                        == (old(self).entities()[key].blas_instance_index as u32) && in_some_range(
                        entity_ranges(old(self).entities()[key], old(self).meshes()),
                        final(self).indirection()[j].blas_tri_index,
                    ),
            forall|key: u64, t: u32|
                old(self).entities().contains_key(key) && #[trigger] in_some_range(
                    entity_ranges(old(self).entities()[key], old(self).meshes()),
                    t,
                ) ==> final(self).indirection().contains(
                    tagged_entry(t, old(self).entities()[key].blas_instance_index as u32),
                ),
            final(self).entities() == old(self).entities(),
            final(self).instances() == old(self).instances(),
            final(self).meshes() == old(self).meshes(),
            final(self).texture_table() == old(self).texture_table(),
            final(self).images() == old(self).images(),
            final(self).user_samplers() == old(self).user_samplers(),
            final(self).user_images() == old(self).user_images(),
            final(self).next_texture_slot() == old(self).next_texture_slot(),
            final(self).slots_exhausted() == old(self).slots_exhausted(),
            final(self).fallback() == old(self).fallback(),
            final(self).default_sampler_handle() == old(self).default_sampler_handle(),
            final(self).pending_copies() == old(self).pending_copies(),
    {
        let ids = sorted_keys(&self.entity_data);
        let mut entries: Vec<EmissiveIndirectionEntry> = Vec::new();
        let mut i: usize = 0;
        while i < ids.len()
            invariant
                i <= ids.len(),
                ids@ == key_listing(self.entity_data@.dom()),
                ids@.to_set() == self.entity_data@.dom(),
                self.meshes_cover_entities(),
                entries@ == entities_entries(ids@.take(i as int), self.entity_data@, self.blases@),
            decreases ids.len() - i,
        {
            let id = ids[i];
            assert(ids@.to_set().contains(ids@[i as int]));
            assert(self.entities().contains_key(id));
            let entity = self.entity_data.get(&id).unwrap();
            assert(*entity == self.entity_data@[id]);
            let blas = self.blases.get(&entity.blas_index).unwrap();
            let slot: u32 = #[verifier::truncate] (entity.blas_instance_index as u32);
            let ghost prev = entries@;
            push_range_entries(&mut entries, &blas.emissive_triangle_ranges, slot);
            assert(entries@ == prev + entity_entries(self.entity_data@[id], self.blases@));
            assert(ids@.take(i + 1).drop_last() =~= ids@.take(i as int));
            assert(ids@.take(i + 1).last() == ids@[i as int]);
            i = i + 1;
        }
        assert(ids@.take(ids.len() as int) =~= ids@);
        if entries.len() == 0 {
            entries.push(EmissiveIndirectionEntry { blas_tri_index: 0, entity_id: 0 });
            assert(entries@ =~= seq![dummy_indirection_entry()]);
        }
        self.emissive_indirection = entries;
        proof {
            assert(old(self).entities().dom().finite());
            lemma_indirection_entries_members(old(self).entities(), old(self).meshes());
            assert(self.indirection() == indirection_entries(old(self).entities(), old(self).meshes()));
        }
    }

    /// The emissive indirection list last built.
    pub fn emissive_indirection(&self) -> (entries: &Vec<EmissiveIndirectionEntry>)
        ensures
            entries@ == self.indirection(),
    {
        &self.emissive_indirection
    }
}

/// Registering an entity (by `create_entity`, or by `clone_entity`, whose
/// record copies another entity's mesh and material) and destroying it again
/// leaves the entity records and the instance map as they were, when the
/// arena slot it was given was not an instance index already.
pub proof fn lemma_create_destroy_round_trip<X: Copy, M: Copy>(
    before: ResourceManager<X, M>,
    created: ResourceManager<X, M>,
    destroyed: ResourceManager<X, M>,
    entity: Entity<X, M>,
)
    requires
        !before.entities().contains_key(entity.id.0),
        !before.instances().contains_key(entity.blas_instance_index),
        created.entities() == before.entities().insert(entity.id.0, entity),
        created.instances() == before.instances().insert(entity.blas_instance_index, entity.id.0),
        destroyed.entities() == created.entities().remove(entity.id.0),
        destroyed.instances() == created.instances().remove(created.entities()[entity.id.0].blas_instance_index),
    ensures
        destroyed.entities() == before.entities(),
        destroyed.instances() == before.instances(),
{
    assert(destroyed.entities() =~= before.entities());
    assert(destroyed.instances() =~= before.instances());
}

/// Destroying an entity twice is the same as destroying it once: the second
/// call finds no entity and changes neither the entity records nor the
/// instance map.
pub proof fn lemma_destroy_entity_idempotent<X: Copy, M: Copy>(
    before: ResourceManager<X, M>,
    once: ResourceManager<X, M>,
    twice: ResourceManager<X, M>,
    id: EntityId,
)
    requires
        before.entities().contains_key(id.0) ==> once.entities() == before.entities().remove(id.0)
            && once.instances() == before.instances().remove(
            before.entities()[id.0].blas_instance_index,
        ),
        !before.entities().contains_key(id.0) ==> once.entities() == before.entities()
            && once.instances() == before.instances(),
        once.entities().contains_key(id.0) ==> twice.entities() == once.entities().remove(id.0)
            && twice.instances() == once.instances().remove(
            once.entities()[id.0].blas_instance_index,
        ),
        !once.entities().contains_key(id.0) ==> twice.entities() == once.entities()
            && twice.instances() == once.instances(),
    ensures
        !once.entities().contains_key(id.0),
        twice.entities() == once.entities(),
        twice.instances() == once.instances(),
{
}

/// Whether the instance map names every live entity by its instance index.
pub open spec fn instances_consistent<X, M>(
    entities: Map<u64, Entity<X, M>>,
    instances: Map<u64, u64>,
) -> bool {
    forall|k: u64| #[trigger]
        entities.contains_key(k) ==> instances.contains_key(entities[k].blas_instance_index)
            && instances[entities[k].blas_instance_index] == k
}

/// The instance map keeps naming every live entity by its instance index
/// across entity registration (with an arena slot that is not already an
/// instance index) and across entity destruction.
pub proof fn lemma_instances_stay_consistent<X: Copy, M: Copy>(
    before: ResourceManager<X, M>,
    created: ResourceManager<X, M>,
    destroyed: ResourceManager<X, M>,
    entity: Entity<X, M>,
    gone: EntityId,
)
    requires
        instances_consistent(before.entities(), before.instances()),
        !before.instances().contains_key(entity.blas_instance_index),
        created.entities() == before.entities().insert(entity.id.0, entity),
        created.instances() == before.instances().insert(entity.blas_instance_index, entity.id.0),
        created.entities().contains_key(gone.0) ==> destroyed.entities() == created.entities().remove(gone.0)
            && destroyed.instances() == created.instances().remove(
            created.entities()[gone.0].blas_instance_index,
        ),
        !created.entities().contains_key(gone.0) ==> destroyed.entities() == created.entities()
            && destroyed.instances() == created.instances(),
    ensures
        instances_consistent(created.entities(), created.instances()),
        instances_consistent(destroyed.entities(), destroyed.instances()),
{
    assert forall|k: u64| #[trigger] created.entities().contains_key(k) implies created.instances().contains_key(
        created.entities()[k].blas_instance_index,
    ) && created.instances()[created.entities()[k].blas_instance_index] == k by {
        if k != entity.id.0 {
            assert(before.entities().contains_key(k));
            assert(before.instances().contains_key(before.entities()[k].blas_instance_index));
        }
    }
    if created.entities().contains_key(gone.0) {
        let slot = created.entities()[gone.0].blas_instance_index;
        assert forall|k: u64| #[trigger] destroyed.entities().contains_key(k) implies destroyed.instances().contains_key(
            destroyed.entities()[k].blas_instance_index,
        ) && destroyed.instances()[destroyed.entities()[k].blas_instance_index] == k by {
            assert(created.entities().contains_key(k));
            let ks = created.entities()[k].blas_instance_index;
            assert(created.instances()[ks] == k);
            assert(created.instances()[slot] == gone.0);
            assert(ks != slot);
        }
    }
}

/// An empty registry's instance map is consistent.
pub proof fn lemma_empty_instances_consistent<X: Copy, M: Copy>(rm: ResourceManager<X, M>)
    requires
        rm.entities() == Map::<u64, Entity<X, M>>::empty(),
    ensures
        instances_consistent(rm.entities(), rm.instances()),
{
}

/// After an entity is registered, looking it up gives exactly the record
/// registered, its instance index names it, and every other entity is as
/// before.
pub proof fn lemma_created_entity_found<X: Copy, M: Copy>(
    before: ResourceManager<X, M>,
    after: ResourceManager<X, M>,
    entity: Entity<X, M>,
)
    requires
        after.entities() == before.entities().insert(entity.id.0, entity),
        after.instances() == before.instances().insert(entity.blas_instance_index, entity.id.0),
    ensures
        after.entities().contains_key(entity.id.0),
        after.entities()[entity.id.0] == entity,
        after.instances()[entity.blas_instance_index] == entity.id.0,
        forall|k: u64|
            k != entity.id.0 ==> (#[trigger] after.entities().contains_key(k)
                == before.entities().contains_key(k) && (before.entities().contains_key(k)
                ==> after.entities()[k] == before.entities()[k])),
{
}

/// After an entity is destroyed it is no longer found, and every other
/// entity is as before.
pub proof fn lemma_destroyed_entity_gone<X: Copy, M: Copy>(
    before: ResourceManager<X, M>,
    after: ResourceManager<X, M>,
    id: EntityId,
)
    requires
        after.entities() == before.entities().remove(id.0),
    ensures
        !after.entities().contains_key(id.0),
        forall|k: u64|
            k != id.0 ==> (#[trigger] after.entities().contains_key(k)
                == before.entities().contains_key(k) && (before.entities().contains_key(k)
                ==> after.entities()[k] == before.entities()[k])),
{
}

/// Every live user slot is one that was handed out, and while slots remain
/// the slot the next user texture gets has never been handed out (so it is
/// held by no live user texture) and lies in the table.
pub proof fn lemma_next_texture_slot_unused<X: Copy, M: Copy>(rm: ResourceManager<X, M>)
    requires
        rm.wf(),
        !rm.slots_exhausted(),
    ensures
        !rm.handed_out_slots().contains(rm.next_texture_slot()),
        forall|s: u32| #[trigger] rm.user_samplers().contains_key(s) ==> rm.handed_out_slots().contains(s),
        !rm.user_samplers().contains_key(rm.next_texture_slot()),
        !rm.user_images().contains_key(rm.next_texture_slot()),
        rm.next_texture_slot() < NUMBER_OF_SAMPLERS,
{
}

/// Every well-formed registry has the full texture table and a non-empty
/// indirection list; every indirection list built has at least one entry.
pub proof fn lemma_tables_never_empty<X: Copy, M: Copy>(rm: ResourceManager<X, M>)
    requires
        rm.wf(),
    ensures
        rm.texture_table().len() == NUMBER_OF_SAMPLERS,
        rm.indirection().len() >= 1,
        indirection_entries(rm.entities(), rm.meshes()).len() >= 1,
{
}

/// Creating a user texture and destroying it again gives back the owned
/// images and the user slots as they were, and leaves the slot bound to the
/// fallback texture (when the slot was free, as it is while the slots handed
/// out have not reached zero).
pub proof fn lemma_texture_create_destroy<X: Copy, M: Copy>(
    before: ResourceManager<X, M>,
    created: ResourceManager<X, M>,
    destroyed: ResourceManager<X, M>,
    slot: u32,
    image_id: u64,
    image_view: u64,
    sampler: u64,
)
    requires
        before.wf(),
        created.wf(),
        slot == before.next_texture_slot(),
        !before.user_samplers().contains_key(slot),
        !before.images().contains_key(image_id),
        created.images() == before.images().insert(image_id, image_view),
        created.user_samplers() == before.user_samplers().insert(slot, sampler),
        created.user_images() == before.user_images().insert(slot, image_id),
        created.fallback() == before.fallback(),
        destroyed.images() == created.images().remove(created.user_images()[slot]),
        destroyed.user_images() == created.user_images().remove(slot),
        destroyed.user_samplers() == created.user_samplers().remove(slot),
        destroyed.texture_table() == created.texture_table().update(
            slot as int,
            created.fallback(),
        ),
    ensures
        destroyed.images() == before.images(),
        destroyed.user_samplers() == before.user_samplers(),
        destroyed.user_images() == before.user_images(),
        destroyed.texture_table()[slot as int] == before.fallback(),
{
    assert(!before.user_images().contains_key(slot));
    assert(destroyed.images() =~= before.images());
    assert(destroyed.user_samplers() =~= before.user_samplers());
    assert(destroyed.user_images() =~= before.user_images());
}

/// A user texture survives loading a scene: after `create_texture` bound
/// `(sampler, image_view)` in `slot`, rebuilding the table from any scene
/// still binds it there.
pub proof fn lemma_user_texture_survives_scene<X: Copy, M: Copy>(
    created: ResourceManager<X, M>,
    slot: u32,
    image_id: u64,
    image_view: u64,
    sampler: u64,
)
    requires
        created.user_samplers().contains_key(slot),
        created.user_samplers()[slot] == sampler,
        created.user_images().contains_key(slot),
        created.user_images()[slot] == image_id,
        created.images().contains_key(image_id),
        created.images()[image_id] == image_view,
    ensures
        created.user_binding(slot) == Some(TextureBinding { sampler, image_view }),
{
}

/// Whether a step from `a` to `b` keeps every texture slot handed out so far
/// counted as handed out. Every operation of the registry does:
/// `create_texture` adds the slot it hands out, every other operation keeps
/// the next slot and the exhaustion mark.
pub open spec fn slots_kept<X: Copy, M: Copy>(a: ResourceManager<X, M>, b: ResourceManager<X, M>) -> bool {
    a.handed_out_slots().subset_of(b.handed_out_slots())
}

/// A step that keeps the next slot and the exhaustion mark keeps the
/// handed-out slots.
pub proof fn lemma_slots_kept_when_unchanged<X: Copy, M: Copy>(
    a: ResourceManager<X, M>,
    b: ResourceManager<X, M>,
)
    requires
        b.next_texture_slot() == a.next_texture_slot(),
        b.slots_exhausted() == a.slots_exhausted(),
    ensures
        slots_kept(a, b),
{
}

proof fn lemma_slots_kept_chain<X: Copy, M: Copy>(states: Seq<ResourceManager<X, M>>, a: int, b: int)
    requires
        forall|k: int| 0 <= k < states.len() - 1 ==> #[trigger] slots_kept(states[k], states[k + 1]),
        0 <= a <= b < states.len(),
    ensures
        slots_kept(states[a], states[b]),
    decreases b - a,
{
    if a < b {
        lemma_slots_kept_chain(states, a, b - 1);
        let m = b - 1;
        assert(slots_kept(states[m], states[m + 1]));
        assert(m + 1 == b);
    }
}

/// Over any history of one registry, no texture slot is handed out twice:
/// when `create_texture` at step `i` hands out `si` (a slot not handed out
/// before step `i` and handed out after it) and at a later step `j` hands
/// out `sj` (not handed out before step `j`), the two differ. A released
/// slot is therefore never handed out again.
pub proof fn lemma_texture_slots_never_repeat<X: Copy, M: Copy>(
    states: Seq<ResourceManager<X, M>>,
    i: int,
    j: int,
    si: u32,
    sj: u32,
)
    requires
        forall|k: int| 0 <= k < states.len() - 1 ==> #[trigger] slots_kept(states[k], states[k + 1]),
        0 <= i < j < states.len(),
        !states[i].handed_out_slots().contains(si),
        states[i + 1].handed_out_slots().contains(si),
        !states[j].handed_out_slots().contains(sj),
    ensures
        si != sj,
{
    lemma_slots_kept_chain(states, i + 1, j);
}

/// Whether a step from `a` to `b` leaves user slot `slot` and the image
/// `image_id` alone: the slot's sampler and image id and the image's view are
/// as they were.
pub open spec fn user_texture_kept<X: Copy, M: Copy>(
    a: ResourceManager<X, M>,
    b: ResourceManager<X, M>,
    slot: u32,
    image_id: u64,
) -> bool {
    &&& b.user_samplers().contains_key(slot) == a.user_samplers().contains_key(slot)
    &&& a.user_samplers().contains_key(slot) ==> b.user_samplers()[slot] == a.user_samplers()[slot]
    &&& b.user_images().contains_key(slot) == a.user_images().contains_key(slot)
    &&& a.user_images().contains_key(slot) ==> b.user_images()[slot] == a.user_images()[slot]
    &&& a.images().contains_key(image_id) ==> b.images().contains_key(image_id)
        && b.images()[image_id] == a.images()[image_id]
}

/// A successful `create_texture` leaves every live user texture alone: the
/// new slot was never handed out and the new image id is fresh.
pub proof fn lemma_create_texture_keeps_user_texture<X: Copy, M: Copy>(
    before: ResourceManager<X, M>,
    after: ResourceManager<X, M>,
    new_slot: u32,
    new_image: u64,
    image_view: u64,
    sampler: u64,
    slot: u32,
    image_id: u64,
)
    requires
        before.wf(),
        before.user_samplers().contains_key(slot),
        before.images().contains_key(image_id),
        !before.handed_out_slots().contains(new_slot),
        !before.images().contains_key(new_image),
        after.images() == before.images().insert(new_image, image_view),
        after.user_samplers() == before.user_samplers().insert(new_slot, sampler),
        after.user_images() == before.user_images().insert(new_slot, new_image),
    ensures
        user_texture_kept(before, after, slot, image_id),
{
    assert(before.handed_out_slots().contains(slot));
    assert(new_slot != slot);
    assert(new_image != image_id);
}

/// `destroy_texture` of another slot, whose image is not `image_id`, leaves
/// user slot `slot` and image `image_id` alone.
pub proof fn lemma_destroy_other_texture_keeps_user_texture<X: Copy, M: Copy>(
    before: ResourceManager<X, M>,
    after: ResourceManager<X, M>,
    released: u32,
    slot: u32,
    image_id: u64,
)
    requires
        released != slot,
        before.user_images().contains_key(released) ==> before.user_images()[released] != image_id,
        before.user_images().contains_key(released) ==> after.images() == before.images().remove(
            before.user_images()[released],
        ),
        !before.user_images().contains_key(released) ==> after.images() == before.images(),
        after.user_images() == before.user_images().remove(released),
        after.user_samplers() == before.user_samplers().remove(released),
    ensures
        user_texture_kept(before, after, slot, image_id),
{
}

/// Over any history of one registry in which every step leaves user slot
/// `slot` and its image alone (no `destroy_texture` of the slot and no
/// removal of its image; see the two lemmas above for `create_texture` and
/// `destroy_texture` of other slots, while the other operations keep the
/// user slots and images or only add fresh images), the slot keeps imposing
/// the binding `create_texture` gave it, so every later `set_textures` binds
/// it there whatever the scene's textures are.
pub proof fn lemma_user_texture_survives_history<X: Copy, M: Copy>(
    states: Seq<ResourceManager<X, M>>,
    slot: u32,
    image_id: u64,
    sampler: u64,
    image_view: u64,
)
    requires
        states.len() > 0,
        states[0].user_samplers().contains_key(slot),
        states[0].user_samplers()[slot] == sampler,
        states[0].user_images().contains_key(slot),
        states[0].user_images()[slot] == image_id,
        states[0].images().contains_key(image_id),
        states[0].images()[image_id] == image_view,
        forall|k: int|
            0 <= k < states.len() - 1 ==> #[trigger] user_texture_kept(
                states[k],
                states[k + 1],
                slot,
                image_id,
            ),
    ensures
        forall|k: int|
            0 <= k < states.len() ==> #[trigger] states[k].user_binding(slot) == Some(
                TextureBinding { sampler, image_view },
            ),
{
    assert forall|k: int| 0 <= k < states.len() implies #[trigger] states[k].user_binding(slot)
        == Some(TextureBinding { sampler, image_view }) by {
        lemma_user_texture_kept_upto(states, slot, image_id, sampler, image_view, k);
    }
}

proof fn lemma_user_texture_kept_upto<X: Copy, M: Copy>(
    states: Seq<ResourceManager<X, M>>,
    slot: u32,
    image_id: u64,
    sampler: u64,
    image_view: u64,
    k: int,
)
    requires
        0 <= k < states.len(),
        states[0].user_samplers().contains_key(slot),
        states[0].user_samplers()[slot] == sampler,
        states[0].user_images().contains_key(slot),
        states[0].user_images()[slot] == image_id,
        states[0].images().contains_key(image_id),
        states[0].images()[image_id] == image_view,
        forall|m: int|
            0 <= m < states.len() - 1 ==> #[trigger] user_texture_kept(
                states[m],
                states[m + 1],
                slot,
                image_id,
            ),
    ensures
        states[k].user_samplers().contains_key(slot),
        states[k].user_samplers()[slot] == sampler,
        states[k].user_images().contains_key(slot),
        states[k].user_images()[slot] == image_id,
        states[k].images().contains_key(image_id),
        states[k].images()[image_id] == image_view,
        states[k].user_binding(slot) == Some(TextureBinding { sampler, image_view }),
    decreases k,
{
    if k > 0 {
        lemma_user_texture_kept_upto(states, slot, image_id, sampler, image_view, k - 1);
        let m = k - 1;
        assert(user_texture_kept(states[m], states[m + 1], slot, image_id));
        assert(m + 1 == k);
    }
}

impl<X: Copy, M: Copy> ResourceManager<X, M> {
    /// Registers a loaded scene: its meshes under fresh ids; its textures in
    /// the slot table (user textures kept); its emissive triangles, placed in
    /// `emissive_slots`, with their copies queued; one entity per instance,
    /// each under a fresh id, instancing the registered copy of its scene
    /// mesh, with its copies queued; then rebuilds the emissive indirection
    /// list and takes ownership of the scene's images. Returns the entity
    /// ids in instance order.
    pub fn load_scene(
        &mut self,
        blases: Vec<BlasRecord>,
        image_views: &Vec<u64>,
        samplers: &Vec<u64>,
        textures: &Vec<SceneTexture>,
        emissive_slots: &Vec<u64>,
        emissive_copies: &Vec<BufferCopy>,
        instances: &Vec<SceneInstance<X, M>>,
    ) -> (ids: Vec<EntityId>)
        requires
            old(self).wf(),
            old(self).meshes_cover_entities(),
            textures.len() <= NUMBER_OF_SAMPLERS,
            scene_textures_valid(textures@, image_views.len() as int, samplers.len() as int),
            emissive_slots.len() == emissive_copies.len(),
            emissive_slots.len() > 0 ==> (emissive_slots@.last() as u32) < u32::MAX,
            forall|k: int| 0 <= k < instances.len() ==> #[trigger] instances@[k].blas < blases.len(),
        ensures
            final(self).wf(),
            final(self).meshes_cover_entities(),
            ids.len() == instances.len(),
            forall|k: int| 0 <= k < ids.len() ==> !old(self).entities().contains_key(#[trigger] ids@[k].0),
            forall|a: int, b: int| 0 <= a < b < ids.len() ==> ids@[a] != ids@[b],
            exists|mesh_ids: Seq<u64>|
                #[trigger] fresh_entries(old(self).meshes(), final(self).meshes(), mesh_ids, blases@)
                    && forall|k: int|
                    0 <= k < ids.len() ==> final(self).entities().contains_key(#[trigger] ids@[k].0)
                        && final(self).entities()[ids@[k].0] == scene_entity(
                        instances@[k],
                        ids@[k],
                        mesh_ids,
                    ),
            forall|key: u64| #[trigger]
                final(self).entities().contains_key(key) <==> (old(self).entities().contains_key(key)
                    || exists|k: int| 0 <= k < ids.len() && ids@[k].0 == key),
            forall|key: u64| #[trigger]
                old(self).entities().contains_key(key) ==> final(self).entities()[key] == old(
                    self,
                ).entities()[key],
            final(self).instances() == scene_instance_map(old(self).instances(), instances@, ids@),
            forall|key: u64|
                (forall|k: int| 0 <= k < instances.len() ==> instances@[k].slot != key) ==> {
                    &&& #[trigger] final(self).instances().contains_key(key) == old(
                        self,
                    ).instances().contains_key(key)
                    &&& old(self).instances().contains_key(key) ==> final(self).instances()[key]
                        == old(self).instances()[key]
                },
            forall|k: int|
                0 <= k < instances.len() ==> final(self).instances().contains_key(
                    (#[trigger] instances@[k]).slot,
                ),
            forall|k: int|
                0 <= k < instances.len() && (forall|l: int| k < l < instances.len() ==> instances@[l].slot
                    != instances@[k].slot) ==> final(self).instances()[(#[trigger] instances@[k]).slot]
                    == ids@[k].0,
            forall|i: int|
                0 <= i < textures.len() && old(self).user_binding(i as u32) is None ==> {
                    &&& (#[trigger] final(self).texture_table()[i]).image_view
                        == image_views@[textures@[i].source as int]
                    &&& textures@[i].sampler matches Some(s) ==> final(self).texture_table()[i].sampler
                        == samplers@[s as int]
                    &&& textures@[i].sampler is None ==> final(self).texture_table()[i].sampler == old(
                        self,
                    ).default_sampler_handle()
                },
            final(self).pending_copies() == old(self).pending_copies() + emissive_copies@
                + scene_instance_copies(instances@),
            forall|i: int|
                0 <= i < NUMBER_OF_SAMPLERS ==> #[trigger] final(self).texture_table()[i] == match old(
                    self,
                ).user_binding(i as u32) {
                    Some(b) => b,
                    None => if i < textures.len() {
                        scene_binding(
                            textures@[i],
                            image_views@,
                            samplers@,
                            old(self).default_sampler_handle(),
                        )
                    } else {
                        old(self).fallback()
                    },
                },
            exists|image_ids: Seq<u64>|
                #[trigger] fresh_entries(old(self).images(), final(self).images(), image_ids, image_views@),
            final(self).indirection() == indirection_entries(final(self).entities(), final(self).meshes()),
            forall|j: int|
                0 <= j < final(self).indirection().len() ==> #[trigger] final(self).indirection()[j]
                    == dummy_indirection_entry() || exists|key: u64|
                    final(self).entities().contains_key(key) && final(self).indirection()[j].entity_id
                        == (final(self).entities()[key].blas_instance_index as u32) && in_some_range(
                        entity_ranges(final(self).entities()[key], final(self).meshes()),
                        final(self).indirection()[j].blas_tri_index,
                    ),
            forall|key: u64, t: u32|
                final(self).entities().contains_key(key) && #[trigger] in_some_range(
                    entity_ranges(final(self).entities()[key], final(self).meshes()),
                    t,
                ) ==> final(self).indirection().contains(
                    tagged_entry(t, final(self).entities()[key].blas_instance_index as u32),
                ),
            final(self).user_samplers() == old(self).user_samplers(),
            final(self).user_images() == old(self).user_images(),
            final(self).next_texture_slot() == old(self).next_texture_slot(),
            final(self).slots_exhausted() == old(self).slots_exhausted(),
            final(self).fallback() == old(self).fallback(),
            final(self).default_sampler_handle() == old(self).default_sampler_handle(),
    {
        let ghost start = *self;
        let ghost blases_in = blases@;
        let mesh_ids = self.register_scene_blases(blases);
        assert(fresh_entries(start.meshes(), self.meshes(), mesh_ids@, blases_in));
        assert forall|key: u64| #[trigger] self.entities().contains_key(key) implies self.meshes().contains_key(
            self.entities()[key].blas_index,
        ) by {
            assert(start.entities().contains_key(key));
        }
        let ghost registered = *self;
        self.set_textures(image_views, samplers, textures);
        let ghost textured = *self;
        assert forall|i: int| 0 <= i < NUMBER_OF_SAMPLERS implies #[trigger] textured.texture_table()[i]
            == match start.user_binding(i as u32) {
            Some(b) => b,
            None => if i < textures.len() {
                scene_binding(textures@[i], image_views@, samplers@, start.default_sampler_handle())
            } else {
                start.fallback()
            },
        } by {
            assert(registered.user_binding(i as u32) == start.user_binding(i as u32));
        }
        self.add_blas_emissive_triangles(emissive_slots, emissive_copies);
        let ghost lit = *self;
        let mut ids: Vec<EntityId> = Vec::new();
        let mut k: usize = 0;
        while k < instances.len()
            invariant
                k <= instances.len(),
                forall|a: int| 0 <= a < instances.len() ==> #[trigger] instances@[a].blas < mesh_ids.len(),
                mesh_ids.len() == blases_in.len(),
                forall|i: int| 0 <= i < mesh_ids.len() ==> lit.meshes().contains_key(#[trigger] mesh_ids@[i]),
                self.wf(),
                self.meshes_cover_entities(),
                self.meshes() == lit.meshes(),
                self.texture_table() == lit.texture_table(),
                self.images() == lit.images(),
                self.user_samplers() == lit.user_samplers(),
                self.user_images() == lit.user_images(),
                self.next_texture_slot() == lit.next_texture_slot(),
                self.slots_exhausted() == lit.slots_exhausted(),
                self.fallback() == lit.fallback(),
                self.default_sampler_handle() == lit.default_sampler_handle(),
                self.indirection() == lit.indirection(),
                ids.len() == k,
                forall|a: int| 0 <= a < k ==> !lit.entities().contains_key(#[trigger] ids@[a].0),
                forall|a: int, b: int| 0 <= a < b < k ==> ids@[a] != ids@[b],
                forall|a: int|
                    0 <= a < k ==> self.entities().contains_key(#[trigger] ids@[a].0)
                        && self.entities()[ids@[a].0] == scene_entity(
                        instances@[a],
                        ids@[a],
                        mesh_ids@,
                    ),
                forall|key: u64| #[trigger]
                    self.entities().contains_key(key) <==> (lit.entities().contains_key(key)
                        || exists|a: int| 0 <= a < k && ids@[a].0 == key),
                forall|key: u64| #[trigger]
                    lit.entities().contains_key(key) ==> self.entities()[key] == lit.entities()[key],
                self.instances() == scene_instance_map(
                    lit.instances(),
                    instances@.take(k as int),
                    ids@,
                ),
                self.pending_copies() == lit.pending_copies() + scene_instance_copies(
                    instances@.take(k as int),
                ),
            decreases instances.len() - k,
        {
            let inst = instances[k];
            let blas_id = mesh_ids[inst.blas];
            let id = self.new_entity_id();
            let ghost before = *self;
            assert forall|a: int| 0 <= a < k implies ids@[a] != id by {
                assert(self.entities().contains_key(ids@[a].0));
            }
            assert(!lit.entities().contains_key(id.0));
            self.create_entity(
                id,
                blas_id,
                inst.material,
                inst.transform,
                inst.slot,
                inst.entity_copy,
                inst.transform_copy,
            );
            let ghost old_ids = ids@;
            ids.push(id);
            assert(instances@.take(k + 1).drop_last() =~= instances@.take(k as int));
            assert(ids@.drop_last() =~= old_ids);
            assert(scene_instance_map(lit.instances(), instances@.take(k as int), old_ids)
                == scene_instance_map(lit.instances(), instances@.take(k as int), ids@)) by {
                lemma_scene_instance_map_prefix(lit.instances(), instances@.take(k as int), old_ids, ids@);
            }
            assert(self.pending_copies() =~= lit.pending_copies() + scene_instance_copies(
                instances@.take(k + 1),
            ));
            assert forall|key: u64| #[trigger] self.entities().contains_key(key) implies self.meshes().contains_key(
                self.entities()[key].blas_index,
            ) by {
                if key != id.0 {
                    assert(before.entities().contains_key(key));
                }
            }
            assert forall|key: u64| #[trigger]
                self.entities().contains_key(key) <==> (lit.entities().contains_key(key)
                    || exists|a: int| 0 <= a < k + 1 && ids@[a].0 == key) by {
                if key == id.0 {
                    assert(ids@[k as int].0 == key);
                }
                if exists|a: int| 0 <= a < k + 1 && ids@[a].0 == key {
                    let a = choose|a: int| 0 <= a < k + 1 && ids@[a].0 == key;
                    if a < k {
                        assert(before.entities().contains_key(ids@[a].0));
                    }
                }
            }
            k = k + 1;
        }
        assert(instances@.take(instances.len() as int) =~= instances@);
        self.rebuild_emissive_indirection();
        let ghost rebuilt = *self;
        let mut image_ids: Vec<u64> = Vec::new();
        let mut i: usize = 0;
        while i < image_views.len()
            invariant
                i <= image_views.len(),
                self.wf(),
                self.meshes_cover_entities(),
                self.entities() == rebuilt.entities(),
                self.instances() == rebuilt.instances(),
                self.meshes() == rebuilt.meshes(),
                self.texture_table() == rebuilt.texture_table(),
                self.user_samplers() == rebuilt.user_samplers(),
                self.user_images() == rebuilt.user_images(),
                self.next_texture_slot() == rebuilt.next_texture_slot(),
                self.slots_exhausted() == rebuilt.slots_exhausted(),
                self.fallback() == rebuilt.fallback(),
                self.default_sampler_handle() == rebuilt.default_sampler_handle(),
                self.pending_copies() == rebuilt.pending_copies(),
                self.indirection() == rebuilt.indirection(),
                fresh_entries(rebuilt.images(), self.images(), image_ids@, image_views@.take(i as int)),
            decreases image_views.len() - i,
        {
            let ghost before = *self;
            let id = self.add_image(image_views[i]);
            let ghost old_ids = image_ids@;
            image_ids.push(id);
            assert forall|a: int| 0 <= a < old_ids.len() implies old_ids[a] != id by {
                assert(before.images().contains_key(old_ids[a]));
            }
            assert(image_views@.take(i + 1) =~= image_views@.take(i as int).push(image_views@[i as int]));
            assert forall|key: u64| #[trigger] self.images().contains_key(key) <==> (
            rebuilt.images().contains_key(key) || image_ids@.contains(key)) by {
                if key == id {
                    assert(image_ids@[old_ids.len() as int] == key);
                }
                if image_ids@.contains(key) && key != id {
                    let a = choose|a: int| 0 <= a < image_ids.len() && image_ids@[a] == key;
                    assert(old_ids[a] == key);
                    assert(old_ids.contains(key));
                }
                if old_ids.contains(key) {
                    let a = choose|a: int| 0 <= a < old_ids.len() && old_ids[a] == key;
                    assert(image_ids@[a] == key);
                }
            }
            assert(fresh_entries(rebuilt.images(), self.images(), image_ids@, image_views@.take(i + 1)));
            i = i + 1;
        }
        assert(image_views@.take(image_views.len() as int) =~= image_views@);
        assert(fresh_entries(start.images(), self.images(), image_ids@, image_views@));
        proof {
            lemma_scene_instance_map_slots(start.instances(), instances@, ids@);
            lemma_scene_texture_binding(start, *self, image_views@, samplers@, textures@);
        }
        assert(fresh_entries(start.meshes(), self.meshes(), mesh_ids@, blases_in));
        assert(self.pending_copies() =~= start.pending_copies() + emissive_copies@
            + scene_instance_copies(instances@));
        ids
    }
}

/// The instance map built from the first entities does not depend on ids
/// past them.
proof fn lemma_scene_instance_map_prefix<X, M>(
    m: Map<u64, u64>,
    insts: Seq<SceneInstance<X, M>>,
    ids1: Seq<EntityId>,
    ids2: Seq<EntityId>,
)
    requires
        ids1.len() >= insts.len(),
        ids2.len() >= insts.len(),
        forall|a: int| 0 <= a < insts.len() ==> ids1[a] == ids2[a],
    ensures
        scene_instance_map(m, insts, ids1) == scene_instance_map(m, insts, ids2),
    decreases insts.len(),
{
    if insts.len() > 0 {
        lemma_scene_instance_map_prefix(m, insts.drop_last(), ids1.drop_last(), ids2.drop_last());
    }
}

/// What a scene texture binds: a slot of the rebuilt table that holds no live
/// user texture and lies among the scene's textures gets the image view of
/// the texture's source image and the scene sampler the texture names (the
/// default sampler when it names none); a slot past the scene's textures
/// gets the fallback texture.
pub proof fn lemma_scene_texture_binding<X: Copy, M: Copy>(
    before: ResourceManager<X, M>,
    after: ResourceManager<X, M>,
    image_views: Seq<u64>,
    samplers: Seq<u64>,
    textures: Seq<SceneTexture>,
)
    requires
        textures.len() <= NUMBER_OF_SAMPLERS,
        forall|i: int|
            0 <= i < NUMBER_OF_SAMPLERS ==> #[trigger] after.texture_table()[i] == match before.user_binding(
                i as u32,
            ) {
                Some(b) => b,
                None => if i < textures.len() {
                    scene_binding(textures[i], image_views, samplers, before.default_sampler_handle())
                } else {
                    before.fallback()
                },
            },
    ensures
        forall|i: int|
            0 <= i < textures.len() && before.user_binding(i as u32) is None ==> {
                &&& (#[trigger] after.texture_table()[i]).image_view == image_views[textures[i].source as int]
                &&& textures[i].sampler matches Some(s) ==> after.texture_table()[i].sampler
                    == samplers[s as int]
                &&& textures[i].sampler is None ==> after.texture_table()[i].sampler
                    == before.default_sampler_handle()
            },
        forall|i: int|
            textures.len() <= i < NUMBER_OF_SAMPLERS && before.user_binding(i as u32) is None
                ==> #[trigger] after.texture_table()[i] == before.fallback(),
{
    assert forall|i: int| 0 <= i < textures.len() && before.user_binding(i as u32) is None implies {
        &&& (#[trigger] after.texture_table()[i]).image_view == image_views[textures[i].source as int]
        &&& textures[i].sampler matches Some(s) ==> after.texture_table()[i].sampler == samplers[s as int]
        &&& textures[i].sampler is None ==> after.texture_table()[i].sampler
            == before.default_sampler_handle()
    } by {
        assert(after.texture_table()[i] == scene_binding(
            textures[i],
            image_views,
            samplers,
            before.default_sampler_handle(),
        ));
    }
    assert forall|i: int|
        textures.len() <= i < NUMBER_OF_SAMPLERS && before.user_binding(i as u32) is None
            implies #[trigger] after.texture_table()[i] == before.fallback() by {
        assert(after.texture_table()[i] == before.fallback());
    }
}

proof fn lemma_scene_instance_map_untouched<X, M>(
    m: Map<u64, u64>,
    insts: Seq<SceneInstance<X, M>>,
    ids: Seq<EntityId>,
    key: u64,
)
    requires
        ids.len() == insts.len(),
        forall|k: int| 0 <= k < insts.len() ==> insts[k].slot != key,
    ensures
        scene_instance_map(m, insts, ids).contains_key(key) == m.contains_key(key),
        m.contains_key(key) ==> scene_instance_map(m, insts, ids)[key] == m[key],
    decreases insts.len(),
{
    if insts.len() > 0 {
        let n = insts.len() - 1;
        let pi = insts.drop_last();
        assert forall|k: int| 0 <= k < pi.len() implies pi[k].slot != key by {
            assert(pi[k] == insts[k]);
        }
        assert(insts[n].slot != key);
        lemma_scene_instance_map_untouched(m, pi, ids.drop_last(), key);
    }
}

proof fn lemma_scene_instance_map_set<X, M>(
    m: Map<u64, u64>,
    insts: Seq<SceneInstance<X, M>>,
    ids: Seq<EntityId>,
    k: int,
)
    requires
        ids.len() == insts.len(),
        0 <= k < insts.len(),
    ensures
        scene_instance_map(m, insts, ids).contains_key(insts[k].slot),
        (forall|l: int| k < l < insts.len() ==> insts[l].slot != insts[k].slot) ==> scene_instance_map(
            m,
            insts,
            ids,
        )[insts[k].slot] == ids[k].0,
    decreases insts.len(),
{
    let n = insts.len() - 1;
    if k < n {
        let pi = insts.drop_last();
        let pd = ids.drop_last();
        assert(pi[k] == insts[k]);
        lemma_scene_instance_map_set(m, pi, pd, k);
        assert(pd[k] == ids[k]);
        if forall|l: int| k < l < insts.len() ==> insts[l].slot != insts[k].slot {
            assert(insts[n].slot != insts[k].slot);
            assert forall|l: int| k < l < pi.len() implies pi[l].slot != pi[k].slot by {
                assert(pi[l] == insts[l]);
            }
        }
    }
}

/// What registering scene entities does to the instance map: each loaded
/// entity's arena slot is set, the last entity loaded into a slot names it,
/// and every key that is no loaded entity's slot keeps its presence and
/// value.
pub proof fn lemma_scene_instance_map_slots<X, M>(
    m: Map<u64, u64>,
    insts: Seq<SceneInstance<X, M>>,
    ids: Seq<EntityId>,
)
    requires
        ids.len() == insts.len(),
    ensures
        forall|key: u64|
            (forall|k: int| 0 <= k < insts.len() ==> insts[k].slot != key) ==> {
                &&& #[trigger] scene_instance_map(m, insts, ids).contains_key(key) == m.contains_key(key)
                &&& m.contains_key(key) ==> scene_instance_map(m, insts, ids)[key] == m[key]
            },
        forall|k: int|
            0 <= k < insts.len() ==> scene_instance_map(m, insts, ids).contains_key(
                (#[trigger] insts[k]).slot,
            ),
        forall|k: int|
            0 <= k < insts.len() && (forall|l: int| k < l < insts.len() ==> insts[l].slot
                != insts[k].slot) ==> scene_instance_map(m, insts, ids)[(#[trigger] insts[k]).slot]
                == ids[k].0,
{
    assert forall|key: u64| (forall|k: int| 0 <= k < insts.len() ==> insts[k].slot != key) implies {
        &&& #[trigger] scene_instance_map(m, insts, ids).contains_key(key) == m.contains_key(key)
        &&& m.contains_key(key) ==> scene_instance_map(m, insts, ids)[key] == m[key]
    } by {
        lemma_scene_instance_map_untouched(m, insts, ids, key);
    }
    assert forall|k: int| 0 <= k < insts.len() implies scene_instance_map(m, insts, ids).contains_key(
        (#[trigger] insts[k]).slot,
    ) by {
        lemma_scene_instance_map_set(m, insts, ids, k);
    }
    assert forall|k: int|
        0 <= k < insts.len() && (forall|l: int| k < l < insts.len() ==> insts[l].slot
            != insts[k].slot) implies scene_instance_map(m, insts, ids)[(#[trigger] insts[k]).slot]
        == ids[k].0 by {
        lemma_scene_instance_map_set(m, insts, ids, k);
    }
}

/// Whether triangle slot `t` lies in one of the half-open ranges `ranges`.
pub open spec fn in_some_range(ranges: Seq<(u32, u32)>, t: u32) -> bool {
    exists|r: int| 0 <= r < ranges.len() && ranges[r].0 <= t < (#[trigger] ranges[r]).1
}

/// The indirection entry for triangle slot `t` of the entity in `slot`.
pub open spec fn tagged_entry(t: u32, slot: u32) -> EmissiveIndirectionEntry {
    EmissiveIndirectionEntry { blas_tri_index: t, entity_id: slot }
}

proof fn lemma_range_entries_members(range: (u32, u32), slot: u32)
    ensures
        forall|j: int|
            0 <= j < range_entries(range, slot).len() ==> {
                &&& (#[trigger] range_entries(range, slot)[j]).entity_id == slot
                &&& range.0 <= range_entries(range, slot)[j].blas_tri_index < range.1
            },
        forall|t: u32|
            range.0 <= t < range.1 ==> #[trigger] range_entries(range, slot).contains(
                tagged_entry(t, slot),
            ),
{
    let re = range_entries(range, slot);
    assert forall|t: u32| range.0 <= t < range.1 implies #[trigger] re.contains(
        tagged_entry(t, slot),
    ) by {
        let j = t - range.0;
        assert(re[j] == tagged_entry(t, slot));
    }
}

proof fn lemma_ranges_entries_members(ranges: Seq<(u32, u32)>, slot: u32)
    ensures
        forall|j: int|
            0 <= j < ranges_entries(ranges, slot).len() ==> {
                &&& (#[trigger] ranges_entries(ranges, slot)[j]).entity_id == slot
                &&& in_some_range(ranges, ranges_entries(ranges, slot)[j].blas_tri_index)
            },
        forall|t: u32|
            #[trigger] in_some_range(ranges, t) ==> ranges_entries(ranges, slot).contains(
                tagged_entry(t, slot),
            ),
    decreases ranges.len(),
{
    if ranges.len() > 0 {
        let n = ranges.len() - 1;
        let front = ranges.drop_last();
        lemma_ranges_entries_members(front, slot);
        lemma_range_entries_members(ranges[n], slot);
        let a = ranges_entries(front, slot);
        let b = range_entries(ranges[n], slot);
        let all = ranges_entries(ranges, slot);
        assert(all == a + b);
        assert forall|j: int| 0 <= j < all.len() implies {
            &&& (#[trigger] all[j]).entity_id == slot
            &&& in_some_range(ranges, all[j].blas_tri_index)
        } by {
            if j < a.len() {
                assert(all[j] == a[j]);
                let r = choose|r: int|
                    0 <= r < front.len() && front[r].0 <= a[j].blas_tri_index < (
                    #[trigger] front[r]).1;
                assert(ranges[r] == front[r]);
            } else {
                assert(all[j] == b[j - a.len()]);
                assert(ranges[n].0 <= all[j].blas_tri_index < ranges[n].1);
            }
        }
        assert forall|t: u32| #[trigger] in_some_range(ranges, t) implies all.contains(
            tagged_entry(t, slot),
        ) by {
            let x = tagged_entry(t, slot);
            let r = choose|r: int| 0 <= r < ranges.len() && ranges[r].0 <= t < (#[trigger] ranges[r]).1;
            if r < n {
                assert(front[r] == ranges[r]);
                assert(in_some_range(front, t));
                assert(a.contains(x));
                let j = choose|j: int| 0 <= j < a.len() && a[j] == x;
                assert(all[j] == x);
            } else {
                assert(b.contains(x));
                let j = choose|j: int| 0 <= j < b.len() && b[j] == x;
                assert(all[a.len() + j] == x);
            }
        }
    }
}

/// The emissive ranges of the mesh entity `e` instances.
pub open spec fn entity_ranges<X, M>(e: Entity<X, M>, blases: Map<u64, BlasRecord>) -> Seq<(u32, u32)> {
    blases[e.blas_index].emissive_triangle_ranges@
}

proof fn lemma_entities_entries_members<X, M>(
    ids: Seq<u64>,
    entities: Map<u64, Entity<X, M>>,
    blases: Map<u64, BlasRecord>,
)
    ensures
        forall|j: int|
            0 <= j < entities_entries(ids, entities, blases).len() ==> exists|a: int|
                0 <= a < ids.len() && (#[trigger] entities_entries(ids, entities, blases)[j]).entity_id
                    == (entities[ids[a]].blas_instance_index as u32) && in_some_range(
                    entity_ranges(entities[ids[a]], blases),
                    entities_entries(ids, entities, blases)[j].blas_tri_index,
                ),
        forall|a: int, t: u32|
            0 <= a < ids.len() && #[trigger] in_some_range(entity_ranges(entities[ids[a]], blases), t)
                ==> entities_entries(ids, entities, blases).contains(
                tagged_entry(t, entities[ids[a]].blas_instance_index as u32),
            ),
    decreases ids.len(),
{
    if ids.len() > 0 {
        let n = ids.len() - 1;
        let front = ids.drop_last();
        lemma_entities_entries_members(front, entities, blases);
        let e = entities[ids[n]];
        let ranges = entity_ranges(e, blases);
        let slot = e.blas_instance_index as u32;
        lemma_ranges_entries_members(ranges, slot);
        let a_s = entities_entries(front, entities, blases);
        let b_s = entity_entries(e, blases);
        let all = entities_entries(ids, entities, blases);
        assert(all == a_s + b_s);
        assert forall|j: int| 0 <= j < all.len() implies exists|a: int|
            0 <= a < ids.len() && (#[trigger] all[j]).entity_id == (
            entities[ids[a]].blas_instance_index as u32) && in_some_range(
                entity_ranges(entities[ids[a]], blases),
                all[j].blas_tri_index,
            ) by {
            if j < a_s.len() {
                assert(all[j] == a_s[j]);
                let a = choose|a: int|
                    0 <= a < front.len() && (#[trigger] a_s[j]).entity_id == (
                    entities[front[a]].blas_instance_index as u32) && in_some_range(
                        entity_ranges(entities[front[a]], blases),
                        a_s[j].blas_tri_index,
                    );
                assert(front[a] == ids[a]);
            } else {
                assert(all[j] == b_s[j - a_s.len()]);
                assert(b_s[j - a_s.len()].entity_id == slot);
                assert(in_some_range(ranges, all[j].blas_tri_index));
            }
        }
        assert forall|a: int, t: u32|
            0 <= a < ids.len() && #[trigger] in_some_range(entity_ranges(entities[ids[a]], blases), t)
                implies all.contains(tagged_entry(t, entities[ids[a]].blas_instance_index as u32)) by {
            let x = tagged_entry(t, entities[ids[a]].blas_instance_index as u32);
            if a < n {
                assert(front[a] == ids[a]);
                assert(in_some_range(entity_ranges(entities[front[a]], blases), t));
                assert(a_s.contains(x));
                let j = choose|j: int| 0 <= j < a_s.len() && a_s[j] == x;
                assert(all[j] == x);
            } else {
                assert(in_some_range(ranges, t));
                assert(b_s.contains(x));
                let j = choose|j: int| 0 <= j < b_s.len() && b_s[j] == x;
                assert(all[a_s.len() + j] == x);
            }
        }
    }
}

/// What the emissive indirection list holds: every entry is the dummy entry
/// or an emissive triangle slot of some entity's mesh, tagged with that
/// entity's arena slot (cut to 32 bits); and for every entity, every slot
/// in its mesh's emissive ranges is listed, tagged with the entity's slot.
pub proof fn lemma_indirection_entries_members<X, M>(
    entities: Map<u64, Entity<X, M>>,
    blases: Map<u64, BlasRecord>,
)
    requires
        entities.dom().finite(),
    ensures
        forall|j: int|
            0 <= j < indirection_entries(entities, blases).len() ==> #[trigger] indirection_entries(
                entities,
                blases,
            )[j] == dummy_indirection_entry() || exists|key: u64|
                entities.contains_key(key) && indirection_entries(entities, blases)[j].entity_id == (
                entities[key].blas_instance_index as u32) && in_some_range(
                    entity_ranges(entities[key], blases),
                    indirection_entries(entities, blases)[j].blas_tri_index,
                ),
        forall|key: u64, t: u32|
            entities.contains_key(key) && #[trigger] in_some_range(
                entity_ranges(entities[key], blases),
                t,
            ) ==> indirection_entries(entities, blases).contains(
                tagged_entry(t, entities[key].blas_instance_index as u32),
            ),
{
    let ids = key_listing(entities.dom());
    crate::ordered::lemma_key_listing_exists(entities.dom());
    lemma_entities_entries_members(ids, entities, blases);
    let e = entities_entries(ids, entities, blases);
    let all = indirection_entries(entities, blases);
    assert forall|j: int| 0 <= j < all.len() implies #[trigger] all[j] == dummy_indirection_entry()
        || exists|key: u64|
        entities.contains_key(key) && all[j].entity_id == (entities[key].blas_instance_index as u32)
            && in_some_range(entity_ranges(entities[key], blases), all[j].blas_tri_index) by {
        if e.len() > 0 {
            assert(all[j] == e[j]);
            let a = choose|a: int|
                0 <= a < ids.len() && (#[trigger] e[j]).entity_id == (
                entities[ids[a]].blas_instance_index as u32) && in_some_range(
                    entity_ranges(entities[ids[a]], blases),
                    e[j].blas_tri_index,
                );
            assert(ids.to_set().contains(ids[a]));
            assert(entities.contains_key(ids[a]));
        }
    }
    assert forall|key: u64, t: u32|
        entities.contains_key(key) && #[trigger] in_some_range(entity_ranges(entities[key], blases), t)
            implies all.contains(tagged_entry(t, entities[key].blas_instance_index as u32)) by {
        assert(ids.to_set().contains(key));
        let a = choose|a: int| 0 <= a < ids.len() && ids[a] == key;
        assert(in_some_range(entity_ranges(entities[ids[a]], blases), t));
        let x = tagged_entry(t, entities[key].blas_instance_index as u32);
        assert(e.contains(x));
        assert(e.len() > 0);
        assert(all == e);
    }
}

} // verus!
