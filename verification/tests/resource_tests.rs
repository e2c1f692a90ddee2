use std::collections::BTreeMap;
use sunray::copies::BufferCopy;
use sunray::keys::generate;
use sunray::resource_manager::{
    emissive_slot_range, emissive_triangle_count, mesh_emissive_ranges, BlasRecord, EmissiveIndirectionEntry, EntityGpuData, ResourceError,
    ResourceManager, SceneInstance, SceneTexture, TextureBinding, NUMBER_OF_SAMPLERS,
};
use sunray::{EntityId, MeshHandle, TextureHandle};

type Xform = [f32; 12];
const IDENTITY: Xform = [1.0, 0.0, 0.0, 0.0, 0.0, 1.0, 0.0, 0.0, 0.0, 0.0, 1.0, 0.0];
const SHIFTED: Xform = [1.0, 0.0, 0.0, 5.0, 0.0, 1.0, 0.0, 0.0, 0.0, 0.0, 1.0, 0.0];

const FALLBACK: TextureBinding = TextureBinding { sampler: 900, image_view: 901 };
const DEFAULT_SAMPLER: u64 = 777;

fn manager() -> ResourceManager<Xform, u32> {
    ResourceManager::new_empty(FALLBACK, DEFAULT_SAMPLER)
}

fn copy(n: u64) -> BufferCopy {
    BufferCopy { src: 1, dst: 2, src_offset: n, dst_offset: n, size: 16 }
}

fn blas(ranges: Vec<(u32, u32)>) -> BlasRecord {
    BlasRecord { vertex_buffer_address: 0x1000, index_buffer_address: 0x2000, emissive_triangle_ranges: ranges }
}

#[test]
fn new_empty_state() {
    let rm = manager();
    assert_eq!(rm.get_textures().len(), NUMBER_OF_SAMPLERS);
    assert!(rm.get_textures().iter().all(|b| *b == FALLBACK));
    assert!(rm.entity_data().is_empty());
    assert!(rm.blases().is_empty());
    assert_eq!(rm.default_sampler(), DEFAULT_SAMPLER);
    assert_eq!(rm.emissive_indirection(), &vec![EmissiveIndirectionEntry { blas_tri_index: 0, entity_id: 0 }]);
}

#[test]
fn generate_returns_absent_key() {
    let mut map: BTreeMap<u64, ()> = BTreeMap::new();
    for _ in 0..200 {
        let k = generate(&map);
        assert!(!map.contains_key(&k));
        map.insert(k, ());
    }
    assert_eq!(map.len(), 200);
}

#[test]
fn create_get_destroy_entity() {
    let mut rm = manager();
    let mesh = rm.create_mesh(blas(vec![]));
    let id = rm.new_entity_id();
    assert!(rm.get_entity(id).is_none());
    let gpu = rm.entity_gpu_data(mesh.0, 3);
    assert_eq!((gpu.vertex_buffer, gpu.index_buffer, gpu.material), (0x1000, 0x2000, 3));
    let created = rm.create_entity(id, mesh.0, 3, IDENTITY, 7, copy(100), copy(200));
    assert_eq!(created, id);
    let e = rm.get_entity(id).unwrap();
    assert_eq!((e.id, e.blas_index, e.material, e.blas_instance_index), (id, mesh.0, 3, 7));
    assert_eq!(rm.get_entity_transform(id), Some(IDENTITY));
    assert_eq!(rm.instance_to_entity().get(&7), Some(&id.0));

    let removed = rm.destroy_entity(id).unwrap();
    assert_eq!(removed.blas_instance_index, 7);
    assert!(rm.get_entity(id).is_none());
    assert!(rm.get_entity_transform(id).is_none());
    assert!(rm.instance_to_entity().is_empty());
    assert!(rm.entity_data().is_empty());
    // destroying again changes nothing
    assert!(rm.destroy_entity(id).is_none());
}

#[test]
fn set_transform_and_material() {
    let mut rm = manager();
    let mesh = rm.create_mesh(blas(vec![]));
    let id = rm.new_entity_id();
    rm.create_entity(id, mesh.0, 1, IDENTITY, 0, copy(100), copy(200));
    assert!(rm.set_entity_transform(id, SHIFTED, copy(5)));
    assert_eq!(rm.get_entity_transform(id), Some(SHIFTED));
    let data: Option<EntityGpuData<u32>> = rm.set_entity_material(id, 9, copy(6));
    let data = data.unwrap();
    assert_eq!((data.vertex_buffer, data.index_buffer, data.material), (0x1000, 0x2000, 9));
    assert_eq!(rm.get_entity(id).unwrap().material, 9);
    assert_eq!(rm.get_entity(id).unwrap().blas_index, mesh.0);

    let missing = EntityId(id.0.wrapping_add(1));
    assert!(!rm.set_entity_transform(missing, IDENTITY, copy(7)));
    assert!(rm.set_entity_material(missing, 4, copy(8)).is_none());
    assert_eq!(rm.entity_data().len(), 1);
}

#[test]
fn clone_entity_shares_mesh_and_material() {
    let mut rm = manager();
    let mesh = rm.create_mesh(blas(vec![]));
    let src = rm.new_entity_id();
    rm.create_entity(src, mesh.0, 5, IDENTITY, 0, copy(100), copy(200));
    let id = rm.new_entity_id();
    assert_ne!(id, src);
    assert_eq!(rm.clone_entity(src, id, SHIFTED, 1, copy(300), copy(400)), Ok(id));
    let e = rm.get_entity(id).unwrap();
    assert_eq!((e.blas_index, e.material, e.blas_instance_index), (mesh.0, 5, 1));
    assert_eq!(e.transform, SHIFTED);

    let missing = rm.new_entity_id();
    assert_eq!(rm.clone_entity(missing, missing, IDENTITY, 2, copy(300), copy(400)), Err(ResourceError::NoEntity(missing.0)));
    assert_eq!(rm.entity_data().len(), 2);
    assert!(rm.instance_to_entity().get(&2).is_none());
}

#[test]
fn meshes_create_destroy() {
    let mut rm = manager();
    let a = rm.create_mesh(blas(vec![(0, 2)]));
    let b = rm.create_mesh(blas(vec![]));
    assert_ne!(a, b);
    assert_eq!(rm.blases().len(), 2);
    rm.destroy_mesh(a);
    assert!(!rm.blases().contains_key(&a.0));
    rm.destroy_mesh(MeshHandle(a.0));
    assert_eq!(rm.blases().len(), 1);
}

#[test]
fn images_add_get_remove() {
    let mut rm = manager();
    let a = rm.add_image(11);
    let b = rm.add_image(12);
    assert_ne!(a, b);
    assert_eq!(rm.get_image(a), Some(11));
    assert_eq!(rm.get_image(b), Some(12));
    rm.remove_image(a);
    assert_eq!(rm.get_image(a), None);
    rm.remove_image(a);
    assert_eq!(rm.get_image(b), Some(12));
}

#[test]
fn set_textures_scene_then_fallback() {
    let mut rm = manager();
    let views = vec![100, 101];
    let samplers = vec![200];
    let textures = vec![
        SceneTexture { sampler: Some(0), source: 1 },
        SceneTexture { sampler: None, source: 0 },
    ];
    rm.set_textures(&views, &samplers, &textures);
    let t = rm.get_textures();
    assert_eq!(t.len(), NUMBER_OF_SAMPLERS);
    assert_eq!(t[0], TextureBinding { sampler: 200, image_view: 101 });
    assert_eq!(t[1], TextureBinding { sampler: DEFAULT_SAMPLER, image_view: 100 });
    assert!(t[2..].iter().all(|b| *b == FALLBACK));
}

#[test]
fn create_texture_slots_top_down() {
    let mut rm = manager();
    let h1 = rm.create_texture(50, 60).unwrap();
    let h2 = rm.create_texture(51, 61).unwrap();
    assert_eq!(h1, TextureHandle(1023));
    assert_eq!(h2, TextureHandle(1022));
    assert_eq!(rm.get_textures()[1023], TextureBinding { sampler: 60, image_view: 50 });
    assert_eq!(rm.get_textures()[1022], TextureBinding { sampler: 61, image_view: 51 });
    let img = rm.user_texture_image(1023).unwrap();
    assert_eq!(rm.get_image(img), Some(50));
}

#[test]
fn user_texture_survives_set_textures() {
    let mut rm = manager();
    let h = rm.create_texture(50, 60).unwrap();
    let views = vec![100];
    let textures: Vec<SceneTexture> = (0..NUMBER_OF_SAMPLERS).map(|_| SceneTexture { sampler: None, source: 0 }).collect();
    rm.set_textures(&views, &vec![], &textures);
    let t = rm.get_textures();
    assert_eq!(t[h.slot()], TextureBinding { sampler: 60, image_view: 50 });
    assert_eq!(t[0], TextureBinding { sampler: DEFAULT_SAMPLER, image_view: 100 });
    assert_eq!(t[1022], TextureBinding { sampler: DEFAULT_SAMPLER, image_view: 100 });
}

#[test]
fn destroy_texture_reverts_to_fallback() {
    let mut rm = manager();
    let h = rm.create_texture(50, 60).unwrap();
    let img = rm.user_texture_image(h.0).unwrap();
    assert_eq!(rm.destroy_texture(h), Some(img));
    assert_eq!(rm.get_textures()[h.slot()], FALLBACK);
    assert_eq!(rm.get_image(img), None);
    assert_eq!(rm.user_texture_image(h.0), None);
    // the slot is not recycled
    let h2 = rm.create_texture(52, 62).unwrap();
    assert_eq!(h2, TextureHandle(1022));
    // releasing an unused slot or one past the table changes nothing
    assert_eq!(rm.destroy_texture(TextureHandle(5)), None);
    assert_eq!(rm.destroy_texture(TextureHandle(5000)), None);
    assert_eq!(rm.get_textures()[1022], TextureBinding { sampler: 62, image_view: 52 });
}

#[test]
fn create_texture_exhausts_slots() {
    let mut rm = manager();
    for i in 0..NUMBER_OF_SAMPLERS {
        let h = rm.create_texture(i as u64, 0).unwrap();
        assert_eq!(h.slot(), NUMBER_OF_SAMPLERS - 1 - i);
    }
    assert_eq!(rm.create_texture(5000, 0), Err(ResourceError::TextureSlotsExhausted));
    // a released slot is never handed out again, so creation keeps failing
    rm.destroy_texture(TextureHandle(10));
    assert_eq!(rm.create_texture(6000, 1), Err(ResourceError::TextureSlotsExhausted));
    assert_eq!(rm.get_textures()[0], TextureBinding { sampler: 0, image_view: 1023 });
    assert_eq!(rm.get_textures()[10], FALLBACK);
}

#[test]
fn emissive_indirection_in_id_order() {
    let mut rm = manager();
    let emissive = rm.create_mesh(blas(vec![(4, 6), (9, 10)]));
    let dark = rm.create_mesh(blas(vec![]));
    rm.rebuild_emissive_indirection();
    assert_eq!(rm.emissive_indirection(), &vec![EmissiveIndirectionEntry { blas_tri_index: 0, entity_id: 0 }]);

    rm.create_entity(EntityId(20), emissive.0, 0, IDENTITY, 3, copy(100), copy(200));
    rm.create_entity(EntityId(10), emissive.0, 0, IDENTITY, 8, copy(100), copy(200));
    rm.create_entity(EntityId(15), dark.0, 0, IDENTITY, 4, copy(100), copy(200));
    rm.rebuild_emissive_indirection();
    let e = |t: u32, s: u32| EmissiveIndirectionEntry { blas_tri_index: t, entity_id: s };
    assert_eq!(
        rm.emissive_indirection(),
        &vec![e(4, 8), e(5, 8), e(9, 8), e(4, 3), e(5, 3), e(9, 3)]
    );
}

#[test]
fn emissive_slot_range_exact() {
    assert_eq!(emissive_slot_range(&vec![]), (0, 0));
    assert_eq!(emissive_slot_range(&vec![7]), (7, 8));
    assert_eq!(emissive_slot_range(&vec![3, 4, 5]), (3, 6));
}

#[test]
fn start_of_frame_keeps_last_copy_per_region() {
    let mut rm = manager();
    assert!(rm.start_of_frame().is_empty());
    let c = |src: u64, dst: u64, off: u64, size: u64| BufferCopy { src, dst, src_offset: src, dst_offset: off, size };
    rm.copy_commands_queue(c(1, 10, 0, 64));
    rm.copy_commands_queue(c(2, 10, 64, 64));
    rm.copy_commands_queue(c(3, 10, 0, 64));
    rm.copy_commands_queue(c(4, 11, 0, 64));
    rm.copy_commands_queue(c(5, 10, 0, 32));
    let merged = rm.start_of_frame();
    assert_eq!(merged, vec![c(2, 10, 64, 64), c(3, 10, 0, 64), c(4, 11, 0, 64), c(5, 10, 0, 32)]);
    assert!(rm.start_of_frame().is_empty());
}

#[test]
fn empty_out_resets() {
    let mut rm = manager();
    let mesh = rm.create_mesh(blas(vec![]));
    let id = rm.new_entity_id();
    rm.create_entity(id, mesh.0, 0, IDENTITY, 0, copy(100), copy(200));
    rm.create_texture(1, 2).unwrap();
    let fresh = TextureBinding { sampler: 1, image_view: 2 };
    let rm = rm.empty_out(fresh, 3);
    assert!(rm.entity_data().is_empty());
    assert!(rm.blases().is_empty());
    assert!(rm.get_textures().iter().all(|b| *b == fresh));
}

#[test]
fn register_scene_blases_maps_in_order() {
    let mut rm = manager();
    let existing = rm.create_mesh(blas(vec![]));
    let records = vec![blas(vec![(0, 1)]), blas(vec![(1, 3)]), blas(vec![])];
    let ids = rm.register_scene_blases(records);
    assert_eq!(ids.len(), 3);
    assert!(!ids.contains(&existing.0));
    assert_ne!(ids[0], ids[1]);
    assert_ne!(ids[1], ids[2]);
    assert_ne!(ids[0], ids[2]);
    assert_eq!(rm.blases()[&ids[0]].emissive_triangle_ranges, vec![(0, 1)]);
    assert_eq!(rm.blases()[&ids[1]].emissive_triangle_ranges, vec![(1, 3)]);
    assert!(rm.blases()[&ids[2]].emissive_triangle_ranges.is_empty());
    assert_eq!(rm.blases().len(), 4);
    assert!(rm.register_scene_blases(vec![]).is_empty());
}

#[test]
fn next_texture_slot_never_collides_before_zero() {
    let mut rm = manager();
    let mut seen = std::collections::BTreeSet::new();
    for _ in 0..100 {
        let h = rm.create_texture(1, 1).unwrap();
        assert!(seen.insert(h.0));
    }
    assert_eq!(seen.len(), 100);
}

#[test]
fn entity_updates_queue_their_uploads() {
    let mut rm = manager();
    let mesh = rm.create_mesh(blas(vec![]));
    let id = rm.new_entity_id();
    rm.create_entity(id, mesh.0, 1, IDENTITY, 0, copy(10), copy(11));
    assert!(rm.set_entity_transform(id, SHIFTED, copy(12)));
    assert!(rm.set_entity_material(id, 2, copy(13)).is_some());
    let other = rm.new_entity_id();
    assert_eq!(rm.clone_entity(id, other, IDENTITY, 1, copy(14), copy(15)), Ok(other));
    let missing = rm.new_entity_id();
    assert!(!rm.set_entity_transform(missing, IDENTITY, copy(16)));
    assert!(rm.set_entity_material(missing, 3, copy(17)).is_none());
    assert!(rm.clone_entity(missing, missing, IDENTITY, 2, copy(18), copy(19)).is_err());
    // every copy targets its own region, so all queued ones survive merging
    let merged = rm.start_of_frame();
    assert_eq!(merged, vec![copy(10), copy(11), copy(12), copy(13), copy(14), copy(15)]);
}

#[test]
fn emissive_triangles_queue_copies_and_span_slots() {
    let mut rm = manager();
    let copies = vec![copy(1), copy(2), copy(3)];
    assert_eq!(rm.add_blas_emissive_triangles(&vec![40, 41, 42], &copies), (40, 43));
    assert_eq!(rm.add_blas_emissive_triangles(&vec![], &vec![]), (0, 0));
    assert_eq!(rm.start_of_frame(), copies);
}

#[test]
fn mesh_emissive_ranges_by_emission_and_triangles() {
    assert_eq!(emissive_triangle_count(false, 36), 0);
    assert_eq!(emissive_triangle_count(true, 36), 12);
    assert_eq!(emissive_triangle_count(true, 7), 2);
    assert_eq!(emissive_triangle_count(true, 2), 0);
    assert!(mesh_emissive_ranges(false, 36, (0, 12)).is_empty());
    assert!(mesh_emissive_ranges(true, 2, (0, 0)).is_empty());
    assert_eq!(mesh_emissive_ranges(true, 36, (5, 17)), vec![(5, 17)]);
}

#[test]
fn destroy_entity_twice_is_once() {
    let mut rm = manager();
    let mesh = rm.create_mesh(blas(vec![]));
    let keep = rm.new_entity_id();
    rm.create_entity(keep, mesh.0, 1, IDENTITY, 0, copy(1), copy(2));
    let id = rm.new_entity_id();
    rm.create_entity(id, mesh.0, 1, IDENTITY, 1, copy(3), copy(4));
    assert!(rm.destroy_entity(id).is_some());
    assert!(rm.destroy_entity(id).is_none());
    assert_eq!(rm.entity_data().len(), 1);
    assert_eq!(rm.instance_to_entity().get(&0), Some(&keep.0));
}

#[test]
fn load_scene_registers_meshes_entities_textures_images() {
    let mut rm = manager();
    let user = rm.create_texture(50, 60).unwrap();
    let blases = vec![blas(vec![(0, 2)]), blas(vec![])];
    let inst = |b: usize, m: u32, slot: u64| SceneInstance {
        blas: b,
        material: m,
        transform: IDENTITY,
        slot,
        entity_copy: copy(10 + slot),
        transform_copy: copy(20 + slot),
    };
    let instances = vec![inst(0, 1, 0), inst(1, 2, 1), inst(0, 3, 2)];
    let views = vec![100, 101];
    let samplers = vec![200];
    let textures = vec![SceneTexture { sampler: Some(0), source: 1 }];
    let ids = rm.load_scene(blases, &views, &samplers, &textures, &vec![0, 1], &vec![copy(1), copy(2)], &instances);
    assert_eq!(ids.len(), 3);
    assert_ne!(ids[0], ids[1]);
    assert_ne!(ids[1], ids[2]);
    assert_ne!(ids[0], ids[2]);
    let e0 = *rm.get_entity(ids[0]).unwrap();
    let e1 = *rm.get_entity(ids[1]).unwrap();
    let e2 = *rm.get_entity(ids[2]).unwrap();
    assert_eq!(e0.blas_index, e2.blas_index);
    assert_ne!(e0.blas_index, e1.blas_index);
    assert_eq!((e0.material, e1.material, e2.material), (1, 2, 3));
    assert_eq!((e0.blas_instance_index, e1.blas_instance_index, e2.blas_instance_index), (0, 1, 2));
    assert_eq!(rm.blases()[&e0.blas_index].emissive_triangle_ranges, vec![(0, 2)]);
    assert!(rm.blases()[&e1.blas_index].emissive_triangle_ranges.is_empty());
    assert_eq!(rm.blases().len(), 2);
    assert_eq!(rm.get_textures()[0], TextureBinding { sampler: 200, image_view: 101 });
    assert_eq!(rm.get_textures()[user.slot()], TextureBinding { sampler: 60, image_view: 50 });
    assert_eq!(rm.get_textures()[1], FALLBACK);
    assert_eq!(rm.emissive_indirection().len(), 4);
    for slot in 0..3u64 {
        assert!(rm.instance_to_entity().contains_key(&slot));
    }
    let merged = rm.start_of_frame();
    assert_eq!(merged, vec![copy(1), copy(2), copy(10), copy(20), copy(11), copy(21), copy(12), copy(22)]);
}

#[test]
fn texture_slots_never_repeat_over_history() {
    let mut rm = manager();
    let mut seen = std::collections::BTreeSet::new();
    for round in 0..50u64 {
        let h = rm.create_texture(round, round).unwrap();
        assert!(seen.insert(h.0));
        if round % 3 == 0 {
            rm.destroy_texture(h);
        }
    }
}

#[test]
fn user_texture_survives_reloads_and_other_operations() {
    let mut rm = manager();
    let h = rm.create_texture(50, 60).unwrap();
    let other = rm.create_texture(51, 61).unwrap();
    let extra = rm.add_image(77);
    rm.remove_image(extra);
    rm.destroy_texture(other);
    let textures: Vec<SceneTexture> = (0..NUMBER_OF_SAMPLERS).map(|_| SceneTexture { sampler: None, source: 0 }).collect();
    rm.set_textures(&vec![100], &vec![], &textures);
    rm.create_texture(52, 62).unwrap();
    rm.set_textures(&vec![101], &vec![], &textures);
    assert_eq!(rm.get_textures()[h.slot()], TextureBinding { sampler: 60, image_view: 50 });
    assert_eq!(rm.get_textures()[other.slot()], TextureBinding { sampler: DEFAULT_SAMPLER, image_view: 101 });
}
