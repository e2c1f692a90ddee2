use sunray::material::{texture_index, NULL_TEXTURE_INDEX};
use sunray::mesh::{
    cube_indices, emissive_triangle_corners, plane_indices, sphere_indices, sphere_resolution,
    sphere_vertex_count, vertex_attribute, CUBE_VERTEX_COUNT, PLANE_VERTEX_COUNT,
};
use sunray::TextureHandle;

#[test]
fn texture_handle_slot_is_inner_value() {
    assert_eq!(TextureHandle(0).slot(), 0);
    assert_eq!(TextureHandle(1023).slot(), 1023);
    assert_eq!(TextureHandle(u32::MAX).slot(), u32::MAX as usize);
}

#[test]
fn cube_indices_exact() {
    let idx = cube_indices();
    assert_eq!(idx.len(), 36);
    assert_eq!(&idx[0..6], &[0, 1, 2, 0, 2, 3]);
    assert_eq!(&idx[6..12], &[4, 5, 6, 4, 6, 7]);
    assert_eq!(&idx[30..36], &[20, 21, 22, 20, 22, 23]);
    assert!(idx.iter().all(|&i| (i as usize) < CUBE_VERTEX_COUNT));
}

#[test]
fn plane_indices_exact() {
    assert_eq!(plane_indices(), vec![0, 1, 2, 0, 2, 3]);
    assert!(plane_indices().iter().all(|&i| (i as usize) < PLANE_VERTEX_COUNT));
}

#[test]
fn sphere_resolution_clamps_to_three() {
    assert_eq!(sphere_resolution(0, 0), (3, 3));
    assert_eq!(sphere_resolution(2, 5), (3, 5));
    assert_eq!(sphere_resolution(16, 1), (16, 3));
    assert_eq!(sphere_resolution(32, 16), (32, 16));
}

#[test]
fn sphere_vertex_count_exact() {
    assert_eq!(sphere_vertex_count(3, 3), 16);
    assert_eq!(sphere_vertex_count(1, 1), 16);
    assert_eq!(sphere_vertex_count(32, 16), 17 * 33);
}

#[test]
fn sphere_indices_first_cell_and_bounds() {
    let idx = sphere_indices(4, 3);
    // lon = 4, lat = 3, row = 5
    assert_eq!(idx.len(), 3 * 4 * 6);
    // cell (0, 0): a = 0, b = 1, c = 5, d = 6
    assert_eq!(&idx[0..6], &[0, 5, 6, 0, 6, 1]);
    // cell (0, 1): a = 1, b = 2, c = 6, d = 7
    assert_eq!(&idx[6..12], &[1, 6, 7, 1, 7, 2]);
    // cell (1, 0): a = 5, b = 6, c = 10, d = 11
    assert_eq!(&idx[24..30], &[5, 10, 11, 5, 11, 6]);
    // last cell (2, 3): a = 13, b = 14, c = 18, d = 19
    assert_eq!(&idx[66..72], &[13, 18, 19, 13, 19, 14]);
    let vertices = sphere_vertex_count(4, 3) as u32;
    assert_eq!(vertices, 20);
    assert!(idx.iter().all(|&i| i < vertices));
}

#[test]
fn sphere_indices_clamped_low_resolution() {
    assert_eq!(sphere_indices(0, 0), sphere_indices(3, 3));
    assert_eq!(sphere_indices(1, 2).len(), 54);
}

#[test]
fn vertex_attribute_defaults_when_missing_or_short() {
    let normals: Vec<[f32; 3]> = vec![[0.0, 1.0, 0.0]];
    let out = vertex_attribute(Some(&normals), 3, [0.0, 0.0, 0.0]);
    assert_eq!(out, vec![[0.0, 1.0, 0.0], [0.0, 0.0, 0.0], [0.0, 0.0, 0.0]]);

    let none: Option<&Vec<[f32; 2]>> = None;
    assert_eq!(vertex_attribute(none, 2, [0.0, 0.0]), vec![[0.0, 0.0], [0.0, 0.0]]);

    let uvs: Vec<[f32; 2]> = vec![[0.5, 0.25], [1.0, 1.0], [0.0, 1.0]];
    assert_eq!(vertex_attribute(Some(&uvs), 2, [0.0, 0.0]), vec![[0.5, 0.25], [1.0, 1.0]]);
    assert!(vertex_attribute(Some(&uvs), 0, [0.0, 0.0]).is_empty());
}

#[test]
fn emissive_corners_per_complete_triangle() {
    let positions: Vec<[f32; 3]> =
        vec![[0.0, 0.0, 0.0], [1.0, 0.0, 0.0], [0.0, 1.0, 0.0], [1.0, 1.0, 0.0]];
    let indices = vec![0, 1, 2, 2, 1, 3, 0];
    let corners = emissive_triangle_corners(&positions, &indices);
    assert_eq!(corners.len(), 2);
    assert_eq!(corners[0], (positions[0], positions[1], positions[2]));
    assert_eq!(corners[1], (positions[2], positions[1], positions[3]));
    assert!(emissive_triangle_corners(&positions, &vec![3, 2]).is_empty());
}

#[test]
fn texture_index_encoding() {
    assert_eq!(texture_index(None), NULL_TEXTURE_INDEX);
    assert_eq!(NULL_TEXTURE_INDEX, u32::MAX);
    assert_eq!(texture_index(Some(0)), 0);
    assert_eq!(texture_index(Some(7)), 7);
    assert_eq!(texture_index(Some(1023)), 1023);
}
