//! Integer side of the built-in meshes: index buffers (triangle topology),
//! vertex counts, per-vertex attribute defaults and the gathering of
//! emissive triangle corners. The floating-point coordinates are produced by
//! the caller in the order these indices refer to.
use vstd::prelude::*;

verus! {

/// Number of vertices of the flat-shaded cube: four per face, six faces.
pub const CUBE_VERTEX_COUNT: usize = 24;

/// Number of vertices of the plane.
pub const PLANE_VERTEX_COUNT: usize = 4;

/// Smallest number of rings and of slices a sphere is built with.
pub const MIN_SPHERE_SEGMENTS: u32 = 3;

/// The values of an index buffer, as mathematical integers.
pub open spec fn as_ints(s: Seq<u32>) -> Seq<int> {
    s.map_values(|x: u32| x as int)
}

/// The two triangles `(b, b+1, b+2)` and `(b, b+2, b+3)` of a quad whose
/// four corners are the consecutive vertices starting at `b`.
pub open spec fn quad(b: int) -> Seq<int> {
    seq![b, b + 1, b + 2, b, b + 2, b + 3]
}

/// Index buffer of the first `faces` cube faces; face `f` owns the vertices
/// `4 * f .. 4 * f + 4`.
spec fn cube_faces(faces: nat) -> Seq<int>
    decreases faces,
{
    if faces == 0 {
        Seq::empty()
    } else {
        cube_faces((faces - 1) as nat) + quad(4 * (faces - 1))
    }
}

/// Corner `k` (`0 <= k < 6`) of the two triangles `(0, 1, 2)` and
/// `(0, 2, 3)` of a quad, relative to the quad's first vertex.
pub open spec fn quad_corner(k: int) -> int {
    if k == 0 || k == 3 {
        0
    } else if k == 1 {
        1
    } else if k == 2 || k == 4 {
        2
    } else {
        3
    }
}

/// Index buffer of the whole cube: entry `n` is corner `n % 6` of face
/// `n / 6`, whose vertices are `4 * (n / 6) .. 4 * (n / 6) + 4`.
pub open spec fn cube_index_buffer() -> Seq<int> {
    Seq::new(36, |n: int| 4 * (n / 6) + quad_corner(n % 6))
}

proof fn lemma_cube_faces_closed(faces: nat)
    ensures
        cube_faces(faces).len() == 6 * faces,
        forall|n: int|
            0 <= n < 6 * faces ==> #[trigger] cube_faces(faces)[n] == 4 * (n / 6) + quad_corner(
                n % 6,
            ),
    decreases faces,
{
    if faces > 0 {
        let m = (faces - 1) as nat;
        lemma_cube_faces_closed(m);
        let prev = cube_faces(m);
        assert forall|n: int| 0 <= n < 6 * faces implies #[trigger] cube_faces(faces)[n] == 4 * (n
            / 6) + quad_corner(n % 6) by {
            if n < 6 * m {
                assert(cube_faces(faces)[n] == prev[n]);
            } else {
                let k = n - 6 * m;
                assert(n / 6 == m as int && n % 6 == k) by (nonlinear_arith)
                    requires
                        n == 6 * m + k,
                        0 <= k < 6,
                ;
                assert(cube_faces(faces)[n] == quad((4 * m) as int)[k]);
            }
        }
    }
}

/// Index buffer of the plane: one quad over its four vertices.
pub open spec fn plane_index_buffer() -> Seq<int> {
    quad(0)
}

/// Whether every index of `s` names one of the first `n` vertices.
pub open spec fn indices_below(s: Seq<int>, n: int) -> bool {
    forall|k: int| 0 <= k < s.len() ==> 0 <= #[trigger] s[k] < n
}

proof fn lemma_cube_faces(faces: nat)
    ensures
        cube_faces(faces).len() == 6 * faces,
        indices_below(cube_faces(faces), (4 * faces) as int),
    decreases faces,
{
    if faces > 0 {
        lemma_cube_faces((faces - 1) as nat);
        let prev = cube_faces((faces - 1) as nat);
        let q = quad(4 * (faces - 1));
        assert forall|k: int| 0 <= k < cube_faces(faces).len() implies 0 <= #[trigger] cube_faces(
            faces,
        )[k] < 4 * faces by {
            if k < prev.len() {
                assert(cube_faces(faces)[k] == prev[k]);
            } else {
                assert(cube_faces(faces)[k] == q[k - prev.len()]);
            }
        }
    }
}

/// Index buffer of the flat-shaded cube: two triangles per face, each face
/// over its own four vertices.
pub fn cube_indices() -> (indices: Vec<u32>)
    ensures
        as_ints(indices@) == cube_index_buffer(),
        indices.len() == 36,
        indices_below(as_ints(indices@), CUBE_VERTEX_COUNT as int),
{
    let mut indices: Vec<u32> = Vec::new();
    let mut face: u32 = 0;
    while face < 6
        invariant
            face <= 6,
            as_ints(indices@) == cube_faces(face as nat),
        decreases 6 - face,
    {
        let base: u32 = face * 4;
        indices.push(base);
        indices.push(base + 1);
        indices.push(base + 2);
        indices.push(base);
        indices.push(base + 2);
        indices.push(base + 3);
        assert(as_ints(indices@) =~= cube_faces((face + 1) as nat));
        face = face + 1;
    }
    proof {
        lemma_cube_faces(6);
        lemma_cube_faces_closed(6);
        assert(cube_faces(6) =~= cube_index_buffer());
    }
    indices
}

/// Index buffer of the plane: the quad over its four corners.
pub fn plane_indices() -> (indices: Vec<u32>)
    ensures
        as_ints(indices@) == plane_index_buffer(),
        indices.len() == 6,
        indices_below(as_ints(indices@), PLANE_VERTEX_COUNT as int),
{
    let indices: Vec<u32> = vec![0, 1, 2, 0, 2, 3];
    assert(as_ints(indices@) =~= plane_index_buffer());
    indices
}

/// The grid resolution `(longitudes, latitudes)` a sphere is actually built
/// with: each requested count clamped to at least three.
pub open spec fn sphere_grid(longitudes: u32, latitudes: u32) -> (u32, u32) {
    (
        if longitudes < MIN_SPHERE_SEGMENTS { MIN_SPHERE_SEGMENTS } else { longitudes },
        if latitudes < MIN_SPHERE_SEGMENTS { MIN_SPHERE_SEGMENTS } else { latitudes },
    )
}

/// Whether the vertex count `(lat + 1) * (lon + 1)` and the index count
/// `lat * lon * 6` of the clamped sphere grid fit in a `u32`.
pub open spec fn sphere_fits(longitudes: u32, latitudes: u32) -> bool {
    let (lon, lat) = sphere_grid(longitudes, latitudes);
    &&& (lat + 1) * (lon + 1) <= u32::MAX
    &&& lat * lon * 6 <= u32::MAX
}

/// The two triangles of the grid cell whose top-left vertex is `a`, on a grid
/// with `row` vertices per ring.
pub open spec fn sphere_cell(a: int, row: int) -> Seq<int> {
    seq![a, a + row, a + row + 1, a, a + row + 1, a + 1]
}

/// Triangles of the first `j` cells of ring `i`.
spec fn sphere_ring(i: int, row: int, j: nat) -> Seq<int>
    decreases j,
{
    if j == 0 {
        Seq::empty()
    } else {
        sphere_ring(i, row, (j - 1) as nat) + sphere_cell(i * row + (j - 1), row)
    }
}

/// Triangles of the first `i` rings of a grid with `lon` cells per ring.
spec fn sphere_rings(lon: nat, i: nat) -> Seq<int>
    decreases i,
{
    if i == 0 {
        Seq::empty()
    } else {
        sphere_rings(lon, (i - 1) as nat) + sphere_ring(i - 1, (lon + 1) as int, lon)
    }
}

/// Entry `n` of the index buffer of a sphere grid with `lon` cells per
/// ring: corner `n % 6` of cell `q = n / 6`, the cell of ring `q / lon` and
/// slice `q % lon`, whose corner vertex is `a = (q / lon) * (lon + 1) +
/// q % lon`; its corners are `a, a + lon + 1, a + lon + 2, a, a + lon + 2,
/// a + 1`.
pub open spec fn sphere_index_at(n: int, lon: int) -> int {
    let q = n / 6;
    let row = lon + 1;
    sphere_cell((q / lon) * row + q % lon, row)[n % 6]
}

/// Index buffer of the UV sphere built with the given requested resolution:
/// `lat * lon * 6` entries given by `sphere_index_at`.
pub open spec fn sphere_index_buffer(longitudes: u32, latitudes: u32) -> Seq<int> {
    let (lon, lat) = sphere_grid(longitudes, latitudes);
    Seq::new((lat * lon * 6) as nat, |n: int| sphere_index_at(n, lon as int))
}

proof fn lemma_sphere_ring_closed(i: int, row: int, j: nat)
    ensures
        sphere_ring(i, row, j).len() == 6 * j,
        forall|m: int|
            0 <= m < 6 * j ==> #[trigger] sphere_ring(i, row, j)[m] == sphere_cell(
                i * row + m / 6,
                row,
            )[m % 6],
    decreases j,
{
    if j > 0 {
        let jm = (j - 1) as nat;
        lemma_sphere_ring_closed(i, row, jm);
        let prev = sphere_ring(i, row, jm);
        assert forall|m: int| 0 <= m < 6 * j implies #[trigger] sphere_ring(i, row, j)[m]
            == sphere_cell(i * row + m / 6, row)[m % 6] by {
            if m < 6 * jm {
                assert(sphere_ring(i, row, j)[m] == prev[m]);
            } else {
                let k = m - 6 * jm;
                assert(m / 6 == jm as int && m % 6 == k) by (nonlinear_arith)
                    requires
                        m == 6 * jm + k,
                        0 <= k < 6,
                ;
                assert(sphere_ring(i, row, j)[m] == sphere_cell(i * row + jm, row)[k]);
            }
        }
    }
}

proof fn lemma_sphere_rings_closed(lon: nat, i: nat)
    requires
        lon > 0,
    ensures
        sphere_rings(lon, i).len() == 6 * lon * i,
        forall|n: int|
            0 <= n < 6 * lon * i ==> #[trigger] sphere_rings(lon, i)[n] == sphere_index_at(
                n,
                lon as int,
            ),
    decreases i,
{
    if i > 0 {
        let im = (i - 1) as nat;
        lemma_sphere_rings_closed(lon, im);
        let row = (lon + 1) as int;
        lemma_sphere_ring_closed(im as int, row, lon);
        let prev = sphere_rings(lon, im);
        let r = sphere_ring(im as int, row, lon);
        assert(6 * lon * im + 6 * lon == 6 * lon * i) by (nonlinear_arith)
            requires
                im + 1 == i,
        ;
        assert forall|n: int| 0 <= n < 6 * lon * i implies #[trigger] sphere_rings(lon, i)[n]
            == sphere_index_at(n, lon as int) by {
            if n < 6 * lon * im {
                assert(sphere_rings(lon, i)[n] == prev[n]);
            } else {
                let m = n - 6 * lon * im;
                assert(0 <= m < 6 * lon);
                assert(sphere_rings(lon, i)[n] == r[m]);
                let c = m / 6;
                let k = m % 6;
                assert(m == 6 * c + k && 0 <= k < 6 && 0 <= c < lon) by (nonlinear_arith)
                    requires
                        0 <= m < 6 * lon,
                        c == m / 6,
                        k == m % 6,
                ;
                let q = lon * im + c;
                assert(n == q * 6 + k) by (nonlinear_arith)
                    requires
                        n == 6 * lon * im + m,
                        m == 6 * c + k,
                        q == lon * im + c,
                ;
                vstd::arithmetic::div_mod::lemma_fundamental_div_mod_converse(n, 6, q, k);
                assert(q == im * lon + c) by (nonlinear_arith)
                    requires
                        q == lon * im + c,
                ;
                vstd::arithmetic::div_mod::lemma_fundamental_div_mod_converse(
                    q,
                    lon as int,
                    im as int,
                    c,
                );
            }
        }
    } else {
        assert(6 * lon * i == 0) by (nonlinear_arith)
            requires
                i == 0,
        ;
    }
}

/// Number of vertices of the UV sphere: `lat + 1` rings of `lon + 1` each.
pub open spec fn sphere_vertex_total(longitudes: u32, latitudes: u32) -> int {
    let (lon, lat) = sphere_grid(longitudes, latitudes);
    (lat + 1) * (lon + 1)
}

proof fn lemma_sphere_ring(i: int, row: int, j: nat)
    requires
        0 <= i,
        j < row,
    ensures
        sphere_ring(i, row, j).len() == 6 * j,
        forall|k: int|
            0 <= k < sphere_ring(i, row, j).len() ==> i * row <= #[trigger] sphere_ring(
                i,
                row,
                j,
            )[k] < (i + 2) * row,
    decreases j,
{
    if j > 0 {
        lemma_sphere_ring(i, row, (j - 1) as nat);
        let prev = sphere_ring(i, row, (j - 1) as nat);
        let c = sphere_cell(i * row + (j - 1), row);
        assert((i + 2) * row == i * row + 2 * row) by (nonlinear_arith);
        assert forall|k: int| 0 <= k < sphere_ring(i, row, j).len() implies i * row
            <= #[trigger] sphere_ring(i, row, j)[k] < (i + 2) * row by {
            if k < prev.len() {
                assert(sphere_ring(i, row, j)[k] == prev[k]);
            } else {
                assert(sphere_ring(i, row, j)[k] == c[k - prev.len()]);
            }
        }
    }
}

proof fn lemma_sphere_rings(lon: nat, i: nat)
    ensures
        sphere_rings(lon, i).len() == 6 * lon * i,
        indices_below(sphere_rings(lon, i), ((i + 1) * (lon + 1)) as int),
    decreases i,
{
    if i > 0 {
        lemma_sphere_rings(lon, (i - 1) as nat);
        lemma_sphere_ring(i - 1, (lon + 1) as int, lon);
        let prev = sphere_rings(lon, (i - 1) as nat);
        let r = sphere_ring(i - 1, (lon + 1) as int, lon);
        assert(prev.len() == 6 * lon * ((i - 1) as nat));
        assert(r.len() == 6 * lon);
        assert(6 * lon * ((i - 1) as nat) + 6 * lon == 6 * lon * i) by (nonlinear_arith)
            requires
                i >= 1,
        ;
        assert(i * (lon + 1) <= (i + 1) * (lon + 1)) by (nonlinear_arith);
        assert((i - 1 + 2) * (lon + 1) == (i + 1) * (lon + 1));
        assert forall|k: int| 0 <= k < sphere_rings(lon, i).len() implies 0 <= #[trigger] sphere_rings(
            lon,
            i,
        )[k] < (i + 1) * (lon + 1) by {
            if k < prev.len() {
                assert(sphere_rings(lon, i)[k] == prev[k]);
            } else {
                assert(sphere_rings(lon, i)[k] == r[k - prev.len()]);
                assert((i - 1) * (lon + 1) >= 0) by (nonlinear_arith)
                    requires
                        i >= 1,
                ;
            }
        }
    } else {
        assert(6 * lon * i == 0) by (nonlinear_arith)
            requires
                i == 0,
        ;
    }
}

/// The grid resolution `(longitudes, latitudes)` a sphere is built with:
/// each requested count is clamped to at least three.
pub fn sphere_resolution(longitudes: u32, latitudes: u32) -> (grid: (u32, u32))
    ensures
        grid == sphere_grid(longitudes, latitudes),
{
    let lon = if longitudes < MIN_SPHERE_SEGMENTS {
        MIN_SPHERE_SEGMENTS
    } else {
        longitudes
    };
    let lat = if latitudes < MIN_SPHERE_SEGMENTS {
        MIN_SPHERE_SEGMENTS
    } else {
        latitudes
    };
    (lon, lat)
}

/// Number of vertices of the UV sphere with the requested resolution; the
/// vertex of ring `i` and slice `j` is number `i * (lon + 1) + j`.
pub fn sphere_vertex_count(longitudes: u32, latitudes: u32) -> (count: usize)
    requires
        sphere_fits(longitudes, latitudes),
    ensures
        count == sphere_vertex_total(longitudes, latitudes),
{
    let (lon, lat) = sphere_resolution(longitudes, latitudes);
    assert(lat + 1 <= (lat + 1) * (lon + 1)) by (nonlinear_arith)
        requires
            lon >= 3,
    ;
    assert(lon + 1 <= (lat + 1) * (lon + 1)) by (nonlinear_arith)
        requires
            lat >= 3,
    ;
    ((lat + 1) * (lon + 1)) as usize
}

/// Index buffer of the UV sphere: for every grid cell, from ring to ring and
/// slice to slice, the triangles `(a, c, d)` and `(a, d, b)` where `a` is the
/// cell's corner, `b` its neighbour on the same ring and `c`, `d` the two
/// corners below them on the next ring.
pub fn sphere_indices(longitudes: u32, latitudes: u32) -> (indices: Vec<u32>)
    requires
        sphere_fits(longitudes, latitudes),
    ensures
        as_ints(indices@) == sphere_index_buffer(longitudes, latitudes),
        ({
            let (lon, lat) = sphere_grid(longitudes, latitudes);
            indices.len() == lat * lon * 6
        }),
        indices_below(as_ints(indices@), sphere_vertex_total(longitudes, latitudes)),
{
    let (lon, lat) = sphere_resolution(longitudes, latitudes);
    assert(lon + 1 <= (lat + 1) * (lon + 1)) by (nonlinear_arith)
        requires
            lat >= 3,
    ;
    let row: u32 = lon + 1;
    let mut indices: Vec<u32> = Vec::new();
    let mut i: u32 = 0;
    while i < lat
        invariant
            i <= lat,
            lat >= 3,
            lon >= 3,
            row == lon + 1,
            (lat + 1) * (lon + 1) <= u32::MAX,
            as_ints(indices@) == sphere_rings(lon as nat, i as nat),
        decreases lat - i,
    {
        let mut j: u32 = 0;
        while j < lon
            invariant
                i < lat,
                j <= lon,
                lat >= 3,
                lon >= 3,
                row == lon + 1,
                (lat + 1) * (lon + 1) <= u32::MAX,
                as_ints(indices@) == sphere_rings(lon as nat, i as nat) + sphere_ring(
                    i as int,
                    row as int,
                    j as nat,
                ),
            decreases lon - j,
        {
            assert((i + 1) * row + j + 1 <= (lat + 1) * (lon + 1)) by (nonlinear_arith)
                requires
                    i + 1 <= lat,
                    j < lon,
                    row == lon + 1,
            ;
            assert(i * row <= (i + 1) * row) by (nonlinear_arith);
            let a: u32 = i * row + j;
            let b: u32 = a + 1;
            let c: u32 = (i + 1) * row + j;
            let d: u32 = c + 1;
            assert(c == a + row) by (nonlinear_arith)
                requires
                    a == i * row + j,
                    c == (i + 1) * row + j,
            ;
            let ghost before = indices@;
            indices.push(a);
            indices.push(c);
            indices.push(d);
            indices.push(a);
            indices.push(d);
            indices.push(b);
            assert(indices@ == before + seq![a, c, d, a, d, b]);
            assert(sphere_ring(i as int, row as int, (j + 1) as nat) == sphere_ring(
                i as int,
                row as int,
                j as nat,
            ) + sphere_cell(i * row + j, row as int));
            assert(as_ints(seq![a, c, d, a, d, b]) =~= sphere_cell(i * row + j, row as int));
            assert(as_ints(before + seq![a, c, d, a, d, b]) =~= as_ints(before) + as_ints(
                seq![a, c, d, a, d, b],
            ));
            assert(as_ints(indices@) =~= sphere_rings(lon as nat, i as nat) + sphere_ring(
                i as int,
                row as int,
                (j + 1) as nat,
            ));
            j = j + 1;
        }
        assert(as_ints(indices@) =~= sphere_rings(lon as nat, (i + 1) as nat));
        i = i + 1;
    }
    proof {
        lemma_sphere_rings(lon as nat, lat as nat);
        lemma_sphere_rings_closed(lon as nat, lat as nat);
        assert(6 * lon * lat == lat * lon * 6) by (nonlinear_arith);
        assert(sphere_rings(lon as nat, lat as nat) =~= sphere_index_buffer(longitudes, latitudes));
    }
    indices
}

/// The attribute of vertex `i`: `values[i]` when the array is present and
/// long enough, else `default`.
pub open spec fn attribute_value<T>(values: Option<Seq<T>>, i: int, default: T) -> T {
    match values {
        Some(v) => if 0 <= i < v.len() { v[i] } else { default },
        None => default,
    }
}

/// The view of an optional per-vertex array.
pub open spec fn optional_view<T>(values: Option<&Vec<T>>) -> Option<Seq<T>> {
    match values {
        Some(v) => Some(v@),
        None => None,
    }
}

/// One attribute for each of the first `vertex_count` vertices: the
/// caller's value where the (optional) array has one, `default` where the
/// array is absent or too short.
pub fn vertex_attribute<T: Copy>(values: Option<&Vec<T>>, vertex_count: usize, default: T) -> (out:
    Vec<T>)
    ensures
        out.len() == vertex_count,
        forall|i: int|
            0 <= i < vertex_count ==> #[trigger] out@[i] == attribute_value(
                optional_view(values),
                i,
                default,
            ),
{
    let mut out: Vec<T> = Vec::new();
    let mut i: usize = 0;
    while i < vertex_count
        invariant
            i <= vertex_count,
            out.len() == i,
            forall|k: int|
                0 <= k < i ==> #[trigger] out@[k] == attribute_value(
                    optional_view(values),
                    k,
                    default,
                ),
        decreases vertex_count - i,
    {
        let value = match values {
            Some(v) => if i < v.len() {
                v[i]
            } else {
                default
            },
            None => default,
        };
        out.push(value);
        i = i + 1;
    }
    out
}

/// The corner positions of triangle `t`: the positions named by indices
/// `3t`, `3t + 1` and `3t + 2`.
pub open spec fn triangle_corners<T>(positions: Seq<T>, indices: Seq<u32>, t: int) -> (T, T, T) {
    (
        positions[indices[3 * t] as int],
        positions[indices[3 * t + 1] as int],
        positions[indices[3 * t + 2] as int],
    )
}

/// Whether every index of a complete triangle names an existing position;
/// a trailing incomplete triple is ignored.
pub open spec fn triangles_in_range(position_count: int, indices: Seq<u32>) -> bool {
    forall|k: int| 0 <= k < 3 * (indices.len() / 3) ==> #[trigger] indices[k] < position_count
}

/// The corners of every complete triangle of an index buffer, in order; a
/// trailing incomplete triple of indices is ignored.
pub fn emissive_triangle_corners<T: Copy>(positions: &Vec<T>, indices: &Vec<u32>) -> (corners: Vec<
    (T, T, T),
>)
    requires
        triangles_in_range(positions.len() as int, indices@),
    ensures
        corners.len() == indices.len() / 3,
        forall|t: int|
            0 <= t < corners.len() ==> #[trigger] corners@[t] == triangle_corners(
                positions@,
                indices@,
                t,
            ),
{
    let count = indices.len() / 3;
    let mut corners: Vec<(T, T, T)> = Vec::new();
    let mut t: usize = 0;
    while t < count
        invariant
            t <= count,
            count == indices.len() / 3,
            corners.len() == t,
            triangles_in_range(positions.len() as int, indices@),
            forall|s: int|
                0 <= s < t ==> #[trigger] corners@[s] == triangle_corners(
                    positions@,
                    indices@,
                    s,
                ),
        decreases count - t,
    {
        let k = 3 * t;
        assert(3 * t + 2 < 3 * (indices.len() / 3));
        let p0 = positions[indices[k] as usize];
        let p1 = positions[indices[k + 1] as usize];
        let p2 = positions[indices[k + 2] as usize];
        corners.push((p0, p1, p2));
        t = t + 1;
    }
    corners
}

} // verus!
