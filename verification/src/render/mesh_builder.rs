//! Which faces of a subchunk's cells are visible.
//!
//! A mesh is built from the visible faces: a face of a solid cell is drawn
//! when the cell next to it lets light through.  Turning faces into
//! vertices (positions, normals, colors) is the renderer's part.
use vstd::prelude::*;
use crate::manager::manager::ChunkManager;
use crate::voxel::format::{CELLS_PER_CHUNK, CHUNK_HEIGHT, CHUNK_SIDE, SUBCHUNK_HEIGHT, SUBCHUNK_SIDE,
    SUBCHUNKS_PER_CHUNK, SUBCHUNKS_X, SUBCHUNKS_Y, WINDOW_CHUNK_COUNT, WINDOW_SIDE, CELLS_PER_SUBCHUNK};
use crate::voxel::materials::{get_material, is_known_material, is_transparent, transparent_material, ids};
use crate::voxel::pool::ChunkPool;
use crate::voxel::topology::spec_cell_index;

verus! {

/// Most vertices a subchunk mesh can have: four per face, six faces per cell.
pub const MAX_VERTICES_PER_SUBCHUNK: usize = 98304;

/// Most indices a subchunk mesh can have: six per face, six faces per cell.
pub const MAX_INDICES_PER_SUBCHUNK: usize = 147456;

/// The six faces of a cell, by the offset to the neighbour they face:
/// up, down, +x, -x, +z, -z.
pub open spec fn face_offset(face: int) -> (int, int, int) {
    if face == 0 {
        (0, 1, 0)
    } else if face == 1 {
        (0, -1, 0)
    } else if face == 2 {
        (1, 0, 0)
    } else if face == 3 {
        (-1, 0, 0)
    } else if face == 4 {
        (0, 0, 1)
    } else {
        (0, 0, -1)
    }
}

/// Number of faces of a cell.
pub const FACE_COUNT: usize = 6;

/// The offset to the neighbour that face `face` faces.
pub fn face_neighbor_offset(face: usize) -> (r: (i64, i64, i64))
    requires
        face < FACE_COUNT,
    ensures
        (r.0 as int, r.1 as int, r.2 as int) == face_offset(face as int),
{
    if face == 0 {
        (0, 1, 0)
    } else if face == 1 {
        (0, -1, 0)
    } else if face == 2 {
        (1, 0, 0)
    } else if face == 3 {
        (-1, 0, 0)
    } else if face == 4 {
        (0, 0, 1)
    } else {
        (0, 0, -1)
    }
}

/// Local coordinates in its chunk of the lowest corner of subchunk `index`.
pub open spec fn spec_subchunk_origin(index: int) -> (int, int, int) {
    (
        (index % SUBCHUNKS_X as int) * SUBCHUNK_SIDE as int,
        ((index / SUBCHUNKS_X as int) % SUBCHUNKS_Y as int) * SUBCHUNK_HEIGHT as int,
        (index / (SUBCHUNKS_X as int * SUBCHUNKS_Y as int)) * SUBCHUNK_SIDE as int,
    )
}

/// Local coordinates in its chunk of the lowest corner of subchunk `index`.
pub fn subchunk_origin(index: usize) -> (r: (usize, usize, usize))
    requires
        index < SUBCHUNKS_PER_CHUNK,
    ensures
        (r.0 as int, r.1 as int, r.2 as int) == spec_subchunk_origin(index as int),
        r.0 + SUBCHUNK_SIDE <= CHUNK_SIDE,
        r.1 + SUBCHUNK_HEIGHT <= CHUNK_HEIGHT,
        r.2 + SUBCHUNK_SIDE <= CHUNK_SIDE,
{
    let sub_x = (index % SUBCHUNKS_X) * SUBCHUNK_SIDE;
    let sub_y = ((index / SUBCHUNKS_X) % SUBCHUNKS_Y) * SUBCHUNK_HEIGHT;
    let sub_z = (index / (SUBCHUNKS_X * SUBCHUNKS_Y)) * SUBCHUNK_SIDE;
    (sub_x, sub_y, sub_z)
}

/// Where a neighbour at local coordinate `n` (one axis) of chunk `c`
/// lies: its chunk and its local coordinate there.
pub open spec fn step_axis(c: int, n: int) -> (int, int) {
    if n < 0 {
        (c - 1, n + CHUNK_SIDE as int)
    } else if n >= CHUNK_SIDE as int {
        (c + 1, n - CHUNK_SIDE as int)
    } else {
        (c, n)
    }
}

/// Whether the cell at local coordinates `(nx, ny, nz)` of chunk
/// `(chunk_x, chunk_z)`, whose cells are in `slot` of `pool`, lets a face
/// toward it show: above the world it does; below the world it does not;
/// in the same chunk, or in a neighbouring chunk that sits in the active
/// window, it does when its material lets light through; a neighbour
/// outside the window hides the face.
pub open spec fn spec_face_visible(
    pool: &ChunkPool,
    manager: &ChunkManager,
    slot: int,
    chunk_x: int,
    chunk_z: int,
    nx: int,
    ny: int,
    nz: int,
) -> bool {
    if ny < 0 {
        false
    } else if ny >= CHUNK_HEIGHT as int {
        true
    } else {
        let (ncx, lx) = step_axis(chunk_x, nx);
        let (ncz, lz) = step_axis(chunk_z, nz);
        let idx = spec_cell_index(lx, ny, lz);
        if ncx == chunk_x && ncz == chunk_z {
            transparent_material(pool.cell(slot, idx).material_id)
        } else {
            let t = manager.topology;
            let dx = t.wrap_chunk_x(t.wrap_chunk_x(ncx) - manager.window_min_x);
            let dz = t.wrap_chunk_z(t.wrap_chunk_z(ncz) - manager.window_min_z);
            if dx < WINDOW_SIDE as int && dz < WINDOW_SIDE as int {
                transparent_material(pool.cell(dz * WINDOW_SIDE as int + dx, idx).material_id)
            } else {
                false
            }
        }
    }
}

/// What the face-visibility test needs of the pool: a well-formed pool
/// that holds `slot`.
pub open spec fn can_look_around(pool: &ChunkPool, slot: int) -> bool {
    &&& pool.wf()
    &&& 0 <= slot < pool.slot_count
}

/// Whether the neighbour at local coordinates `(nx, ny, nz)` of chunk
/// `(chunk_x, chunk_z)` can be looked at: always when it is above or below
/// the world or in the same chunk; in another chunk, when that chunk's
/// coordinates fit in `i64`, the torus is valid, its offset from the
/// window corner fits in `i64`, and, when it lies in the window, its window
/// slot is in the pool.
pub open spec fn face_readable(
    pool: &ChunkPool,
    manager: &ChunkManager,
    chunk_x: int,
    chunk_z: int,
    nx: int,
    ny: int,
    nz: int,
) -> bool {
    if ny < 0 || ny >= CHUNK_HEIGHT as int {
        true
    } else {
        let (ncx, lx) = step_axis(chunk_x, nx);
        let (ncz, lz) = step_axis(chunk_z, nz);
        if ncx == chunk_x && ncz == chunk_z {
            true
        } else {
            let t = manager.topology;
            let dx = t.wrap_chunk_x(t.wrap_chunk_x(ncx) - manager.window_min_x);
            let dz = t.wrap_chunk_z(t.wrap_chunk_z(ncz) - manager.window_min_z);
            &&& i64::MIN <= ncx <= i64::MAX
            &&& i64::MIN <= ncz <= i64::MAX
            &&& t.valid()
            &&& t.wrap_chunk_x(ncx) - manager.window_min_x <= i64::MAX
            &&& t.wrap_chunk_z(ncz) - manager.window_min_z <= i64::MAX
            &&& (dx < WINDOW_SIDE as int && dz < WINDOW_SIDE as int ==> dz * WINDOW_SIDE as int + dx < pool.slot_count)
        }
    }
}

/// In a pool that holds the whole window, with a manager that can address
/// the window and a chunk one step away from the ends of `i64`, every
/// neighbour one step from a cell of the chunk can be looked at.
pub proof fn lemma_window_pool_face_readable(
    pool: &ChunkPool,
    manager: &ChunkManager,
    chunk_x: int,
    chunk_z: int,
    nx: int,
    ny: int,
    nz: int,
)
    requires
        pool.slot_count >= WINDOW_CHUNK_COUNT,
        manager.addressable(),
        i64::MIN < chunk_x < i64::MAX,
        i64::MIN < chunk_z < i64::MAX,
        -1 <= nx <= CHUNK_SIDE as int,
        -1 <= nz <= CHUNK_SIDE as int,
    ensures
        face_readable(pool, manager, chunk_x, chunk_z, nx, ny, nz),
{
    let t = manager.topology;
    let (ncx, lx) = step_axis(chunk_x, nx);
    let (ncz, lz) = step_axis(chunk_z, nz);
    assert(0 <= t.wrap_chunk_x(ncx) < t.chunks_x);
    assert(0 <= t.wrap_chunk_z(ncz) < t.chunks_z);
    let dx = t.wrap_chunk_x(t.wrap_chunk_x(ncx) - manager.window_min_x);
    let dz = t.wrap_chunk_z(t.wrap_chunk_z(ncz) - manager.window_min_z);
    if dx < WINDOW_SIDE as int && dz < WINDOW_SIDE as int {
        assert(dz * WINDOW_SIDE as int + dx < WINDOW_CHUNK_COUNT) by (nonlinear_arith)
            requires 0 <= dx < 16, 0 <= dz < 16;
    }
}

/// Whether a face toward the cell at local coordinates
/// `(neighbor_x, neighbor_y, neighbor_z)` of chunk `(chunk_x, chunk_z)`
/// shows (see `spec_face_visible`).
pub fn is_face_visible(
    neighbor_x: i64,
    neighbor_y: i64,
    neighbor_z: i64,
    pool: &ChunkPool,
    slot: usize,
    chunk_x: i64,
    chunk_z: i64,
    manager: &ChunkManager,
) -> (r: bool)
    requires
        can_look_around(pool, slot as int),
        -(CHUNK_SIDE as int) <= neighbor_x < 2 * CHUNK_SIDE as int,
        -(CHUNK_SIDE as int) <= neighbor_z < 2 * CHUNK_SIDE as int,
        face_readable(pool, manager, chunk_x as int, chunk_z as int,
            neighbor_x as int, neighbor_y as int, neighbor_z as int),
    ensures
        r == spec_face_visible(pool, manager, slot as int, chunk_x as int, chunk_z as int,
            neighbor_x as int, neighbor_y as int, neighbor_z as int),
{
    if neighbor_y < 0 {
        return false;
    }
    if neighbor_y >= CHUNK_HEIGHT as i64 {
        return true;
    }

    let mut n_chunk_x = chunk_x;
    let mut n_chunk_z = chunk_z;
    let mut n_local_x = neighbor_x;
    let mut n_local_z = neighbor_z;

    if neighbor_x < 0 {
        n_chunk_x = n_chunk_x - 1;
        n_local_x = n_local_x + CHUNK_SIDE as i64;
    } else if neighbor_x >= CHUNK_SIDE as i64 {
        n_chunk_x = n_chunk_x + 1;
        n_local_x = n_local_x - CHUNK_SIDE as i64;
    }

    if neighbor_z < 0 {
        n_chunk_z = n_chunk_z - 1;
        n_local_z = n_local_z + CHUNK_SIDE as i64;
    } else if neighbor_z >= CHUNK_SIDE as i64 {
        n_chunk_z = n_chunk_z + 1;
        n_local_z = n_local_z - CHUNK_SIDE as i64;
    }

    let idx = (n_local_z as usize * CHUNK_SIDE + n_local_x as usize) * CHUNK_HEIGHT + neighbor_y as usize;
    assert(idx < CELLS_PER_CHUNK);

    if n_chunk_x == chunk_x && n_chunk_z == chunk_z {
        let neighbor_cell = pool.get(slot, idx);
        return is_transparent(neighbor_cell.material_id);
    }

    let (norm_x, norm_z) = manager.topology.normalize_chunk(n_chunk_x, n_chunk_z);
    if let Some(n_slot) = manager.slot_for_chunk(norm_x, norm_z) {
        let neighbor_cell = pool.get(n_slot, idx);
        return is_transparent(neighbor_cell.material_id);
    }

    false
}

/// A visible face of a solid cell of a subchunk: the cell's local
/// coordinates in its chunk, the face and the cell's material.
#[derive(Clone, Copy, Debug, PartialEq, Eq, Structural)]
pub struct VisibleFace {
    pub local_x: usize,
    pub local_y: usize,
    pub local_z: usize,
    pub face: usize,
    pub material_id: u16,
}

/// The visible ones among the first `f` faces of the cell at `(lx, ly, lz)`
/// of material `material_id`, in face order.
pub open spec fn cell_faces_upto(
    pool: &ChunkPool,
    manager: &ChunkManager,
    slot: int,
    chunk_x: int,
    chunk_z: int,
    lx: int,
    ly: int,
    lz: int,
    material_id: u16,
    f: int,
) -> Seq<VisibleFace>
    decreases f,
{
    if f <= 0 {
        Seq::empty()
    } else {
        let before = cell_faces_upto(pool, manager, slot, chunk_x, chunk_z, lx, ly, lz, material_id, f - 1);
        let (dx, dy, dz) = face_offset(f - 1);
        if spec_face_visible(pool, manager, slot, chunk_x, chunk_z, lx + dx, ly + dy, lz + dz) {
            before.push(VisibleFace {
                local_x: lx as usize,
                local_y: ly as usize,
                local_z: lz as usize,
                face: (f - 1) as usize,
                material_id,
            })
        } else {
            before
        }
    }
}

/// The visible faces of the cell at `(lx, ly, lz)`: none for air or an
/// unknown material.
pub open spec fn cell_faces(
    pool: &ChunkPool,
    manager: &ChunkManager,
    slot: int,
    chunk_x: int,
    chunk_z: int,
    lx: int,
    ly: int,
    lz: int,
) -> Seq<VisibleFace> {
    let material_id = pool.cell(slot, spec_cell_index(lx, ly, lz)).material_id;
    if material_id == ids::AIR || !is_known_material(material_id) {
        Seq::empty()
    } else {
        cell_faces_upto(pool, manager, slot, chunk_x, chunk_z, lx, ly, lz, material_id, FACE_COUNT as int)
    }
}

/// The `t`-th cell of subchunk `index` in build order: `y` fastest, then
/// `x`, then `z`.
pub open spec fn subchunk_cell(index: int, t: int) -> (int, int, int) {
    let o = spec_subchunk_origin(index);
    (
        o.0 + (t / SUBCHUNK_HEIGHT as int) % SUBCHUNK_SIDE as int,
        o.1 + t % SUBCHUNK_HEIGHT as int,
        o.2 + t / (SUBCHUNK_HEIGHT as int * SUBCHUNK_SIDE as int),
    )
}

/// The visible faces of the first `n` cells of subchunk `index`, in build order.
pub open spec fn subchunk_faces_upto(
    pool: &ChunkPool,
    manager: &ChunkManager,
    slot: int,
    chunk_x: int,
    chunk_z: int,
    index: int,
    n: int,
) -> Seq<VisibleFace>
    decreases n,
{
    if n <= 0 {
        Seq::empty()
    } else {
        let (lx, ly, lz) = subchunk_cell(index, n - 1);
        subchunk_faces_upto(pool, manager, slot, chunk_x, chunk_z, index, n - 1)
            + cell_faces(pool, manager, slot, chunk_x, chunk_z, lx, ly, lz)
    }
}

/// Face `f` of the `t`-th cell of subchunk `index` can be looked across
/// when the cell is air or of an unknown material (its faces are never
/// tested) or its neighbour across `f` can be looked at.
pub open spec fn cell_face_readable(
    pool: &ChunkPool,
    manager: &ChunkManager,
    slot: int,
    chunk_x: int,
    chunk_z: int,
    index: int,
    t: int,
    f: int,
) -> bool {
    let (lx, ly, lz) = subchunk_cell(index, t);
    let material_id = pool.cell(slot, spec_cell_index(lx, ly, lz)).material_id;
    let (dx, dy, dz) = face_offset(f);
    material_id == ids::AIR || !is_known_material(material_id)
        || face_readable(pool, manager, chunk_x, chunk_z, lx + dx, ly + dy, lz + dz)
}

/// Every neighbour that building subchunk `index` looks at can be looked at.
pub open spec fn subchunk_readable(
    pool: &ChunkPool,
    manager: &ChunkManager,
    slot: int,
    chunk_x: int,
    chunk_z: int,
    index: int,
) -> bool {
    forall|t: int, f: int| 0 <= t < CELLS_PER_SUBCHUNK && 0 <= f < FACE_COUNT ==>
        #[trigger] cell_face_readable(pool, manager, slot, chunk_x, chunk_z, index, t, f)
}

/// In a pool that holds the whole window, with a manager that can address
/// the window and a chunk one step away from the ends of `i64`, every
/// subchunk of the chunk can be built.
pub proof fn lemma_window_pool_subchunk_readable(
    pool: &ChunkPool,
    manager: &ChunkManager,
    slot: int,
    chunk_x: int,
    chunk_z: int,
    index: int,
)
    requires
        pool.slot_count >= WINDOW_CHUNK_COUNT,
        manager.addressable(),
        i64::MIN < chunk_x < i64::MAX,
        i64::MIN < chunk_z < i64::MAX,
        0 <= index < SUBCHUNKS_PER_CHUNK,
    ensures
        subchunk_readable(pool, manager, slot, chunk_x, chunk_z, index),
{
    assert forall|t: int, f: int| 0 <= t < CELLS_PER_SUBCHUNK && 0 <= f < FACE_COUNT implies
        #[trigger] cell_face_readable(pool, manager, slot, chunk_x, chunk_z, index, t, f) by {
        lemma_subchunk_walk(index, t, t);
        let (lx, ly, lz) = subchunk_cell(index, t);
        let (dx, dy, dz) = face_offset(f);
        lemma_window_pool_face_readable(pool, manager, chunk_x, chunk_z, lx + dx, ly + dy, lz + dz);
    }
}

/// Whether the neighbour at local coordinates `(nx, ny, nz)` of chunk
/// `(chunk_x, chunk_z)` can be looked at (see `face_readable`).
pub fn neighbour_readable(
    nx: i64,
    ny: i64,
    nz: i64,
    pool: &ChunkPool,
    chunk_x: i64,
    chunk_z: i64,
    manager: &ChunkManager,
) -> (r: bool)
    requires
        -(CHUNK_SIDE as int) <= nx < 2 * CHUNK_SIDE as int,
        -(CHUNK_SIDE as int) <= nz < 2 * CHUNK_SIDE as int,
    ensures
        r == face_readable(pool, manager, chunk_x as int, chunk_z as int, nx as int, ny as int, nz as int),
{
    if ny < 0 || ny >= CHUNK_HEIGHT as i64 {
        return true;
    }
    let side = CHUNK_SIDE as i64;
    if 0 <= nx && nx < side && 0 <= nz && nz < side {
        return true;
    }
    if (nx < 0 && chunk_x == i64::MIN) || (nx >= side && chunk_x == i64::MAX)
        || (nz < 0 && chunk_z == i64::MIN) || (nz >= side && chunk_z == i64::MAX) {
        return false;
    }
    let t = &manager.topology;
    if t.chunks_x == 0 || t.chunks_z == 0 || t.chunks_x > i64::MAX as u64 || t.chunks_z > i64::MAX as u64
        || t.chunks_x as u128 > usize::MAX as u128 || t.chunks_z as u128 > usize::MAX as u128 {
        return false;
    }
    let ncx = if nx < 0 { chunk_x - 1 } else if nx >= side { chunk_x + 1 } else { chunk_x };
    let ncz = if nz < 0 { chunk_z - 1 } else if nz >= side { chunk_z + 1 } else { chunk_z };
    let (norm_x, norm_z) = t.normalize_chunk(ncx, ncz);
    let wx = norm_x as i64;
    let wz = norm_z as i64;
    if manager.window_min_x < wx - i64::MAX || manager.window_min_z < wz - i64::MAX {
        return false;
    }
    match manager.slot_for_chunk(norm_x, norm_z) {
        Some(s) => s < pool.slot_count,
        None => true,
    }
}

/// Whether every neighbour that building subchunk `subchunk_index` of chunk
/// `(chunk_x, chunk_z)` looks at can be looked at (see `subchunk_readable`).
pub fn subchunk_faces_readable(
    subchunk_index: usize,
    pool: &ChunkPool,
    slot: usize,
    chunk_x: i64,
    chunk_z: i64,
    manager: &ChunkManager,
) -> (r: bool)
    requires
        subchunk_index < SUBCHUNKS_PER_CHUNK,
        can_look_around(pool, slot as int),
    ensures
        r == subchunk_readable(pool, manager, slot as int, chunk_x as int, chunk_z as int, subchunk_index as int),
{
    let (sub_x, sub_y, sub_z) = subchunk_origin(subchunk_index);
    let mut t: usize = 0;
    while t < CELLS_PER_SUBCHUNK
        invariant
            0 <= t <= CELLS_PER_SUBCHUNK,
            subchunk_index < SUBCHUNKS_PER_CHUNK,
            can_look_around(pool, slot as int),
            (sub_x as int, sub_y as int, sub_z as int) == spec_subchunk_origin(subchunk_index as int),
            sub_x + SUBCHUNK_SIDE <= CHUNK_SIDE,
            sub_y + SUBCHUNK_HEIGHT <= CHUNK_HEIGHT,
            sub_z + SUBCHUNK_SIDE <= CHUNK_SIDE,
            forall|u: int, f: int| 0 <= u < t && 0 <= f < FACE_COUNT ==>
                #[trigger] cell_face_readable(pool, manager, slot as int, chunk_x as int, chunk_z as int,
                    subchunk_index as int, u, f),
        decreases CELLS_PER_SUBCHUNK - t,
    {
        let lz = sub_z + t / (SUBCHUNK_HEIGHT * SUBCHUNK_SIDE);
        let lx = sub_x + (t / SUBCHUNK_HEIGHT) % SUBCHUNK_SIDE;
        let ly = sub_y + t % SUBCHUNK_HEIGHT;
        assert(lz < CHUNK_SIDE && lx < CHUNK_SIDE && ly < CHUNK_HEIGHT);
        assert((lx as int, ly as int, lz as int) == subchunk_cell(subchunk_index as int, t as int));
        let cell_index = (lz * CHUNK_SIDE + lx) * CHUNK_HEIGHT + ly;
        assert(cell_index < CELLS_PER_CHUNK) by (nonlinear_arith)
            requires
                cell_index == (lz * 16 + lx) * 64 + ly,
                lz < 16,
                lx < 16,
                ly < 64;
        let material_id = pool.get(slot, cell_index).material_id;
        let solid = material_id != ids::AIR && get_material(material_id).is_some();
        if solid {
            let mut face: usize = 0;
            while face < FACE_COUNT
                invariant
                    0 <= face <= FACE_COUNT,
                    0 <= t < CELLS_PER_SUBCHUNK,
                    lz < CHUNK_SIDE && lx < CHUNK_SIDE && ly < CHUNK_HEIGHT,
                    (lx as int, ly as int, lz as int) == subchunk_cell(subchunk_index as int, t as int),
                    cell_index == spec_cell_index(lx as int, ly as int, lz as int),
                    material_id == pool.cell(slot as int, cell_index as int).material_id,
                    material_id != ids::AIR && is_known_material(material_id),
                    forall|f: int| 0 <= f < face ==>
                        #[trigger] cell_face_readable(pool, manager, slot as int, chunk_x as int, chunk_z as int,
                            subchunk_index as int, t as int, f),
                decreases FACE_COUNT - face,
            {
                let (dx, dy, dz) = face_neighbor_offset(face);
                if !neighbour_readable(lx as i64 + dx, ly as i64 + dy, lz as i64 + dz, pool, chunk_x, chunk_z, manager) {
                    assert(!cell_face_readable(pool, manager, slot as int, chunk_x as int, chunk_z as int,
                        subchunk_index as int, t as int, face as int));
                    return false;
                }
                face = face + 1;
            }
        } else {
            assert forall|f: int| 0 <= f < FACE_COUNT implies
                #[trigger] cell_face_readable(pool, manager, slot as int, chunk_x as int, chunk_z as int,
                    subchunk_index as int, t as int, f) by {
            }
        }
        t = t + 1;
    }
    true
}

/// The visible faces of subchunk `subchunk_index` of chunk `(chunk_x,
/// chunk_z)`, whose cells are in `slot` of `pool`: for each solid cell of a
/// known material, `y` fastest, then `x`, then `z`, the faces toward a
/// neighbour that lets light through (see `spec_face_visible`), in face
/// order.
pub fn subchunk_visible_faces(
    subchunk_index: usize,
    pool: &ChunkPool,
    slot: usize,
    chunk_x: i64,
    chunk_z: i64,
    manager: &ChunkManager,
) -> (r: Vec<VisibleFace>)
    requires
        subchunk_index < SUBCHUNKS_PER_CHUNK,
        can_look_around(pool, slot as int),
        subchunk_readable(pool, manager, slot as int, chunk_x as int, chunk_z as int, subchunk_index as int),
    ensures
        r@ == subchunk_faces_upto(pool, manager, slot as int, chunk_x as int, chunk_z as int,
            subchunk_index as int, CELLS_PER_SUBCHUNK as int),
{
    let mut faces: Vec<VisibleFace> = Vec::new();
    let (sub_x, sub_y, sub_z) = subchunk_origin(subchunk_index);
    let mut t: usize = 0;
    while t < CELLS_PER_SUBCHUNK
        invariant
            0 <= t <= CELLS_PER_SUBCHUNK,
            subchunk_index < SUBCHUNKS_PER_CHUNK,
            can_look_around(pool, slot as int),
            subchunk_readable(pool, manager, slot as int, chunk_x as int, chunk_z as int, subchunk_index as int),
            (sub_x as int, sub_y as int, sub_z as int) == spec_subchunk_origin(subchunk_index as int),
            sub_x + SUBCHUNK_SIDE <= CHUNK_SIDE,
            sub_y + SUBCHUNK_HEIGHT <= CHUNK_HEIGHT,
            sub_z + SUBCHUNK_SIDE <= CHUNK_SIDE,
            faces@ == subchunk_faces_upto(pool, manager, slot as int, chunk_x as int, chunk_z as int,
                subchunk_index as int, t as int),
        decreases CELLS_PER_SUBCHUNK - t,
    {
        let lz = sub_z + t / (SUBCHUNK_HEIGHT * SUBCHUNK_SIDE);
        let lx = sub_x + (t / SUBCHUNK_HEIGHT) % SUBCHUNK_SIDE;
        let ly = sub_y + t % SUBCHUNK_HEIGHT;
        assert(lz < CHUNK_SIDE && lx < CHUNK_SIDE && ly < CHUNK_HEIGHT);
        assert((lx as int, ly as int, lz as int) == subchunk_cell(subchunk_index as int, t as int));
        let ghost before = faces@;

        let cell_index = (lz * CHUNK_SIDE + lx) * CHUNK_HEIGHT + ly;
        assert(cell_index < CELLS_PER_CHUNK) by (nonlinear_arith)
            requires
                cell_index == (lz * 16 + lx) * 64 + ly,
                lz < 16,
                lx < 16,
                ly < 64;
        let cell = pool.get(slot, cell_index);
        let material_id = cell.material_id;

        let solid = material_id != ids::AIR && get_material(material_id).is_some();
        if solid {
            let mut face: usize = 0;
            while face < FACE_COUNT
                invariant
                    0 <= face <= FACE_COUNT,
                    0 <= t < CELLS_PER_SUBCHUNK,
                    (lx as int, ly as int, lz as int) == subchunk_cell(subchunk_index as int, t as int),
                    cell_index == spec_cell_index(lx as int, ly as int, lz as int),
                    material_id == pool.cell(slot as int, cell_index as int).material_id,
                    material_id != ids::AIR && is_known_material(material_id),
                    can_look_around(pool, slot as int),
                    subchunk_readable(pool, manager, slot as int, chunk_x as int, chunk_z as int, subchunk_index as int),
                    lz < CHUNK_SIDE && lx < CHUNK_SIDE && ly < CHUNK_HEIGHT,
                    faces@ == before + cell_faces_upto(pool, manager, slot as int, chunk_x as int, chunk_z as int,
                        lx as int, ly as int, lz as int, material_id, face as int),
                decreases FACE_COUNT - face,
            {
                let (dx, dy, dz) = face_neighbor_offset(face);
                let nx = lx as i64 + dx;
                let ny = ly as i64 + dy;
                let nz = lz as i64 + dz;
                assert(cell_face_readable(pool, manager, slot as int, chunk_x as int, chunk_z as int,
                    subchunk_index as int, t as int, face as int));
                let visible = is_face_visible(nx, ny, nz, pool, slot, chunk_x, chunk_z, manager);
                if visible {
                    faces.push(VisibleFace { local_x: lx, local_y: ly, local_z: lz, face, material_id });
                }
                proof {
                    assert(faces@ =~= before + cell_faces_upto(pool, manager, slot as int, chunk_x as int, chunk_z as int,
                        lx as int, ly as int, lz as int, material_id, face + 1));
                }
                face = face + 1;
            }
        } else {
            assert(faces@ =~= before + cell_faces(pool, manager, slot as int, chunk_x as int, chunk_z as int,
                lx as int, ly as int, lz as int));
        }
        t = t + 1;
    }
    faces
}

/// The build walk of a subchunk stays in its chunk and in that subchunk,
/// and visits each of its cells once.
pub proof fn lemma_subchunk_walk(index: int, t: int, u: int)
    requires
        0 <= index < SUBCHUNKS_PER_CHUNK,
        0 <= t < CELLS_PER_SUBCHUNK,
        0 <= u < CELLS_PER_SUBCHUNK,
    ensures
        ({
            let (x, y, z) = subchunk_cell(index, t);
            &&& 0 <= x < CHUNK_SIDE && 0 <= y < CHUNK_HEIGHT && 0 <= z < CHUNK_SIDE
            &&& crate::voxel::format::spec_subchunk_index(x, y, z) == index
        }),
        t != u ==> subchunk_cell(index, t) != subchunk_cell(index, u),
{
}

} // verus!
