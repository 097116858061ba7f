use torxel::arith::{div_euclid_i64, rem_euclid_i64};
use torxel::generator::{generate_chunk, terrain_height};
use torxel::io::file_format::{CHUNK_MAGIC, CHUNK_VERSION};
use torxel::voxel::format::{
    all_subchunks_mask, subchunk_index, subchunk_index_from_cell, Cell, CELLS_PER_CHUNK, CHUNK_HEIGHT,
};
use torxel::voxel::materials::ids::{AIR, STONE, WATER};
use torxel::voxel::materials::phases::{GAS, SOLID};
use torxel::voxel::materials::{get_material, is_air, is_transparent, material_color, materials};
use torxel::voxel::pool::ChunkPool;
use torxel::TorusTopology;

fn cell_of(material_id: u16) -> Cell {
    let mut c = Cell::zeroed();
    c.material_id = material_id;
    c
}

#[test]
fn euclid_division_rounds_down() {
    assert_eq!(div_euclid_i64(-1, 16), -1);
    assert_eq!(rem_euclid_i64(-1, 16), 15);
    assert_eq!(div_euclid_i64(-16, 16), -1);
    assert_eq!(rem_euclid_i64(-16, 16), 0);
    assert_eq!(div_euclid_i64(35, 16), 2);
    assert_eq!(rem_euclid_i64(35, 16), 3);
}

#[test]
fn normalize_chunk_wraps_around_the_torus() {
    let t = TorusTopology::new(50, 60);
    assert_eq!(t.normalize_chunk(0, 0), (0, 0));
    assert_eq!(t.normalize_chunk(-1, -1), (49, 59));
    assert_eq!(t.normalize_chunk(50, 60), (0, 0));
    assert_eq!(t.normalize_chunk(123, -61), (23, 59));
}

#[test]
fn normalize_chunk_is_periodic() {
    let t = TorusTopology::new(7, 5);
    for x in -20i64..20 {
        assert_eq!(t.normalize_chunk(x, x), t.normalize_chunk(x + 7 * 3, x - 5 * 2));
    }
}

#[test]
fn normalize_block_splits_into_chunk_and_local() {
    let t = TorusTopology::new(4, 4);
    assert_eq!(t.normalize_block(17, 5, -1), Some((1, 3, 1, 5, 15)));
    assert_eq!(t.normalize_block(0, -1, 0), None);
    assert_eq!(t.normalize_block(0, 64, 0), None);
    assert_eq!(t.normalize_block(64, 63, 0), Some((0, 0, 0, 63, 0)));
}

#[test]
fn normalize_block_uses_the_offset() {
    let t = TorusTopology::new(4, 4).with_offset(16, -16);
    assert_eq!(t.min_block_x, 16);
    assert_eq!(t.min_block_z, -16);
    assert_eq!(t.normalize_block(16, 0, -16), Some((0, 0, 0, 0, 0)));
    assert_eq!(t.normalize_block(15, 0, -17), Some((3, 3, 15, 0, 15)));
}

#[test]
fn cell_index_roundtrip() {
    let t = TorusTopology::new(1, 1);
    assert_eq!(t.cell_index(0, 0, 0), 0);
    assert_eq!(t.cell_index(1, 2, 3), (3 * 16 + 1) * 64 + 2);
    assert_eq!(t.cell_index(15, 63, 15), CELLS_PER_CHUNK - 1);
    for i in [0usize, 1, 63, 64, 1023, 1024, 5000, 16383] {
        let (x, y, z) = t.cell_index_to_local(i);
        assert_eq!(t.cell_index(x, y, z), i);
    }
}

#[test]
fn chunk_to_world_scales_by_chunk_side() {
    let t = TorusTopology::new(8, 8).with_offset(-100, 7);
    assert_eq!(t.chunk_to_world(0, 0), (-100, 7));
    assert_eq!(t.chunk_to_world(3, 2), (-100 + 48, 7 + 32));
}

#[test]
fn chunk_to_world_then_normalize_block_comes_back() {
    let t = TorusTopology::new(8, 5).with_offset(-100, 7);
    for (cx, cz) in [(0usize, 0usize), (3, 2), (7, 4)] {
        let (wx, wz) = t.chunk_to_world(cx, cz);
        for (lx, lz) in [(0usize, 0usize), (15, 15), (4, 9)] {
            let r = t.normalize_block(wx + lx as i64, 33, wz + lz as i64);
            assert_eq!(r, Some((cx, cz, lx, 33, lz)));
        }
    }
}

#[test]
fn slot_index_in_window_is_periodic() {
    let t = TorusTopology::new(50, 60);
    for (cx, cz, wx, wz) in [(10usize, 20usize, 10i64, 20i64), (25, 35, 10, 20), (26, 20, 10, 20), (49, 0, -2, 0)] {
        let r = t.slot_index_in_window(cx, cz, wx, wz);
        assert_eq!(t.slot_index_in_window(cx + 50, cz + 60, wx, wz), r);
        assert_eq!(t.slot_index_in_window(cx, cz, wx - 50, wz + 120), r);
    }
}

#[test]
fn slot_index_in_window_wraps_offsets() {
    let t = TorusTopology::new(50, 60);
    assert_eq!(t.slot_index_in_window(10, 20, 10, 20), Some(0));
    assert_eq!(t.slot_index_in_window(25, 35, 10, 20), Some(15 * 16 + 15));
    assert_eq!(t.slot_index_in_window(26, 20, 10, 20), None);
    // window corner at -2: chunk 49 is one step past the corner
    assert_eq!(t.slot_index_in_window(49, 0, -2, 0), Some(1));
}

#[test]
fn subchunk_indices() {
    assert_eq!(subchunk_index(0, 0, 0), 0);
    assert_eq!(subchunk_index(15, 15, 15), 0);
    assert_eq!(subchunk_index(0, 16, 0), 1);
    assert_eq!(subchunk_index(3, 63, 9), 3);
    assert_eq!(subchunk_index_from_cell(0), 0);
    assert_eq!(subchunk_index_from_cell(17), 1);
    assert_eq!(subchunk_index_from_cell(63), 3);
    assert_eq!(subchunk_index_from_cell(CELLS_PER_CHUNK - 1), 3);
    assert_eq!(all_subchunks_mask(), 0xF);
}

#[test]
fn material_registry() {
    let all = materials();
    assert_eq!(all.len(), 7);
    for (i, m) in all.iter().enumerate() {
        assert_eq!(m.id as usize, i);
    }
    let water = get_material(WATER).unwrap();
    assert_eq!(water.name, "Water");
    assert_eq!(water.opacity_percent, 70);
    assert!(get_material(7).is_none());
    assert_eq!(material_color(STONE), [128, 128, 128]);
    assert_eq!(material_color(999), [0, 0, 0]);
}

#[test]
fn transparency() {
    assert!(is_transparent(AIR));
    assert!(is_transparent(WATER));
    assert!(!is_transparent(STONE));
    assert!(is_transparent(500));
    assert!(is_air(AIR));
    assert!(!is_air(STONE));
}

#[test]
fn pool_get_and_get_mut() {
    let mut pool = ChunkPool::new(3);
    assert_eq!(pool.data.len(), 3 * CELLS_PER_CHUNK);
    assert_eq!(pool.get(2, 5).material_id, 0);
    pool.get_mut(2, 5).material_id = STONE;
    assert_eq!(pool.get(2, 5).material_id, STONE);
    assert_eq!(pool.get(1, 5).material_id, 0);
    assert_eq!(pool.data[2 * CELLS_PER_CHUNK + 5].material_id, STONE);
}

#[test]
fn pool_copies_chunks() {
    let mut a = ChunkPool::new(2);
    let mut b = ChunkPool::new(2);
    *b.get_mut(1, 100) = cell_of(STONE);
    a.copy_chunk_from(&b, 1);
    assert_eq!(a.get(1, 100).material_id, STONE);
    assert_eq!(a.get(0, 100).material_id, 0);

    a.copy_chunk_within(1, 0);
    assert_eq!(a.get(0, 100).material_id, STONE);
    assert_eq!(a.chunk_slice(0), a.chunk_slice(1));

    a.fill_chunk_air(0);
    assert!(a.chunk_slice(0).iter().all(|c| *c == Cell::zeroed()));
    assert_eq!(a.get(1, 100).material_id, STONE);

    a.chunk_slice_mut(1)[7] = cell_of(WATER);
    assert_eq!(a.get(1, 7).material_id, WATER);
}

#[test]
fn generated_chunk_is_flat() {
    let (cells, header) = generate_chunk(3, -4);
    assert_eq!(cells.len(), CELLS_PER_CHUNK);
    for (i, c) in cells.iter().enumerate() {
        if i % CHUNK_HEIGHT == 0 {
            assert_eq!(c.material_id, STONE);
            assert_eq!(c.phase_state, SOLID);
        } else {
            assert_eq!(c.material_id, AIR);
            assert_eq!(c.phase_state, GAS);
        }
        assert_eq!(c.temperature, 0);
        assert_eq!(c.pressure, 0);
    }
    assert_eq!(header.magic, CHUNK_MAGIC);
    assert_eq!(header.version, CHUNK_VERSION);
    assert_eq!(header.data_size, (CELLS_PER_CHUNK * 64) as u32);
    assert_eq!(header.cell_count, CELLS_PER_CHUNK as u32);
    assert_eq!((header.min_solid_y, header.max_solid_y), (0, 0));
    assert_eq!((header.min_liquid_y, header.max_liquid_y), (64, 0));
    assert!(header.is_valid());
}

#[test]
fn terrain_is_one_block_high() {
    assert_eq!(terrain_height(0, 0), 1);
    assert_eq!(terrain_height(-1000, 99), 1);
}
