use torxel::io::channels::{LoadResponse, SaveResponse, ShadowLoadRequest};
use torxel::io::codec::{decode_cells, encode_cells, get_u16, get_u32, push_cell, push_u16, push_u32, read_cell};
use torxel::io::file_format::chunk_flags::COMPRESSED;
use torxel::io::file_format::{ChunkHeader, CHUNK_MAGIC, CHUNK_VERSION, FORMAT_VERSION, WORLD_MAGIC};
use torxel::io::staging::{ActiveStagingBuffer, StagedChunk};
use torxel::io::worker::{
    accept_chunk_header, chunk_file_offset, empty_load_response, failed_shadow_load_response, loaded_response,
    loaded_shadow_response, save_chunk_header,
};
use torxel::voxel::format::{Cell, CELLS_PER_CHUNK};
use torxel::voxel::materials::ids::{STONE, WATER};
use torxel::WorldHeader;

fn sample_cell() -> Cell {
    let mut c = Cell::zeroed();
    c.material_id = WATER;
    c.phase_state = 1;
    c.liquid_level = 200;
    c.temperature = -40;
    c.chemical_mask = 0xBEEF;
    c.vel_x = -3;
    c.vel_y = 4;
    c.vel_z = i16::MIN;
    c.pressure = -123456;
    c.excess_level = i32::MAX;
    c.reserved_future[0] = 9;
    c.reserved_future[39] = 250;
    c
}

#[test]
fn little_endian_integers() {
    let mut out = Vec::new();
    push_u16(&mut out, 0x1234);
    push_u32(&mut out, 0xA1B2C3D4);
    assert_eq!(out, vec![0x34, 0x12, 0xD4, 0xC3, 0xB2, 0xA1]);
    assert_eq!(get_u16(&out, 0), 0x1234);
    assert_eq!(get_u32(&out, 2), 0xA1B2C3D4);
}

#[test]
fn cell_is_sixty_four_bytes() {
    let mut out = Vec::new();
    let c = sample_cell();
    push_cell(&mut out, &c);
    assert_eq!(out.len(), 64);
    assert_eq!(&out[0..2], &WATER.to_le_bytes());
    assert_eq!(out[2], 1);
    assert_eq!(out[3], 200);
    assert_eq!(&out[4..6], &(-40i16).to_le_bytes());
    assert_eq!(&out[16..20], &(-123456i32).to_le_bytes());
    assert_eq!(out[24], 9);
    assert_eq!(out[63], 250);
    assert_eq!(read_cell(&out, 0), c);
}

#[test]
fn cells_roundtrip() {
    let mut cells = vec![Cell::zeroed(); 5];
    cells[2] = sample_cell();
    cells[4].material_id = STONE;
    let bytes = encode_cells(&cells);
    assert_eq!(bytes.len(), 5 * 64);
    assert_eq!(decode_cells(&bytes), cells);
    assert!(decode_cells(&[]).is_empty());
}

#[test]
fn chunk_header_layout_and_roundtrip() {
    let mut h = ChunkHeader::new(1000, 16);
    h.min_solid_y = 3;
    h.max_liquid_y = 40;
    h.checksum = 0xDEADBEEF;
    let b = h.to_bytes();
    assert_eq!(b.len(), 32);
    assert_eq!(&b[0..4], &CHUNK_MAGIC.to_le_bytes());
    assert_eq!(&b[4..6], &CHUNK_VERSION.to_le_bytes());
    assert_eq!(&b[8..12], &1000u32.to_le_bytes());
    assert_eq!(&b[12..16], &0xDEADBEEFu32.to_le_bytes());
    assert_eq!(&b[20..22], &3u16.to_le_bytes());
    assert_eq!(&b[26..28], &40u16.to_le_bytes());
    let back = ChunkHeader::from_bytes(&b);
    assert_eq!(back.magic, h.magic);
    assert_eq!(back.data_size, 1000);
    assert_eq!(back.cell_count, 16);
    assert_eq!(back.checksum, 0xDEADBEEF);
    assert_eq!(back.min_solid_y, 3);
    assert_eq!(back.max_liquid_y, 40);
    assert!(back.is_valid());
    assert!(!back.is_compressed());
}

#[test]
fn chunk_header_flags_and_validity() {
    let mut h = ChunkHeader::new(0, 0);
    h.flags = COMPRESSED;
    assert!(h.is_compressed());
    h.magic = 0;
    assert!(!h.is_valid());
    let mut h2 = ChunkHeader::new(0, 0);
    h2.version = CHUNK_VERSION + 1;
    assert!(!h2.is_valid());
}

#[test]
fn world_header_layout_and_roundtrip() {
    let h = WorldHeader::new(50, 60, 64).with_spawn(5, -3);
    assert_eq!(h.magic, WORLD_MAGIC);
    assert_eq!(h.version, FORMAT_VERSION);
    assert_eq!((h.spawn_x, h.spawn_z), (5, -3));
    assert_eq!(h.chunk_header_size, 32);
    assert!(h.is_valid());
    assert_eq!(h.chunk_total_size(), 32 + 16384 * 64);
    let b = h.to_bytes();
    assert_eq!(b.len(), 64);
    assert_eq!(&b[0..4], &WORLD_MAGIC.to_le_bytes());
    assert_eq!(&b[8..12], &50u32.to_le_bytes());
    assert_eq!(&b[24..28], &(-3i32).to_le_bytes());
    let back = WorldHeader::from_bytes(&b);
    assert_eq!(back.chunks_x, 50);
    assert_eq!(back.chunks_z, 60);
    assert_eq!(back.chunk_height, 64);
    assert_eq!((back.spawn_x, back.spawn_z), (5, -3));
    assert!(back.is_valid());
}

#[test]
fn chunk_records_follow_the_world_header() {
    let h = WorldHeader::new(50, 60, 64);
    let record = 32 + 16384 * 64;
    assert_eq!(chunk_file_offset(&h, 0, 0), 64);
    assert_eq!(chunk_file_offset(&h, 1, 0), 64 + record);
    assert_eq!(chunk_file_offset(&h, 3, 2), 64 + (2 * 50 + 3) * record);
}

#[test]
fn header_acceptance() {
    let good = save_chunk_header();
    assert_eq!(good.data_size, (CELLS_PER_CHUNK * 64) as u32);
    assert_eq!(good.cell_count, CELLS_PER_CHUNK as u32);
    let accepted = accept_chunk_header(&good.to_bytes());
    assert!(accepted.is_some());
    let mut bad = good;
    bad.magic = 7;
    assert!(accept_chunk_header(&bad.to_bytes()).is_none());
}

#[test]
fn load_responses() {
    let empty: LoadResponse = empty_load_response(12);
    assert_eq!(empty.slot, 12);
    assert!(!empty.success);
    assert_eq!(empty.data.len(), CELLS_PER_CHUNK);
    assert!(empty.data.iter().all(|c| *c == Cell::zeroed()));

    let mut header = save_chunk_header();
    header.min_solid_y = 1;
    header.max_solid_y = 9;
    let mut cells = vec![Cell::zeroed(); CELLS_PER_CHUNK];
    cells[3] = sample_cell();
    let bytes = encode_cells(&cells);
    let r = loaded_response(4, &header, &bytes);
    assert!(r.success);
    assert_eq!(r.slot, 4);
    assert_eq!(r.data, cells);
    assert_eq!((r.min_solid_y, r.max_solid_y), (1, 9));
}

#[test]
fn shadow_load_responses() {
    let request = ShadowLoadRequest { slot: 3, chunk_x: 7, chunk_z: 8 };
    let failed = failed_shadow_load_response(&request);
    assert!(!failed.success);
    assert_eq!((failed.slot, failed.chunk_x, failed.chunk_z), (3, 7, 8));
    assert_eq!(failed.data.len(), CELLS_PER_CHUNK);

    let mut cells = vec![Cell::zeroed(); CELLS_PER_CHUNK];
    cells[CELLS_PER_CHUNK - 1].material_id = STONE;
    let ok = loaded_shadow_response(&request, &encode_cells(&cells));
    assert!(ok.success);
    assert_eq!(ok.data, cells);
}

#[test]
fn saved_chunk_loads_back() {
    let (cells, _) = torxel::generator::generate_chunk(0, 0);
    let header_bytes = save_chunk_header().to_bytes();
    let data_bytes = encode_cells(&cells);
    let header = accept_chunk_header(&header_bytes).unwrap();
    let loaded = loaded_response(0, &header, &data_bytes);
    assert_eq!(loaded.data, cells);
}

#[test]
fn staging_buffer_keeps_order() {
    let mut staging = ActiveStagingBuffer::default();
    for slot in 0..3 {
        staging.push_loaded(StagedChunk {
            slot,
            grid_x: slot as i64,
            grid_z: 0,
            data: Vec::new(),
            min_solid_y: 0,
            max_solid_y: 0,
            min_liquid_y: 0,
            max_liquid_y: 0,
        });
    }
    staging.push_saved(SaveResponse { slot: 9, success: true });
    let loaded = staging.take_loaded();
    assert_eq!(loaded.iter().map(|c| c.slot).collect::<Vec<_>>(), vec![0, 1, 2]);
    assert!(staging.take_loaded().is_empty());
    let saved = staging.take_saved();
    assert_eq!(saved.len(), 1);
    assert_eq!(saved[0].slot, 9);
}
