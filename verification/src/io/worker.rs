//! What the background I/O worker computes: where a chunk record lies in
//! the world file, the bytes it writes for a save, and the responses it
//! builds from the bytes it read.  The worker thread itself only moves
//! bytes between these functions and the file.
use vstd::prelude::*;
use crate::voxel::format::{Cell, CELLS_PER_CHUNK};
use crate::io::codec::{cells_bytes, cell_stored_at, decode_cells, lemma_cells_roundtrip, CELL_SIZE};
use crate::io::channels::{LoadResponse, ShadowLoadRequest, ShadowLoadResponse};
use crate::io::file_format::{ChunkHeader, WorldHeader, chunk_header_bytes, chunk_header_stored_in,
    lemma_chunk_header_roundtrip, spec_chunk_total_size, CHUNK_HEADER_SIZE, CHUNK_MAGIC,
    CHUNK_VERSION, WORLD_HEADER_SIZE};

verus! {

/// Index of a chunk record in the file (row order: `z` outer, `x` inner).
pub open spec fn spec_chunk_record_index(header: WorldHeader, chunk_x: int, chunk_z: int) -> int {
    chunk_z * header.chunks_x + chunk_x
}

/// Byte offset of a chunk record in the file.
pub open spec fn spec_chunk_offset(header: WorldHeader, chunk_x: int, chunk_z: int) -> int {
    WORLD_HEADER_SIZE + spec_chunk_record_index(header, chunk_x, chunk_z) * spec_chunk_total_size(header)
}

/// Byte offset of the record of chunk `(chunk_x, chunk_z)` in the world file.
pub fn chunk_file_offset(header: &WorldHeader, chunk_x: usize, chunk_z: usize) -> (r: u64)
    requires
        spec_chunk_record_index(*header, chunk_x as int, chunk_z as int) <= usize::MAX,
        spec_chunk_offset(*header, chunk_x as int, chunk_z as int) <= u64::MAX,
    ensures
        r == spec_chunk_offset(*header, chunk_x as int, chunk_z as int),
{
    let chunk_index = (chunk_z * header.chunks_x as usize + chunk_x) as u64;
    let total = header.chunk_total_size();
    assert(0 <= chunk_index * total <= spec_chunk_offset(*header, chunk_x as int, chunk_z as int))
        by (nonlinear_arith)
        requires chunk_index >= 0, total >= 0,
            spec_chunk_offset(*header, chunk_x as int, chunk_z as int) == 64 + chunk_index * total;
    WORLD_HEADER_SIZE as u64 + chunk_index * total
}

/// Records of distinct chunks of the world do not overlap in the file.
pub proof fn lemma_chunk_records_disjoint(header: WorldHeader, x1: int, z1: int, x2: int, z2: int)
    requires
        0 <= x1 < header.chunks_x,
        0 <= x2 < header.chunks_x,
        0 <= z1,
        0 <= z2,
        x1 != x2 || z1 != z2,
    ensures
        spec_chunk_offset(header, x1, z1) + spec_chunk_total_size(header) <= spec_chunk_offset(header, x2, z2)
        || spec_chunk_offset(header, x2, z2) + spec_chunk_total_size(header) <= spec_chunk_offset(header, x1, z1),
{
    let n = header.chunks_x as int;
    let i1 = spec_chunk_record_index(header, x1, z1);
    let i2 = spec_chunk_record_index(header, x2, z2);
    let t = spec_chunk_total_size(header);
    assert(i1 != i2) by {
        if z1 == z2 {
        } else if z1 < z2 {
            assert(z1 * n + x1 < z2 * n + x2) by (nonlinear_arith)
                requires z1 < z2, 0 <= x1 < n, 0 <= x2;
        } else {
            assert(z2 * n + x2 < z1 * n + x1) by (nonlinear_arith)
                requires z2 < z1, 0 <= x2 < n, 0 <= x1;
        }
    }
    assert(t > 0);
    if i1 < i2 {
        assert(i1 * t + t <= i2 * t) by (nonlinear_arith) requires i1 < i2, t > 0;
    } else {
        assert(i2 * t + t <= i1 * t) by (nonlinear_arith) requires i2 < i1, t > 0;
    }
}

/// The response to a load that failed: the slot, an all-zero chunk, and no success.
pub fn empty_load_response(slot: usize) -> (r: LoadResponse)
    ensures
        r.slot == slot,
        !r.success,
        r.data@.len() == CELLS_PER_CHUNK,
        forall|i: int| 0 <= i < r.data@.len() ==> #[trigger] r.data@[i].is_zero(),
        r.min_solid_y == 0 && r.max_solid_y == 0,
        r.min_liquid_y == 0 && r.max_liquid_y == 0,
{
    LoadResponse {
        slot,
        data: vec![Cell::zeroed(); CELLS_PER_CHUNK],
        min_solid_y: 0,
        max_solid_y: 0,
        min_liquid_y: 0,
        max_liquid_y: 0,
        success: false,
    }
}

/// Reads the header at the start of a chunk record; `Some` exactly when it
/// has the chunk magic and the current chunk version.
pub fn accept_chunk_header(bytes: &[u8]) -> (r: Option<ChunkHeader>)
    requires
        bytes@.len() == CHUNK_HEADER_SIZE,
    ensures
        forall|h: ChunkHeader| chunk_header_stored_in(bytes@, h) ==> (h.spec_is_valid() <==> r is Some),
        r matches Some(h) ==> chunk_header_stored_in(bytes@, h) && h.spec_is_valid(),
{
    let h = ChunkHeader::from_bytes(bytes);
    proof {
        assert forall|g: ChunkHeader| chunk_header_stored_in(bytes@, g) implies (g.spec_is_valid() <==> h.spec_is_valid()) by {
        }
    }
    if h.is_valid() {
        Some(h)
    } else {
        None
    }
}

/// The response to a load whose record was read in full: the chunk's cells
/// decoded from `data`, and the height bounds of its header.
pub fn loaded_response(slot: usize, header: &ChunkHeader, data: &[u8]) -> (r: LoadResponse)
    requires
        data@.len() == CELLS_PER_CHUNK * CELL_SIZE,
    ensures
        r.slot == slot,
        r.success,
        r.data@.len() == CELLS_PER_CHUNK,
        forall|i: int| 0 <= i < r.data@.len() ==> cell_stored_at(data@, i * 64, #[trigger] r.data@[i]),
        r.min_solid_y == header.min_solid_y,
        r.max_solid_y == header.max_solid_y,
        r.min_liquid_y == header.min_liquid_y,
        r.max_liquid_y == header.max_liquid_y,
{
    let cells = decode_cells(data);
    LoadResponse {
        slot,
        data: cells,
        min_solid_y: header.min_solid_y,
        max_solid_y: header.max_solid_y,
        min_liquid_y: header.min_liquid_y,
        max_liquid_y: header.max_liquid_y,
        success: true,
    }
}

/// The response to a shadow load that failed: the request's slot and
/// coordinates, an all-zero chunk, and no success.
pub fn failed_shadow_load_response(request: &ShadowLoadRequest) -> (r: ShadowLoadResponse)
    ensures
        r.slot == request.slot,
        r.chunk_x == request.chunk_x as i64,
        r.chunk_z == request.chunk_z as i64,
        !r.success,
        r.data@.len() == CELLS_PER_CHUNK,
        forall|i: int| 0 <= i < r.data@.len() ==> #[trigger] r.data@[i].is_zero(),
{
    ShadowLoadResponse {
        slot: request.slot,
        chunk_x: request.chunk_x as i64,
        chunk_z: request.chunk_z as i64,
        data: vec![Cell::zeroed(); CELLS_PER_CHUNK],
        success: false,
    }
}

/// The response to a shadow load whose record was read in full: the chunk's
/// cells decoded from `data`.
pub fn loaded_shadow_response(request: &ShadowLoadRequest, data: &[u8]) -> (r: ShadowLoadResponse)
    requires
        data@.len() == CELLS_PER_CHUNK * CELL_SIZE,
    ensures
        r.slot == request.slot,
        r.chunk_x == request.chunk_x as i64,
        r.chunk_z == request.chunk_z as i64,
        r.success,
        r.data@.len() == CELLS_PER_CHUNK,
        forall|i: int| 0 <= i < r.data@.len() ==> cell_stored_at(data@, i * 64, #[trigger] r.data@[i]),
{
    let cells = decode_cells(data);
    ShadowLoadResponse {
        slot: request.slot,
        chunk_x: request.chunk_x as i64,
        chunk_z: request.chunk_z as i64,
        data: cells,
        success: true,
    }
}

/// The header written in front of a saved chunk: current version, the size
/// of a chunk's cells, and no flags, checksum or height bounds.
pub fn save_chunk_header() -> (h: ChunkHeader)
    ensures
        h.magic == CHUNK_MAGIC,
        h.version == CHUNK_VERSION,
        h.flags == 0,
        h.data_size == CELLS_PER_CHUNK * CELL_SIZE,
        h.checksum == 0,
        h.cell_count == CELLS_PER_CHUNK,
        h.min_solid_y == 0 && h.max_solid_y == 0,
        h.min_liquid_y == 0 && h.max_liquid_y == 0,
        h._padding@ == seq![0u8, 0u8, 0u8, 0u8],
{
    ChunkHeader::new((CELLS_PER_CHUNK * CELL_SIZE) as u32, CELLS_PER_CHUNK as u32)
}

/// A chunk that was saved loads back: the header written for a save is read
/// back as that header and accepted, and the cells written are decoded back
/// to the same cells.
pub proof fn lemma_saved_chunk_loads_back(
    written: ChunkHeader,
    cells: Seq<Cell>,
    read_header: ChunkHeader,
    read_cells: Seq<Cell>,
)
    requires
        written.magic == CHUNK_MAGIC,
        written.version == CHUNK_VERSION,
        chunk_header_stored_in(chunk_header_bytes(written), read_header),
        read_cells.len() == cells.len(),
        forall|i: int| 0 <= i < read_cells.len() ==> cell_stored_at(cells_bytes(cells), i * 64, #[trigger] read_cells[i]),
    ensures
        read_header == written,
        read_header.spec_is_valid(),
        read_cells == cells,
{
    lemma_chunk_header_roundtrip(written, read_header);
    lemma_cells_roundtrip(cells, read_cells);
}

} // verus!
