//! World generation: a flat world, stone at the bottom layer and air above.
use vstd::prelude::*;
use crate::voxel::format::{Cell, CELLS_PER_CHUNK, CHUNK_HEIGHT};
use crate::voxel::materials::ids::{AIR, STONE};
use crate::voxel::materials::phases::{GAS, SOLID};
use crate::io::codec::CELL_SIZE;
use crate::io::file_format::{ChunkHeader, CHUNK_MAGIC, CHUNK_VERSION};

verus! {

/// Material of the generated cell at height `y`.
pub open spec fn generated_material(y: int) -> u16 {
    if y == 0 { STONE } else { AIR }
}

/// The cell `c` is the generated cell at height `y`: the material of that
/// height, gas for air and solid otherwise, every other field zero.
pub open spec fn is_generated_cell(c: Cell, y: int) -> bool {
    &&& c.material_id == generated_material(y)
    &&& c.phase_state == (if generated_material(y) == AIR { GAS } else { SOLID })
    &&& (Cell { material_id: 0, phase_state: 0, ..c }).is_zero()
}

/// Height of the terrain at block column `(x, z)`.
pub fn terrain_height(_x: i64, _z: i64) -> (r: usize)
    ensures
        r == 1,
{
    1
}

/// Generates chunk `(chunk_x, chunk_z)`: its cells and its header.
///
/// Every column is stone at `y == 0` and air above.  The header records a
/// full chunk of cells, the lowest and highest solid heights and no liquid
/// (the lowest liquid height is the chunk height, the highest zero).
pub fn generate_chunk(chunk_x: i64, chunk_z: i64) -> (r: (Vec<Cell>, ChunkHeader))
    ensures
        r.0@.len() == CELLS_PER_CHUNK,
        forall|i: int| 0 <= i < CELLS_PER_CHUNK ==> is_generated_cell(#[trigger] r.0@[i], i % CHUNK_HEIGHT as int),
        r.1.magic == CHUNK_MAGIC,
        r.1.version == CHUNK_VERSION,
        r.1.flags == 0,
        r.1.data_size == CELLS_PER_CHUNK * CELL_SIZE,
        r.1.checksum == 0,
        r.1.cell_count == CELLS_PER_CHUNK,
        r.1.min_solid_y == 0 && r.1.max_solid_y == 0,
        r.1.min_liquid_y == CHUNK_HEIGHT && r.1.max_liquid_y == 0,
        r.1._padding@ == seq![0u8, 0u8, 0u8, 0u8],
{
    let mut cells = vec![Cell::zeroed(); CELLS_PER_CHUNK];
    let mut min_solid = CHUNK_HEIGHT as u16;
    let mut max_solid = 0u16;
    let min_liquid = CHUNK_HEIGHT as u16;
    let max_liquid = 0u16;

    let mut cell_index: usize = 0;
    while cell_index < CELLS_PER_CHUNK
        invariant
            0 <= cell_index <= CELLS_PER_CHUNK,
            cells@.len() == CELLS_PER_CHUNK,
            forall|i: int| 0 <= i < cell_index ==> is_generated_cell(#[trigger] cells@[i], i % CHUNK_HEIGHT as int),
            forall|i: int| cell_index <= i < CELLS_PER_CHUNK ==> (#[trigger] cells@[i]).is_zero(),
            cell_index == 0 ==> min_solid == CHUNK_HEIGHT && max_solid == 0,
            cell_index > 0 ==> min_solid == 0 && max_solid == 0,
        decreases CELLS_PER_CHUNK - cell_index,
    {
        let ly = cell_index % CHUNK_HEIGHT;
        let material = if ly == 0 { STONE } else { AIR };
        let mut cell = cells[cell_index];
        cell.material_id = material;
        cell.phase_state = if material == AIR { GAS } else { SOLID };
        cells.set(cell_index, cell);

        if material != AIR {
            let y = ly as u16;
            if y < min_solid {
                min_solid = y;
            }
            if y > max_solid {
                max_solid = y;
            }
        }
        cell_index = cell_index + 1;
    }

    let chunk_data_size = (CELLS_PER_CHUNK * CELL_SIZE) as u32;
    let mut header = ChunkHeader::new(chunk_data_size, CELLS_PER_CHUNK as u32);
    header.min_solid_y = min_solid;
    header.max_solid_y = max_solid;
    header.min_liquid_y = min_liquid;
    header.max_liquid_y = max_liquid;

    (cells, header)
}

} // verus!
