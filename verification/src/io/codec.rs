//! Little-endian byte layout of the integers and cells stored in world files.
use vstd::prelude::*;
use crate::voxel::format::Cell;

verus! {

/// Bytes of one cell in a world file.
pub const CELL_SIZE: usize = 64;

/// The two little-endian bytes of `x`.
pub open spec fn le_u16(x: u16) -> Seq<u8> {
    seq![(x & 0xff) as u8, (x >> 8u16) as u8]
}

/// The four little-endian bytes of `x`.
pub open spec fn le_u32(x: u32) -> Seq<u8> {
    seq![(x & 0xff) as u8, ((x >> 8u32) & 0xff) as u8, ((x >> 16u32) & 0xff) as u8, (x >> 24u32) as u8]
}

/// The `u16` stored little-endian at `b[at .. at + 2]`.
pub open spec fn read_u16(b: Seq<u8>, at: int) -> u16 {
    (b[at] as u16) | ((b[at + 1] as u16) << 8u16)
}

/// The `u32` stored little-endian at `b[at .. at + 4]`.
pub open spec fn read_u32(b: Seq<u8>, at: int) -> u32 {
    (b[at] as u32) | ((b[at + 1] as u32) << 8u32) | ((b[at + 2] as u32) << 16u32) | ((b[at + 3] as u32) << 24u32)
}

/// The 64 bytes of a cell: each field little-endian in declaration order
/// (signed fields in two's complement), then the 40 reserved bytes.
pub open spec fn cell_bytes(c: Cell) -> Seq<u8> {
    le_u16(c.material_id) + seq![c.phase_state, c.liquid_level] + le_u16(c.temperature as u16)
        + le_u16(c.chemical_mask) + le_u16(c.vel_x as u16) + le_u16(c.vel_y as u16)
        + le_u16(c.vel_z as u16) + le_u16(c._padding_vel as u16) + le_u32(c.pressure as u32)
        + le_u32(c.excess_level as u32) + c.reserved_future@
}

/// The bytes of a run of cells, one cell after the other.
pub open spec fn cells_bytes(cells: Seq<Cell>) -> Seq<u8> {
    Seq::new(cells.len() * 64, |i: int| cell_bytes(cells[i / 64])[i % 64])
}

/// `c` is the cell stored at `b[at .. at + 64]`.
pub open spec fn cell_stored_at(b: Seq<u8>, at: int, c: Cell) -> bool {
    &&& c.material_id == read_u16(b, at)
    &&& c.phase_state == b[at + 2]
    &&& c.liquid_level == b[at + 3]
    &&& c.temperature == read_u16(b, at + 4) as i16
    &&& c.chemical_mask == read_u16(b, at + 6)
    &&& c.vel_x == read_u16(b, at + 8) as i16
    &&& c.vel_y == read_u16(b, at + 10) as i16
    &&& c.vel_z == read_u16(b, at + 12) as i16
    &&& c._padding_vel == read_u16(b, at + 14) as i16
    &&& c.pressure == read_u32(b, at + 16) as i32
    &&& c.excess_level == read_u32(b, at + 20) as i32
    &&& c.reserved_future@ == b.subrange(at + 24, at + 64)
}

pub proof fn lemma_u16_roundtrip(x: u16)
    ensures
        read_u16(le_u16(x), 0) == x,
{
    let b0 = (x & 0xff) as u8;
    let b1 = (x >> 8u16) as u8;
    assert((b0 as u16) | ((b1 as u16) << 8u16) == x) by (bit_vector)
        requires b0 == (x & 0xff) as u8, b1 == (x >> 8u16) as u8;
}

pub proof fn lemma_u32_roundtrip(x: u32)
    ensures
        read_u32(le_u32(x), 0) == x,
{
    let b0 = (x & 0xff) as u8;
    let b1 = ((x >> 8u32) & 0xff) as u8;
    let b2 = ((x >> 16u32) & 0xff) as u8;
    let b3 = (x >> 24u32) as u8;
    assert((b0 as u32) | ((b1 as u32) << 8u32) | ((b2 as u32) << 16u32) | ((b3 as u32) << 24u32) == x)
        by (bit_vector)
        requires
            b0 == (x & 0xff) as u8,
            b1 == ((x >> 8u32) & 0xff) as u8,
            b2 == ((x >> 16u32) & 0xff) as u8,
            b3 == (x >> 24u32) as u8;
}

pub proof fn lemma_i16_roundtrip(x: i16)
    ensures
        (x as u16) as i16 == x,
{
    assert((x as u16) as i16 == x) by (bit_vector);
}

pub proof fn lemma_i32_roundtrip(x: i32)
    ensures
        (x as u32) as i32 == x,
{
    assert((x as u32) as i32 == x) by (bit_vector);
}

/// The fields read from a slice at an offset are the fields read from the
/// sub-sequence that starts there.
proof fn lemma_read_shift(b: Seq<u8>, at: int, part: Seq<u8>, off: int)
    requires
        0 <= off,
        0 <= at,
        at + off + 4 <= b.len(),
        off + 4 <= part.len(),
        forall|k: int| 0 <= k < 4 ==> #[trigger] b[at + off + k] == part[off + k],
    ensures
        read_u16(b, at + off) == read_u16(part.subrange(off, off + 2), 0),
        read_u32(b, at + off) == read_u32(part.subrange(off, off + 4), 0),
{
    assert(b[at + off + 0] == part[off + 0]);
    assert(b[at + off + 1] == part[off + 1]);
    assert(b[at + off + 2] == part[off + 2]);
    assert(b[at + off + 3] == part[off + 3]);
}

/// A cell's bytes decode back to the cell.
pub proof fn lemma_cell_bytes_decode(b: Seq<u8>, at: int, c: Cell)
    requires
        0 <= at,
        at + 64 <= b.len(),
        b.subrange(at, at + 64) == cell_bytes(c),
    ensures
        cell_stored_at(b, at, c),
{
    let e = cell_bytes(c);
    assert(e.len() == 64);
    assert forall|k: int| 0 <= k < 64 implies b[at + k] == e[k] by {
        assert(b.subrange(at, at + 64)[k] == b[at + k]);
    }
    assert(e.subrange(0, 2) =~= le_u16(c.material_id));
    assert(e.subrange(4, 6) =~= le_u16(c.temperature as u16));
    assert(e.subrange(6, 8) =~= le_u16(c.chemical_mask));
    assert(e.subrange(8, 10) =~= le_u16(c.vel_x as u16));
    assert(e.subrange(10, 12) =~= le_u16(c.vel_y as u16));
    assert(e.subrange(12, 14) =~= le_u16(c.vel_z as u16));
    assert(e.subrange(14, 16) =~= le_u16(c._padding_vel as u16));
    assert(e.subrange(16, 20) =~= le_u32(c.pressure as u32));
    assert(e.subrange(20, 24) =~= le_u32(c.excess_level as u32));
    assert(e.subrange(24, 64) =~= c.reserved_future@);
    lemma_read_shift(b, at, e, 0);
    lemma_read_shift(b, at, e, 4);
    lemma_read_shift(b, at, e, 6);
    lemma_read_shift(b, at, e, 8);
    lemma_read_shift(b, at, e, 10);
    lemma_read_shift(b, at, e, 12);
    lemma_read_shift(b, at, e, 14);
    lemma_read_shift(b, at, e, 16);
    lemma_read_shift(b, at, e, 20);
    lemma_u16_roundtrip(c.material_id);
    lemma_u16_roundtrip(c.temperature as u16);
    lemma_u16_roundtrip(c.chemical_mask);
    lemma_u16_roundtrip(c.vel_x as u16);
    lemma_u16_roundtrip(c.vel_y as u16);
    lemma_u16_roundtrip(c.vel_z as u16);
    lemma_u16_roundtrip(c._padding_vel as u16);
    lemma_u32_roundtrip(c.pressure as u32);
    lemma_u32_roundtrip(c.excess_level as u32);
    lemma_i16_roundtrip(c.temperature);
    lemma_i16_roundtrip(c.vel_x);
    lemma_i16_roundtrip(c.vel_y);
    lemma_i16_roundtrip(c.vel_z);
    lemma_i16_roundtrip(c._padding_vel);
    lemma_i32_roundtrip(c.pressure);
    lemma_i32_roundtrip(c.excess_level);
    assert(c.reserved_future@ =~= b.subrange(at + 24, at + 64));
}

/// Only one cell is stored at a place: two cells read from the same bytes are equal.
pub proof fn lemma_cell_stored_unique(b: Seq<u8>, at: int, c: Cell, d: Cell)
    requires
        cell_stored_at(b, at, c),
        cell_stored_at(b, at, d),
    ensures
        c == d,
{
    assert(c.reserved_future =~= d.reserved_future);
}

pub fn push_u16(out: &mut Vec<u8>, x: u16)
    ensures
        final(out)@ == old(out)@ + le_u16(x),
{
    out.push((x & 0xff) as u8);
    out.push((x >> 8u16) as u8);
    assert(final(out)@ =~= old(out)@ + le_u16(x));
}

pub fn push_u32(out: &mut Vec<u8>, x: u32)
    ensures
        final(out)@ == old(out)@ + le_u32(x),
{
    out.push((x & 0xff) as u8);
    out.push(((x >> 8u32) & 0xff) as u8);
    out.push(((x >> 16u32) & 0xff) as u8);
    out.push((x >> 24u32) as u8);
    assert(final(out)@ =~= old(out)@ + le_u32(x));
}

pub fn get_u16(b: &[u8], at: usize) -> (x: u16)
    requires
        at + 2 <= b@.len(),
    ensures
        x == read_u16(b@, at as int),
{
    (b[at] as u16) | ((b[at + 1] as u16) << 8u16)
}

pub fn get_u32(b: &[u8], at: usize) -> (x: u32)
    requires
        at + 4 <= b@.len(),
    ensures
        x == read_u32(b@, at as int),
{
    (b[at] as u32) | ((b[at + 1] as u32) << 8u32) | ((b[at + 2] as u32) << 16u32) | ((b[at + 3] as u32) << 24u32)
}

/// Appends the 64 bytes of a cell.
pub fn push_cell(out: &mut Vec<u8>, c: &Cell)
    ensures
        final(out)@ == old(out)@ + cell_bytes(*c),
{
    let ghost start = out@;
    push_u16(out, c.material_id);
    out.push(c.phase_state);
    out.push(c.liquid_level);
    push_u16(out, c.temperature as u16);
    push_u16(out, c.chemical_mask);
    push_u16(out, c.vel_x as u16);
    push_u16(out, c.vel_y as u16);
    push_u16(out, c.vel_z as u16);
    push_u16(out, c._padding_vel as u16);
    push_u32(out, c.pressure as u32);
    push_u32(out, c.excess_level as u32);
    let mut k: usize = 0;
    let ghost mid = out@;
    while k < 40
        invariant
            0 <= k <= 40,
            out@ == mid + c.reserved_future@.subrange(0, k as int),
        decreases 40 - k,
    {
        out.push(c.reserved_future[k]);
        k = k + 1;
        assert(out@ =~= mid + c.reserved_future@.subrange(0, k as int));
    }
    assert(c.reserved_future@.subrange(0, 40) =~= c.reserved_future@);
    assert(final(out)@ =~= old(out)@ + cell_bytes(*c));
}

/// Reads the cell stored at `b[at .. at + 64]`.
pub fn read_cell(b: &[u8], at: usize) -> (c: Cell)
    requires
        at + CELL_SIZE <= b@.len(),
    ensures
        cell_stored_at(b@, at as int, c),
{
    let len = b.len();
    let mut reserved = [0u8; 40];
    let mut k: usize = 0;
    while k < 40
        invariant
            0 <= k <= 40,
            len == b@.len(),
            at + 64 <= b@.len(),
            forall|j: int| 0 <= j < k ==> reserved@[j] == b@[at + 24 + j],
        decreases 40 - k,
    {
        reserved[k] = b[at + 24 + k];
        k = k + 1;
    }
    let c = Cell {
        material_id: get_u16(b, at),
        phase_state: b[at + 2],
        liquid_level: b[at + 3],
        temperature: get_u16(b, at + 4) as i16,
        chemical_mask: get_u16(b, at + 6),
        vel_x: get_u16(b, at + 8) as i16,
        vel_y: get_u16(b, at + 10) as i16,
        vel_z: get_u16(b, at + 12) as i16,
        _padding_vel: get_u16(b, at + 14) as i16,
        pressure: get_u32(b, at + 16) as i32,
        excess_level: get_u32(b, at + 20) as i32,
        reserved_future: reserved,
    };
    assert(c.reserved_future@ =~= b@.subrange(at + 24, at + 64));
    c
}

/// The bytes of a run of cells.
pub fn encode_cells(cells: &[Cell]) -> (out: Vec<u8>)
    requires
        cells@.len() * 64 <= usize::MAX,
    ensures
        out@ == cells_bytes(cells@),
{
    let mut out: Vec<u8> = Vec::new();
    let mut i: usize = 0;
    while i < cells.len()
        invariant
            0 <= i <= cells@.len(),
            out@.len() == i * 64,
            forall|k: int| 0 <= k < i * 64 ==> out@[k] == #[trigger] cell_bytes(cells@[k / 64])[k % 64],
        decreases cells@.len() - i,
    {
        let ghost before = out@;
        push_cell(&mut out, &cells[i]);
        proof {
            assert forall|k: int| 0 <= k < (i + 1) * 64 implies out@[k] == #[trigger] cell_bytes(cells@[k / 64])[k % 64] by {
                if k >= i * 64 {
                    assert(k / 64 == i && k % 64 == k - i * 64) by (nonlinear_arith)
                        requires i * 64 <= k < (i + 1) * 64;
                    assert(out@[k] == cell_bytes(cells@[i as int])[k - i * 64]);
                } else {
                    assert(out@[k] == before[k]);
                }
            }
        }
        i = i + 1;
    }
    assert(out@ =~= cells_bytes(cells@));
    out
}

/// The cells stored one after the other in `b`.
pub fn decode_cells(b: &[u8]) -> (cells: Vec<Cell>)
    requires
        b@.len() % 64 == 0,
    ensures
        cells@.len() * 64 == b@.len(),
        forall|i: int| 0 <= i < cells@.len() ==> cell_stored_at(b@, i * 64, #[trigger] cells@[i]),
{
    let len = b.len();
    let n = len / CELL_SIZE;
    let mut cells: Vec<Cell> = Vec::new();
    let mut i: usize = 0;
    while i < n
        invariant
            len == b@.len(),
            n * 64 == b@.len(),
            0 <= i <= n,
            cells@.len() == i,
            forall|j: int| 0 <= j < i ==> cell_stored_at(b@, j * 64, #[trigger] cells@[j]),
        decreases n - i,
    {
        assert(i * 64 + 64 <= n * 64) by (nonlinear_arith) requires i < n;
        let c = read_cell(b, i * CELL_SIZE);
        cells.push(c);
        i = i + 1;
    }
    cells
}

/// Decoding the bytes of a run of cells gives back the cells.
pub proof fn lemma_cells_roundtrip(cells: Seq<Cell>, decoded: Seq<Cell>)
    requires
        decoded.len() == cells.len(),
        forall|i: int| 0 <= i < decoded.len() ==> cell_stored_at(cells_bytes(cells), i * 64, #[trigger] decoded[i]),
    ensures
        decoded == cells,
{
    let b = cells_bytes(cells);
    assert forall|i: int| 0 <= i < cells.len() implies decoded[i] == cells[i] by {
        assert(0 <= i * 64 && i * 64 + 64 <= cells.len() * 64) by (nonlinear_arith)
            requires 0 <= i < cells.len();
        assert forall|k: int| 0 <= k < 64 implies b.subrange(i * 64, i * 64 + 64)[k] == cell_bytes(cells[i])[k] by {
            assert((i * 64 + k) / 64 == i && (i * 64 + k) % 64 == k) by (nonlinear_arith)
                requires 0 <= k < 64;
        }
        assert(b.subrange(i * 64, i * 64 + 64) =~= cell_bytes(cells[i]));
        lemma_cell_bytes_decode(b, i * 64, cells[i]);
        lemma_cell_stored_unique(b, i * 64, cells[i], decoded[i]);
    }
    assert(decoded =~= cells);
}

} // verus!
