//! World file format: a 64-byte world header, then one record per chunk in
//! row order (`z` outer, `x` inner), each a 32-byte chunk header followed by
//! the chunk's cells.  Every integer is stored little-endian.
use vstd::prelude::*;
use crate::io::codec::{le_u16, le_u32, read_u16, read_u32, push_u16, push_u32, get_u16, get_u32,
    lemma_u16_roundtrip, lemma_u32_roundtrip, lemma_i32_roundtrip, CELL_SIZE};
use crate::voxel::format::CELLS_PER_CHUNK;

pub mod chunk_flags;

verus! {

/// Magic number of the world header ("TXLV").
pub const WORLD_MAGIC: u32 = 0x54584C56;

/// Magic number of a chunk header ("CHNK").
pub const CHUNK_MAGIC: u32 = 0x43484E4B;

/// Current version of the world format.
pub const FORMAT_VERSION: u32 = 1;

/// Current version of the chunk record format.
pub const CHUNK_VERSION: u16 = 1;

/// Bytes of a chunk header.
pub const CHUNK_HEADER_SIZE: usize = 32;

/// Bytes of the world header.
pub const WORLD_HEADER_SIZE: usize = 64;

/// Header of one chunk record.
#[derive(Clone, Copy, Debug)]
pub struct ChunkHeader {
    pub magic: u32,
    pub version: u16,
    pub flags: u16,
    pub data_size: u32,
    pub checksum: u32,
    pub cell_count: u32,
    pub min_solid_y: u16,
    pub max_solid_y: u16,
    pub min_liquid_y: u16,
    pub max_liquid_y: u16,
    pub _padding: [u8; 4],
}

/// The 32 bytes of a chunk header.
pub open spec fn chunk_header_bytes(h: ChunkHeader) -> Seq<u8> {
    le_u32(h.magic) + le_u16(h.version) + le_u16(h.flags) + le_u32(h.data_size)
        + le_u32(h.checksum) + le_u32(h.cell_count) + le_u16(h.min_solid_y)
        + le_u16(h.max_solid_y) + le_u16(h.min_liquid_y) + le_u16(h.max_liquid_y) + h._padding@
}

/// `h` is the chunk header stored in the 32 bytes `b`.
pub open spec fn chunk_header_stored_in(b: Seq<u8>, h: ChunkHeader) -> bool {
    &&& h.magic == read_u32(b, 0)
    &&& h.version == read_u16(b, 4)
    &&& h.flags == read_u16(b, 6)
    &&& h.data_size == read_u32(b, 8)
    &&& h.checksum == read_u32(b, 12)
    &&& h.cell_count == read_u32(b, 16)
    &&& h.min_solid_y == read_u16(b, 20)
    &&& h.max_solid_y == read_u16(b, 22)
    &&& h.min_liquid_y == read_u16(b, 24)
    &&& h.max_liquid_y == read_u16(b, 26)
    &&& h._padding@ == b.subrange(28, 32)
}

impl ChunkHeader {
    pub fn new(data_size: u32, cell_count: u32) -> (h: Self)
        ensures
            h.magic == CHUNK_MAGIC,
            h.version == CHUNK_VERSION,
            h.flags == 0,
            h.data_size == data_size,
            h.checksum == 0,
            h.cell_count == cell_count,
            h.min_solid_y == 0 && h.max_solid_y == 0,
            h.min_liquid_y == 0 && h.max_liquid_y == 0,
            h._padding@ == seq![0u8, 0u8, 0u8, 0u8],
    {
        let h = Self {
            magic: CHUNK_MAGIC,
            version: CHUNK_VERSION,
            flags: 0,
            data_size,
            checksum: 0,
            cell_count,
            min_solid_y: 0,
            max_solid_y: 0,
            min_liquid_y: 0,
            max_liquid_y: 0,
            _padding: [0u8; 4],
        };
        assert(h._padding@ =~= seq![0u8, 0u8, 0u8, 0u8]);
        h
    }

    /// The header has the chunk magic and the current chunk version.
    pub open spec fn spec_is_valid(&self) -> bool {
        self.magic == CHUNK_MAGIC && self.version == CHUNK_VERSION
    }

    pub fn is_valid(&self) -> (r: bool)
        ensures
            r == self.spec_is_valid(),
    {
        self.magic == CHUNK_MAGIC && self.version == CHUNK_VERSION
    }

    pub fn is_compressed(&self) -> (r: bool)
        ensures
            r == (self.flags & chunk_flags::COMPRESSED != 0),
    {
        self.flags & chunk_flags::COMPRESSED != 0
    }

    /// The 32 bytes of the header.
    pub fn to_bytes(&self) -> (b: Vec<u8>)
        ensures
            b@ == chunk_header_bytes(*self),
            b@.len() == CHUNK_HEADER_SIZE,
    {
        let mut b: Vec<u8> = Vec::new();
        push_u32(&mut b, self.magic);
        push_u16(&mut b, self.version);
        push_u16(&mut b, self.flags);
        push_u32(&mut b, self.data_size);
        push_u32(&mut b, self.checksum);
        push_u32(&mut b, self.cell_count);
        push_u16(&mut b, self.min_solid_y);
        push_u16(&mut b, self.max_solid_y);
        push_u16(&mut b, self.min_liquid_y);
        push_u16(&mut b, self.max_liquid_y);
        let mut k: usize = 0;
        let ghost mid = b@;
        while k < 4
            invariant
                0 <= k <= 4,
                b@ == mid + self._padding@.subrange(0, k as int),
            decreases 4 - k,
        {
            b.push(self._padding[k]);
            k = k + 1;
            assert(b@ =~= mid + self._padding@.subrange(0, k as int));
        }
        assert(self._padding@.subrange(0, 4) =~= self._padding@);
        b
    }

    /// The header stored in 32 bytes.
    pub fn from_bytes(b: &[u8]) -> (h: Self)
        requires
            b@.len() == CHUNK_HEADER_SIZE,
        ensures
            chunk_header_stored_in(b@, h),
    {
        let mut padding = [0u8; 4];
        let mut k: usize = 0;
        while k < 4
            invariant
                0 <= k <= 4,
                b@.len() == 32,
                forall|j: int| 0 <= j < k ==> padding@[j] == b@[28 + j],
            decreases 4 - k,
        {
            padding[k] = b[28 + k];
            k = k + 1;
        }
        let h = Self {
            magic: get_u32(b, 0),
            version: get_u16(b, 4),
            flags: get_u16(b, 6),
            data_size: get_u32(b, 8),
            checksum: get_u32(b, 12),
            cell_count: get_u32(b, 16),
            min_solid_y: get_u16(b, 20),
            max_solid_y: get_u16(b, 22),
            min_liquid_y: get_u16(b, 24),
            max_liquid_y: get_u16(b, 26),
            _padding: padding,
        };
        assert(h._padding@ =~= b@.subrange(28, 32));
        h
    }
}

impl Default for ChunkHeader {
    fn default() -> (h: Self)
        ensures
            h.magic == CHUNK_MAGIC,
            h.version == CHUNK_VERSION,
            h.flags == 0,
            h.data_size == 0,
            h.checksum == 0,
            h.cell_count == 0,
            h.min_solid_y == 0 && h.max_solid_y == 0,
            h.min_liquid_y == 0 && h.max_liquid_y == 0,
            h._padding@ == seq![0u8, 0u8, 0u8, 0u8],
    {
        Self::new(0, 0)
    }
}

proof fn lemma_read_at(b: Seq<u8>, at: int, part: Seq<u8>)
    requires
        0 <= at,
        at + part.len() <= b.len(),
        part.len() == 2 || part.len() == 4,
        b.subrange(at, at + part.len()) == part,
    ensures
        part.len() == 2 ==> read_u16(b, at) == read_u16(part, 0),
        part.len() == 4 ==> read_u32(b, at) == read_u32(part, 0),
{
    assert(b[at] == b.subrange(at, at + part.len())[0]);
    assert(b[at + 1] == b.subrange(at, at + part.len())[1]);
    if part.len() == 4 {
        assert(b[at + 2] == b.subrange(at, at + part.len())[2]);
        assert(b[at + 3] == b.subrange(at, at + part.len())[3]);
    }
}

/// Reading back the bytes of a chunk header gives the header.
#[verifier::rlimit(60)]
pub proof fn lemma_chunk_header_roundtrip(h: ChunkHeader, read: ChunkHeader)
    requires
        chunk_header_stored_in(chunk_header_bytes(h), read),
    ensures
        read == h,
{
    let b = chunk_header_bytes(h);
    assert(b.subrange(0, 4) =~= le_u32(h.magic));
    assert(b.subrange(4, 6) =~= le_u16(h.version));
    assert(b.subrange(6, 8) =~= le_u16(h.flags));
    assert(b.subrange(8, 12) =~= le_u32(h.data_size));
    assert(b.subrange(12, 16) =~= le_u32(h.checksum));
    assert(b.subrange(16, 20) =~= le_u32(h.cell_count));
    assert(b.subrange(20, 22) =~= le_u16(h.min_solid_y));
    assert(b.subrange(22, 24) =~= le_u16(h.max_solid_y));
    assert(b.subrange(24, 26) =~= le_u16(h.min_liquid_y));
    assert(b.subrange(26, 28) =~= le_u16(h.max_liquid_y));
    assert(b.subrange(28, 32) =~= h._padding@);
    lemma_read_at(b, 0, le_u32(h.magic));
    lemma_read_at(b, 4, le_u16(h.version));
    lemma_read_at(b, 6, le_u16(h.flags));
    lemma_read_at(b, 8, le_u32(h.data_size));
    lemma_read_at(b, 12, le_u32(h.checksum));
    lemma_read_at(b, 16, le_u32(h.cell_count));
    lemma_read_at(b, 20, le_u16(h.min_solid_y));
    lemma_read_at(b, 22, le_u16(h.max_solid_y));
    lemma_read_at(b, 24, le_u16(h.min_liquid_y));
    lemma_read_at(b, 26, le_u16(h.max_liquid_y));
    lemma_u32_roundtrip(h.magic);
    lemma_u16_roundtrip(h.version);
    lemma_u16_roundtrip(h.flags);
    lemma_u32_roundtrip(h.data_size);
    lemma_u32_roundtrip(h.checksum);
    lemma_u32_roundtrip(h.cell_count);
    lemma_u16_roundtrip(h.min_solid_y);
    lemma_u16_roundtrip(h.max_solid_y);
    lemma_u16_roundtrip(h.min_liquid_y);
    lemma_u16_roundtrip(h.max_liquid_y);
    assert(read._padding =~= h._padding);
}

/// Header of a world file.
#[derive(Clone, Copy, Debug)]
pub struct WorldHeader {
    pub magic: u32,
    pub version: u32,
    pub chunks_x: u32,
    pub chunks_z: u32,
    pub chunk_height: u32,
    pub spawn_x: i32,
    pub spawn_z: i32,
    pub chunk_header_size: u32,
    pub _padding: [u8; 32],
}

/// The 64 bytes of a world header.
pub open spec fn world_header_bytes(h: WorldHeader) -> Seq<u8> {
    le_u32(h.magic) + le_u32(h.version) + le_u32(h.chunks_x) + le_u32(h.chunks_z)
        + le_u32(h.chunk_height) + le_u32(h.spawn_x as u32) + le_u32(h.spawn_z as u32)
        + le_u32(h.chunk_header_size) + h._padding@
}

/// `h` is the world header stored in the 64 bytes `b`.
pub open spec fn world_header_stored_in(b: Seq<u8>, h: WorldHeader) -> bool {
    &&& h.magic == read_u32(b, 0)
    &&& h.version == read_u32(b, 4)
    &&& h.chunks_x == read_u32(b, 8)
    &&& h.chunks_z == read_u32(b, 12)
    &&& h.chunk_height == read_u32(b, 16)
    &&& h.spawn_x == read_u32(b, 20) as i32
    &&& h.spawn_z == read_u32(b, 24) as i32
    &&& h.chunk_header_size == read_u32(b, 28)
    &&& h._padding@ == b.subrange(32, 64)
}

/// Bytes of one chunk record: its header and its cells.
pub open spec fn spec_chunk_total_size(h: WorldHeader) -> int {
    h.chunk_header_size + CELLS_PER_CHUNK * CELL_SIZE
}

impl WorldHeader {
    pub fn new(chunks_x: u32, chunks_z: u32, chunk_height: u32) -> (h: Self)
        ensures
            h.magic == WORLD_MAGIC,
            h.version == FORMAT_VERSION,
            h.chunks_x == chunks_x,
            h.chunks_z == chunks_z,
            h.chunk_height == chunk_height,
            h.spawn_x == 0 && h.spawn_z == 0,
            h.chunk_header_size == CHUNK_HEADER_SIZE,
            forall|i: int| 0 <= i < 32 ==> h._padding@[i] == 0,
    {
        Self {
            magic: WORLD_MAGIC,
            version: FORMAT_VERSION,
            chunks_x,
            chunks_z,
            chunk_height,
            spawn_x: 0,
            spawn_z: 0,
            chunk_header_size: CHUNK_HEADER_SIZE as u32,
            _padding: [0u8; 32],
        }
    }

    pub fn with_spawn(self, spawn_x: i32, spawn_z: i32) -> (h: Self)
        ensures
            h == (WorldHeader { spawn_x, spawn_z, ..self }),
    {
        let mut h = self;
        h.spawn_x = spawn_x;
        h.spawn_z = spawn_z;
        h
    }

    /// The header has the world magic and the current format version.
    pub open spec fn spec_is_valid(&self) -> bool {
        self.magic == WORLD_MAGIC && self.version == FORMAT_VERSION
    }

    pub fn is_valid(&self) -> (r: bool)
        ensures
            r == self.spec_is_valid(),
    {
        self.magic == WORLD_MAGIC && self.version == FORMAT_VERSION
    }

    /// Bytes of one chunk record in the file (header and cells).
    pub fn chunk_total_size(&self) -> (r: u64)
        ensures
            r == spec_chunk_total_size(*self),
    {
        self.chunk_header_size as u64 + (CELLS_PER_CHUNK * CELL_SIZE) as u64
    }

    /// The 64 bytes of the header.
    pub fn to_bytes(&self) -> (b: Vec<u8>)
        ensures
            b@ == world_header_bytes(*self),
            b@.len() == WORLD_HEADER_SIZE,
    {
        let mut b: Vec<u8> = Vec::new();
        push_u32(&mut b, self.magic);
        push_u32(&mut b, self.version);
        push_u32(&mut b, self.chunks_x);
        push_u32(&mut b, self.chunks_z);
        push_u32(&mut b, self.chunk_height);
        push_u32(&mut b, self.spawn_x as u32);
        push_u32(&mut b, self.spawn_z as u32);
        push_u32(&mut b, self.chunk_header_size);
        let mut k: usize = 0;
        let ghost mid = b@;
        while k < 32
            invariant
                0 <= k <= 32,
                b@ == mid + self._padding@.subrange(0, k as int),
            decreases 32 - k,
        {
            b.push(self._padding[k]);
            k = k + 1;
            assert(b@ =~= mid + self._padding@.subrange(0, k as int));
        }
        assert(self._padding@.subrange(0, 32) =~= self._padding@);
        b
    }

    /// The header stored in 64 bytes.
    pub fn from_bytes(b: &[u8]) -> (h: Self)
        requires
            b@.len() == WORLD_HEADER_SIZE,
        ensures
            world_header_stored_in(b@, h),
    {
        let mut padding = [0u8; 32];
        let mut k: usize = 0;
        while k < 32
            invariant
                0 <= k <= 32,
                b@.len() == 64,
                forall|j: int| 0 <= j < k ==> padding@[j] == b@[32 + j],
            decreases 32 - k,
        {
            padding[k] = b[32 + k];
            k = k + 1;
        }
        let h = Self {
            magic: get_u32(b, 0),
            version: get_u32(b, 4),
            chunks_x: get_u32(b, 8),
            chunks_z: get_u32(b, 12),
            chunk_height: get_u32(b, 16),
            spawn_x: get_u32(b, 20) as i32,
            spawn_z: get_u32(b, 24) as i32,
            chunk_header_size: get_u32(b, 28),
            _padding: padding,
        };
        assert(h._padding@ =~= b@.subrange(32, 64));
        h
    }
}

/// Reading back the bytes of a world header gives the header.
#[verifier::rlimit(60)]
pub proof fn lemma_world_header_roundtrip(h: WorldHeader, read: WorldHeader)
    requires
        world_header_stored_in(world_header_bytes(h), read),
    ensures
        read == h,
{
    let b = world_header_bytes(h);
    assert(b.subrange(0, 4) =~= le_u32(h.magic));
    assert(b.subrange(4, 8) =~= le_u32(h.version));
    assert(b.subrange(8, 12) =~= le_u32(h.chunks_x));
    assert(b.subrange(12, 16) =~= le_u32(h.chunks_z));
    assert(b.subrange(16, 20) =~= le_u32(h.chunk_height));
    assert(b.subrange(20, 24) =~= le_u32(h.spawn_x as u32));
    assert(b.subrange(24, 28) =~= le_u32(h.spawn_z as u32));
    assert(b.subrange(28, 32) =~= le_u32(h.chunk_header_size));
    assert(b.subrange(32, 64) =~= h._padding@);
    lemma_read_at(b, 0, le_u32(h.magic));
    lemma_read_at(b, 4, le_u32(h.version));
    lemma_read_at(b, 8, le_u32(h.chunks_x));
    lemma_read_at(b, 12, le_u32(h.chunks_z));
    lemma_read_at(b, 16, le_u32(h.chunk_height));
    lemma_read_at(b, 20, le_u32(h.spawn_x as u32));
    lemma_read_at(b, 24, le_u32(h.spawn_z as u32));
    lemma_read_at(b, 28, le_u32(h.chunk_header_size));
    lemma_u32_roundtrip(h.magic);
    lemma_u32_roundtrip(h.version);
    lemma_u32_roundtrip(h.chunks_x);
    lemma_u32_roundtrip(h.chunks_z);
    lemma_u32_roundtrip(h.chunk_height);
    lemma_u32_roundtrip(h.spawn_x as u32);
    lemma_u32_roundtrip(h.spawn_z as u32);
    lemma_u32_roundtrip(h.chunk_header_size);
    lemma_i32_roundtrip(h.spawn_x);
    lemma_i32_roundtrip(h.spawn_z);
    assert(read._padding =~= h._padding);
}

} // verus!
