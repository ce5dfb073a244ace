use vstd::prelude::*;
use crate::block::{BlockType, IVec3};

verus! {

/// Width and depth of a chunk, in blocks.
pub const CHUNK_SIZE: usize = 16;

/// Height of a chunk, in blocks.
pub const CHUNK_HEIGHT: usize = 128;

/// Blocks in one horizontal layer of a chunk.
pub const CHUNK_AREA: usize = CHUNK_SIZE * CHUNK_SIZE;

/// Blocks in a chunk.
pub const CHUNK_VOLUME: usize = CHUNK_AREA * CHUNK_HEIGHT;

/// How urgently a chunk is to be processed, from lowest to highest.
#[derive(Debug, Clone, Copy, PartialEq, Eq, PartialOrd, Ord, Hash, Structural)]
pub enum ChunkPriority {
    /// Chunks that should be unloaded.
    Unload,
    /// Chunks within render distance but far.
    Far,
    /// Chunks near the player.
    Near,
    /// Chunks visible to the player.
    Visible,
}

impl ChunkPriority {
    /// Rank of the priority: Unload 0, Far 1, Near 2, Visible 3.
    pub open spec fn rank_spec(self) -> nat {
        match self {
            ChunkPriority::Unload => 0,
            ChunkPriority::Far => 1,
            ChunkPriority::Near => 2,
            ChunkPriority::Visible => 3,
        }
    }

    /// Rank of the priority: Unload 0, Far 1, Near 2, Visible 3.
    pub fn rank(&self) -> (r: u8)
        ensures
            r == self.rank_spec(),
    {
        match self {
            ChunkPriority::Unload => 0,
            ChunkPriority::Far => 1,
            ChunkPriority::Near => 2,
            ChunkPriority::Visible => 3,
        }
    }
}

impl Default for ChunkPriority {
    fn default() -> (r: ChunkPriority)
        ensures
            r == ChunkPriority::Far,
    {
        ChunkPriority::Far
    }
}

/// Position of a chunk on the horizontal chunk grid.
#[derive(Debug, Clone, Copy, PartialEq, Eq, Hash, Structural)]
pub struct ChunkPosition {
    pub x: i32,
    pub z: i32,
}

/// Floor division by the chunk width.
pub open spec fn floor_div_chunk(v: int) -> int {
    v / (CHUNK_SIZE as int)
}

/// Euclidean remainder by the chunk width, in `0..CHUNK_SIZE`.
pub open spec fn mod_chunk(v: int) -> int {
    v % (CHUNK_SIZE as int)
}

/// The chunk that holds the block column at `(x, z)`.
pub open spec fn chunk_of_block(p: IVec3) -> ChunkPosition {
    ChunkPosition { x: floor_div_chunk(p.x as int) as i32, z: floor_div_chunk(p.z as int) as i32 }
}

/// `v.div_euclid(CHUNK_SIZE)`.
pub fn div_euclid_chunk(v: i32) -> (r: i32)
    ensures
        r == floor_div_chunk(v as int),
{
    match v.checked_div_euclid(16) {
        Some(q) => q,
        None => {
            proof {
                assert(false);
            }
            0
        },
    }
}

/// `v.rem_euclid(CHUNK_SIZE)`.
pub fn rem_euclid_chunk(v: i32) -> (r: i32)
    ensures
        r == mod_chunk(v as int),
        0 <= r < CHUNK_SIZE,
{
    match v.checked_rem_euclid(16) {
        Some(q) => q,
        None => {
            proof {
                assert(false);
            }
            0
        },
    }
}

/// Whether the first block of chunk column `c` has an `i32` coordinate.
pub open spec fn chunk_coord_in_range(c: i32) -> bool {
    i32::MIN <= c * (CHUNK_SIZE as int) && c * (CHUNK_SIZE as int) + (CHUNK_SIZE as int)
        <= i32::MAX
}

impl ChunkPosition {
    pub fn new(x: i32, z: i32) -> (r: ChunkPosition)
        ensures
            r.x == x,
            r.z == z,
    {
        ChunkPosition { x, z }
    }

    /// The chunk that holds the block at `block_pos`.
    pub fn from_block_position(block_pos: IVec3) -> (r: ChunkPosition)
        ensures
            r == chunk_of_block(block_pos),
    {
        ChunkPosition::new(div_euclid_chunk(block_pos.x), div_euclid_chunk(block_pos.z))
    }

    /// The first block of the chunk: `(x * CHUNK_SIZE, 0, z * CHUNK_SIZE)`.
    pub open spec fn min_block_spec(self) -> IVec3 {
        IVec3 {
            x: (self.x * (CHUNK_SIZE as int)) as i32,
            y: 0,
            z: (self.z * (CHUNK_SIZE as int)) as i32,
        }
    }

    /// The block position with the lowest coordinates in the chunk.
    pub fn min_block_position(&self) -> (r: IVec3)
        requires
            i32::MIN <= self.x * (CHUNK_SIZE as int) <= i32::MAX,
            i32::MIN <= self.z * (CHUNK_SIZE as int) <= i32::MAX,
        ensures
            r == self.min_block_spec(),
    {
        IVec3::new(self.x * 16, 0, self.z * 16)
    }

    /// The four chunks sharing an edge with this one: north, south, east, west.
    pub fn neighbors(&self) -> (r: [ChunkPosition; 4])
        requires
            i32::MIN < self.x < i32::MAX,
            i32::MIN < self.z < i32::MAX,
        ensures
            r@ == seq![
                ChunkPosition { x: self.x, z: (self.z - 1) as i32 },
                ChunkPosition { x: self.x, z: (self.z + 1) as i32 },
                ChunkPosition { x: (self.x + 1) as i32, z: self.z },
                ChunkPosition { x: (self.x - 1) as i32, z: self.z },
            ],
    {
        [
            ChunkPosition::new(self.x, self.z - 1),
            ChunkPosition::new(self.x, self.z + 1),
            ChunkPosition::new(self.x + 1, self.z),
            ChunkPosition::new(self.x - 1, self.z),
        ]
    }

    /// The eight surrounding chunks: the four edge neighbours, then
    /// north-east, south-east, north-west and south-west.
    pub fn all_neighbors(&self) -> (r: [ChunkPosition; 8])
        requires
            i32::MIN < self.x < i32::MAX,
            i32::MIN < self.z < i32::MAX,
        ensures
            r@ == seq![
                ChunkPosition { x: self.x, z: (self.z - 1) as i32 },
                ChunkPosition { x: self.x, z: (self.z + 1) as i32 },
                ChunkPosition { x: (self.x + 1) as i32, z: self.z },
                ChunkPosition { x: (self.x - 1) as i32, z: self.z },
                ChunkPosition { x: (self.x + 1) as i32, z: (self.z - 1) as i32 },
                ChunkPosition { x: (self.x + 1) as i32, z: (self.z + 1) as i32 },
                ChunkPosition { x: (self.x - 1) as i32, z: (self.z - 1) as i32 },
                ChunkPosition { x: (self.x - 1) as i32, z: (self.z + 1) as i32 },
            ],
    {
        [
            ChunkPosition::new(self.x, self.z - 1),
            ChunkPosition::new(self.x, self.z + 1),
            ChunkPosition::new(self.x + 1, self.z),
            ChunkPosition::new(self.x - 1, self.z),
            ChunkPosition::new(self.x + 1, self.z - 1),
            ChunkPosition::new(self.x + 1, self.z + 1),
            ChunkPosition::new(self.x - 1, self.z - 1),
            ChunkPosition::new(self.x - 1, self.z + 1),
        ]
    }
}

/// The chunk holding a block's first block is the chunk itself.
pub proof fn lemma_chunk_of_min_block(p: ChunkPosition)
    requires
        i32::MIN <= p.x * (CHUNK_SIZE as int) <= i32::MAX,
        i32::MIN <= p.z * (CHUNK_SIZE as int) <= i32::MAX,
    ensures
        chunk_of_block(p.min_block_spec()) == p,
{
    vstd::arithmetic::div_mod::lemma_div_multiples_vanish(p.x as int, 16);
    vstd::arithmetic::div_mod::lemma_div_multiples_vanish(p.z as int, 16);
    assert((p.x * 16) / 16 == p.x) by (nonlinear_arith);
    assert((p.z * 16) / 16 == p.z) by (nonlinear_arith);
}


/// Index of local position `(x, y, z)` in a chunk's block array: layer by
/// layer, then row by row.
pub open spec fn local_index(x: int, y: int, z: int) -> int {
    y * (CHUNK_AREA as int) + z * (CHUNK_SIZE as int) + x
}

/// Positions inside a chunk have indices inside its block array.
pub proof fn lemma_local_index_bound(x: int, y: int, z: int)
    requires
        local_in_range(x, y, z),
    ensures
        0 <= local_index(x, y, z) < CHUNK_VOLUME,
{
    assert(CHUNK_AREA == 256);
    assert(CHUNK_VOLUME == 32768);
    assert(0 <= y * 256 <= 127 * 256) by (nonlinear_arith)
        requires
            0 <= y <= 127,
    ;
    assert(0 <= z * 16 <= 15 * 16) by (nonlinear_arith)
        requires
            0 <= z <= 15,
    ;
}

/// Whether `(x, y, z)` lies inside a chunk.
pub open spec fn local_in_range(x: int, y: int, z: int) -> bool {
    0 <= x < CHUNK_SIZE && 0 <= y < CHUNK_HEIGHT && 0 <= z < CHUNK_SIZE
}

/// The block array of one chunk; `None` stands for air.
#[derive(Debug, Clone)]
pub struct ChunkData {
    pub blocks: Vec<Option<BlockType>>,
}

impl ChunkData {
    /// The block array holds exactly one entry per block of a chunk.
    pub open spec fn wf(&self) -> bool {
        self.blocks.len() == CHUNK_VOLUME
    }

    /// The block at local position `(x, y, z)`, or `None` outside the chunk.
    pub open spec fn block_at(&self, x: int, y: int, z: int) -> Option<BlockType> {
        if local_in_range(x, y, z) {
            self.blocks@[local_index(x, y, z)]
        } else {
            None
        }
    }

    /// A chunk of air.
    pub fn new() -> (r: ChunkData)
        ensures
            r.wf(),
            forall|i: int| 0 <= i < CHUNK_VOLUME ==> r.blocks@[i] is None,
    {
        let mut blocks: Vec<Option<BlockType>> = Vec::new();
        let mut i: usize = 0;
        while i < CHUNK_VOLUME
            invariant
                i <= CHUNK_VOLUME,
                blocks.len() == i,
                forall|k: int| 0 <= k < i ==> blocks@[k] is None,
            decreases CHUNK_VOLUME - i,
        {
            blocks.push(None);
            i = i + 1;
        }
        ChunkData { blocks }
    }

    /// The block at local position `(local_x, y, local_z)`; `None` for air and
    /// for positions outside the chunk.
    pub fn get_block(&self, local_x: usize, y: usize, local_z: usize) -> (r: Option<BlockType>)
        requires
            local_in_range(local_x as int, y as int, local_z as int) ==> local_index(
                local_x as int,
                y as int,
                local_z as int,
            ) < self.blocks.len(),
        ensures
            r == self.block_at(local_x as int, y as int, local_z as int),
    {
        if local_x >= CHUNK_SIZE || local_z >= CHUNK_SIZE || y >= CHUNK_HEIGHT {
            return None;
        }
        let index = self.local_to_index(local_x, y, local_z);
        self.blocks[index]
    }

    /// Puts `block_type` at local position `(local_x, y, local_z)`; positions
    /// outside the chunk are ignored.
    pub fn set_block(&mut self, local_x: usize, y: usize, local_z: usize, block_type: BlockType)
        requires
            local_in_range(local_x as int, y as int, local_z as int) ==> local_index(
                local_x as int,
                y as int,
                local_z as int,
            ) < old(self).blocks.len(),
        ensures
            final(self).blocks@ == (if local_in_range(local_x as int, y as int, local_z as int) {
                old(self).blocks@.update(
                    local_index(local_x as int, y as int, local_z as int),
                    Some(block_type),
                )
            } else {
                old(self).blocks@
            }),
    {
        if local_x >= CHUNK_SIZE || local_z >= CHUNK_SIZE || y >= CHUNK_HEIGHT {
            return;
        }
        let index = self.local_to_index(local_x, y, local_z);
        self.blocks.set(index, Some(block_type));
    }

    /// A copy of the block array.
    pub fn duplicate(&self) -> (r: ChunkData)
        ensures
            r.blocks@ == self.blocks@,
    {
        let mut blocks: Vec<Option<BlockType>> = Vec::new();
        let mut i: usize = 0;
        while i < self.blocks.len()
            invariant
                i <= self.blocks.len(),
                blocks@ == self.blocks@.take(i as int),
            decreases self.blocks.len() - i,
        {
            blocks.push(self.blocks[i]);
            i = i + 1;
        }
        assert(blocks@ =~= self.blocks@);
        ChunkData { blocks }
    }

    /// The kinds of non-air blocks the chunk holds, each once, in array order.
    pub fn block_types_present(&self) -> (r: Vec<BlockType>)
        ensures
            r@.no_duplicates(),
            forall|b: BlockType| #[trigger]
                r@.contains(b) == (b != BlockType::Air && self.blocks@.contains(Some(b))),
    {
        let mut out: Vec<BlockType> = Vec::new();
        let mut i: usize = 0;
        while i < self.blocks.len()
            invariant
                i <= self.blocks@.len(),
                out@.no_duplicates(),
                forall|b: BlockType| #[trigger]
                    out@.contains(b) == (b != BlockType::Air && self.blocks@.take(i as int).contains(
                        Some(b),
                    )),
            decreases self.blocks.len() - i,
        {
            let ghost prefix = self.blocks@.take(i as int);
            let ghost next = self.blocks@.take(i + 1);
            proof {
                assert(next =~= prefix.push(self.blocks@[i as int]));
                assert forall|o: Option<BlockType>| next.contains(o) == (prefix.contains(o) || o
                    == self.blocks@[i as int]) by {
                    if next.contains(o) {
                        let k = choose|k: int| 0 <= k < next.len() && next[k] == o;
                        if k < prefix.len() {
                            assert(prefix[k] == o);
                        }
                    }
                    if prefix.contains(o) {
                        let k = choose|k: int| 0 <= k < prefix.len() && prefix[k] == o;
                        assert(next[k] == o);
                    }
                    if o == self.blocks@[i as int] {
                        assert(next[i as int] == o);
                    }
                }
            }
            match self.blocks[i] {
                Some(b) => {
                    if b != BlockType::Air && !contains_block_type(&out, b) {
                        let ghost before = out@;
                        out.push(b);
                        proof {
                            assert forall|c: BlockType| #[trigger] out@.contains(c) == (before.contains(c)
                                || c == b) by {
                                if out@.contains(c) {
                                    let k = choose|k: int| 0 <= k < out@.len() && out@[k] == c;
                                    if k < before.len() {
                                        assert(before[k] == c);
                                    }
                                }
                                if before.contains(c) {
                                    let k = choose|k: int| 0 <= k < before.len() && before[k] == c;
                                    assert(out@[k] == c);
                                }
                                if c == b {
                                    assert(out@[before.len() as int] == c);
                                }
                            }
                            assert(out@.no_duplicates()) by {
                                assert forall|p: int, q: int|
                                    0 <= p < out@.len() && 0 <= q < out@.len() && p != q implies out@[p]
                                    != out@[q] by {
                                    if p == before.len() {
                                        assert(before.contains(out@[q]));
                                    } else if q == before.len() {
                                        assert(before.contains(out@[p]));
                                    }
                                }
                            }
                        }
                    }
                },
                None => {},
            }
            i = i + 1;
        }
        assert(self.blocks@.take(self.blocks@.len() as int) =~= self.blocks@);
        out
    }

    /// Array index of local position `(local_x, y, local_z)`.
    pub fn local_to_index(&self, local_x: usize, y: usize, local_z: usize) -> (r: usize)
        requires
            local_index(local_x as int, y as int, local_z as int) <= usize::MAX,
        ensures
            r == local_index(local_x as int, y as int, local_z as int),
    {
        y * CHUNK_AREA + local_z * CHUNK_SIZE + local_x
    }

    /// Local position `(x, y, z)` of array index `index`.
    pub fn index_to_local(&self, index: usize) -> (r: (usize, usize, usize))
        ensures
            r == index_to_local_spec(index as int),
    {
        let y = index / CHUNK_AREA;
        let remainder = index % CHUNK_AREA;
        let local_z = remainder / CHUNK_SIZE;
        let local_x = remainder % CHUNK_SIZE;
        (local_x, y, local_z)
    }
}

/// Whether `v` holds `b`.
fn contains_block_type(v: &Vec<BlockType>, b: BlockType) -> (r: bool)
    ensures
        r == v@.contains(b),
{
    let mut i: usize = 0;
    while i < v.len()
        invariant
            i <= v@.len(),
            forall|k: int| 0 <= k < i ==> v@[k] != b,
        decreases v.len() - i,
    {
        if v[i] == b {
            assert(v@[i as int] == b);
            return true;
        }
        i = i + 1;
    }
    false
}

/// Local position of an array index: `(x, y, z)`.
pub open spec fn index_to_local_spec(index: int) -> (usize, usize, usize) {
    (
        ((index % (CHUNK_AREA as int)) % (CHUNK_SIZE as int)) as usize,
        (index / (CHUNK_AREA as int)) as usize,
        ((index % (CHUNK_AREA as int)) / (CHUNK_SIZE as int)) as usize,
    )
}

/// Array index and local position convert into each other without loss,
/// both ways.
pub proof fn lemma_index_local_roundtrip(x: int, y: int, z: int, index: int)
    requires
        local_in_range(x, y, z),
        0 <= index < CHUNK_VOLUME,
    ensures
        index_to_local_spec(local_index(x, y, z)) == (x as usize, y as usize, z as usize),
        ({
            let (lx, ly, lz) = index_to_local_spec(index);
            local_in_range(lx as int, ly as int, lz as int) && local_index(
                lx as int,
                ly as int,
                lz as int,
            ) == index
        }),
{
    let i = local_index(x, y, z);
    assert(i == y * 256 + (z * 16 + x));
    assert(0 <= z * 16 + x < 256);
    vstd::arithmetic::div_mod::lemma_fundamental_div_mod_converse(i, 256, y, z * 16 + x);
    vstd::arithmetic::div_mod::lemma_fundamental_div_mod_converse(z * 16 + x, 16, z, x);
    vstd::arithmetic::div_mod::lemma_fundamental_div_mod(index, 256);
    vstd::arithmetic::div_mod::lemma_fundamental_div_mod(index % 256, 16);
    vstd::arithmetic::div_mod::lemma_div_pos_is_pos(index, 256);
    vstd::arithmetic::div_mod::lemma_div_by_multiple_is_strongly_ordered(index, 32768, 256, 128);
    assert(index / 256 < 128) by {
        vstd::arithmetic::div_mod::lemma_div_is_ordered(index, 32767, 256);
    }
    vstd::arithmetic::div_mod::lemma_mod_bound(index, 256);
    vstd::arithmetic::div_mod::lemma_mod_bound(index % 256, 16);
    vstd::arithmetic::div_mod::lemma_div_is_ordered(index % 256, 255, 16);
}

/// Two different positions inside a chunk have different array indices.
pub proof fn lemma_local_index_injective(x1: int, y1: int, z1: int, x2: int, y2: int, z2: int)
    requires
        local_in_range(x1, y1, z1),
        local_in_range(x2, y2, z2),
        local_index(x1, y1, z1) == local_index(x2, y2, z2),
    ensures
        x1 == x2 && y1 == y2 && z1 == z2,
{
    lemma_index_local_roundtrip(x1, y1, z1, 0);
    lemma_index_local_roundtrip(x2, y2, z2, 0);
}

/// Reading a block back gives what was last written there, and writing one
/// block leaves every other block as it was.
pub proof fn lemma_set_then_get(
    before: ChunkData,
    after: ChunkData,
    x: int,
    y: int,
    z: int,
    b: BlockType,
    qx: int,
    qy: int,
    qz: int,
)
    requires
        before.wf(),
        local_in_range(x, y, z),
        after.blocks@ == before.blocks@.update(local_index(x, y, z), Some(b)),
    ensures
        after.wf(),
        after.block_at(x, y, z) == Some(b),
        !(qx == x && qy == y && qz == z) ==> after.block_at(qx, qy, qz) == before.block_at(
            qx,
            qy,
            qz,
        ),
{
    lemma_local_index_bound(x, y, z);
    if local_in_range(qx, qy, qz) && !(qx == x && qy == y && qz == z) {
        if local_index(qx, qy, qz) == local_index(x, y, z) {
            lemma_local_index_injective(qx, qy, qz, x, y, z);
        }
    }
}


/// Climate of one block column. Temperature and moisture are kept as the bit
/// patterns of their `f32` values.
#[derive(Debug, Clone)]
pub struct BiomeData {
    pub temperature_bits: u32,
    pub moisture_bits: u32,
    pub biome_type: String,
}

impl BiomeData {
    /// A copy of the column's climate.
    pub fn duplicate(&self) -> (r: BiomeData)
        ensures
            r == *self,
    {
        BiomeData {
            temperature_bits: self.temperature_bits,
            moisture_bits: self.moisture_bits,
            biome_type: self.biome_type.clone(),
        }
    }
}

impl Default for BiomeData {
    /// Zero temperature and moisture, no biome name.
    fn default() -> (r: BiomeData)
        ensures
            r.temperature_bits == 0,
            r.moisture_bits == 0,
            r.biome_type@ == Seq::<char>::empty(),
    {
        BiomeData { temperature_bits: 0, moisture_bits: 0, biome_type: String::new() }
    }
}

/// Index of column `(x, z)` in a chunk's biome array.
pub open spec fn column_index(x: int, z: int) -> int {
    z * (CHUNK_SIZE as int) + x
}

/// Climate of every block column of a chunk.
#[derive(Debug, Clone)]
pub struct ChunkBiomeData {
    pub data: Vec<BiomeData>,
}

impl ChunkBiomeData {
    /// One default entry per block column.
    pub fn new() -> (r: ChunkBiomeData)
        ensures
            r.data.len() == CHUNK_AREA,
            forall|i: int|
                0 <= i < CHUNK_AREA ==> (#[trigger] r.data@[i]).temperature_bits == 0
                    && r.data@[i].moisture_bits == 0 && r.data@[i].biome_type@ == Seq::<
                    char,
                >::empty(),
    {
        let mut data: Vec<BiomeData> = Vec::new();
        let mut i: usize = 0;
        while i < CHUNK_AREA
            invariant
                i <= CHUNK_AREA,
                data.len() == i,
                forall|k: int|
                    0 <= k < i ==> (#[trigger] data@[k]).temperature_bits == 0
                        && data@[k].moisture_bits == 0 && data@[k].biome_type@ == Seq::<
                        char,
                    >::empty(),
            decreases CHUNK_AREA - i,
        {
            data.push(BiomeData::default());
            i = i + 1;
        }
        ChunkBiomeData { data }
    }

    /// Records the climate of column `(local_x, local_z)`, when its index
    /// `local_z * CHUNK_SIZE + local_x` lies within the array.
    pub fn set_biome_data(
        &mut self,
        local_x: usize,
        local_z: usize,
        temperature_bits: u32,
        moisture_bits: u32,
        biome_type: &str,
    )
        requires
            column_index(local_x as int, local_z as int) <= usize::MAX,
        ensures
            column_index(local_x as int, local_z as int) < old(self).data.len() ==> {
                let i = column_index(local_x as int, local_z as int);
                &&& final(self).data.len() == old(self).data.len()
                &&& forall|j: int|
                    0 <= j < old(self).data.len() && j != i ==> final(self).data@[j]
                        == old(self).data@[j]
                &&& final(self).data@[i].temperature_bits == temperature_bits
                &&& final(self).data@[i].moisture_bits == moisture_bits
                &&& final(self).data@[i].biome_type@ == biome_type@
            },
            column_index(local_x as int, local_z as int) >= old(self).data.len()
                ==> final(self).data@ == old(self).data@,
    {
        let index = local_z * CHUNK_SIZE + local_x;
        if index < self.data.len() {
            self.data.set(
                index,
                BiomeData { temperature_bits, moisture_bits, biome_type: biome_type.to_owned() },
            );
        }
    }

    /// A copy of every column's climate.
    pub fn duplicate(&self) -> (r: ChunkBiomeData)
        ensures
            r.data@ == self.data@,
    {
        let mut data: Vec<BiomeData> = Vec::new();
        let mut i: usize = 0;
        while i < self.data.len()
            invariant
                i <= self.data.len(),
                data@ == self.data@.take(i as int),
            decreases self.data.len() - i,
        {
            data.push(self.data[i].duplicate());
            i = i + 1;
        }
        assert(data@ =~= self.data@);
        ChunkBiomeData { data }
    }

    /// The climate of column `(local_x, local_z)`, if its index lies within the array.
    pub fn get_biome_data(&self, local_x: usize, local_z: usize) -> (r: Option<BiomeData>)
        requires
            column_index(local_x as int, local_z as int) <= usize::MAX,
        ensures
            r == (if column_index(local_x as int, local_z as int) < self.data.len() {
                Some(self.data@[column_index(local_x as int, local_z as int)])
            } else {
                None
            }),
    {
        let index = local_z * CHUNK_SIZE + local_x;
        if index < self.data.len() {
            Some(self.data[index].duplicate())
        } else {
            None
        }
    }
}

/// Local position in a chunk of a world block position: x and z wrap into
/// the chunk, y is clamped to the chunk's height.
pub open spec fn world_to_local_spec(w: IVec3) -> IVec3 {
    IVec3 {
        x: mod_chunk(w.x as int) as i32,
        y: if w.y < 0 {
            0
        } else if w.y > CHUNK_HEIGHT - 1 {
            (CHUNK_HEIGHT - 1) as i32
        } else {
            w.y
        },
        z: mod_chunk(w.z as int) as i32,
    }
}

/// A chunk of the world with its blocks, climate and bookkeeping flags.
#[derive(Debug)]
pub struct Chunk {
    pub position: ChunkPosition,
    pub data: ChunkData,
    pub biome_data: ChunkBiomeData,
    pub is_generated: bool,
    pub needs_mesh_update: bool,
    pub priority: ChunkPriority,
    pub is_visible: bool,
}

impl Chunk {
    /// A chunk of air at `position`, not yet generated, waiting for a mesh,
    /// of far priority and not visible.
    pub fn new(position: ChunkPosition) -> (r: Chunk)
        ensures
            r.position == position,
            r.data.wf(),
            forall|i: int| 0 <= i < CHUNK_VOLUME ==> r.data.blocks@[i] is None,
            r.biome_data.data.len() == CHUNK_AREA,
            !r.is_generated,
            r.needs_mesh_update,
            r.priority == ChunkPriority::Far,
            !r.is_visible,
    {
        Chunk {
            position,
            data: ChunkData::new(),
            biome_data: ChunkBiomeData::new(),
            is_generated: false,
            needs_mesh_update: true,
            priority: ChunkPriority::Far,
            is_visible: false,
        }
    }

    /// Local position of the world block position `world_pos`.
    pub fn world_to_local(&self, world_pos: IVec3) -> (r: IVec3)
        ensures
            r == world_to_local_spec(world_pos),
    {
        let y = if world_pos.y < 0 {
            0
        } else if world_pos.y > 127 {
            127
        } else {
            world_pos.y
        };
        IVec3::new(rem_euclid_chunk(world_pos.x), y, rem_euclid_chunk(world_pos.z))
    }

    /// The block of this chunk at the local position of `world_pos`.
    pub fn get_block_world(&self, world_pos: IVec3) -> (r: Option<BlockType>)
        requires
            self.data.wf(),
        ensures
            ({
                let l = world_to_local_spec(world_pos);
                r == self.data.block_at(l.x as int, l.y as int, l.z as int)
            }),
    {
        let local_pos = self.world_to_local(world_pos);
        self.data.get_block(local_pos.x as usize, local_pos.y as usize, local_pos.z as usize)
    }

    /// Puts `block_type` at the local position of `world_pos` and marks the
    /// mesh for rebuilding.
    pub fn set_block_world(&mut self, world_pos: IVec3, block_type: BlockType)
        requires
            old(self).data.wf(),
        ensures
            ({
                let l = world_to_local_spec(world_pos);
                final(self).data.blocks@ == old(self).data.blocks@.update(
                    local_index(l.x as int, l.y as int, l.z as int),
                    Some(block_type),
                )
            }),
            final(self).needs_mesh_update,
            final(self).position == old(self).position,
            final(self).biome_data == old(self).biome_data,
            final(self).is_generated == old(self).is_generated,
            final(self).priority == old(self).priority,
            final(self).is_visible == old(self).is_visible,
    {
        let local_pos = self.world_to_local(world_pos);
        self.data.set_block(
            local_pos.x as usize,
            local_pos.y as usize,
            local_pos.z as usize,
            block_type,
        );
        self.needs_mesh_update = true;
    }

    /// Whether `world_pos` lies within this chunk's column of blocks.
    pub fn contains(&self, world_pos: IVec3) -> (r: bool)
        requires
            chunk_coord_in_range(self.position.x),
            chunk_coord_in_range(self.position.z),
        ensures
            r == (chunk_of_block(world_pos) == self.position && 0 <= world_pos.y
                < CHUNK_HEIGHT),
    {
        let min_pos = self.position.min_block_position();
        let max_x = min_pos.x + 16;
        let max_y = min_pos.y + 128;
        let max_z = min_pos.z + 16;
        let r = world_pos.x >= min_pos.x && world_pos.x < max_x && world_pos.y >= min_pos.y
            && world_pos.y < max_y && world_pos.z >= min_pos.z && world_pos.z < max_z;
        proof {
            lemma_floor_div_chunk_range(world_pos.x as int, self.position.x as int);
            lemma_floor_div_chunk_range(world_pos.z as int, self.position.z as int);
        }
        r
    }
}

/// A block lies in chunk column `c` exactly when it is between the column's
/// first block and the next column's first block.
pub proof fn lemma_floor_div_chunk_range(v: int, c: int)
    ensures
        (floor_div_chunk(v) == c) == (c * 16 <= v < c * 16 + 16),
{
    vstd::arithmetic::div_mod::lemma_fundamental_div_mod(v, 16);
    vstd::arithmetic::div_mod::lemma_mod_bound(v, 16);
    if c * 16 <= v < c * 16 + 16 {
        vstd::arithmetic::div_mod::lemma_fundamental_div_mod_converse(v, 16, c, v - c * 16);
    }
    if floor_div_chunk(v) == c {
        assert(v == 16 * c + v % 16);
    }
}

} // verus!
