use vstd::prelude::*;
use crate::block::BlockType;
use crate::chunk::{Chunk, ChunkData, local_in_range, lemma_set_then_get, CHUNK_SIZE, CHUNK_HEIGHT};

verus! {

/// Stone depth of a column of terrain height `h`: 90% of it below 10, 80%
/// below 30 and 60% from 30 on, truncated toward zero.
pub open spec fn stone_height_spec(h: int) -> int {
    if h < 10 {
        (h * 9) / 10
    } else if h < 30 {
        (h * 8) / 10
    } else {
        (h * 6) / 10
    }
}

/// `(stone height, surface block, sub-surface block)` of a desert column.
pub open spec fn desert_terrain_spec(h: int, stone: int) -> (int, BlockType, BlockType) {
    if h < 5 {
        (stone, BlockType::Grass, BlockType::Dirt)
    } else if h < 15 {
        (stone, BlockType::Sand, BlockType::Sand)
    } else {
        (stone, BlockType::Sand, BlockType::Stone)
    }
}

/// Terrain of a forest column.
pub open spec fn forest_terrain_spec(h: int, stone: int) -> (int, BlockType, BlockType) {
    if h < 25 {
        (stone, BlockType::Grass, BlockType::Dirt)
    } else {
        (stone, BlockType::Grass, BlockType::Stone)
    }
}

/// Terrain of a mountain column.
pub open spec fn mountain_terrain_spec(h: int, stone: int) -> (int, BlockType, BlockType) {
    if h < 20 {
        (stone, BlockType::Grass, BlockType::Stone)
    } else {
        (stone, BlockType::Stone, BlockType::Stone)
    }
}

/// Terrain of a snowy mountain column.
pub open spec fn snowy_mountain_terrain_spec(h: int, stone: int) -> (int, BlockType, BlockType) {
    if h < 25 {
        (stone, BlockType::Grass, BlockType::Stone)
    } else {
        (stone, BlockType::Stone, BlockType::Stone)
    }
}

/// Terrain of a plains column.
pub open spec fn plains_terrain_spec(h: int, stone: int) -> (int, BlockType, BlockType) {
    if h < 18 {
        (stone, BlockType::Grass, BlockType::Dirt)
    } else {
        (stone, BlockType::Grass, BlockType::Stone)
    }
}

/// Terrain of a swamp column.
pub open spec fn swamp_terrain_spec(h: int, stone: int) -> (int, BlockType, BlockType) {
    (stone, BlockType::Grass, BlockType::Dirt)
}

/// Terrain of a tundra column.
pub open spec fn tundra_terrain_spec(h: int, stone: int) -> (int, BlockType, BlockType) {
    if h < 10 {
        (stone, BlockType::Grass, BlockType::Dirt)
    } else if h < 25 {
        (stone, BlockType::Grass, BlockType::Stone)
    } else {
        (stone, BlockType::Stone, BlockType::Stone)
    }
}

/// Terrain of a beach column.
pub open spec fn beach_terrain_spec(h: int, stone: int) -> (int, BlockType, BlockType) {
    if h < 10 {
        (stone, BlockType::Sand, BlockType::Sand)
    } else {
        (stone, BlockType::Grass, BlockType::Dirt)
    }
}

/// Terrain of a hills column.
pub open spec fn hills_terrain_spec(h: int, stone: int) -> (int, BlockType, BlockType) {
    if h < 15 {
        (stone, BlockType::Grass, BlockType::Dirt)
    } else if h < 30 {
        (stone, BlockType::Grass, BlockType::Stone)
    } else {
        (stone, BlockType::Stone, BlockType::Stone)
    }
}

/// Terrain of a column of height `h` in the biome named `biome`; grass over
/// dirt for a name that is not a biome.
pub open spec fn biome_terrain_spec(h: int, biome: Seq<char>) -> (int, BlockType, BlockType) {
    let stone = stone_height_spec(h);
    if biome == "desert"@ {
        desert_terrain_spec(h, stone)
    } else if biome == "forest"@ {
        forest_terrain_spec(h, stone)
    } else if biome == "mountain"@ {
        mountain_terrain_spec(h, stone)
    } else if biome == "snowy_mountain"@ {
        snowy_mountain_terrain_spec(h, stone)
    } else if biome == "hills"@ {
        hills_terrain_spec(h, stone)
    } else if biome == "plains"@ {
        plains_terrain_spec(h, stone)
    } else if biome == "swamp"@ {
        swamp_terrain_spec(h, stone)
    } else if biome == "tundra"@ {
        tundra_terrain_spec(h, stone)
    } else if biome == "beach"@ {
        beach_terrain_spec(h, stone)
    } else {
        (stone, BlockType::Grass, BlockType::Dirt)
    }
}

/// Terrain heights the column rules are stated for: the float formula of the
/// stone depth agrees with its integer form there.
pub open spec fn terrain_height_in_range(h: int) -> bool {
    0 <= h < 0x10_0000
}

/// Stone depth of a column of terrain height `effective_height`.
pub fn stone_height_for(effective_height: i32) -> (r: i32)
    requires
        terrain_height_in_range(effective_height as int),
    ensures
        r == stone_height_spec(effective_height as int),
{
    if effective_height < 10 {
        effective_height * 9 / 10
    } else if effective_height < 30 {
        effective_height * 8 / 10
    } else {
        effective_height * 6 / 10
    }
}

pub fn determine_desert_terrain(effective_height: i32, stone_height: i32) -> (r: (i32, BlockType, BlockType))
    ensures
        (r.0 as int, r.1, r.2) == desert_terrain_spec(effective_height as int, stone_height as int),
{
    if effective_height < 5 {
        (stone_height, BlockType::Grass, BlockType::Dirt)
    } else if effective_height < 15 {
        (stone_height, BlockType::Sand, BlockType::Sand)
    } else {
        (stone_height, BlockType::Sand, BlockType::Stone)
    }
}

pub fn determine_forest_terrain(effective_height: i32, stone_height: i32) -> (r: (i32, BlockType, BlockType))
    ensures
        (r.0 as int, r.1, r.2) == forest_terrain_spec(effective_height as int, stone_height as int),
{
    if effective_height < 10 {
        (stone_height, BlockType::Grass, BlockType::Dirt)
    } else if effective_height < 25 {
        (stone_height, BlockType::Grass, BlockType::Dirt)
    } else {
        (stone_height, BlockType::Grass, BlockType::Stone)
    }
}

pub fn determine_mountain_terrain(effective_height: i32, stone_height: i32) -> (r: (i32, BlockType, BlockType))
    ensures
        (r.0 as int, r.1, r.2) == mountain_terrain_spec(effective_height as int, stone_height as int),
{
    if effective_height < 20 {
        (stone_height, BlockType::Grass, BlockType::Stone)
    } else if effective_height < 40 {
        (stone_height, BlockType::Stone, BlockType::Stone)
    } else {
        (stone_height, BlockType::Stone, BlockType::Stone)
    }
}

pub fn determine_snowy_mountain_terrain(effective_height: i32, stone_height: i32) -> (r: (
    i32,
    BlockType,
    BlockType,
))
    ensures
        (r.0 as int, r.1, r.2) == snowy_mountain_terrain_spec(effective_height as int, stone_height as int),
{
    if effective_height < 25 {
        (stone_height, BlockType::Grass, BlockType::Stone)
    } else if effective_height < 45 {
        (stone_height, BlockType::Stone, BlockType::Stone)
    } else {
        (stone_height, BlockType::Stone, BlockType::Stone)
    }
}

pub fn determine_plains_terrain(effective_height: i32, stone_height: i32) -> (r: (i32, BlockType, BlockType))
    ensures
        (r.0 as int, r.1, r.2) == plains_terrain_spec(effective_height as int, stone_height as int),
{
    if effective_height < 8 {
        (stone_height, BlockType::Grass, BlockType::Dirt)
    } else if effective_height < 18 {
        (stone_height, BlockType::Grass, BlockType::Dirt)
    } else {
        (stone_height, BlockType::Grass, BlockType::Stone)
    }
}

pub fn determine_swamp_terrain(effective_height: i32, stone_height: i32) -> (r: (i32, BlockType, BlockType))
    ensures
        (r.0 as int, r.1, r.2) == swamp_terrain_spec(effective_height as int, stone_height as int),
{
    if effective_height < 6 {
        (stone_height, BlockType::Grass, BlockType::Dirt)
    } else if effective_height < 15 {
        (stone_height, BlockType::Grass, BlockType::Dirt)
    } else {
        (stone_height, BlockType::Grass, BlockType::Dirt)
    }
}

pub fn determine_tundra_terrain(effective_height: i32, stone_height: i32) -> (r: (i32, BlockType, BlockType))
    ensures
        (r.0 as int, r.1, r.2) == tundra_terrain_spec(effective_height as int, stone_height as int),
{
    if effective_height < 10 {
        (stone_height, BlockType::Grass, BlockType::Dirt)
    } else if effective_height < 25 {
        (stone_height, BlockType::Grass, BlockType::Stone)
    } else {
        (stone_height, BlockType::Stone, BlockType::Stone)
    }
}

pub fn determine_beach_terrain(effective_height: i32, stone_height: i32) -> (r: (i32, BlockType, BlockType))
    ensures
        (r.0 as int, r.1, r.2) == beach_terrain_spec(effective_height as int, stone_height as int),
{
    if effective_height < 4 {
        (stone_height, BlockType::Sand, BlockType::Sand)
    } else if effective_height < 10 {
        (stone_height, BlockType::Sand, BlockType::Sand)
    } else {
        (stone_height, BlockType::Grass, BlockType::Dirt)
    }
}

pub fn determine_hills_terrain(effective_height: i32, stone_height: i32) -> (r: (i32, BlockType, BlockType))
    ensures
        (r.0 as int, r.1, r.2) == hills_terrain_spec(effective_height as int, stone_height as int),
{
    if effective_height < 15 {
        (stone_height, BlockType::Grass, BlockType::Dirt)
    } else if effective_height < 30 {
        (stone_height, BlockType::Grass, BlockType::Stone)
    } else {
        (stone_height, BlockType::Stone, BlockType::Stone)
    }
}

/// Whether `a` holds the characters of `b`.
fn is_named(a: &str, b: &str) -> (r: bool)
    ensures
        r == (a@ == b@),
{
    a.to_owned() == b.to_owned()
}

/// Stone depth, surface block and sub-surface block of a column of terrain
/// height `effective_height` in the biome named `biome_type`.
pub fn determine_biome_terrain(effective_height: i32, biome_type: &str) -> (r: (i32, BlockType, BlockType))
    requires
        terrain_height_in_range(effective_height as int),
    ensures
        (r.0 as int, r.1, r.2) == biome_terrain_spec(effective_height as int, biome_type@),
{
    proof {
        reveal_strlit("desert");
        reveal_strlit("forest");
        reveal_strlit("mountain");
        reveal_strlit("snowy_mountain");
        reveal_strlit("hills");
        reveal_strlit("plains");
        reveal_strlit("swamp");
        reveal_strlit("tundra");
        reveal_strlit("beach");
    }
    let stone_height = stone_height_for(effective_height);
    if is_named(biome_type, "desert") {
        determine_desert_terrain(effective_height, stone_height)
    } else if is_named(biome_type, "forest") {
        determine_forest_terrain(effective_height, stone_height)
    } else if is_named(biome_type, "mountain") {
        determine_mountain_terrain(effective_height, stone_height)
    } else if is_named(biome_type, "snowy_mountain") {
        determine_snowy_mountain_terrain(effective_height, stone_height)
    } else if is_named(biome_type, "hills") {
        determine_hills_terrain(effective_height, stone_height)
    } else if is_named(biome_type, "plains") {
        determine_plains_terrain(effective_height, stone_height)
    } else if is_named(biome_type, "swamp") {
        determine_swamp_terrain(effective_height, stone_height)
    } else if is_named(biome_type, "tundra") {
        determine_tundra_terrain(effective_height, stone_height)
    } else if is_named(biome_type, "beach") {
        determine_beach_terrain(effective_height, stone_height)
    } else {
        (stone_height, BlockType::Grass, BlockType::Dirt)
    }
}

/// The biome of a column of terrain height `h` under temperature and
/// moisture 0.5: beach below 5, snowy mountain above 50, mountain above 40,
/// hills above 25, mountain otherwise.
pub open spec fn mild_climate_biome_spec(h: int) -> Seq<char> {
    if h < 5 {
        "beach"@
    } else if h > 50 {
        "snowy_mountain"@
    } else if h > 40 {
        "mountain"@
    } else if h > 25 {
        "hills"@
    } else {
        "mountain"@
    }
}

/// The biome of a column of terrain height `height` under temperature and
/// moisture 0.5.
pub fn mild_climate_biome(height: i32) -> (r: &'static str)
    ensures
        r@ == mild_climate_biome_spec(height as int),
{
    if height < 5 {
        "beach"
    } else if height > 50 {
        "snowy_mountain"
    } else if height > 40 {
        "mountain"
    } else if height > 25 {
        "hills"
    } else {
        "mountain"
    }
}

/// The block generating a column of terrain height `eff` (at least 3) in the
/// biome named `biome` leaves at height `y`, or `None` where it writes nothing:
/// the biome's own feature, else exposed stone near high tops, else a sand
/// band on low land, else bedrock at the bottom, the sub-surface block up to
/// the top and the surface block on it.
pub open spec fn terrain_column_block(y: int, eff: int, biome: Seq<char>) -> Option<BlockType> {
    let t = biome_terrain_spec(eff, biome);
    if biome == "desert"@ && 8 < eff < 15 && 5 <= y <= 8 && y < eff {
        Some(BlockType::Sand)
    } else if biome == "hills"@ && 20 < eff < 28 && eff - 3 <= y < eff && y > 0 && y % 3 == 0 {
        Some(BlockType::Stone)
    } else if biome == "forest"@ && eff > 10 && eff - 2 <= y < eff && y > 0 {
        Some(BlockType::Dirt)
    } else if eff > 30 && eff - 3 <= y < eff && y > 0 {
        Some(BlockType::Stone)
    } else if 5 < eff < 12 && 3 <= y <= 6 && y < eff {
        Some(BlockType::Sand)
    } else if y == 0 {
        Some(BlockType::Bedrock)
    } else if 1 <= y < eff {
        Some(t.2)
    } else if y == eff {
        Some(t.1)
    } else {
        None
    }
}

/// The blocks the general features of a column of terrain height `h` leave
/// at height `y`: exposed stone just below high tops, a sand band on low land.
pub open spec fn feature_block(y: int, h: int) -> Option<BlockType> {
    if h > 30 && h - 3 <= y < h && y > 0 {
        Some(BlockType::Stone)
    } else if 5 < h < 12 && 3 <= y <= 6 && y < h {
        Some(BlockType::Sand)
    } else {
        None
    }
}

/// The blocks the biome's own feature leaves at height `y` of a column of
/// terrain height `h`.
pub open spec fn biome_feature_block(y: int, h: int, biome: Seq<char>) -> Option<BlockType> {
    if biome == "desert"@ && 8 < h < 15 && 5 <= y <= 8 && y < h {
        Some(BlockType::Sand)
    } else if biome == "hills"@ && 20 < h < 28 && h - 3 <= y < h && y > 0 && y % 3 == 0 {
        Some(BlockType::Stone)
    } else if biome == "forest"@ && h > 10 && h - 2 <= y < h && y > 0 {
        Some(BlockType::Dirt)
    } else {
        None
    }
}

/// `data` after writing column `(lx, lz)` where `f` names a block: every
/// block of the chunk is as before but in that column where `f(y)` is some block.
pub open spec fn column_written(
    before: ChunkData,
    after: ChunkData,
    lx: int,
    lz: int,
    f: spec_fn(int) -> Option<BlockType>,
) -> bool {
    &&& after.wf()
    &&& forall|x: int, y: int, z: int|
        local_in_range(x, y, z) ==> #[trigger] after.block_at(x, y, z) == if x == lx && z == lz
            && f(y) is Some {
            f(y)
        } else {
            before.block_at(x, y, z)
        }
}

/// Sets block `(local_x, y, local_z)` to `block`; cells outside the chunk are ignored.
fn put_block(data: &mut ChunkData, local_x: usize, y: i32, local_z: usize, block: BlockType)
    requires
        old(data).wf(),
        y >= 0,
    ensures
        column_written(
            *old(data),
            *final(data),
            local_x as int,
            local_z as int,
            |yy: int|
                if yy == y {
                    Some(block)
                } else {
                    None
                },
        ),
{
    let ghost before = *data;
    proof {
        if local_in_range(local_x as int, y as int, local_z as int) {
            crate::chunk::lemma_local_index_bound(local_x as int, y as int, local_z as int);
        }
    }
    data.set_block(local_x, y as usize, local_z, block);
    proof {
        if local_in_range(local_x as int, y as int, local_z as int) {
            assert forall|x: int, yy: int, z: int| local_in_range(x, yy, z) implies #[trigger] data.block_at(
                x,
                yy,
                z,
            ) == if x == local_x && z == local_z && yy == y {
                Some(block)
            } else {
                before.block_at(x, yy, z)
            } by {
                lemma_set_then_get(before, *data, local_x as int, y as int, local_z as int, block, x, yy, z);
            }
        }
    }
}

/// Sets the blocks of column `(local_x, local_z)` at heights `lo..hi` that are
/// above 0 (and, with `every_third`, multiples of 3) to `block`.
fn fill_column(
    data: &mut ChunkData,
    local_x: usize,
    local_z: usize,
    lo: i32,
    hi: i32,
    block: BlockType,
    every_third: bool,
)
    requires
        old(data).wf(),
    ensures
        column_written(
            *old(data),
            *final(data),
            local_x as int,
            local_z as int,
            |y: int|
                if lo <= y < hi && y > 0 && (!every_third || y % 3 == 0) {
                    Some(block)
                } else {
                    None
                },
        ),
{
    let ghost before = *data;
    let mut y: i32 = lo;
    while y < hi
        invariant
            lo <= y,
            y <= hi || y == lo,
            data.wf(),
            forall|x: int, yy: int, z: int|
                local_in_range(x, yy, z) ==> #[trigger] data.block_at(x, yy, z) == if x == local_x
                    && z == local_z && lo <= yy < y && yy > 0 && (!every_third || yy % 3 == 0) {
                    Some(block)
                } else {
                    before.block_at(x, yy, z)
                },
        decreases hi - y,
    {
        if y > 0 && (!every_third || y % 3 == 0) {
            put_block(data, local_x, y, local_z, block);
        }
        y = y + 1;
    }
}

/// Writes the general features of a column of terrain height `height`: a sand
/// band at heights 3 to 6 below the top on low land (height 6 to 11), and
/// exposed stone in the three blocks below the top above height 30.
pub fn add_environmental_features(chunk: &mut Chunk, local_x: usize, local_z: usize, height: i32)
    requires
        old(chunk).data.wf(),
        terrain_height_in_range(height as int),
    ensures
        column_written(
            old(chunk).data,
            final(chunk).data,
            local_x as int,
            local_z as int,
            |y: int| feature_block(y, height as int),
        ),
        final(chunk).position == old(chunk).position,
        final(chunk).biome_data == old(chunk).biome_data,
        final(chunk).is_generated == old(chunk).is_generated,
        final(chunk).needs_mesh_update == old(chunk).needs_mesh_update,
        final(chunk).priority == old(chunk).priority,
        final(chunk).is_visible == old(chunk).is_visible,
{
    let ghost d0 = chunk.data;
    if height > 5 && height < 12 {
        let top = if height < 7 {
            height
        } else {
            7
        };
        fill_column(&mut chunk.data, local_x, local_z, 3, top, BlockType::Sand, false);
    }
    let ghost d1 = chunk.data;
    if height > 25 {
        if height > 30 {
            fill_column(&mut chunk.data, local_x, local_z, height - 3, height, BlockType::Stone, false);
        }
    }
    proof {
        assert forall|x: int, y: int, z: int| local_in_range(x, y, z) implies #[trigger] chunk.data.block_at(
            x,
            y,
            z,
        ) == if x == local_x && z == local_z && feature_block(y, height as int) is Some {
            feature_block(y, height as int)
        } else {
            d0.block_at(x, y, z)
        } by {
            assert(d1.block_at(x, y, z) == d1.block_at(x, y, z));
        }
    }
}

/// Writes the general features, then the biome's own feature: in a desert of
/// height 9 to 14 sand at heights 5 to 8 below the top, on hills of height 21
/// to 27 stone at multiples of 3 among the three blocks below the top, in a
/// forest above height 10 dirt in the two blocks below the top.
pub fn add_environmental_features_with_biome(
    chunk: &mut Chunk,
    local_x: usize,
    local_z: usize,
    height: i32,
    biome_type: &str,
)
    requires
        old(chunk).data.wf(),
        terrain_height_in_range(height as int),
    ensures
        column_written(
            old(chunk).data,
            final(chunk).data,
            local_x as int,
            local_z as int,
            |y: int|
                match biome_feature_block(y, height as int, biome_type@) {
                    Some(b) => Some(b),
                    None => feature_block(y, height as int),
                },
        ),
        final(chunk).position == old(chunk).position,
        final(chunk).biome_data == old(chunk).biome_data,
        final(chunk).is_generated == old(chunk).is_generated,
        final(chunk).needs_mesh_update == old(chunk).needs_mesh_update,
        final(chunk).priority == old(chunk).priority,
        final(chunk).is_visible == old(chunk).is_visible,
{
    proof {
        reveal_strlit("desert");
        reveal_strlit("hills");
        reveal_strlit("forest");
        assert("desert"@.len() != "hills"@.len());
        assert("forest"@.len() != "hills"@.len());
        assert("desert"@[0] != "forest"@[0]);
    }
    let ghost d0 = chunk.data;
    add_environmental_features(chunk, local_x, local_z, height);
    let ghost d1 = chunk.data;
    let ghost bf = |y: int| biome_feature_block(y, height as int, biome_type@);
    if is_named(biome_type, "desert") {
        if height > 8 && height < 15 {
            let top = if height < 9 {
                height
            } else {
                9
            };
            fill_column(&mut chunk.data, local_x, local_z, 5, top, BlockType::Sand, false);
        }
        assert(column_written(d1, chunk.data, local_x as int, local_z as int, bf));
    } else if is_named(biome_type, "hills") {
        if height > 20 && height < 28 {
            fill_column(&mut chunk.data, local_x, local_z, height - 3, height, BlockType::Stone, true);
        }
        assert(column_written(d1, chunk.data, local_x as int, local_z as int, bf));
    } else if is_named(biome_type, "forest") {
        if height > 10 {
            fill_column(&mut chunk.data, local_x, local_z, height - 2, height, BlockType::Dirt, false);
        }
        assert(column_written(d1, chunk.data, local_x as int, local_z as int, bf));
    } else {
        assert(column_written(d1, chunk.data, local_x as int, local_z as int, bf));
    }
    proof {
        assert forall|x: int, y: int, z: int| local_in_range(x, y, z) implies #[trigger] chunk.data.block_at(
            x,
            y,
            z,
        ) == if x == local_x && z == local_z && (match biome_feature_block(y, height as int, biome_type@) {
            Some(b) => Some(b),
            None => feature_block(y, height as int),
        }) is Some {
            match biome_feature_block(y, height as int, biome_type@) {
                Some(b) => Some(b),
                None => feature_block(y, height as int),
            }
        } else {
            d0.block_at(x, y, z)
        } by {
            assert(d1.block_at(x, y, z) == d1.block_at(x, y, z));
            assert(bf(y) == biome_feature_block(y, height as int, biome_type@));
        }
    }
}

/// Generates the column `(local_x, local_z)` of terrain height `height` (at
/// least 3 is used) in the biome named `biome_type`: bedrock at the bottom,
/// the biome's sub-surface block up to the top, its surface block on top,
/// then the column's features.
pub fn generate_terrain_column_with_biome(
    chunk: &mut Chunk,
    local_x: usize,
    local_z: usize,
    height: i32,
    biome_type: &str,
)
    requires
        old(chunk).data.wf(),
        height < 0x10_0000,
    ensures
        ({
            let eff = if height < 3 {
                3
            } else {
                height as int
            };
            column_written(
                old(chunk).data,
                final(chunk).data,
                local_x as int,
                local_z as int,
                |y: int| terrain_column_block(y, eff, biome_type@),
            )
        }),
        final(chunk).position == old(chunk).position,
        final(chunk).biome_data == old(chunk).biome_data,
        final(chunk).is_generated == old(chunk).is_generated,
        final(chunk).needs_mesh_update == old(chunk).needs_mesh_update,
        final(chunk).priority == old(chunk).priority,
        final(chunk).is_visible == old(chunk).is_visible,
{
    let effective_height = if height < 3 {
        3
    } else {
        height
    };
    let ghost d0 = chunk.data;
    put_block(&mut chunk.data, local_x, 0, local_z, BlockType::Bedrock);
    let ghost d1 = chunk.data;
    let (stone_height, surface_block, sub_surface_block) = determine_biome_terrain(
        effective_height,
        biome_type,
    );
    let m = if stone_height < effective_height {
        stone_height
    } else {
        effective_height
    };
    assert(m >= 2);
    fill_column(&mut chunk.data, local_x, local_z, 1, m, sub_surface_block, false);
    let ghost d2 = chunk.data;
    fill_column(&mut chunk.data, local_x, local_z, m, effective_height, sub_surface_block, false);
    let ghost d3 = chunk.data;
    put_block(&mut chunk.data, local_x, effective_height, local_z, surface_block);
    let ghost d4 = chunk.data;
    add_environmental_features_with_biome(chunk, local_x, local_z, effective_height, biome_type);
    proof {
        reveal_strlit("desert");
        reveal_strlit("hills");
        reveal_strlit("forest");
        let eff = effective_height as int;
        assert forall|x: int, y: int, z: int| local_in_range(x, y, z) implies #[trigger] chunk.data.block_at(
            x,
            y,
            z,
        ) == if x == local_x && z == local_z && terrain_column_block(y, eff, biome_type@) is Some {
            terrain_column_block(y, eff, biome_type@)
        } else {
            d0.block_at(x, y, z)
        } by {
            let here = x == local_x && z == local_z;
            assert(d1.block_at(x, y, z) == if here && y == 0 {
                Some(BlockType::Bedrock)
            } else {
                d0.block_at(x, y, z)
            });
            assert(d2.block_at(x, y, z) == if here && 1 <= y < m && y > 0 {
                Some(sub_surface_block)
            } else {
                d1.block_at(x, y, z)
            });
            assert(d3.block_at(x, y, z) == if here && m <= y < eff && y > 0 {
                Some(sub_surface_block)
            } else {
                d2.block_at(x, y, z)
            });
            assert(d4.block_at(x, y, z) == if here && y == eff {
                Some(surface_block)
            } else {
                d3.block_at(x, y, z)
            });
            let fb = match biome_feature_block(y, eff, biome_type@) {
                Some(b) => Some(b),
                None => feature_block(y, eff),
            };
            assert(chunk.data.block_at(x, y, z) == if here && fb is Some {
                fb
            } else {
                d4.block_at(x, y, z)
            });
            assert(terrain_column_block(y, eff, biome_type@) == if fb is Some {
                fb
            } else if y == 0 {
                Some(BlockType::Bedrock)
            } else if 1 <= y < eff {
                Some(sub_surface_block)
            } else if y == eff {
                Some(surface_block)
            } else {
                None
            });
            assert(m <= eff);
            if here {
                if fb is Some {
                } else if y == 0 {
                    assert(d1.block_at(x, y, z) == Some(BlockType::Bedrock));
                    assert(d2.block_at(x, y, z) == Some(BlockType::Bedrock));
                    assert(d3.block_at(x, y, z) == Some(BlockType::Bedrock));
                    assert(d4.block_at(x, y, z) == Some(BlockType::Bedrock));
                } else if 1 <= y < eff {
                    assert(d3.block_at(x, y, z) == Some(sub_surface_block));
                } else if y == eff {
                } else {
                    assert(d4.block_at(x, y, z) == d0.block_at(x, y, z));
                }
            }
        }
    }
}

/// Generates column `(local_x, local_z)` of terrain height `height` under a
/// mild climate (temperature and moisture 0.5).
pub fn generate_terrain_column(chunk: &mut Chunk, local_x: usize, local_z: usize, height: i32)
    requires
        old(chunk).data.wf(),
        height < 0x10_0000,
    ensures
        ({
            let eff = if height < 3 {
                3
            } else {
                height as int
            };
            column_written(
                old(chunk).data,
                final(chunk).data,
                local_x as int,
                local_z as int,
                |y: int| terrain_column_block(y, eff, mild_climate_biome_spec(eff)),
            )
        }),
        final(chunk).position == old(chunk).position,
        final(chunk).biome_data == old(chunk).biome_data,
        final(chunk).is_generated == old(chunk).is_generated,
        final(chunk).needs_mesh_update == old(chunk).needs_mesh_update,
        final(chunk).priority == old(chunk).priority,
        final(chunk).is_visible == old(chunk).is_visible,
{
    let effective_height = if height < 3 {
        3
    } else {
        height
    };
    let biome = mild_climate_biome(effective_height);
    generate_terrain_column_with_biome(chunk, local_x, local_z, height, biome);
}

/// A generated column has no gap: from the bedrock at the bottom up to its
/// top every height gets a block, bedrock at 0 and the surface block on top
/// unless a feature covers it.
pub proof fn lemma_column_solid(y: int, eff: int, biome: Seq<char>)
    requires
        eff >= 3,
        0 <= y <= eff,
    ensures
        terrain_column_block(y, eff, biome) is Some,
        y == 0 ==> terrain_column_block(y, eff, biome) == Some(BlockType::Bedrock),
        y == eff ==> terrain_column_block(y, eff, biome) == Some(biome_terrain_spec(eff, biome).1),
{
}

/// Height that stands for a whole biome when its textures are chosen.
pub open spec fn representative_height_spec(biome: Seq<char>) -> int {
    if biome == "desert"@ {
        15
    } else if biome == "forest"@ {
        25
    } else if biome == "mountain"@ || biome == "snowy_mountain"@ {
        45
    } else if biome == "hills"@ {
        20
    } else if biome == "plains"@ {
        12
    } else if biome == "swamp"@ {
        8
    } else if biome == "tundra"@ {
        18
    } else if biome == "beach"@ {
        5
    } else {
        15
    }
}

/// Height that stands for the biome named `biome_type` when its textures are
/// chosen: desert 15, forest 25, mountains 45, hills 20, plains 12, swamp 8,
/// tundra 18, beach 5, anything else 15.
pub fn representative_height(biome_type: &str) -> (r: i32)
    ensures
        r == representative_height_spec(biome_type@),
{
    if is_named(biome_type, "desert") {
        15
    } else if is_named(biome_type, "forest") {
        25
    } else if is_named(biome_type, "mountain") || is_named(biome_type, "snowy_mountain") {
        45
    } else if is_named(biome_type, "hills") {
        20
    } else if is_named(biome_type, "plains") {
        12
    } else if is_named(biome_type, "swamp") {
        8
    } else if is_named(biome_type, "tundra") {
        18
    } else if is_named(biome_type, "beach") {
        5
    } else {
        15
    }
}

} // verus!
