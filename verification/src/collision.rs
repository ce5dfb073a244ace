use vstd::prelude::*;
use crate::block::{Block, IVec3};
use crate::chunk::{ChunkData, CHUNK_HEIGHT, local_in_range, lemma_local_index_bound, mod_chunk, rem_euclid_chunk};

verus! {

/// The highest height below `top` at which column `(lx, lz)` of `d` holds a
/// solid block.
pub open spec fn highest_solid_below(d: ChunkData, lx: int, lz: int, top: int) -> Option<int>
    decreases top,
{
    if top <= 0 {
        None
    } else if d.block_at(lx, top - 1, lz) matches Some(b) && b.is_solid_spec() {
        Some(top - 1)
    } else {
        highest_solid_below(d, lx, lz, top - 1)
    }
}

/// The height found lies below `top`.
pub proof fn lemma_highest_solid_below_range(d: ChunkData, lx: int, lz: int, top: int)
    ensures
        highest_solid_below(d, lx, lz, top) matches Some(y) ==> 0 <= y < top,
    decreases top,
{
    if top > 0 {
        lemma_highest_solid_below_range(d, lx, lz, top - 1);
    }
}

/// Whether `d` holds a solid block at `(lx, y, lz)`.
pub open spec fn solid_at(d: ChunkData, lx: int, y: int, lz: int) -> bool {
    d.block_at(lx, y, lz) matches Some(b) && b.is_solid_spec()
}

/// The ground search finds the top of the column: the height found below
/// `top` holds a solid block and no solid block of the column lies between it
/// and `top`; when nothing is found, the column holds no solid block below `top`.
pub proof fn lemma_highest_solid_is_top(d: ChunkData, lx: int, lz: int, top: int)
    ensures
        highest_solid_below(d, lx, lz, top) matches Some(y) ==> {
            &&& 0 <= y < top
            &&& solid_at(d, lx, y, lz)
            &&& forall|y2: int| y < y2 < top ==> !#[trigger] solid_at(d, lx, y2, lz)
        },
        highest_solid_below(d, lx, lz, top) is None ==> forall|y2: int|
            0 <= y2 < top ==> !#[trigger] solid_at(d, lx, y2, lz),
    decreases top,
{
    if top > 0 {
        lemma_highest_solid_is_top(d, lx, lz, top - 1);
    }
}

/// The highest height of the solid blocks of `s` standing in column `(x, z)`
/// above -1000; -1000 when there is none.
pub open spec fn highest_block_y(s: Seq<Block>, x: i32, z: i32) -> int
    decreases s.len(),
{
    if s.len() == 0 {
        -1000
    } else {
        let rest = highest_block_y(s.drop_last(), x, z);
        let b = s.last();
        if b.position.x == x && b.position.z == z && b.block_type.is_solid_spec() && b.position.y
            > rest {
            b.position.y as int
        } else {
            rest
        }
    }
}

/// Heights whose `f32` values compare as the integers do.
pub open spec fn height_exact_in_float(y: i32) -> bool {
    -0x100_0000 <= y <= 0x100_0000
}

/// The highest solid block of column `(local_x, local_z)` of `data`, if any.
pub fn highest_solid_y(data: &ChunkData, local_x: usize, local_z: usize) -> (r: Option<usize>)
    requires
        data.wf(),
    ensures
        match highest_solid_below(*data, local_x as int, local_z as int, CHUNK_HEIGHT as int) {
            Some(y) => r == Some(y as usize),
            None => r is None,
        },
        r matches Some(y) ==> solid_at(*data, local_x as int, y as int, local_z as int),
        r matches Some(y) ==> forall|y2: int|
            y < y2 < CHUNK_HEIGHT ==> !#[trigger] solid_at(*data, local_x as int, y2, local_z as int),
        r is None ==> forall|y2: int|
            0 <= y2 < CHUNK_HEIGHT ==> !#[trigger] solid_at(*data, local_x as int, y2, local_z as int),
{
    proof {
        lemma_highest_solid_is_top(*data, local_x as int, local_z as int, CHUNK_HEIGHT as int);
    }
    let mut top: usize = CHUNK_HEIGHT;
    while top > 0
        invariant
            top <= CHUNK_HEIGHT,
            data.wf(),
            highest_solid_below(*data, local_x as int, local_z as int, CHUNK_HEIGHT as int)
                == highest_solid_below(*data, local_x as int, local_z as int, top as int),
        decreases top,
    {
        let y = top - 1;
        proof {
            if local_in_range(local_x as int, y as int, local_z as int) {
                lemma_local_index_bound(local_x as int, y as int, local_z as int);
            }
        }
        match data.get_block(local_x, y, local_z) {
            Some(b) => {
                if b.is_solid() {
                    proof {
                        lemma_highest_solid_is_top(*data, local_x as int, local_z as int, CHUNK_HEIGHT as int);
                    }
                    return Some(y);
                }
            },
            None => {},
        }
        top = y;
    }
    None
}

/// The highest solid block among `blocks` standing in column
/// `(block_x, block_z)`, if it stands above -1000.
pub fn highest_solid_block_y(blocks: &[Block], block_x: i32, block_z: i32) -> (r: Option<i32>)
    requires
        forall|i: int| 0 <= i < blocks@.len() ==> height_exact_in_float(#[trigger] blocks@[i].position.y),
    ensures
        highest_block_y(blocks@, block_x, block_z) > -1000 ==> r == Some(
            highest_block_y(blocks@, block_x, block_z) as i32,
        ),
        highest_block_y(blocks@, block_x, block_z) <= -1000 ==> r is None,
{
    let mut highest: i32 = -1000;
    let mut i: usize = 0;
    while i < blocks.len()
        invariant
            i <= blocks@.len(),
            highest == highest_block_y(blocks@.take(i as int), block_x, block_z),
            -1000 <= highest <= 0x100_0000,
            forall|k: int| 0 <= k < blocks@.len() ==> height_exact_in_float(#[trigger] blocks@[k].position.y),
        decreases blocks.len() - i,
    {
        let b = blocks[i];
        proof {
            assert(blocks@.take(i + 1).drop_last() =~= blocks@.take(i as int));
            assert(blocks@.take(i + 1).last() == b);
            assert(height_exact_in_float(blocks@[i as int].position.y));
        }
        if b.position.x == block_x && b.position.z == block_z && b.block_type.is_solid()
            && b.position.y > highest {
            highest = b.position.y;
        }
        i = i + 1;
    }
    assert(blocks@.take(blocks@.len() as int) =~= blocks@);
    if highest > -1000 {
        Some(highest)
    } else {
        None
    }
}

/// Height of the ground in block column `(block_x, block_z)`: the highest
/// solid block of the chunk's column when the chunk holding it is at hand and
/// has one, else the highest solid block among `blocks` there; `None` when
/// there is neither.
pub fn find_highest_solid_ground(
    block_x: i32,
    block_z: i32,
    blocks: &[Block],
    chunk: Option<&ChunkData>,
) -> (r: Option<i32>)
    requires
        forall|i: int| 0 <= i < blocks@.len() ==> height_exact_in_float(#[trigger] blocks@[i].position.y),
        chunk matches Some(d) ==> d.wf(),
    ensures
        ({
            let lx = mod_chunk(block_x as int);
            let lz = mod_chunk(block_z as int);
            let own = highest_block_y(blocks@, block_x, block_z);
            match chunk {
                Some(d) if highest_solid_below(*d, lx, lz, CHUNK_HEIGHT as int) is Some => r == Some(
                    highest_solid_below(*d, lx, lz, CHUNK_HEIGHT as int)->0 as i32,
                ),
                _ => r == if own > -1000 {
                    Some(own as i32)
                } else {
                    None
                },
            }
        }),
{
    let from_blocks = highest_solid_block_y(blocks, block_x, block_z);
    match chunk {
        Some(d) => {
            let lx = rem_euclid_chunk(block_x) as usize;
            let lz = rem_euclid_chunk(block_z) as usize;
            proof {
                lemma_highest_solid_below_range(*d, lx as int, lz as int, CHUNK_HEIGHT as int);
            }
            match highest_solid_y(d, lx, lz) {
                Some(y) => {
                    return Some(y as i32);
                },
                None => {},
            }
        },
        None => {},
    }
    from_blocks
}

/// Whether a solid block stands at `position`: one of `blocks`, or a block of
/// the chunk holding it when that chunk is at hand.
pub fn check_block_at_position(position: IVec3, blocks: &[Block], chunk: Option<&ChunkData>) -> (r: bool)
    requires
        chunk matches Some(d) ==> d.wf(),
    ensures
        r == ((exists|i: int|
            0 <= i < blocks@.len() && #[trigger] blocks@[i].position == position
                && blocks@[i].block_type.is_solid_spec()) || (chunk matches Some(d) && d.block_at(
            mod_chunk(position.x as int),
            position.y as int,
            mod_chunk(position.z as int),
        ) matches Some(b) && b.is_solid_spec())),
{
    let mut i: usize = 0;
    while i < blocks.len()
        invariant
            i <= blocks@.len(),
            forall|k: int|
                0 <= k < i ==> !(#[trigger] blocks@[k].position == position
                    && blocks@[k].block_type.is_solid_spec()),
        decreases blocks.len() - i,
    {
        let b = blocks[i];
        if b.position == position && b.block_type.is_solid() {
            assert(blocks@[i as int].position == position);
            return true;
        }
        i = i + 1;
    }
    match chunk {
        Some(d) => {
            if position.y < 0 {
                return false;
            }
            let lx = rem_euclid_chunk(position.x) as usize;
            let lz = rem_euclid_chunk(position.z) as usize;
            let y = position.y as usize;
            proof {
                if local_in_range(lx as int, y as int, lz as int) {
                    lemma_local_index_bound(lx as int, y as int, lz as int);
                }
            }
            match d.get_block(lx, y, lz) {
                Some(b) => b.is_solid(),
                None => false,
            }
        },
        None => false,
    }
}

} // verus!
