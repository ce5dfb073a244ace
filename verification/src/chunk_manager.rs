use vstd::prelude::*;
use std::collections::HashMap;
use std::collections::VecDeque;
use vstd::std_specs::iter::IteratorSpec;
use crate::block::BlockType;
use crate::chunk::{
    ChunkPosition, ChunkData, ChunkBiomeData, ChunkPriority, CHUNK_SIZE, CHUNK_VOLUME,
    local_in_range, lemma_local_index_bound,
};

verus! {

broadcast use vstd::std_specs::hash::group_hash_axioms;

/// Identifier of a spawned chunk entity.
#[derive(Debug, Clone, Copy, PartialEq, Eq, Hash, Structural)]
pub struct Entity(pub u64);

impl Entity {
    /// The entity with identifier `id`.
    pub fn from_raw(id: u64) -> (r: Entity)
        ensures
            r.0 == id,
    {
        Entity(id)
    }
}

/// Key of the integer pair `(x, z)` in the hash maps of the chunk manager:
/// the two coordinates shifted to be non-negative, `x` in the high half and
/// `z` in the low half of a `u64`.
pub open spec fn grid_key(x: i32, z: i32) -> u64 {
    ((x as int + 0x8000_0000) * 0x1_0000_0000 + (z as int + 0x8000_0000)) as u64
}

/// Key of a chunk position.
pub open spec fn pos_key(p: ChunkPosition) -> u64 {
    grid_key(p.x, p.z)
}

/// Computes `grid_key(x, z)`.
pub fn grid_key_of(x: i32, z: i32) -> (k: u64)
    ensures
        k == grid_key(x, z),
{
    let hi: u64 = (x as i64 + 0x8000_0000i64) as u64;
    let lo: u64 = (z as i64 + 0x8000_0000i64) as u64;
    assert(hi * 0x1_0000_0000 <= 0xffff_ffff * 0x1_0000_0000) by (nonlinear_arith)
        requires
            hi <= 0xffff_ffff,
    ;
    hi * 0x1_0000_0000 + lo
}

/// Different pairs have different keys.
pub proof fn lemma_grid_key_injective(x1: i32, z1: i32, x2: i32, z2: i32)
    requires
        grid_key(x1, z1) == grid_key(x2, z2),
    ensures
        x1 == x2,
        z1 == z2,
{
    let a1 = x1 as int + 0x8000_0000;
    let b1 = z1 as int + 0x8000_0000;
    let a2 = x2 as int + 0x8000_0000;
    let b2 = z2 as int + 0x8000_0000;
    assert(0 <= a1 * 0x1_0000_0000 + b1 <= u64::MAX) by (nonlinear_arith)
        requires
            0 <= a1 <= 0xffff_ffff,
            0 <= b1 <= 0xffff_ffff,
    ;
    assert(0 <= a2 * 0x1_0000_0000 + b2 <= u64::MAX) by (nonlinear_arith)
        requires
            0 <= a2 <= 0xffff_ffff,
            0 <= b2 <= 0xffff_ffff,
    ;
    assert(a1 == a2 && b1 == b2) by (nonlinear_arith)
        requires
            a1 * 0x1_0000_0000 + b1 == a2 * 0x1_0000_0000 + b2,
            0 <= b1 <= 0xffff_ffff,
            0 <= b2 <= 0xffff_ffff,
    ;
}

/// The chunk position whose key is `k`: every `u64` is the key of exactly one position.
pub fn position_of_key(k: u64) -> (r: ChunkPosition)
    ensures
        pos_key(r) == k,
{
    let hi: u64 = k / 0x1_0000_0000;
    let lo: u64 = k % 0x1_0000_0000;
    proof {
        vstd::arithmetic::div_mod::lemma_fundamental_div_mod(k as int, 0x1_0000_0000);
        assert(hi <= 0xffff_ffff) by (nonlinear_arith)
            requires
                hi == k as int / 0x1_0000_0000,
                k <= u64::MAX,
        ;
    }
    let x: i32 = (hi as i64 - 0x8000_0000i64) as i32;
    let z: i32 = (lo as i64 - 0x8000_0000i64) as i32;
    ChunkPosition { x, z }
}

pub proof fn lemma_pos_key_injective(p: ChunkPosition, q: ChunkPosition)
    ensures
        (pos_key(p) == pos_key(q)) == (p == q),
{
    if pos_key(p) == pos_key(q) {
        lemma_grid_key_injective(p.x, p.z, q.x, q.z);
    }
}

/// `|v|`.
pub open spec fn abs_int(v: int) -> int {
    if v < 0 {
        -v
    } else {
        v
    }
}

/// The coordinate differences of two chunk positions fit in an `i32` with
/// their absolute values.
pub open spec fn diff_in_range(a: ChunkPosition, b: ChunkPosition) -> bool {
    &&& -i32::MAX <= a.x - b.x <= i32::MAX
    &&& -i32::MAX <= a.z - b.z <= i32::MAX
}

/// Whether chunk `a` lies within `d` chunks of `b` along both axes.
pub open spec fn within_distance(a: ChunkPosition, b: ChunkPosition, d: int) -> bool {
    abs_int(a.x - b.x) <= d && abs_int(a.z - b.z) <= d
}

/// Distance of two chunks: the larger of the two axis distances.
pub open spec fn chunk_distance(a: ChunkPosition, b: ChunkPosition) -> int {
    let dx = abs_int(a.x - b.x);
    let dz = abs_int(a.z - b.z);
    if dx >= dz {
        dx
    } else {
        dz
    }
}

/// `|a - b|` for coordinates whose difference fits.
fn abs_diff(a: i32, b: i32) -> (r: i32)
    requires
        -i32::MAX <= a - b <= i32::MAX,
    ensures
        r == abs_int(a - b),
{
    let d = a - b;
    if d < 0 {
        -d
    } else {
        d
    }
}

/// `v / 2` rounded toward zero, as Rust's integer division does.
pub open spec fn half_toward_zero(v: i32) -> int {
    if v >= 0 {
        v as int / 2
    } else {
        -((-(v as int)) / 2)
    }
}

/// Priority of a chunk at distance `distance` from the player when it is not visible.
pub open spec fn distance_priority(distance: int, render_distance: i32) -> ChunkPriority {
    if distance <= half_toward_zero(render_distance) {
        ChunkPriority::Near
    } else if distance <= render_distance {
        ChunkPriority::Far
    } else {
        ChunkPriority::Unload
    }
}

/// Data of an unloaded chunk kept for reuse. `last_accessed` is the bit
/// pattern of the `f64` time of caching.
#[derive(Debug)]
pub struct CachedChunkData {
    pub data: ChunkData,
    pub biome_data: ChunkBiomeData,
    pub is_generated: bool,
    pub last_accessed: u64,
}

/// Size of the chunk cache.
#[derive(Debug, Clone, Copy, PartialEq, Eq)]
pub struct CacheStats {
    pub cached_chunks: usize,
    pub max_cache_size: usize,
}


/// Region sizes for which every chunk coordinate has a region coordinate:
/// not zero, and not -1 (whose quotient of `i32::MIN` overflows).
pub open spec fn valid_region_size(g: i32) -> bool {
    g != 0 && g != -1
}

/// Region coordinate of chunk coordinate `c`: `c.div_euclid(g)`.
pub open spec fn region_coord(c: i32, g: i32) -> int {
    c as int / g as int
}

/// Key of the spatial-grid region that holds chunk `p`.
pub open spec fn region_key(p: ChunkPosition, g: i32) -> u64 {
    grid_key(region_coord(p.x, g) as i32, region_coord(p.z, g) as i32)
}

/// `c.div_euclid(g)` for a valid region size.
fn region_coord_of(c: i32, g: i32) -> (r: i32)
    requires
        valid_region_size(g),
    ensures
        r == region_coord(c, g),
{
    match c.checked_div_euclid(g) {
        Some(q) => q,
        None => {
            proof {
                lemma_region_coord_in_range(c, g);
            }
            0
        },
    }
}

pub proof fn lemma_region_coord_in_range(c: i32, g: i32)
    requires
        valid_region_size(g),
    ensures
        i32::MIN <= region_coord(c, g) <= i32::MAX,
{
    let q = c as int / g as int;
    vstd::arithmetic::div_mod::lemma_fundamental_div_mod(c as int, g as int);
    let r = c as int % g as int;
    assert(0 <= r < abs_int(g as int));
    if g > 0 {
        assert(i32::MIN <= q <= i32::MAX) by (nonlinear_arith)
            requires
                c == g * q + r,
                0 <= r < g,
                g >= 1,
                i32::MIN <= c <= i32::MAX,
        ;
    } else {
        assert(i32::MIN <= q <= i32::MAX) by (nonlinear_arith)
            requires
                c == g * q + r,
                0 <= r < -g,
                g <= -2,
                i32::MIN <= c <= i32::MAX,
        ;
    }
}

/// `v` with every occurrence of `p` left out.
pub open spec fn without(v: Seq<ChunkPosition>, p: ChunkPosition) -> Seq<ChunkPosition>
    decreases v.len(),
{
    if v.len() == 0 {
        v
    } else if v.last() == p {
        without(v.drop_last(), p)
    } else {
        without(v.drop_last(), p).push(v.last())
    }
}

pub proof fn lemma_without_contains(v: Seq<ChunkPosition>, p: ChunkPosition, q: ChunkPosition)
    ensures
        without(v, p).contains(q) == (v.contains(q) && q != p),
    decreases v.len(),
{
    if v.len() > 0 {
        lemma_without_contains(v.drop_last(), p, q);
        let w = without(v.drop_last(), p);
        if v.last() != p {
            assert(w.push(v.last()).contains(q) == (w.contains(q) || q == v.last())) by {
                if w.push(v.last()).contains(q) {
                    let i = choose|i: int| 0 <= i < w.len() + 1 && w.push(v.last())[i] == q;
                    if i < w.len() {
                        assert(w[i] == q);
                    }
                }
                if w.contains(q) {
                    let i = choose|i: int| 0 <= i < w.len() && w[i] == q;
                    assert(w.push(v.last())[i] == q);
                }
                if q == v.last() {
                    assert(w.push(v.last())[w.len() as int] == q);
                }
            }
        }
        assert(v.contains(q) == (v.drop_last().contains(q) || v.last() == q)) by {
            if v.contains(q) {
                let i = choose|i: int| 0 <= i < v.len() && v[i] == q;
                if i < v.len() - 1 {
                    assert(v.drop_last()[i] == q);
                }
            }
            if v.drop_last().contains(q) {
                let i = choose|i: int| 0 <= i < v.len() - 1 && v.drop_last()[i] == q;
                assert(v[i] == q);
            }
            if v.last() == q {
                assert(v[v.len() - 1] == q);
            }
        }
    }
}

/// `v` with the occurrences of `p` left out.
fn remove_all(v: &Vec<ChunkPosition>, p: ChunkPosition) -> (r: Vec<ChunkPosition>)
    ensures
        r@ == without(v@, p),
{
    let mut r: Vec<ChunkPosition> = Vec::new();
    let mut i: usize = 0;
    while i < v.len()
        invariant
            i <= v.len(),
            r@ == without(v@.take(i as int), p),
        decreases v.len() - i,
    {
        assert(v@.take(i + 1).drop_last() =~= v@.take(i as int));
        if v[i] != p {
            r.push(v[i]);
        }
        i = i + 1;
    }
    assert(v@.take(v.len() as int) =~= v@);
    r
}

/// Tracks the loaded chunks, their spatial grid and the cache of unloaded chunks.
#[derive(Debug)]
pub struct ChunkManager {
    /// Entity of each loaded chunk, by `pos_key` of its position.
    pub loaded_chunks: HashMap<u64, Entity>,
    pub render_distance: i32,
    /// Positions of the loaded chunks of each region, by `grid_key` of the
    /// region's coordinates.
    pub spatial_grid: HashMap<u64, Vec<ChunkPosition>>,
    /// Width of a grid region, in chunks.
    pub grid_region_size: i32,
    /// Cached data of unloaded chunks, by `pos_key` of their position.
    pub chunk_cache: HashMap<u64, CachedChunkData>,
    /// Cached positions, most recently used first.
    pub cache_access_order: VecDeque<ChunkPosition>,
    /// Most chunks the cache keeps.
    pub max_cache_size: usize,
}

impl ChunkManager {
    /// Whether chunk `p` is loaded.
    pub open spec fn is_loaded(&self, p: ChunkPosition) -> bool {
        self.loaded_chunks@.contains_key(pos_key(p))
    }

    /// The entity of loaded chunk `p`.
    pub open spec fn entity_of(&self, p: ChunkPosition) -> Entity {
        self.loaded_chunks@[pos_key(p)]
    }

    /// The positions listed in grid region `k` (empty when it has no entry).
    pub open spec fn region_seq(&self, k: u64) -> Seq<ChunkPosition> {
        if self.spatial_grid@.contains_key(k) {
            self.spatial_grid@[k]@
        } else {
            Seq::empty()
        }
    }

    /// The spatial grid lists each loaded chunk in its own region and lists
    /// nothing else.
    pub open spec fn grid_wf(&self) -> bool {
        &&& valid_region_size(self.grid_region_size)
        &&& forall|k: u64, i: int|
            #![trigger self.spatial_grid@[k]@[i]]
            self.spatial_grid@.contains_key(k) && 0 <= i < self.spatial_grid@[k]@.len() ==> {
                &&& region_key(self.spatial_grid@[k]@[i], self.grid_region_size) == k
                &&& self.is_loaded(self.spatial_grid@[k]@[i])
            }
        &&& forall|p: ChunkPosition| #[trigger]
            self.is_loaded(p) ==> self.region_seq(
                region_key(p, self.grid_region_size),
            ).contains(p)
    }

    /// Cached chunk data of position `p`, when there is some.
    pub open spec fn cached(&self, p: ChunkPosition) -> Option<CachedChunkData> {
        if self.chunk_cache@.contains_key(pos_key(p)) {
            Some(self.chunk_cache@[pos_key(p)])
        } else {
            None
        }
    }

    /// The cache holds exactly the positions of its access order, each once.
    pub open spec fn cache_wf(&self) -> bool {
        &&& self.cache_access_order@.no_duplicates()
        &&& forall|k: u64|
            #[trigger] self.chunk_cache@.contains_key(k) <==> exists|i: int|
                0 <= i < self.cache_access_order@.len() && #[trigger] pos_key(
                    self.cache_access_order@[i],
                ) == k
        &&& self.chunk_cache@.len() == self.cache_access_order@.len()
    }

    /// Everything a method of the manager relies on.
    pub open spec fn wf(&self) -> bool {
        self.grid_wf() && self.cache_wf()
    }

    /// A manager with nothing loaded or cached, regions of `render_distance / 2`
    /// chunks kept between 4 and 8, and room in the cache for
    /// `2 * (2 * render_distance)^2` chunks.
    pub fn new(render_distance: i32) -> (r: ChunkManager)
        requires
            2 * (2 * render_distance) * (2 * render_distance) <= i32::MAX,
        ensures
            r.wf(),
            r.loaded_chunks@ == Map::<u64, Entity>::empty(),
            r.spatial_grid@ == Map::<u64, Vec<ChunkPosition>>::empty(),
            r.render_distance == render_distance,
            r.grid_region_size == clamp_region_size(half_toward_zero(render_distance)),
            r.max_cache_size == (2 * render_distance) * (2 * render_distance) * 2,
            r.cache_access_order@ == Seq::<ChunkPosition>::empty(),
            r.chunk_cache@ == Map::<u64, CachedChunkData>::empty(),
    {
        let half = render_distance / 2;
        let grid_region_size = if half < 4 {
            4
        } else if half > 8 {
            8
        } else {
            half
        };
        assert(-16384 < render_distance < 16384) by (nonlinear_arith)
            requires
                2 * (2 * render_distance) * (2 * render_distance) <= i32::MAX,
        ;
        let d = render_distance * 2;
        assert(0 <= d * d && 2 * (d * d) <= i32::MAX) by (nonlinear_arith)
            requires
                2 * d * d <= i32::MAX,
        ;
        let max_cache_size = (d * d * 2) as usize;
        ChunkManager {
            loaded_chunks: HashMap::new(),
            render_distance,
            spatial_grid: HashMap::new(),
            grid_region_size,
            chunk_cache: HashMap::new(),
            cache_access_order: VecDeque::new(),
            max_cache_size,
        }
    }

    /// Whether chunk `chunk_pos` lies within render distance of the player's chunk.
    pub fn should_load_chunk(&self, chunk_pos: ChunkPosition, player_chunk_pos: ChunkPosition) -> (r:
        bool)
        requires
            diff_in_range(chunk_pos, player_chunk_pos),
        ensures
            r == within_distance(chunk_pos, player_chunk_pos, self.render_distance as int),
    {
        let dx = abs_diff(chunk_pos.x, player_chunk_pos.x);
        let dz = abs_diff(chunk_pos.z, player_chunk_pos.z);
        dx <= self.render_distance && dz <= self.render_distance
    }

    /// Whether chunk `chunk_pos` lies beyond render distance of the player's chunk.
    pub fn should_unload_chunk(&self, chunk_pos: ChunkPosition, player_chunk_pos: ChunkPosition) -> (r:
        bool)
        requires
            diff_in_range(chunk_pos, player_chunk_pos),
        ensures
            r == !within_distance(chunk_pos, player_chunk_pos, self.render_distance as int),
    {
        let dx = abs_diff(chunk_pos.x, player_chunk_pos.x);
        let dz = abs_diff(chunk_pos.z, player_chunk_pos.z);
        dx > self.render_distance || dz > self.render_distance
    }

    /// The entity of chunk `neighbor_pos`, if it is loaded.
    pub fn get_neighbor_chunk(&self, _chunk_pos: &ChunkPosition, neighbor_pos: &ChunkPosition) -> (r:
        Option<Entity>)
        ensures
            r == (if self.is_loaded(*neighbor_pos) {
                Some(self.entity_of(*neighbor_pos))
            } else {
                None
            }),
    {
        let key = grid_key_of(neighbor_pos.x, neighbor_pos.z);
        match self.loaded_chunks.get(&key) {
            Some(e) => Some(*e),
            None => None,
        }
    }

    /// Region coordinates of the region that holds `chunk_pos`.
    pub fn chunk_pos_to_grid_region(&self, chunk_pos: &ChunkPosition) -> (r: (i32, i32))
        requires
            valid_region_size(self.grid_region_size),
        ensures
            r.0 == region_coord(chunk_pos.x, self.grid_region_size),
            r.1 == region_coord(chunk_pos.z, self.grid_region_size),
    {
        (
            region_coord_of(chunk_pos.x, self.grid_region_size),
            region_coord_of(chunk_pos.z, self.grid_region_size),
        )
    }

    /// Lists `chunk_pos` at the end of its grid region.
    fn add_chunk_to_spatial_grid(&mut self, chunk_pos: ChunkPosition)
        requires
            valid_region_size(old(self).grid_region_size),
        ensures
            final(self).spatial_grid@ == old(self).spatial_grid@.insert(
                region_key(chunk_pos, old(self).grid_region_size),
                final(self).spatial_grid@[region_key(chunk_pos, old(self).grid_region_size)],
            ),
            final(self).region_seq(region_key(chunk_pos, old(self).grid_region_size)) == old(
                self,
            ).region_seq(region_key(chunk_pos, old(self).grid_region_size)).push(chunk_pos),
            final(self).loaded_chunks == old(self).loaded_chunks,
            final(self).render_distance == old(self).render_distance,
            final(self).grid_region_size == old(self).grid_region_size,
            final(self).chunk_cache == old(self).chunk_cache,
            final(self).cache_access_order == old(self).cache_access_order,
            final(self).max_cache_size == old(self).max_cache_size,
    {
        let (rx, rz) = self.chunk_pos_to_grid_region(&chunk_pos);
        let rk = grid_key_of(rx, rz);
        let mut v = match self.spatial_grid.remove(&rk) {
            Some(v) => v,
            None => Vec::new(),
        };
        v.push(chunk_pos);
        self.spatial_grid.insert(rk, v);
    }

    /// Takes `chunk_pos` out of its grid region, dropping the region when it
    /// becomes empty.
    fn remove_chunk_from_spatial_grid(&mut self, chunk_pos: &ChunkPosition)
        requires
            valid_region_size(old(self).grid_region_size),
        ensures
            ({
                let rk = region_key(*chunk_pos, old(self).grid_region_size);
                if old(self).spatial_grid@.contains_key(rk) {
                    let rest = without(old(self).spatial_grid@[rk]@, *chunk_pos);
                    if rest.len() == 0 {
                        final(self).spatial_grid@ == old(self).spatial_grid@.remove(rk)
                    } else {
                        &&& final(self).spatial_grid@ == old(self).spatial_grid@.insert(
                            rk,
                            final(self).spatial_grid@[rk],
                        )
                        &&& final(self).spatial_grid@[rk]@ == rest
                    }
                } else {
                    final(self).spatial_grid@ == old(self).spatial_grid@
                }
            }),
            final(self).loaded_chunks == old(self).loaded_chunks,
            final(self).render_distance == old(self).render_distance,
            final(self).grid_region_size == old(self).grid_region_size,
            final(self).chunk_cache == old(self).chunk_cache,
            final(self).cache_access_order == old(self).cache_access_order,
            final(self).max_cache_size == old(self).max_cache_size,
    {
        let (rx, rz) = self.chunk_pos_to_grid_region(chunk_pos);
        let rk = grid_key_of(rx, rz);
        match self.spatial_grid.remove(&rk) {
            Some(v) => {
                let rest = remove_all(&v, *chunk_pos);
                if rest.len() > 0 {
                    self.spatial_grid.insert(rk, rest);
                }
            },
            None => {},
        }
    }
}

impl ChunkManager {
    /// Registers `entity` as the loaded chunk at `chunk_pos` and lists the
    /// position at the end of its grid region.
    pub fn insert_chunk(&mut self, chunk_pos: ChunkPosition, entity: Entity)
        requires
            valid_region_size(old(self).grid_region_size),
        ensures
            final(self).loaded_chunks@ == old(self).loaded_chunks@.insert(pos_key(chunk_pos), entity),
            ({
                let rk = region_key(chunk_pos, old(self).grid_region_size);
                &&& final(self).spatial_grid@.dom() == old(self).spatial_grid@.dom().insert(rk)
                &&& forall|k: u64|
                    #![trigger final(self).region_seq(k)]
                    final(self).region_seq(k) == if k == rk {
                        old(self).region_seq(rk).push(chunk_pos)
                    } else {
                        old(self).region_seq(k)
                    }
            }),
            old(self).grid_wf() ==> final(self).grid_wf(),
            final(self).render_distance == old(self).render_distance,
            final(self).grid_region_size == old(self).grid_region_size,
            final(self).chunk_cache == old(self).chunk_cache,
            final(self).cache_access_order == old(self).cache_access_order,
            final(self).max_cache_size == old(self).max_cache_size,
    {
        let key = grid_key_of(chunk_pos.x, chunk_pos.z);
        self.loaded_chunks.insert(key, entity);
        self.add_chunk_to_spatial_grid(chunk_pos);
        proof {
            let g = self.grid_region_size;
            let rk = region_key(chunk_pos, g);
            assert forall|k: u64|
                #![trigger self.region_seq(k)]
                self.region_seq(k) == if k == rk {
                    old(self).region_seq(rk).push(chunk_pos)
                } else {
                    old(self).region_seq(k)
                } by {}
            if old(self).grid_wf() {
                assert forall|k: u64, i: int|
                    #![trigger self.spatial_grid@[k]@[i]]
                    self.spatial_grid@.contains_key(k) && 0 <= i
                        < self.spatial_grid@[k]@.len() implies {
                    &&& region_key(self.spatial_grid@[k]@[i], g) == k
                    &&& self.is_loaded(self.spatial_grid@[k]@[i])
                } by {
                    let q = self.spatial_grid@[k]@[i];
                    if k == rk {
                        if i < old(self).region_seq(rk).len() {
                            assert(old(self).spatial_grid@[k]@[i] == q);
                        }
                    } else {
                        assert(old(self).spatial_grid@[k]@[i] == q);
                    }
                    if q != chunk_pos {
                        lemma_pos_key_injective(q, chunk_pos);
                    }
                }
                assert forall|p: ChunkPosition| #[trigger]
                    self.is_loaded(p) implies self.region_seq(region_key(p, g)).contains(p) by {
                    let pk = region_key(p, g);
                    if p == chunk_pos {
                        assert(self.region_seq(rk)[self.region_seq(rk).len() - 1] == p);
                    } else {
                        lemma_pos_key_injective(p, chunk_pos);
                        assert(old(self).is_loaded(p));
                        assert(old(self).region_seq(pk).contains(p));
                        let j = choose|j: int|
                            0 <= j < old(self).region_seq(pk).len() && old(self).region_seq(pk)[j]
                                == p;
                        assert(self.region_seq(pk)[j] == p);
                    }
                }
            }
        }
    }

    /// Unregisters the chunk at `chunk_pos`, taking it out of its grid region,
    /// and returns its entity if it was loaded.
    pub fn remove_chunk(&mut self, chunk_pos: &ChunkPosition) -> (r: Option<Entity>)
        requires
            valid_region_size(old(self).grid_region_size),
        ensures
            r == (if old(self).is_loaded(*chunk_pos) {
                Some(old(self).entity_of(*chunk_pos))
            } else {
                None
            }),
            final(self).loaded_chunks@ == old(self).loaded_chunks@.remove(pos_key(*chunk_pos)),
            ({
                let rk = region_key(*chunk_pos, old(self).grid_region_size);
                &&& forall|k: u64|
                    #![trigger final(self).region_seq(k)]
                    final(self).region_seq(k) == if k == rk {
                        without(old(self).region_seq(rk), *chunk_pos)
                    } else {
                        old(self).region_seq(k)
                    }
            }),
            old(self).grid_wf() ==> final(self).grid_wf(),
            final(self).render_distance == old(self).render_distance,
            final(self).grid_region_size == old(self).grid_region_size,
            final(self).chunk_cache == old(self).chunk_cache,
            final(self).cache_access_order == old(self).cache_access_order,
            final(self).max_cache_size == old(self).max_cache_size,
    {
        self.remove_chunk_from_spatial_grid(chunk_pos);
        let key = grid_key_of(chunk_pos.x, chunk_pos.z);
        let r = self.loaded_chunks.remove(&key);
        proof {
            let g = self.grid_region_size;
            let rk = region_key(*chunk_pos, g);
            assert forall|k: u64|
                #![trigger self.region_seq(k)]
                self.region_seq(k) == if k == rk {
                    without(old(self).region_seq(rk), *chunk_pos)
                } else {
                    old(self).region_seq(k)
                } by {
                if k == rk && !old(self).spatial_grid@.contains_key(rk) {
                    assert(without(Seq::<ChunkPosition>::empty(), *chunk_pos) =~= Seq::<
                        ChunkPosition,
                    >::empty());
                }
            }
            if old(self).grid_wf() {
                assert forall|k: u64, i: int|
                    #![trigger self.spatial_grid@[k]@[i]]
                    self.spatial_grid@.contains_key(k) && 0 <= i
                        < self.spatial_grid@[k]@.len() implies {
                    &&& region_key(self.spatial_grid@[k]@[i], g) == k
                    &&& self.is_loaded(self.spatial_grid@[k]@[i])
                } by {
                    let q = self.spatial_grid@[k]@[i];
                    if k == rk {
                        assert(self.region_seq(k) == without(old(self).region_seq(rk), *chunk_pos));
                        lemma_without_contains(old(self).region_seq(rk), *chunk_pos, q);
                        assert(self.region_seq(k).contains(q));
                        let j = choose|j: int|
                            0 <= j < old(self).region_seq(rk).len() && old(self).region_seq(rk)[j]
                                == q;
                        assert(old(self).spatial_grid@[k]@[j] == q);
                        lemma_pos_key_injective(q, *chunk_pos);
                    } else {
                        assert(self.region_seq(k) == old(self).region_seq(k));
                        assert(old(self).spatial_grid@[k]@[i] == q);
                        if q == *chunk_pos {
                            assert(region_key(q, g) == k);
                        }
                        lemma_pos_key_injective(q, *chunk_pos);
                    }
                }
                assert forall|p: ChunkPosition| #[trigger]
                    self.is_loaded(p) implies self.region_seq(region_key(p, g)).contains(p) by {
                    let pk = region_key(p, g);
                    lemma_pos_key_injective(p, *chunk_pos);
                    assert(old(self).is_loaded(p));
                    assert(old(self).region_seq(pk).contains(p));
                    if pk == rk {
                        lemma_without_contains(old(self).region_seq(rk), *chunk_pos, p);
                    }
                }
            }
        }
        r
    }
}

/// The access order after the least recently used positions beyond `max` are dropped.
pub open spec fn lru_keep(order: Seq<ChunkPosition>, max: usize) -> Seq<ChunkPosition> {
    if order.len() > max {
        order.take(max as int)
    } else {
        order
    }
}

/// `order` with `p` moved to the front (or added there).
pub open spec fn touch(order: Seq<ChunkPosition>, p: ChunkPosition) -> Seq<ChunkPosition> {
    seq![p] + without(order, p)
}

/// `order` with the occurrences of `p` left out.
fn deque_without(order: &VecDeque<ChunkPosition>, p: ChunkPosition) -> (r: VecDeque<ChunkPosition>)
    ensures
        r@ == without(order@, p),
{
    let mut r: VecDeque<ChunkPosition> = VecDeque::new();
    let mut i: usize = 0;
    while i < order.len()
        invariant
            i <= order.len(),
            r@ == without(order@.take(i as int), p),
        decreases order.len() - i,
    {
        assert(order@.take(i + 1).drop_last() =~= order@.take(i as int));
        if order[i] != p {
            r.push_back(order[i]);
        }
        i = i + 1;
    }
    assert(order@.take(order.len() as int) =~= order@);
    r
}

pub proof fn lemma_without_no_duplicates(v: Seq<ChunkPosition>, p: ChunkPosition)
    requires
        v.no_duplicates(),
    ensures
        without(v, p).no_duplicates(),
        without(v, p).len() == if v.contains(p) {
            v.len() - 1
        } else {
            v.len() as int
        },
    decreases v.len(),
{
    if v.len() > 0 {
        let d = v.drop_last();
        assert(d.no_duplicates());
        lemma_without_no_duplicates(d, p);
        let w = without(d, p);
        assert(v.contains(p) == (d.contains(p) || v.last() == p)) by {
            if v.contains(p) {
                let i = choose|i: int| 0 <= i < v.len() && v[i] == p;
                if i < v.len() - 1 {
                    assert(d[i] == p);
                }
            }
            if d.contains(p) {
                let i = choose|i: int| 0 <= i < d.len() && d[i] == p;
                assert(v[i] == p);
            }
        }
        if v.last() == p {
            assert(!d.contains(p)) by {
                if d.contains(p) {
                    let i = choose|i: int| 0 <= i < d.len() && d[i] == p;
                    assert(v[i] == v[v.len() - 1]);
                }
            }
        } else {
            assert(!w.contains(v.last())) by {
                lemma_without_contains(d, p, v.last());
                if d.contains(v.last()) {
                    let i = choose|i: int| 0 <= i < d.len() && d[i] == v.last();
                    assert(v[i] == v[v.len() - 1]);
                }
            }
            assert(w.push(v.last()).no_duplicates()) by {
                assert forall|i: int, j: int|
                    0 <= i < w.len() + 1 && 0 <= j < w.len() + 1 && i != j implies w.push(
                    v.last(),
                )[i] != w.push(v.last())[j] by {
                    if i == w.len() {
                        assert(w.contains(w[j]));
                    } else if j == w.len() {
                        assert(w.contains(w[i]));
                    }
                }
            }
        }
    }
}

impl ChunkManager {
    /// Drops least recently used entries until at most `target` remain.
    fn evict_down_to(&mut self, target: usize)
        requires
            old(self).cache_wf(),
        ensures
            final(self).cache_wf(),
            final(self).cache_access_order@ == lru_keep(old(self).cache_access_order@, target),
            forall|k: u64| #[trigger]
                final(self).chunk_cache@.contains_key(k) ==> old(self).chunk_cache@.contains_key(k)
                    && final(self).chunk_cache@[k] == old(self).chunk_cache@[k],
            final(self).loaded_chunks == old(self).loaded_chunks,
            final(self).spatial_grid == old(self).spatial_grid,
            final(self).render_distance == old(self).render_distance,
            final(self).grid_region_size == old(self).grid_region_size,
            final(self).max_cache_size == old(self).max_cache_size,
    {
        let ghost order0 = self.cache_access_order@;
        while self.chunk_cache.len() > target
            invariant
                self.cache_wf(),
                self.cache_access_order@ == order0.take(self.cache_access_order@.len() as int),
                self.cache_access_order@.len() <= order0.len(),
                self.cache_access_order@.len() >= target || self.cache_access_order@.len()
                    == order0.len(),
                forall|k: u64| #[trigger]
                    self.chunk_cache@.contains_key(k) ==> old(self).chunk_cache@.contains_key(k)
                        && self.chunk_cache@[k] == old(self).chunk_cache@[k],
                order0 == old(self).cache_access_order@,
                self.loaded_chunks == old(self).loaded_chunks,
                self.spatial_grid == old(self).spatial_grid,
                self.render_distance == old(self).render_distance,
                self.grid_region_size == old(self).grid_region_size,
                self.max_cache_size == old(self).max_cache_size,
            decreases self.cache_access_order@.len(),
        {
            let ghost before = self.cache_access_order@;
            let ghost cache_before = self.chunk_cache@;
            match self.cache_access_order.pop_back() {
                Some(oldest) => {
                    let key = grid_key_of(oldest.x, oldest.z);
                    self.chunk_cache.remove(&key);
                    proof {
                        let after = self.cache_access_order@;
                        assert(after =~= before.drop_last());
                        assert(before.no_duplicates());
                        assert(after.no_duplicates());
                        assert(cache_before.contains_key(key)) by {
                            assert(pos_key(before[before.len() - 1]) == key);
                        }
                        assert forall|k: u64|
                            #[trigger] self.chunk_cache@.contains_key(k) <==> exists|i: int|
                                0 <= i < after.len() && #[trigger] pos_key(after[i]) == k by {
                            if self.chunk_cache@.contains_key(k) {
                                assert(cache_before.contains_key(k));
                                let i = choose|i: int|
                                    0 <= i < before.len() && #[trigger] pos_key(before[i]) == k;
                                assert(i != before.len() - 1);
                                assert(pos_key(after[i]) == k);
                            }
                            if exists|i: int| 0 <= i < after.len() && #[trigger] pos_key(after[i]) == k {
                                let i = choose|i: int|
                                    0 <= i < after.len() && #[trigger] pos_key(after[i]) == k;
                                assert(pos_key(before[i]) == k);
                                if k == key {
                                    lemma_pos_key_injective(before[i], before[before.len() - 1]);
                                }
                            }
                        }
                        assert(after =~= order0.take(after.len() as int));
                    }
                },
                None => {
                    proof {
                        assert(false);
                    }
                },
            }
        }
        proof {
            if order0.len() > target {
                assert(self.cache_access_order@.len() == target);
            } else {
                assert(self.cache_access_order@ =~= order0);
            }
        }
    }
}

impl CachedChunkData {
    /// Whether `self` holds the same blocks, climate, flag and time as `other`.
    pub open spec fn same_as(&self, other: CachedChunkData) -> bool {
        &&& self.data.blocks@ == other.data.blocks@
        &&& self.biome_data.data@ == other.biome_data.data@
        &&& self.is_generated == other.is_generated
        &&& self.last_accessed == other.last_accessed
    }

    /// A copy of the cached data.
    pub fn duplicate(&self) -> (r: CachedChunkData)
        ensures
            r.same_as(*self),
    {
        CachedChunkData {
            data: self.data.duplicate(),
            biome_data: self.biome_data.duplicate(),
            is_generated: self.is_generated,
            last_accessed: self.last_accessed,
        }
    }
}

impl ChunkManager {
    /// Under `cache_wf`, a position has cached data exactly when it is in the
    /// access order.
    pub proof fn lemma_cached_iff_ordered(&self, p: ChunkPosition)
        requires
            self.cache_wf(),
        ensures
            self.chunk_cache@.contains_key(pos_key(p)) == self.cache_access_order@.contains(p),
    {
        let order = self.cache_access_order@;
        if self.chunk_cache@.contains_key(pos_key(p)) {
            let i = choose|i: int| 0 <= i < order.len() && #[trigger] pos_key(order[i]) == pos_key(p);
            lemma_pos_key_injective(order[i], p);
        }
        if order.contains(p) {
            let i = choose|i: int| 0 <= i < order.len() && order[i] == p;
            assert(pos_key(order[i]) == pos_key(p));
        }
    }

    /// Positions of the loaded chunks, each once, in the map's iteration order.
    fn loaded_positions(&self) -> (r: Vec<ChunkPosition>)
        ensures
            r@.no_duplicates(),
            r@.len() == self.loaded_chunks@.len(),
            forall|p: ChunkPosition| #[trigger] r@.contains(p) == self.is_loaded(p),
    {
        let ghost ks = vstd::std_specs::hash::spec_keys_iter(&self.loaded_chunks).remaining();
        proof {
            vstd::std_specs::hash::axiom_spec_keys_iter(&self.loaded_chunks);
        }
        let mut out: Vec<ChunkPosition> = Vec::new();
        for k in it: self.loaded_chunks.keys()
            invariant
                it.seq() == ks,
                out@.len() == it.index(),
                forall|j: int| 0 <= j < it.index() ==> pos_key(#[trigger] out@[j]) == *ks[j],
        {
            out.push(position_of_key(*k));
        }
        proof {
            let ku = ks.unref();
            assert(out@.len() == ks.len());
            assert forall|p: ChunkPosition| #[trigger] out@.contains(p) == self.is_loaded(p) by {
                if out@.contains(p) {
                    let j = choose|j: int| 0 <= j < out@.len() && out@[j] == p;
                    assert(ku[j] == *ks[j]);
                    assert(ku.to_set().contains(ku[j]));
                }
                if self.is_loaded(p) {
                    assert(ku.to_set().contains(pos_key(p)));
                    let j = choose|j: int| 0 <= j < ku.len() && ku[j] == pos_key(p);
                    assert(pos_key(out@[j]) == pos_key(p));
                    lemma_pos_key_injective(out@[j], p);
                }
            }
            assert forall|i: int, j: int| 0 <= i < out@.len() && 0 <= j < out@.len() && i != j implies out@[i]
                != out@[j] by {
                if out@[i] == out@[j] {
                    assert(ks[i] == ks[j]);
                }
            }
        }
        out
    }

    /// Evicts least recently used entries while the cache holds more than
    /// `max_cache_size` chunks.
    fn evict_lru_chunks_if_needed(&mut self)
        requires
            old(self).cache_wf(),
        ensures
            final(self).cache_wf(),
            final(self).cache_access_order@ == lru_keep(
                old(self).cache_access_order@,
                old(self).max_cache_size,
            ),
            forall|k: u64| #[trigger]
                final(self).chunk_cache@.contains_key(k) ==> old(self).chunk_cache@.contains_key(k)
                    && final(self).chunk_cache@[k] == old(self).chunk_cache@[k],
            final(self).loaded_chunks == old(self).loaded_chunks,
            final(self).spatial_grid == old(self).spatial_grid,
            final(self).render_distance == old(self).render_distance,
            final(self).grid_region_size == old(self).grid_region_size,
            final(self).max_cache_size == old(self).max_cache_size,
    {
        let max = self.max_cache_size;
        self.evict_down_to(max);
    }

    /// Caches the data of an unloaded chunk as the most recently used entry,
    /// replacing what was cached for its position, then evicts the least
    /// recently used entries beyond `max_cache_size`. `current_time` is the
    /// bit pattern of the `f64` time.
    pub fn cache_chunk(
        &mut self,
        chunk_pos: ChunkPosition,
        chunk_data: ChunkData,
        biome_data: ChunkBiomeData,
        is_generated: bool,
        current_time: u64,
    )
        requires
            old(self).cache_wf(),
        ensures
            final(self).cache_wf(),
            final(self).cache_access_order@ == lru_keep(
                touch(old(self).cache_access_order@, chunk_pos),
                old(self).max_cache_size,
            ),
            forall|q: ChunkPosition| #[trigger]
                final(self).cached(q) == if final(self).cache_access_order@.contains(q) {
                    if q == chunk_pos {
                        Some(
                            (CachedChunkData {
                                data: chunk_data,
                                biome_data,
                                is_generated,
                                last_accessed: current_time,
                            }),
                        )
                    } else {
                        old(self).cached(q)
                    }
                } else {
                    None
                },
            final(self).chunk_cache@.len() <= old(self).max_cache_size,
            old(self).max_cache_size > 0 ==> final(self).cached(chunk_pos) == Some(
                (CachedChunkData { data: chunk_data, biome_data, is_generated, last_accessed: current_time }),
            ),
            final(self).loaded_chunks == old(self).loaded_chunks,
            final(self).spatial_grid == old(self).spatial_grid,
            final(self).render_distance == old(self).render_distance,
            final(self).grid_region_size == old(self).grid_region_size,
            final(self).max_cache_size == old(self).max_cache_size,
    {
        let ghost order0 = self.cache_access_order@;
        let ghost cache0 = self.chunk_cache@;
        let ghost entry = CachedChunkData {
            data: chunk_data,
            biome_data,
            is_generated,
            last_accessed: current_time,
        };
        proof {
            old(self).lemma_cached_iff_ordered(chunk_pos);
            lemma_without_no_duplicates(order0, chunk_pos);
            lemma_without_contains(order0, chunk_pos, chunk_pos);
        }
        self.cache_access_order = deque_without(&self.cache_access_order, chunk_pos);
        let key = grid_key_of(chunk_pos.x, chunk_pos.z);
        self.chunk_cache.insert(
            key,
            CachedChunkData { data: chunk_data, biome_data, is_generated, last_accessed: current_time },
        );
        self.cache_access_order.push_front(chunk_pos);
        proof {
            let w = without(order0, chunk_pos);
            let t = self.cache_access_order@;
            assert(t =~= touch(order0, chunk_pos));
            assert(t =~= seq![chunk_pos] + w);
            assert(t.no_duplicates()) by {
                assert forall|i: int, j: int| 0 <= i < t.len() && 0 <= j < t.len() && i != j implies t[i]
                    != t[j] by {
                    if i == 0 {
                        assert(w.contains(t[j]));
                    } else if j == 0 {
                        assert(w.contains(t[i]));
                    } else {
                        assert(t[i] == w[i - 1] && t[j] == w[j - 1]);
                    }
                }
            }
            assert forall|k: u64|
                #[trigger] self.chunk_cache@.contains_key(k) <==> exists|i: int|
                    0 <= i < t.len() && #[trigger] pos_key(t[i]) == k by {
                if k == key {
                    assert(pos_key(t[0]) == k);
                } else {
                    if self.chunk_cache@.contains_key(k) {
                        assert(cache0.contains_key(k));
                        let i = choose|i: int| 0 <= i < order0.len() && #[trigger] pos_key(order0[i]) == k;
                        assert(order0.contains(order0[i]));
                        lemma_without_contains(order0, chunk_pos, order0[i]);
                        let j = choose|j: int| 0 <= j < w.len() && w[j] == order0[i];
                        assert(pos_key(t[j + 1]) == k);
                    }
                    if exists|i: int| 0 <= i < t.len() && #[trigger] pos_key(t[i]) == k {
                        let i = choose|i: int| 0 <= i < t.len() && #[trigger] pos_key(t[i]) == k;
                        assert(i != 0);
                        assert(w.contains(t[i]));
                        lemma_without_contains(order0, chunk_pos, t[i]);
                        let j = choose|j: int| 0 <= j < order0.len() && order0[j] == t[i];
                        assert(pos_key(order0[j]) == k);
                    }
                }
            }
        }
        let ghost mid = self.chunk_cache@;
        let ghost mid_order = self.cache_access_order@;
        self.evict_lru_chunks_if_needed();
        proof {
            assert forall|q: ChunkPosition| #[trigger]
                self.cached(q) == if self.cache_access_order@.contains(q) {
                    if q == chunk_pos {
                        Some(entry)
                    } else {
                        old(self).cached(q)
                    }
                } else {
                    None
                } by {
                self.lemma_cached_iff_ordered(q);
                if self.cache_access_order@.contains(q) {
                    assert(mid.contains_key(pos_key(q)));
                    if q != chunk_pos {
                        lemma_pos_key_injective(q, chunk_pos);
                    }
                }
            }
            if self.max_cache_size > 0 {
                assert(mid_order[0] == chunk_pos);
                assert(self.cache_access_order@[0] == chunk_pos);
                assert(self.cache_access_order@.contains(chunk_pos));
            }
        }
    }

    /// Removes the cached data of `chunk_pos`, if any, from the cache and the
    /// access order.
    pub fn remove_from_cache(&mut self, chunk_pos: &ChunkPosition)
        requires
            old(self).cache_wf(),
        ensures
            final(self).cache_wf(),
            final(self).chunk_cache@ == old(self).chunk_cache@.remove(pos_key(*chunk_pos)),
            final(self).cache_access_order@ == without(old(self).cache_access_order@, *chunk_pos),
            final(self).loaded_chunks == old(self).loaded_chunks,
            final(self).spatial_grid == old(self).spatial_grid,
            final(self).render_distance == old(self).render_distance,
            final(self).grid_region_size == old(self).grid_region_size,
            final(self).max_cache_size == old(self).max_cache_size,
    {
        let ghost order0 = self.cache_access_order@;
        let ghost cache0 = self.chunk_cache@;
        proof {
            old(self).lemma_cached_iff_ordered(*chunk_pos);
            lemma_without_no_duplicates(order0, *chunk_pos);
        }
        let key = grid_key_of(chunk_pos.x, chunk_pos.z);
        self.chunk_cache.remove(&key);
        self.cache_access_order = deque_without(&self.cache_access_order, *chunk_pos);
        proof {
            let w = self.cache_access_order@;
            assert forall|k: u64|
                #[trigger] self.chunk_cache@.contains_key(k) <==> exists|i: int|
                    0 <= i < w.len() && #[trigger] pos_key(w[i]) == k by {
                if self.chunk_cache@.contains_key(k) {
                    let i = choose|i: int| 0 <= i < order0.len() && #[trigger] pos_key(order0[i]) == k;
                    assert(order0.contains(order0[i]));
                    lemma_pos_key_injective(order0[i], *chunk_pos);
                    lemma_without_contains(order0, *chunk_pos, order0[i]);
                    let j = choose|j: int| 0 <= j < w.len() && w[j] == order0[i];
                    assert(pos_key(w[j]) == k);
                }
                if exists|i: int| 0 <= i < w.len() && #[trigger] pos_key(w[i]) == k {
                    let i = choose|i: int| 0 <= i < w.len() && #[trigger] pos_key(w[i]) == k;
                    assert(w.contains(w[i]));
                    lemma_without_contains(order0, *chunk_pos, w[i]);
                    lemma_pos_key_injective(w[i], *chunk_pos);
                    let j = choose|j: int| 0 <= j < order0.len() && order0[j] == w[i];
                    assert(pos_key(order0[j]) == k);
                }
            }
        }
    }

    /// Empties the cache and its access order.
    pub fn clear_cache(&mut self)
        ensures
            final(self).cache_wf(),
            final(self).chunk_cache@ == Map::<u64, CachedChunkData>::empty(),
            final(self).cache_access_order@ == Seq::<ChunkPosition>::empty(),
            final(self).loaded_chunks == old(self).loaded_chunks,
            final(self).spatial_grid == old(self).spatial_grid,
            final(self).render_distance == old(self).render_distance,
            final(self).grid_region_size == old(self).grid_region_size,
            final(self).max_cache_size == old(self).max_cache_size,
    {
        self.chunk_cache.clear();
        self.cache_access_order.clear();
    }

    /// Number of cached chunks and the cache's capacity.
    pub fn get_cache_stats(&self) -> (r: CacheStats)
        ensures
            r.cached_chunks == self.chunk_cache@.len(),
            r.max_cache_size == self.max_cache_size,
    {
        CacheStats { cached_chunks: self.chunk_cache.len(), max_cache_size: self.max_cache_size }
    }

    /// A copy of the data cached for `chunk_pos`, marking it most recently used.
    /// The access time stored in the entry is left as it was.
    pub fn get_cached_chunk(&mut self, chunk_pos: &ChunkPosition, _current_time: u64) -> (r: Option<
        CachedChunkData,
    >)
        requires
            old(self).cache_wf(),
        ensures
            final(self).cache_wf(),
            r is Some == old(self).cached(*chunk_pos) is Some,
            r is Some ==> r->0.same_as(old(self).cached(*chunk_pos)->0),
            final(self).cache_access_order@ == if old(self).cached(*chunk_pos) is Some {
                touch(old(self).cache_access_order@, *chunk_pos)
            } else {
                old(self).cache_access_order@
            },
            final(self).chunk_cache == old(self).chunk_cache,
            final(self).loaded_chunks == old(self).loaded_chunks,
            final(self).spatial_grid == old(self).spatial_grid,
            final(self).render_distance == old(self).render_distance,
            final(self).grid_region_size == old(self).grid_region_size,
            final(self).max_cache_size == old(self).max_cache_size,
    {
        let ghost order0 = self.cache_access_order@;
        let key = grid_key_of(chunk_pos.x, chunk_pos.z);
        let copy = match self.chunk_cache.get(&key) {
            Some(c) => Some(c.duplicate()),
            None => None,
        };
        if copy.is_some() {
            proof {
                old(self).lemma_cached_iff_ordered(*chunk_pos);
                lemma_without_no_duplicates(order0, *chunk_pos);
                lemma_without_contains(order0, *chunk_pos, *chunk_pos);
            }
            self.cache_access_order = deque_without(&self.cache_access_order, *chunk_pos);
            self.cache_access_order.push_front(*chunk_pos);
            proof {
                let w = without(order0, *chunk_pos);
                let t = self.cache_access_order@;
                assert(t =~= seq![*chunk_pos] + w);
                assert(t.no_duplicates()) by {
                    assert forall|i: int, j: int| 0 <= i < t.len() && 0 <= j < t.len() && i != j implies t[i]
                        != t[j] by {
                        if i == 0 {
                            assert(w.contains(t[j]));
                        } else if j == 0 {
                            assert(w.contains(t[i]));
                        } else {
                            assert(t[i] == w[i - 1] && t[j] == w[j - 1]);
                        }
                    }
                }
                assert forall|k: u64|
                    #[trigger] self.chunk_cache@.contains_key(k) <==> exists|i: int|
                        0 <= i < t.len() && #[trigger] pos_key(t[i]) == k by {
                    if k == key {
                        assert(pos_key(t[0]) == k);
                    } else {
                        if self.chunk_cache@.contains_key(k) {
                            let i = choose|i: int| 0 <= i < order0.len() && #[trigger] pos_key(order0[i]) == k;
                            assert(order0.contains(order0[i]));
                            lemma_without_contains(order0, *chunk_pos, order0[i]);
                            let j = choose|j: int| 0 <= j < w.len() && w[j] == order0[i];
                            assert(pos_key(t[j + 1]) == k);
                        }
                        if exists|i: int| 0 <= i < t.len() && #[trigger] pos_key(t[i]) == k {
                            let i = choose|i: int| 0 <= i < t.len() && #[trigger] pos_key(t[i]) == k;
                            assert(i != 0);
                            assert(w.contains(t[i]));
                            lemma_without_contains(order0, *chunk_pos, t[i]);
                            let j = choose|j: int| 0 <= j < order0.len() && order0[j] == t[i];
                            assert(pos_key(order0[j]) == k);
                        }
                    }
                }
            }
        }
        copy
    }

    /// Number of loaded chunks.
    pub fn get_loaded_chunk_count(&self) -> (r: usize)
        ensures
            r == self.loaded_chunks@.len(),
    {
        self.loaded_chunks.len()
    }

    /// Rough memory use of the loaded chunks: `CHUNK_VOLUME` bytes per chunk.
    pub fn estimate_memory_usage(&self) -> (r: usize)
        requires
            self.loaded_chunks@.len() * CHUNK_VOLUME <= usize::MAX,
        ensures
            r == self.loaded_chunks@.len() * CHUNK_VOLUME,
    {
        self.loaded_chunks.len() * CHUNK_VOLUME
    }

    /// Shrinks the cache to what `available_memory_mb` megabytes hold
    /// (`CHUNK_VOLUME` bytes per chunk), never growing it: evicts least
    /// recently used entries beyond the new capacity and keeps that capacity.
    pub fn optimize_cache(&mut self, available_memory_mb: usize)
        requires
            old(self).cache_wf(),
            available_memory_mb * 1048576 <= usize::MAX,
        ensures
            final(self).cache_wf(),
            final(self).max_cache_size == min_usize(
                (available_memory_mb * 1048576 / CHUNK_VOLUME as int) as usize,
                old(self).max_cache_size,
            ),
            final(self).cache_access_order@ == lru_keep(
                old(self).cache_access_order@,
                final(self).max_cache_size,
            ),
            forall|k: u64| #[trigger]
                final(self).chunk_cache@.contains_key(k) ==> old(self).chunk_cache@.contains_key(k)
                    && final(self).chunk_cache@[k] == old(self).chunk_cache@[k],
            final(self).loaded_chunks == old(self).loaded_chunks,
            final(self).spatial_grid == old(self).spatial_grid,
            final(self).render_distance == old(self).render_distance,
            final(self).grid_region_size == old(self).grid_region_size,
    {
        let max_chunks_by_memory = (available_memory_mb * 1024 * 1024) / CHUNK_VOLUME;
        let target_cache_size = if max_chunks_by_memory < self.max_cache_size {
            max_chunks_by_memory
        } else {
            self.max_cache_size
        };
        self.evict_down_to(target_cache_size);
        self.max_cache_size = target_cache_size;
    }
}

impl ChunkManager {
    /// Priority of chunk `p` by its distance from the player's chunk alone.
    pub open spec fn priority_by_distance(&self, p: ChunkPosition, player: ChunkPosition) -> ChunkPriority {
        distance_priority(chunk_distance(p, player), self.render_distance)
    }

    /// Every loaded chunk's coordinate differences from `player` fit in an `i32`.
    pub open spec fn loaded_in_range(&self, player: ChunkPosition) -> bool {
        forall|p: ChunkPosition| #[trigger] self.is_loaded(p) ==> diff_in_range(p, player)
    }

    /// Priority of `chunk_pos` for a player in chunk `player_chunk_pos`:
    /// `Visible` when visible, else by the larger axis distance: `Near` up to
    /// half the render distance, `Far` up to the render distance, `Unload` beyond.
    pub fn calculate_chunk_priority(
        &self,
        chunk_pos: &ChunkPosition,
        player_chunk_pos: &ChunkPosition,
        is_visible: bool,
    ) -> (r: ChunkPriority)
        requires
            diff_in_range(*chunk_pos, *player_chunk_pos),
        ensures
            r == if is_visible {
                ChunkPriority::Visible
            } else {
                self.priority_by_distance(*chunk_pos, *player_chunk_pos)
            },
    {
        if is_visible {
            ChunkPriority::Visible
        } else {
            self.distance_priority_of(chunk_pos, player_chunk_pos)
        }
    }

    /// Priority of `chunk_pos` by its distance from `player_chunk_pos`.
    fn distance_priority_of(&self, chunk_pos: &ChunkPosition, player_chunk_pos: &ChunkPosition) -> (r:
        ChunkPriority)
        requires
            diff_in_range(*chunk_pos, *player_chunk_pos),
        ensures
            r == self.priority_by_distance(*chunk_pos, *player_chunk_pos),
    {
        let dx = abs_diff(chunk_pos.x, player_chunk_pos.x);
        let dz = abs_diff(chunk_pos.z, player_chunk_pos.z);
        let distance = if dx >= dz {
            dx
        } else {
            dz
        };
        if distance <= self.render_distance / 2 {
            ChunkPriority::Near
        } else if distance <= self.render_distance {
            ChunkPriority::Far
        } else {
            ChunkPriority::Unload
        }
    }

    /// Appends, in the order of `positions`, each position whose distance
    /// priority is `level`, paired with it. Keeps `out` ordered by
    /// non-increasing rank, without repeated positions, holding exactly the
    /// positions of rank above `level` before the call and at least `level` after.
    fn append_level(
        &self,
        positions: &Vec<ChunkPosition>,
        player: &ChunkPosition,
        level: ChunkPriority,
        out: &mut Vec<(ChunkPosition, ChunkPriority)>,
    )
        requires
            positions@.no_duplicates(),
            forall|i: int| 0 <= i < positions@.len() ==> diff_in_range(#[trigger] positions@[i], *player),
            forall|i: int|
                0 <= i < old(out)@.len() ==> {
                    &&& positions@.contains(#[trigger] old(out)@[i].0)
                    &&& old(out)@[i].1 == self.priority_by_distance(old(out)@[i].0, *player)
                    &&& old(out)@[i].1.rank_spec() > level.rank_spec()
                },
            forall|p: ChunkPosition|
                #[trigger] positions@.contains(p) && self.priority_by_distance(p, *player).rank_spec()
                    > level.rank_spec() ==> exists|i: int|
                    0 <= i < old(out)@.len() && old(out)@[i].0 == p,
            forall|i: int, j: int|
                0 <= i < j < old(out)@.len() ==> old(out)@[i].0 != old(out)@[j].0
                    && old(out)@[i].1.rank_spec() >= old(out)@[j].1.rank_spec(),
        ensures
            forall|i: int|
                0 <= i < final(out)@.len() ==> {
                    &&& positions@.contains(#[trigger] final(out)@[i].0)
                    &&& final(out)@[i].1 == self.priority_by_distance(final(out)@[i].0, *player)
                    &&& final(out)@[i].1.rank_spec() >= level.rank_spec()
                },
            forall|p: ChunkPosition|
                #[trigger] positions@.contains(p) && self.priority_by_distance(p, *player).rank_spec()
                    >= level.rank_spec() ==> exists|i: int|
                    0 <= i < final(out)@.len() && final(out)@[i].0 == p,
            forall|i: int, j: int|
                0 <= i < j < final(out)@.len() ==> final(out)@[i].0 != final(out)@[j].0
                    && final(out)@[i].1.rank_spec() >= final(out)@[j].1.rank_spec(),
    {
        let ghost out0 = out@;
        let mut k: usize = 0;
        while k < positions.len()
            invariant
                k <= positions@.len(),
                positions@.no_duplicates(),
                forall|i: int| 0 <= i < positions@.len() ==> diff_in_range(#[trigger] positions@[i], *player),
                out0.len() <= out@.len(),
                forall|i: int| 0 <= i < out0.len() ==> out@[i] == out0[i],
                forall|i: int|
                    0 <= i < out0.len() ==> {
                        &&& positions@.contains(#[trigger] out0[i].0)
                        &&& out0[i].1 == self.priority_by_distance(out0[i].0, *player)
                        &&& out0[i].1.rank_spec() > level.rank_spec()
                    },
                forall|p: ChunkPosition|
                    #[trigger] positions@.contains(p) && self.priority_by_distance(p, *player).rank_spec()
                        > level.rank_spec() ==> exists|i: int|
                        0 <= i < out0.len() && out0[i].0 == p,
                forall|i: int, j: int|
                    0 <= i < j < out0.len() ==> out0[i].0 != out0[j].0
                        && out0[i].1.rank_spec() >= out0[j].1.rank_spec(),
                forall|i: int|
                    out0.len() <= i < out@.len() ==> {
                        &&& exists|j: int| 0 <= j < k && positions@[j] == (#[trigger] out@[i]).0
                        &&& out@[i].1 == level
                        &&& out@[i].1 == self.priority_by_distance(out@[i].0, *player)
                    },
                forall|j: int|
                    0 <= j < k && self.priority_by_distance(#[trigger] positions@[j], *player) == level
                        ==> exists|i: int| out0.len() <= i < out@.len() && out@[i].0 == positions@[j],
                forall|i: int, j: int|
                    out0.len() <= i < j < out@.len() ==> out@[i].0 != out@[j].0,
            decreases positions.len() - k,
        {
            let p = positions[k];
            let prio = self.distance_priority_of(&p, player);
            if prio == level {
                let ghost before = out@;
                proof {
                    assert forall|i: int| out0.len() <= i < before.len() implies before[i].0 != p by {
                        let j = choose|j: int| 0 <= j < k && positions@[j] == (#[trigger] before[i]).0;
                        assert(positions@[j] != positions@[k as int]);
                    }
                }
                out.push((p, prio));
                proof {
                    assert forall|i: int|
                        out0.len() <= i < out@.len() implies {
                            &&& exists|j: int| 0 <= j < k + 1 && positions@[j] == (#[trigger] out@[i]).0
                            &&& out@[i].1 == level
                            &&& out@[i].1 == self.priority_by_distance(out@[i].0, *player)
                        } by {
                        if i < before.len() {
                            assert(out@[i] == before[i]);
                            let j = choose|j: int| 0 <= j < k && positions@[j] == (#[trigger] before[i]).0;
                        } else {
                            assert(positions@[k as int] == out@[i].0);
                        }
                    }
                    assert forall|j: int|
                        0 <= j < k + 1 && self.priority_by_distance(#[trigger] positions@[j], *player)
                            == level implies exists|i: int|
                            out0.len() <= i < out@.len() && out@[i].0 == positions@[j] by {
                        if j < k {
                            let i = choose|i: int|
                                out0.len() <= i < before.len() && before[i].0 == positions@[j];
                            assert(out@[i] == before[i]);
                        } else {
                            assert(out@[before.len() as int].0 == positions@[j]);
                        }
                    }
                }
            }
            k = k + 1;
        }
        proof {
            let fin = out@;
            assert forall|i: int|
                0 <= i < fin.len() implies {
                    &&& positions@.contains(#[trigger] fin[i].0)
                    &&& fin[i].1 == self.priority_by_distance(fin[i].0, *player)
                    &&& fin[i].1.rank_spec() >= level.rank_spec()
                } by {
                if i < out0.len() {
                    assert(fin[i] == out0[i]);
                } else {
                    let j = choose|j: int| 0 <= j < k && positions@[j] == (#[trigger] fin[i]).0;
                    assert(positions@.contains(positions@[j]));
                }
            }
            assert forall|p: ChunkPosition|
                #[trigger] positions@.contains(p) && self.priority_by_distance(p, *player).rank_spec()
                    >= level.rank_spec() implies exists|i: int|
                    0 <= i < fin.len() && fin[i].0 == p by {
                if self.priority_by_distance(p, *player).rank_spec() > level.rank_spec() {
                    let i = choose|i: int| 0 <= i < out0.len() && out0[i].0 == p;
                    assert(fin[i] == out0[i]);
                } else {
                    let j = choose|j: int| 0 <= j < positions@.len() && positions@[j] == p;
                    assert(self.priority_by_distance(positions@[j], *player) == level);
                }
            }
            assert forall|i: int, j: int|
                0 <= i < j < fin.len() implies fin[i].0 != fin[j].0 && fin[i].1.rank_spec()
                    >= fin[j].1.rank_spec() by {
                if j < out0.len() {
                    assert(fin[i] == out0[i] && fin[j] == out0[j]);
                } else if i < out0.len() {
                    assert(fin[i] == out0[i]);
                    let jj = choose|jj: int| 0 <= jj < k && positions@[jj] == (#[trigger] fin[j]).0;
                }
            }
        }
    }

    /// Every loaded chunk with its distance priority, highest priority first.
    /// Chunks of equal priority come in the order the map yields them.
    pub fn get_chunks_sorted_by_priority(&self, player_chunk_pos: &ChunkPosition) -> (r: Vec<
        (ChunkPosition, ChunkPriority),
    >)
        requires
            self.loaded_in_range(*player_chunk_pos),
        ensures
            r@.len() == self.loaded_chunks@.len(),
            forall|i: int|
                0 <= i < r@.len() ==> self.is_loaded(#[trigger] r@[i].0) && r@[i].1
                    == self.priority_by_distance(r@[i].0, *player_chunk_pos),
            forall|p: ChunkPosition| #[trigger]
                self.is_loaded(p) ==> exists|i: int| 0 <= i < r@.len() && r@[i].0 == p,
            forall|i: int, j: int|
                0 <= i < j < r@.len() ==> r@[i].0 != r@[j].0 && r@[i].1.rank_spec()
                    >= r@[j].1.rank_spec(),
    {
        let positions = self.loaded_positions();
        let mut out: Vec<(ChunkPosition, ChunkPriority)> = Vec::new();
        proof {
            assert forall|i: int| 0 <= i < positions@.len() implies diff_in_range(
                #[trigger] positions@[i],
                *player_chunk_pos,
            ) by {
                assert(positions@.contains(positions@[i]));
            }
        }
        self.append_level(&positions, player_chunk_pos, ChunkPriority::Near, &mut out);
        self.append_level(&positions, player_chunk_pos, ChunkPriority::Far, &mut out);
        self.append_level(&positions, player_chunk_pos, ChunkPriority::Unload, &mut out);
        proof {
            let ps = out@.map_values(|e: (ChunkPosition, ChunkPriority)| e.0);
            assert(ps.no_duplicates());
            assert forall|p: ChunkPosition| ps.contains(p) == positions@.contains(p) by {
                if ps.contains(p) {
                    let i = choose|i: int| 0 <= i < ps.len() && ps[i] == p;
                    assert(positions@.contains(out@[i].0));
                }
                if positions@.contains(p) {
                    let i = choose|i: int| 0 <= i < out@.len() && out@[i].0 == p;
                    assert(ps[i] == p);
                }
            }
            ps.unique_seq_to_set();
            positions@.unique_seq_to_set();
            assert(ps.to_set() =~= positions@.to_set());
            assert forall|p: ChunkPosition| #[trigger]
                self.is_loaded(p) implies exists|i: int| 0 <= i < out@.len() && out@[i].0 == p by {
                assert(positions@.contains(p));
            }
            assert forall|i: int| 0 <= i < out@.len() implies self.is_loaded(#[trigger] out@[i].0) by {
                assert(positions@.contains(out@[i].0));
            }
        }
        out
    }

    /// Loaded chunks within half the render distance of the player's chunk,
    /// in the order the map yields them.
    pub fn get_high_priority_chunks(&self, player_chunk_pos: &ChunkPosition) -> (r: Vec<
        ChunkPosition,
    >)
        requires
            self.loaded_in_range(*player_chunk_pos),
        ensures
            r@.no_duplicates(),
            forall|p: ChunkPosition| #[trigger]
                r@.contains(p) == (self.is_loaded(p) && chunk_distance(p, *player_chunk_pos)
                    <= half_toward_zero(self.render_distance)),
    {
        let positions = self.loaded_positions();
        let mut out: Vec<ChunkPosition> = Vec::new();
        let mut k: usize = 0;
        while k < positions.len()
            invariant
                k <= positions@.len(),
                positions@.no_duplicates(),
                forall|p: ChunkPosition| #[trigger] positions@.contains(p) == self.is_loaded(p),
                self.loaded_in_range(*player_chunk_pos),
                out@.no_duplicates(),
                forall|p: ChunkPosition| #[trigger]
                    out@.contains(p) == ((exists|j: int| 0 <= j < k && positions@[j] == p)
                        && chunk_distance(p, *player_chunk_pos) <= half_toward_zero(
                        self.render_distance,
                    )),
            decreases positions.len() - k,
        {
            let p = positions[k];
            assert(positions@.contains(p));
            if self.distance_priority_of(&p, player_chunk_pos) == ChunkPriority::Near {
                proof {
                    if out@.contains(p) {
                        let j = choose|j: int| 0 <= j < k && positions@[j] == p;
                    }
                }
                let ghost before = out@;
                out.push(p);
                proof {
                    assert(out@.drop_last() =~= before);
                    assert forall|q: ChunkPosition| #[trigger]
                        out@.contains(q) == ((exists|j: int| 0 <= j < k + 1 && positions@[j] == q)
                            && chunk_distance(q, *player_chunk_pos) <= half_toward_zero(
                            self.render_distance,
                        )) by {
                        if q == p {
                            assert(out@[out@.len() - 1] == q);
                            assert(positions@[k as int] == q);
                        } else {
                            if exists|j: int| 0 <= j < k + 1 && positions@[j] == q {
                                let j = choose|j: int| 0 <= j < k + 1 && positions@[j] == q;
                                assert(j != k);
                            }
                            assert(out@.contains(q) == out@.drop_last().contains(q)) by {
                                if out@.contains(q) {
                                    let i = choose|i: int| 0 <= i < out@.len() && out@[i] == q;
                                    assert(out@.drop_last()[i] == q);
                                }
                                if out@.drop_last().contains(q) {
                                    let i = choose|i: int| 0 <= i < out@.len() - 1 && out@.drop_last()[i] == q;
                                    assert(out@[i] == q);
                                }
                            }
                        }
                    }
                }
            } else {
                proof {
                    assert forall|q: ChunkPosition| #[trigger]
                        out@.contains(q) == ((exists|j: int| 0 <= j < k + 1 && positions@[j] == q)
                            && chunk_distance(q, *player_chunk_pos) <= half_toward_zero(
                            self.render_distance,
                        )) by {
                        if exists|j: int| 0 <= j < k + 1 && positions@[j] == q {
                            let j = choose|j: int| 0 <= j < k + 1 && positions@[j] == q;
                            if j == k {
                                assert(q == p);
                            }
                        }
                    }
                }
            }
            k = k + 1;
        }
        proof {
            assert forall|p: ChunkPosition| #[trigger]
                out@.contains(p) == (self.is_loaded(p) && chunk_distance(p, *player_chunk_pos)
                    <= half_toward_zero(self.render_distance)) by {
                if self.is_loaded(p) {
                    assert(positions@.contains(p));
                    let j = choose|j: int| 0 <= j < positions@.len() && positions@[j] == p;
                }
                if exists|j: int| 0 <= j < k && positions@[j] == p {
                    let j = choose|j: int| 0 <= j < k && positions@[j] == p;
                    assert(positions@.contains(positions@[j]));
                }
            }
        }
        out
    }

    /// Priorities are not stored in the manager: recomputing them changes nothing.
    pub fn update_chunk_priorities(&mut self, _player_chunk_pos: &ChunkPosition)
        ensures
            *final(self) == *old(self),
    {
    }
}

/// `a` concatenated with `b` holds exactly what either holds.
pub proof fn lemma_concat_contains(a: Seq<ChunkPosition>, b: Seq<ChunkPosition>, p: ChunkPosition)
    ensures
        (a + b).contains(p) == (a.contains(p) || b.contains(p)),
{
    if (a + b).contains(p) {
        let i = choose|i: int| 0 <= i < (a + b).len() && (a + b)[i] == p;
        if i < a.len() {
            assert(a[i] == p);
        } else {
            assert(b[i - a.len()] == p);
        }
    }
    if a.contains(p) {
        let i = choose|i: int| 0 <= i < a.len() && a[i] == p;
        assert((a + b)[i] == p);
    }
    if b.contains(p) {
        let i = choose|i: int| 0 <= i < b.len() && b[i] == p;
        assert((a + b)[a.len() + i] == p);
    }
}

/// The filtered sequence holds exactly the kept elements of the sequence.
pub proof fn lemma_filter_contains_iff(
    s: Seq<ChunkPosition>,
    keep: spec_fn(ChunkPosition) -> bool,
    p: ChunkPosition,
)
    ensures
        s.filter(keep).contains(p) == (s.contains(p) && keep(p)),
{
    broadcast use vstd::seq_lib::group_filter_ensures;

    if s.filter(keep).contains(p) {
        s.lemma_filter_contains_rev(keep, p);
        let i = choose|i: int| 0 <= i < s.filter(keep).len() && s.filter(keep)[i] == p;
        s.lemma_filter_pred(keep, i);
    }
    if s.contains(p) && keep(p) {
        let i = choose|i: int| 0 <= i < s.len() && s[i] == p;
        s.lemma_filter_contains(keep, i);
    }
}

/// Keeps every position.
pub open spec fn keep_all() -> spec_fn(ChunkPosition) -> bool {
    |p: ChunkPosition| true
}

/// Keeps the positions within `d` chunks of `c` along both axes.
pub open spec fn keep_within(c: ChunkPosition, d: int) -> spec_fn(ChunkPosition) -> bool {
    |p: ChunkPosition| within_distance(p, c, d)
}

/// `ceil(a / g)` for a non-zero `g`.
pub open spec fn ceil_quot(a: int, g: int) -> int {
    if g > 0 {
        if (a / g) * g == a {
            a / g
        } else {
            a / g + 1
        }
    } else {
        a / g
    }
}

/// How many regions around the centre region a distance query scans:
/// `ceil(max_distance / g) + 1`.
pub open spec fn scan_radius(max_distance: int, g: int) -> int {
    ceil_quot(max_distance, g) + 1
}

/// `ceil(a / g)`, for `|a| < 2^24` and a valid region size.
fn ceil_quot_of(a: i32, g: i32) -> (r: i32)
    requires
        -0x100_0000 < a < 0x100_0000,
        valid_region_size(g),
    ensures
        r == ceil_quot(a as int, g as int),
        -0x100_0000 <= r <= 0x100_0000,
{
    let q = region_coord_of(a, g);
    proof {
        vstd::arithmetic::div_mod::lemma_fundamental_div_mod(a as int, g as int);
        let rem = a as int % g as int;
        if g > 0 {
            assert(-0x100_0000 <= q < 0x100_0000) by (nonlinear_arith)
                requires
                    a == g * q + rem,
                    0 <= rem < g,
                    g >= 1,
                    -0x100_0000 < a < 0x100_0000,
            ;
        } else {
            assert(-0x100_0000 <= q <= 0x100_0000) by (nonlinear_arith)
                requires
                    a == g * q + rem,
                    0 <= rem < -g,
                    g <= -2,
                    -0x100_0000 < a < 0x100_0000,
            ;
        }
    }
    if g > 0 {
        assert(-0x100_0000 * 0x8000_0000 <= q * g <= 0x100_0000 * 0x8000_0000) by (nonlinear_arith)
            requires
                -0x100_0000 <= q <= 0x100_0000,
                0 < g < 0x8000_0000,
        ;
        let back: i64 = q as i64 * g as i64;
        if back == a as i64 {
            q
        } else {
            q + 1
        }
    } else {
        q
    }
}

impl ChunkManager {
    /// Entries of the grid region at region coordinates `(rx, rz)`.
    pub open spec fn region_at(&self, rx: int, rz: int) -> Seq<ChunkPosition> {
        self.region_seq(grid_key(rx as i32, rz as i32))
    }

    /// Kept entries of regions `(rx, cz - rad)` up to `(rx, cz - rad + n - 1)`, in that order.
    pub open spec fn scan_column(
        &self,
        rx: int,
        cz: int,
        rad: int,
        n: int,
        keep: spec_fn(ChunkPosition) -> bool,
    ) -> Seq<ChunkPosition>
        decreases n,
    {
        if n <= 0 {
            Seq::empty()
        } else {
            self.scan_column(rx, cz, rad, n - 1, keep) + self.region_at(rx, cz - rad + n - 1).filter(
                keep,
            )
        }
    }

    /// Kept entries of the columns of regions `cx - rad` up to `cx - rad + n - 1`,
    /// each column covering `cz - rad` to `cz + rad`.
    pub open spec fn scan_regions(
        &self,
        cx: int,
        cz: int,
        rad: int,
        n: int,
        keep: spec_fn(ChunkPosition) -> bool,
    ) -> Seq<ChunkPosition>
        decreases n,
    {
        if n <= 0 {
            Seq::empty()
        } else {
            self.scan_regions(cx, cz, rad, n - 1, keep) + self.scan_column(
                cx - rad + n - 1,
                cz,
                rad,
                2 * rad + 1,
                keep,
            )
        }
    }

    /// A region column scan holds exactly the kept entries of its regions.
    pub proof fn lemma_scan_column_contains(
        &self,
        rx: int,
        cz: int,
        rad: int,
        n: int,
        keep: spec_fn(ChunkPosition) -> bool,
        p: ChunkPosition,
    )
        ensures
            self.scan_column(rx, cz, rad, n, keep).contains(p) == (keep(p) && exists|j: int|
                0 <= j < n && #[trigger] self.region_at(rx, cz - rad + j).contains(p)),
        decreases n,
    {
        if n > 0 {
            self.lemma_scan_column_contains(rx, cz, rad, n - 1, keep, p);
            let last = self.region_at(rx, cz - rad + n - 1);
            lemma_concat_contains(self.scan_column(rx, cz, rad, n - 1, keep), last.filter(keep), p);
            lemma_filter_contains_iff(last, keep, p);
            if keep(p) && exists|j: int| 0 <= j < n && #[trigger] self.region_at(rx, cz - rad + j).contains(p) {
                let j = choose|j: int| 0 <= j < n && #[trigger] self.region_at(rx, cz - rad + j).contains(p);
                if j < n - 1 {
                    assert(exists|j: int| 0 <= j < n - 1 && #[trigger] self.region_at(rx, cz - rad + j).contains(p));
                }
            }
        }
    }

    /// A region scan holds exactly the kept entries of its regions.
    pub proof fn lemma_scan_regions_contains(
        &self,
        cx: int,
        cz: int,
        rad: int,
        n: int,
        keep: spec_fn(ChunkPosition) -> bool,
        p: ChunkPosition,
    )
        ensures
            self.scan_regions(cx, cz, rad, n, keep).contains(p) == (keep(p) && exists|i: int, j: int|
                0 <= i < n && 0 <= j < 2 * rad + 1 && #[trigger] self.region_at(cx - rad + i, cz - rad + j).contains(
                    p,
                )),
        decreases n,
    {
        if n > 0 {
            self.lemma_scan_regions_contains(cx, cz, rad, n - 1, keep, p);
            self.lemma_scan_column_contains(cx - rad + n - 1, cz, rad, 2 * rad + 1, keep, p);
            lemma_concat_contains(
                self.scan_regions(cx, cz, rad, n - 1, keep),
                self.scan_column(cx - rad + n - 1, cz, rad, 2 * rad + 1, keep),
                p,
            );
            if keep(p) && exists|i: int, j: int|
                0 <= i < n && 0 <= j < 2 * rad + 1 && #[trigger] self.region_at(cx - rad + i, cz - rad + j).contains(p) {
                let (i, j) = choose|i: int, j: int|
                    0 <= i < n && 0 <= j < 2 * rad + 1 && #[trigger] self.region_at(cx - rad + i, cz - rad + j).contains(p);
                if i < n - 1 {
                    assert(exists|i: int, j: int|
                        0 <= i < n - 1 && 0 <= j < 2 * rad + 1 && #[trigger] self.region_at(cx - rad + i, cz - rad + j).contains(p));
                } else {
                    assert(exists|j: int|
                        0 <= j < 2 * rad + 1 && #[trigger] self.region_at(cx - rad + n - 1, cz - rad + j).contains(p));
                }
            }
            if keep(p) && exists|i: int, j: int|
                0 <= i < n - 1 && 0 <= j < 2 * rad + 1 && #[trigger] self.region_at(cx - rad + i, cz - rad + j).contains(p) {
                let (i, j) = choose|i: int, j: int|
                    0 <= i < n - 1 && 0 <= j < 2 * rad + 1 && #[trigger] self.region_at(cx - rad + i, cz - rad + j).contains(p);
                assert(0 <= i < n && 0 <= j < 2 * rad + 1 && self.region_at(cx - rad + i, cz - rad + j).contains(p));
            }
            if keep(p) && exists|j: int|
                0 <= j < 2 * rad + 1 && #[trigger] self.region_at(cx - rad + n - 1, cz - rad + j).contains(p) {
                let j = choose|j: int|
                    0 <= j < 2 * rad + 1 && #[trigger] self.region_at(cx - rad + n - 1, cz - rad + j).contains(p);
                assert(0 <= n - 1 < n && 0 <= j < 2 * rad + 1 && self.region_at(cx - rad + (n - 1), cz - rad + j).contains(p));
            }
        }
    }
}

/// What a region scan keeps: everything, or the positions within `d` chunks of `center`.
pub open spec fn keep_for(center: ChunkPosition, limit: Option<i32>) -> spec_fn(ChunkPosition) -> bool {
    match limit {
        Some(d) => keep_within(center, d as int),
        None => keep_all(),
    }
}

impl ChunkManager {
    /// Every position listed in region `(rx, rz)` has coordinate differences
    /// from `center` that fit in an `i32`.
    pub open spec fn entries_near(&self, center: ChunkPosition, rx: int, rz: int) -> bool {
        forall|t: int|
            0 <= t < self.region_at(rx, rz).len() ==> diff_in_range(
                #[trigger] self.region_at(rx, rz)[t],
                center,
            )
    }

    /// Every region within `rad` of region `(cx, cz)` lists only positions
    /// whose differences from `center` fit in an `i32`.
    pub open spec fn scan_in_range(&self, center: ChunkPosition, cx: int, cz: int, rad: int) -> bool {
        forall|rx: int, rz: int|
            cx - rad <= rx <= cx + rad && cz - rad <= rz <= cz + rad ==> #[trigger] self.entries_near(
                center,
                rx,
                rz,
            )
    }

    /// In a well-formed grid whose loaded chunks are all near `center`, every
    /// region lists only positions near `center`.
    pub proof fn lemma_entries_near(&self, center: ChunkPosition, rx: int, rz: int)
        requires
            self.grid_wf(),
            self.loaded_in_range(center),
        ensures
            self.entries_near(center, rx, rz),
    {
        let k = grid_key(rx as i32, rz as i32);
        assert forall|t: int| 0 <= t < self.region_at(rx, rz).len() implies diff_in_range(
            #[trigger] self.region_at(rx, rz)[t],
            center,
        ) by {
            assert(self.spatial_grid@.contains_key(k));
            assert(self.is_loaded(self.spatial_grid@[k]@[t]));
        }
    }
}

impl ChunkManager {
    /// Whether `p` passes `keep_for(center, limit)`.
    fn keeps(&self, p: &ChunkPosition, center: &ChunkPosition, limit: Option<i32>) -> (r: bool)
        requires
            limit is Some ==> diff_in_range(*p, *center),
        ensures
            r == keep_for(*center, limit)(*p),
    {
        match limit {
            Some(d) => {
                let dx = abs_diff(p.x, center.x);
                let dz = abs_diff(p.z, center.z);
                dx <= d && dz <= d
            },
            None => true,
        }
    }

    /// Appends the kept entries of grid region `(rx, rz)` to `out`.
    fn collect_region(
        &self,
        rx: i32,
        rz: i32,
        center: &ChunkPosition,
        limit: Option<i32>,
        out: &mut Vec<ChunkPosition>,
    )
        requires
            limit is Some ==> self.entries_near(*center, rx as int, rz as int),
        ensures
            final(out)@ == old(out)@ + self.region_at(rx as int, rz as int).filter(keep_for(*center, limit)),
    {
        let ghost keep = keep_for(*center, limit);
        let key = grid_key_of(rx, rz);
        match self.spatial_grid.get(&key) {
            Some(chunks) => {
                let ghost base = out@;
                let mut t: usize = 0;
                while t < chunks.len()
                    invariant
                        t <= chunks@.len(),
                        self.spatial_grid@.contains_key(key),
                        chunks@ == self.spatial_grid@[key]@,
                        keep == keep_for(*center, limit),
                        key == grid_key(rx, rz),
                        limit is Some ==> self.entries_near(*center, rx as int, rz as int),
                        out@ == base + chunks@.take(t as int).filter(keep),
                    decreases chunks.len() - t,
                {
                    let e = chunks[t];
                    proof {
                        if limit is Some {
                            assert(self.region_at(rx as int, rz as int)[t as int] == e);
                        }
                        reveal(Seq::filter);
                        assert(chunks@.take(t + 1).drop_last() =~= chunks@.take(t as int));
                        assert(chunks@.take(t + 1).last() == e);
                    }
                    if self.keeps(&e, center, limit) {
                        out.push(e);
                        proof {
                            assert(out@ =~= base + chunks@.take(t + 1).filter(keep));
                        }
                    }
                    t = t + 1;
                }
                proof {
                    assert(chunks@.take(chunks@.len() as int) =~= chunks@);
                }
            },
            None => {
                proof {
                    reveal(Seq::filter);
                    assert(out@ =~= out@ + Seq::<ChunkPosition>::empty().filter(keep));
                }
            },
        }
    }

    /// Appends the kept entries of the regions `(cx + dx, cz + dz)` for `dx`,
    /// then `dz`, running from `-rad` to `rad`.
    fn collect_regions(
        &self,
        cx: i32,
        cz: i32,
        rad: i32,
        center: &ChunkPosition,
        limit: Option<i32>,
    ) -> (r: Vec<ChunkPosition>)
        requires
            -i32::MAX <= rad < i32::MAX,
            rad >= 0 ==> i32::MIN <= cx - rad && cx + rad <= i32::MAX && i32::MIN <= cz - rad && cz
                + rad <= i32::MAX,
            limit is Some ==> self.scan_in_range(*center, cx as int, cz as int, rad as int),
        ensures
            r@ == self.scan_regions(cx as int, cz as int, rad as int, 2 * rad + 1, keep_for(*center, limit)),
    {
        let ghost keep = keep_for(*center, limit);
        let mut out: Vec<ChunkPosition> = Vec::new();
        let mut dx: i32 = -rad;
        while dx <= rad
            invariant
                -i32::MAX <= rad < i32::MAX,
                rad >= 0 ==> i32::MIN <= cx - rad && cx + rad <= i32::MAX && i32::MIN <= cz - rad && cz
                    + rad <= i32::MAX,
                limit is Some ==> self.scan_in_range(*center, cx as int, cz as int, rad as int),
                keep == keep_for(*center, limit),
                -rad <= dx <= rad + 1 || rad < 0,
                rad < 0 ==> dx == -rad,
                out@ == self.scan_regions(cx as int, cz as int, rad as int, dx + rad, keep),
            decreases rad + 1 - dx,
        {
            let ghost row_base = out@;
            let mut dz: i32 = -rad;
            while dz <= rad
                invariant
                    -i32::MAX <= rad < i32::MAX,
                    0 <= rad,
                    i32::MIN <= cx - rad && cx + rad <= i32::MAX && i32::MIN <= cz - rad && cz + rad
                        <= i32::MAX,
                    -rad <= dx <= rad,
                    limit is Some ==> self.scan_in_range(*center, cx as int, cz as int, rad as int),
                    keep == keep_for(*center, limit),
                    -rad <= dz <= rad + 1,
                    row_base == self.scan_regions(cx as int, cz as int, rad as int, dx + rad, keep),
                    out@ == row_base + self.scan_column(cx + dx, cz as int, rad as int, dz + rad, keep),
                decreases rad + 1 - dz,
            {
                let ghost before = out@;
                proof {
                    if limit is Some {
                        assert(self.entries_near(*center, (cx + dx) as int, (cz + dz) as int));
                    }
                }
                self.collect_region(cx + dx, cz + dz, center, limit, &mut out);
                proof {
                    let col = self.scan_column(cx + dx, cz as int, rad as int, dz + rad, keep);
                    let add = self.region_at(cx + dx, cz + dz).filter(keep);
                    assert(self.scan_column(cx + dx, cz as int, rad as int, dz + rad + 1, keep) == col
                        + add);
                    assert(out@ =~= row_base + (col + add));
                }
                dz = dz + 1;
            }
            proof {
                assert(self.scan_regions(cx as int, cz as int, rad as int, dx + rad + 1, keep)
                    == row_base + self.scan_column(cx + dx, cz as int, rad as int, 2 * rad + 1, keep));
            }
            dx = dx + 1;
        }
        out
    }

    /// Loaded chunks listed in the grid region of `chunk_pos` and the eight
    /// regions around it, region by region (`dx`, then `dz`, from -1 to 1).
    pub fn get_chunks_in_spatial_region(&self, chunk_pos: &ChunkPosition) -> (r: Vec<ChunkPosition>)
        requires
            valid_region_size(self.grid_region_size),
            i32::MIN < region_coord(chunk_pos.x, self.grid_region_size) < i32::MAX,
            i32::MIN < region_coord(chunk_pos.z, self.grid_region_size) < i32::MAX,
        ensures
            r@ == self.scan_regions(
                region_coord(chunk_pos.x, self.grid_region_size),
                region_coord(chunk_pos.z, self.grid_region_size),
                1,
                3,
                keep_all(),
            ),
    {
        let (cx, cz) = self.chunk_pos_to_grid_region(chunk_pos);
        self.collect_regions(cx, cz, 1, chunk_pos, None)
    }

    /// Loaded chunks within `max_distance` chunks of `center_chunk_pos` along
    /// both axes, found by scanning the grid regions up to
    /// `ceil(max_distance / grid_region_size) + 1` regions away.
    pub fn get_chunks_within_distance_spatial(
        &self,
        center_chunk_pos: &ChunkPosition,
        max_distance: i32,
    ) -> (r: Vec<ChunkPosition>)
        requires
            valid_region_size(self.grid_region_size),
            self.distance_query_fits(*center_chunk_pos, max_distance as int),
            self.scan_in_range(
                *center_chunk_pos,
                region_coord(center_chunk_pos.x, self.grid_region_size),
                region_coord(center_chunk_pos.z, self.grid_region_size),
                scan_radius(max_distance as int, self.grid_region_size as int),
            ),
        ensures
            r@ == self.scan_regions(
                region_coord(center_chunk_pos.x, self.grid_region_size),
                region_coord(center_chunk_pos.z, self.grid_region_size),
                scan_radius(max_distance as int, self.grid_region_size as int),
                2 * scan_radius(max_distance as int, self.grid_region_size as int) + 1,
                keep_within(*center_chunk_pos, max_distance as int),
            ),
    {
        let (cx, cz) = self.chunk_pos_to_grid_region(center_chunk_pos);
        let region_radius = ceil_quot_of(max_distance, self.grid_region_size) + 1;
        self.collect_regions(cx, cz, region_radius, center_chunk_pos, Some(max_distance))
    }
}

/// Coordinates at most `d` apart lie in regions at most `ceil(d / g)` apart.
pub proof fn lemma_region_coord_close(a: i32, b: i32, d: int, g: i32)
    requires
        g > 0,
        abs_int(a - b) <= d,
    ensures
        abs_int(region_coord(a, g) - region_coord(b, g)) <= ceil_quot(d, g as int),
{
    let gi = g as int;
    vstd::arithmetic::div_mod::lemma_fundamental_div_mod(a as int, gi);
    vstd::arithmetic::div_mod::lemma_fundamental_div_mod(b as int, gi);
    vstd::arithmetic::div_mod::lemma_fundamental_div_mod(d, gi);
    let qa = a as int / gi;
    let qb = b as int / gi;
    let qd = d / gi;
    let ra = a as int % gi;
    let rb = b as int % gi;
    let rd = d % gi;
    let c = ceil_quot(d, gi);
    assert(d <= c * gi) by (nonlinear_arith)
        requires
            d == gi * qd + rd,
            0 <= rd < gi,
            c == if qd * gi == d {
                qd
            } else {
                qd + 1
            },
    ;
    assert(qa - qb <= c && qb - qa <= c) by (nonlinear_arith)
        requires
            a == gi * qa + ra,
            b == gi * qb + rb,
            0 <= ra < gi,
            0 <= rb < gi,
            a - b <= d,
            b - a <= d,
            d <= c * gi,
            gi > 0,
    ;
}

/// The spatial-region lookup around `center` over a well-formed grid finds
/// exactly the loaded chunks whose region lies at most one region away from
/// the centre's region along both axes.
pub proof fn lemma_spatial_region_finds_exactly(m: &ChunkManager, center: ChunkPosition, p: ChunkPosition)
    requires
        m.grid_wf(),
        i32::MIN < region_coord(center.x, m.grid_region_size) < i32::MAX,
        i32::MIN < region_coord(center.z, m.grid_region_size) < i32::MAX,
    ensures
        ({
            let g = m.grid_region_size;
            m.scan_regions(region_coord(center.x, g), region_coord(center.z, g), 1, 3, keep_all()).contains(p)
                == (m.is_loaded(p) && abs_int(region_coord(p.x, g) - region_coord(center.x, g)) <= 1
                && abs_int(region_coord(p.z, g) - region_coord(center.z, g)) <= 1)
        }),
{
    let g = m.grid_region_size;
    let cx = region_coord(center.x, g);
    let cz = region_coord(center.z, g);
    m.lemma_scan_regions_contains(cx, cz, 1, 3, keep_all(), p);
    lemma_region_coord_in_range(p.x, g);
    lemma_region_coord_in_range(p.z, g);
    let px = region_coord(p.x, g);
    let pz = region_coord(p.z, g);
    if exists|i: int, j: int|
        0 <= i < 3 && 0 <= j < 3 && #[trigger] m.region_at(cx - 1 + i, cz - 1 + j).contains(p) {
        let (i, j) = choose|i: int, j: int|
            0 <= i < 3 && 0 <= j < 3 && #[trigger] m.region_at(cx - 1 + i, cz - 1 + j).contains(p);
        let k = grid_key((cx - 1 + i) as i32, (cz - 1 + j) as i32);
        let t = choose|t: int| 0 <= t < m.region_seq(k).len() && m.region_seq(k)[t] == p;
        assert(m.spatial_grid@.contains_key(k));
        assert(m.is_loaded(m.spatial_grid@[k]@[t]));
        assert(region_key(p, g) == k);
        lemma_region_coord_in_range(center.x, g);
        lemma_region_coord_in_range(center.z, g);
        lemma_grid_key_injective(px as i32, pz as i32, (cx - 1 + i) as i32, (cz - 1 + j) as i32);
    }
    if m.is_loaded(p) && abs_int(px - cx) <= 1 && abs_int(pz - cz) <= 1 {
        assert(m.region_seq(region_key(p, g)).contains(p));
        assert(m.region_at(cx - 1 + (px - cx + 1), cz - 1 + (pz - cz + 1)).contains(p));
    }
}

/// A distance query over a well-formed spatial grid with positive region
/// size finds exactly the loaded chunks within the distance.
pub proof fn lemma_distance_query_finds_exactly(
    m: &ChunkManager,
    center: ChunkPosition,
    max_distance: i32,
    p: ChunkPosition,
)
    requires
        m.grid_wf(),
        m.grid_region_size > 0,
    ensures
        ({
            let g = m.grid_region_size;
            let rad = scan_radius(max_distance as int, g as int);
            m.scan_regions(
                region_coord(center.x, g),
                region_coord(center.z, g),
                rad,
                2 * rad + 1,
                keep_within(center, max_distance as int),
            ).contains(p) == (m.is_loaded(p) && within_distance(p, center, max_distance as int))
        }),
{
    let g = m.grid_region_size;
    let rad = scan_radius(max_distance as int, g as int);
    let cx = region_coord(center.x, g);
    let cz = region_coord(center.z, g);
    let keep = keep_within(center, max_distance as int);
    m.lemma_scan_regions_contains(cx, cz, rad, 2 * rad + 1, keep, p);
    if keep(p) && exists|i: int, j: int|
        0 <= i < 2 * rad + 1 && 0 <= j < 2 * rad + 1 && #[trigger] m.region_at(cx - rad + i, cz - rad + j).contains(p) {
        let (i, j) = choose|i: int, j: int|
            0 <= i < 2 * rad + 1 && 0 <= j < 2 * rad + 1 && #[trigger] m.region_at(cx - rad + i, cz - rad + j).contains(p);
        let k = grid_key((cx - rad + i) as i32, (cz - rad + j) as i32);
        let t = choose|t: int| 0 <= t < m.region_seq(k).len() && m.region_seq(k)[t] == p;
        assert(m.spatial_grid@.contains_key(k));
        assert(m.is_loaded(m.spatial_grid@[k]@[t]));
    }
    if m.is_loaded(p) && within_distance(p, center, max_distance as int) {
        lemma_region_coord_close(p.x, center.x, max_distance as int, g);
        lemma_region_coord_close(p.z, center.z, max_distance as int, g);
        lemma_region_coord_in_range(p.x, g);
        lemma_region_coord_in_range(p.z, g);
        let px = region_coord(p.x, g);
        let pz = region_coord(p.z, g);
        assert(m.region_seq(region_key(p, g)).contains(p));
        assert(m.region_at(cx - rad + (px - cx + rad), cz - rad + (pz - cz + rad)).contains(p));
    }
}

/// Offset `(dx, dz)` of the neighbour named by `direction`: north `(0, -1)`,
/// south `(0, 1)`, east `(1, 0)`, west `(-1, 0)`; none for other names.
pub open spec fn direction_offset(direction: Seq<char>) -> Option<(int, int)> {
    if direction == "north"@ {
        Some((0, -1))
    } else if direction == "south"@ {
        Some((0, 1))
    } else if direction == "east"@ {
        Some((1, 0))
    } else if direction == "west"@ {
        Some((-1, 0))
    } else {
        None
    }
}

/// Whether string slice `a` holds the same characters as `b`.
fn same_text(a: &str, b: &str) -> (r: bool)
    ensures
        r == (a@ == b@),
{
    a.to_owned() == b.to_owned()
}

/// Local coordinate, in the neighbouring chunk at chunk coordinate `n`, of
/// the cell next to local coordinate `local` of chunk coordinate `c`: the
/// first cell going up, the last going down, the same cell when equal.
pub open spec fn neighbor_local(n: i32, c: i32, local: usize) -> usize {
    if n > c {
        0
    } else if n < c {
        (CHUNK_SIZE - 1) as usize
    } else {
        local
    }
}

impl ChunkManager {
    /// The loaded chunks among `s`, in order, each with its entity.
    pub open spec fn loaded_among(&self, s: Seq<ChunkPosition>) -> Seq<(ChunkPosition, Entity)> {
        s.filter_map(
            |n: ChunkPosition|
                if self.is_loaded(n) {
                    Some((n, self.entity_of(n)))
                } else {
                    None
                },
        )
    }

    /// The loaded chunks among `s`, in order, each with its entity.
    fn collect_loaded(&self, s: &[ChunkPosition]) -> (r: Vec<(ChunkPosition, Entity)>)
        ensures
            r@ == self.loaded_among(s@),
    {
        let mut out: Vec<(ChunkPosition, Entity)> = Vec::new();
        let mut i: usize = 0;
        while i < s.len()
            invariant
                i <= s@.len(),
                out@ == self.loaded_among(s@.take(i as int)),
            decreases s.len() - i,
        {
            let n = s[i];
            proof {
                assert(s@.take(i + 1).drop_last() =~= s@.take(i as int));
                assert(s@.take(i + 1).last() == n);
            }
            let key = grid_key_of(n.x, n.z);
            match self.loaded_chunks.get(&key) {
                Some(e) => {
                    out.push((n, *e));
                    proof {
                        assert(out@ =~= self.loaded_among(s@.take(i + 1)));
                    }
                },
                None => {},
            }
            i = i + 1;
        }
        proof {
            assert(s@.take(s@.len() as int) =~= s@);
        }
        out
    }

    /// The loaded edge neighbours of `chunk_pos` (north, south, east, west)
    /// with their entities.
    pub fn get_neighboring_chunks(&self, chunk_pos: &ChunkPosition) -> (r: Vec<(ChunkPosition, Entity)>)
        requires
            i32::MIN < chunk_pos.x < i32::MAX,
            i32::MIN < chunk_pos.z < i32::MAX,
        ensures
            r@ == self.loaded_among(
                seq![
                    ChunkPosition { x: chunk_pos.x, z: (chunk_pos.z - 1) as i32 },
                    ChunkPosition { x: chunk_pos.x, z: (chunk_pos.z + 1) as i32 },
                    ChunkPosition { x: (chunk_pos.x + 1) as i32, z: chunk_pos.z },
                    ChunkPosition { x: (chunk_pos.x - 1) as i32, z: chunk_pos.z },
                ],
            ),
    {
        let n = chunk_pos.neighbors();
        self.collect_loaded(&n)
    }

    /// The loaded chunks among the eight around `chunk_pos` (edge neighbours,
    /// then north-east, south-east, north-west, south-west) with their entities.
    pub fn get_all_neighboring_chunks(&self, chunk_pos: &ChunkPosition) -> (r: Vec<
        (ChunkPosition, Entity),
    >)
        requires
            i32::MIN < chunk_pos.x < i32::MAX,
            i32::MIN < chunk_pos.z < i32::MAX,
        ensures
            r@ == self.loaded_among(
                seq![
                    ChunkPosition { x: chunk_pos.x, z: (chunk_pos.z - 1) as i32 },
                    ChunkPosition { x: chunk_pos.x, z: (chunk_pos.z + 1) as i32 },
                    ChunkPosition { x: (chunk_pos.x + 1) as i32, z: chunk_pos.z },
                    ChunkPosition { x: (chunk_pos.x - 1) as i32, z: chunk_pos.z },
                    ChunkPosition { x: (chunk_pos.x + 1) as i32, z: (chunk_pos.z - 1) as i32 },
                    ChunkPosition { x: (chunk_pos.x + 1) as i32, z: (chunk_pos.z + 1) as i32 },
                    ChunkPosition { x: (chunk_pos.x - 1) as i32, z: (chunk_pos.z - 1) as i32 },
                    ChunkPosition { x: (chunk_pos.x - 1) as i32, z: (chunk_pos.z + 1) as i32 },
                ],
            ),
    {
        let n = chunk_pos.all_neighbors();
        self.collect_loaded(&n)
    }

    /// Whether the neighbour of `chunk_pos` named by `direction` ("north",
    /// "south", "east" or "west") is loaded; false for any other name.
    pub fn has_neighbor(&self, chunk_pos: &ChunkPosition, direction: &str) -> (r: bool)
        requires
            direction_offset(direction@) matches Some((dx, dz)) ==> i32::MIN <= chunk_pos.x + dx
                <= i32::MAX && i32::MIN <= chunk_pos.z + dz <= i32::MAX,
        ensures
            r == match direction_offset(direction@) {
                Some((dx, dz)) => self.is_loaded(
                    ChunkPosition { x: (chunk_pos.x + dx) as i32, z: (chunk_pos.z + dz) as i32 },
                ),
                None => false,
            },
    {
        proof {
            reveal_strlit("north");
            reveal_strlit("south");
            reveal_strlit("east");
            reveal_strlit("west");
        }
        let neighbor_pos = if same_text(direction, "north") {
            ChunkPosition::new(chunk_pos.x, chunk_pos.z - 1)
        } else if same_text(direction, "south") {
            ChunkPosition::new(chunk_pos.x, chunk_pos.z + 1)
        } else if same_text(direction, "east") {
            ChunkPosition::new(chunk_pos.x + 1, chunk_pos.z)
        } else if same_text(direction, "west") {
            ChunkPosition::new(chunk_pos.x - 1, chunk_pos.z)
        } else {
            return false;
        };
        let key = grid_key_of(neighbor_pos.x, neighbor_pos.z);
        self.loaded_chunks.contains_key(&key)
    }

    /// The block next to local cell `(local_x, y, local_z)` of `chunk_pos`,
    /// read from the data of the loaded neighbour `neighbor_pos`: `None` when
    /// the neighbour is not loaded or its data could not be had.
    pub fn get_neighbor_block(
        &self,
        neighbor_chunk: Option<&ChunkData>,
        chunk_pos: &ChunkPosition,
        neighbor_pos: &ChunkPosition,
        local_x: usize,
        y: usize,
        local_z: usize,
    ) -> (r: Option<BlockType>)
        requires
            neighbor_chunk matches Some(d) ==> d.wf(),
        ensures
            r == if self.is_loaded(*neighbor_pos) {
                match neighbor_chunk {
                    Some(d) => d.block_at(
                        neighbor_local(neighbor_pos.x, chunk_pos.x, local_x) as int,
                        y as int,
                        neighbor_local(neighbor_pos.z, chunk_pos.z, local_z) as int,
                    ),
                    None => None,
                }
            } else {
                None
            },
    {
        let key = grid_key_of(neighbor_pos.x, neighbor_pos.z);
        if !self.loaded_chunks.contains_key(&key) {
            return None;
        }
        match neighbor_chunk {
            Some(d) => {
                let nx = if neighbor_pos.x > chunk_pos.x {
                    0
                } else if neighbor_pos.x < chunk_pos.x {
                    CHUNK_SIZE - 1
                } else {
                    local_x
                };
                let nz = if neighbor_pos.z > chunk_pos.z {
                    0
                } else if neighbor_pos.z < chunk_pos.z {
                    CHUNK_SIZE - 1
                } else {
                    local_z
                };
                proof {
                    if local_in_range(nx as int, y as int, nz as int) {
                        lemma_local_index_bound(nx as int, y as int, nz as int);
                    }
                }
                d.get_block(nx, y, nz)
            },
            None => None,
        }
    }
}

impl Default for ChunkManager {
    /// A manager with nothing loaded or cached and every size zero.
    fn default() -> (r: ChunkManager)
        ensures
            r.loaded_chunks@ == Map::<u64, Entity>::empty(),
            r.spatial_grid@ == Map::<u64, Vec<ChunkPosition>>::empty(),
            r.chunk_cache@ == Map::<u64, CachedChunkData>::empty(),
            r.cache_access_order@ == Seq::<ChunkPosition>::empty(),
            r.render_distance == 0,
            r.grid_region_size == 0,
            r.max_cache_size == 0,
    {
        ChunkManager {
            loaded_chunks: HashMap::new(),
            render_distance: 0,
            spatial_grid: HashMap::new(),
            grid_region_size: 0,
            chunk_cache: HashMap::new(),
            cache_access_order: VecDeque::new(),
            max_cache_size: 0,
        }
    }
}

impl ChunkManager {
    /// What a distance query from `center` up to `max_distance` returns.
    pub open spec fn distance_query(&self, center: ChunkPosition, max_distance: int) -> Seq<ChunkPosition> {
        let g = self.grid_region_size;
        let rad = scan_radius(max_distance, g as int);
        self.scan_regions(
            region_coord(center.x, g),
            region_coord(center.z, g),
            rad,
            2 * rad + 1,
            keep_within(center, max_distance),
        )
    }

    /// Whether a distance query from `center` up to `max_distance` stays
    /// within `i32` region coordinates.
    pub open spec fn distance_query_fits(&self, center: ChunkPosition, max_distance: int) -> bool {
        let g = self.grid_region_size;
        let rad = scan_radius(max_distance, g as int);
        let cx = region_coord(center.x, g);
        let cz = region_coord(center.z, g);
        &&& -0x100_0000 < max_distance < 0x100_0000
        &&& rad >= 0 ==> i32::MIN <= cx - rad && cx + rad <= i32::MAX && i32::MIN <= cz - rad && cz
            + rad <= i32::MAX
    }
}

/// Everything a distance query over a well-formed grid returns is a loaded
/// chunk within the distance.
pub proof fn lemma_distance_query_sound(
    m: &ChunkManager,
    center: ChunkPosition,
    max_distance: int,
    p: ChunkPosition,
)
    requires
        m.grid_wf(),
        m.distance_query(center, max_distance).contains(p),
    ensures
        m.is_loaded(p),
        within_distance(p, center, max_distance),
{
    let g = m.grid_region_size;
    let rad = scan_radius(max_distance, g as int);
    let cx = region_coord(center.x, g);
    let cz = region_coord(center.z, g);
    let keep = keep_within(center, max_distance);
    m.lemma_scan_regions_contains(cx, cz, rad, 2 * rad + 1, keep, p);
    let (i, j) = choose|i: int, j: int|
        0 <= i < 2 * rad + 1 && 0 <= j < 2 * rad + 1 && #[trigger] m.region_at(cx - rad + i, cz - rad + j).contains(p);
    let k = grid_key((cx - rad + i) as i32, (cz - rad + j) as i32);
    let t = choose|t: int| 0 <= t < m.region_seq(k).len() && m.region_seq(k)[t] == p;
    assert(m.spatial_grid@.contains_key(k));
    assert(m.is_loaded(m.spatial_grid@[k]@[t]));
}

/// The chunks an unloading pass over `s` removes, in order: each position
/// beyond distance `rd` of `player` that is still loaded when reached, with
/// its entity, until `left` chunks are taken.
pub open spec fn unload_pick(
    s: Seq<ChunkPosition>,
    loaded: Map<u64, Entity>,
    player: ChunkPosition,
    rd: int,
    left: nat,
) -> Seq<(ChunkPosition, Entity)>
    decreases s.len(),
{
    if s.len() == 0 || left == 0 {
        Seq::empty()
    } else if !within_distance(s[0], player, rd) && loaded.contains_key(pos_key(s[0])) {
        seq![(s[0], loaded[pos_key(s[0])])] + unload_pick(
            s.drop_first(),
            loaded.remove(pos_key(s[0])),
            player,
            rd,
            (left - 1) as nat,
        )
    } else {
        unload_pick(s.drop_first(), loaded, player, rd, left)
    }
}

/// An unloading pass takes at most `left` chunks, each loaded when reached
/// (so loaded at the start, with its entity then) and beyond distance `rd`.
pub proof fn lemma_unload_pick_sound(
    s: Seq<ChunkPosition>,
    loaded: Map<u64, Entity>,
    player: ChunkPosition,
    rd: int,
    left: nat,
)
    ensures
        unload_pick(s, loaded, player, rd, left).len() <= left,
        forall|i: int|
            0 <= i < unload_pick(s, loaded, player, rd, left).len() ==> {
                let e = #[trigger] unload_pick(s, loaded, player, rd, left)[i];
                &&& loaded.contains_key(pos_key(e.0))
                &&& e.1 == loaded[pos_key(e.0)]
                &&& !within_distance(e.0, player, rd)
            },
    decreases s.len(),
{
    if s.len() == 0 || left == 0 {
    } else if !within_distance(s[0], player, rd) && loaded.contains_key(pos_key(s[0])) {
        let k = pos_key(s[0]);
        let rest = unload_pick(s.drop_first(), loaded.remove(k), player, rd, (left - 1) as nat);
        lemma_unload_pick_sound(s.drop_first(), loaded.remove(k), player, rd, (left - 1) as nat);
        let all = unload_pick(s, loaded, player, rd, left);
        assert(all == seq![(s[0], loaded[k])] + rest);
        assert forall|i: int| 0 <= i < all.len() implies {
            let e = #[trigger] all[i];
            &&& loaded.contains_key(pos_key(e.0))
            &&& e.1 == loaded[pos_key(e.0)]
            &&& !within_distance(e.0, player, rd)
        } by {
            if i > 0 {
                assert(all[i] == rest[i - 1]);
            }
        }
    } else {
        lemma_unload_pick_sound(s.drop_first(), loaded, player, rd, left);
    }
}

/// An unloading pass misses nothing while it has room: when it takes fewer
/// than `left` chunks, every position of `s` that is loaded at the start and
/// lies more than `rd` chunks from `player` along either axis is taken.
pub proof fn lemma_unload_pick_complete(
    s: Seq<ChunkPosition>,
    loaded: Map<u64, Entity>,
    player: ChunkPosition,
    rd: int,
    left: nat,
)
    ensures
        unload_pick(s, loaded, player, rd, left).len() < left ==> forall|j: int|
            0 <= j < s.len() && (abs_int(s[j].x - player.x) > rd || abs_int(s[j].z - player.z) > rd)
                && loaded.contains_key(pos_key(#[trigger] s[j])) ==> exists|i: int|
                0 <= i < unload_pick(s, loaded, player, rd, left).len() && unload_pick(
                    s,
                    loaded,
                    player,
                    rd,
                    left,
                )[i].0 == s[j],
    decreases s.len(),
{
    let all = unload_pick(s, loaded, player, rd, left);
    if s.len() == 0 || left == 0 {
    } else if !within_distance(s[0], player, rd) && loaded.contains_key(pos_key(s[0])) {
        let k = pos_key(s[0]);
        let rest = unload_pick(s.drop_first(), loaded.remove(k), player, rd, (left - 1) as nat);
        lemma_unload_pick_complete(s.drop_first(), loaded.remove(k), player, rd, (left - 1) as nat);
        assert(all == seq![(s[0], loaded[k])] + rest);
        if all.len() < left {
            assert forall|j: int|
                0 <= j < s.len() && (abs_int(s[j].x - player.x) > rd || abs_int(s[j].z - player.z)
                    > rd) && loaded.contains_key(pos_key(#[trigger] s[j])) implies exists|i: int|
                0 <= i < all.len() && all[i].0 == s[j] by {
                if s[j] == s[0] {
                    assert(all[0].0 == s[j]);
                } else {
                    lemma_pos_key_injective(s[j], s[0]);
                    assert(s.drop_first()[j - 1] == s[j]);
                    assert(loaded.remove(k).contains_key(pos_key(s.drop_first()[j - 1])));
                    let i = choose|i: int| 0 <= i < rest.len() && rest[i].0 == s.drop_first()[j - 1];
                    assert(all[i + 1].0 == s[j]);
                }
            }
        }
    } else {
        let rest = unload_pick(s.drop_first(), loaded, player, rd, left);
        lemma_unload_pick_complete(s.drop_first(), loaded, player, rd, left);
        assert(all == rest);
        if all.len() < left {
            assert forall|j: int|
                0 <= j < s.len() && (abs_int(s[j].x - player.x) > rd || abs_int(s[j].z - player.z)
                    > rd) && loaded.contains_key(pos_key(#[trigger] s[j])) implies exists|i: int|
                0 <= i < all.len() && all[i].0 == s[j] by {
                if j > 0 {
                    assert(s.drop_first()[j - 1] == s[j]);
                    let i = choose|i: int| 0 <= i < rest.len() && rest[i].0 == s.drop_first()[j - 1];
                    assert(all[i].0 == s[j]);
                }
            }
        }
    }
}

/// The keys of the positions of `picked`.
pub open spec fn picked_keys(picked: Seq<(ChunkPosition, Entity)>) -> Set<u64> {
    picked.map_values(|e: (ChunkPosition, Entity)| pos_key(e.0)).to_set()
}

/// Most chunks one unloading pass removes.
pub const MAX_CHUNKS_UNLOADED_PER_FRAME: usize = 4;

impl ChunkManager {
    /// One unloading pass: goes through the loaded chunks within
    /// `render_distance + 1` of the player's chunk, as the spatial grid lists
    /// them, and removes each that lies beyond the render distance, up to
    /// `MAX_CHUNKS_UNLOADED_PER_FRAME` chunks. Returns the removed chunks with
    /// their entities, in removal order, for the caller to cache and despawn.
    pub fn unload_distant_chunks(&mut self, player_chunk_pos: &ChunkPosition) -> (r: Vec<
        (ChunkPosition, Entity),
    >)
        requires
            old(self).grid_wf(),
            old(self).loaded_in_range(*player_chunk_pos),
            old(self).distance_query_fits(*player_chunk_pos, old(self).render_distance + 1),
        ensures
            r@ == unload_pick(
                old(self).distance_query(*player_chunk_pos, old(self).render_distance + 1),
                old(self).loaded_chunks@,
                *player_chunk_pos,
                old(self).render_distance as int,
                MAX_CHUNKS_UNLOADED_PER_FRAME as nat,
            ),
            final(self).loaded_chunks@ == old(self).loaded_chunks@.remove_keys(picked_keys(r@)),
            r@.len() <= MAX_CHUNKS_UNLOADED_PER_FRAME,
            forall|i: int|
                0 <= i < r@.len() ==> {
                    &&& old(self).is_loaded(#[trigger] r@[i].0)
                    &&& r@[i].1 == old(self).entity_of(r@[i].0)
                    &&& !within_distance(r@[i].0, *player_chunk_pos, old(self).render_distance as int)
                },
            r@.len() < MAX_CHUNKS_UNLOADED_PER_FRAME ==> forall|p: ChunkPosition|
                old(self).distance_query(*player_chunk_pos, old(self).render_distance + 1).contains(p)
                    && (abs_int(p.x - player_chunk_pos.x) > old(self).render_distance || abs_int(
                    p.z - player_chunk_pos.z,
                ) > old(self).render_distance) ==> !#[trigger] final(self).is_loaded(p),
            r@.len() < MAX_CHUNKS_UNLOADED_PER_FRAME && old(self).grid_region_size > 0 ==> forall|
                p: ChunkPosition,
            |
                old(self).is_loaded(p) && abs_int(p.x - player_chunk_pos.x) <= old(self).render_distance
                    + 1 && abs_int(p.z - player_chunk_pos.z) <= old(self).render_distance + 1 && (abs_int(
                    p.x - player_chunk_pos.x,
                ) > old(self).render_distance || abs_int(p.z - player_chunk_pos.z)
                    > old(self).render_distance) ==> !#[trigger] final(self).is_loaded(p),
            final(self).grid_wf(),
            final(self).render_distance == old(self).render_distance,
            final(self).grid_region_size == old(self).grid_region_size,
            final(self).chunk_cache == old(self).chunk_cache,
            final(self).cache_access_order == old(self).cache_access_order,
            final(self).max_cache_size == old(self).max_cache_size,
    {
        let rd = self.render_distance;
        let ghost rdi = rd as int;
        let ghost loaded0 = self.loaded_chunks@;
        proof {
            assert forall|rx: int, rz: int|
                #![trigger self.entries_near(*player_chunk_pos, rx, rz)]
                true implies self.entries_near(*player_chunk_pos, rx, rz) by {
                self.lemma_entries_near(*player_chunk_pos, rx, rz);
            }
        }
        let list = self.get_chunks_within_distance_spatial(player_chunk_pos, rd + 1);
        let ghost target = unload_pick(list@, loaded0, *player_chunk_pos, rdi, 4);
        let mut out: Vec<(ChunkPosition, Entity)> = Vec::new();
        let mut i: usize = 0;
        proof {
            assert(list@.skip(0) =~= list@);
            assert(picked_keys(out@) =~= Set::<u64>::empty());
            assert(loaded0.remove_keys(Set::<u64>::empty()) =~= loaded0);
            assert forall|j: int| 0 <= j < list@.len() implies old(self).is_loaded(#[trigger] list@[j]) by {
                assert(list@.contains(list@[j]));
                lemma_distance_query_sound(self, *player_chunk_pos, rd + 1, list@[j]);
            }
        }
        while i < list.len() && out.len() < MAX_CHUNKS_UNLOADED_PER_FRAME
            invariant
                i <= list@.len(),
                out@.len() <= 4,
                rd == self.render_distance,
                rdi == rd as int,
                self.grid_wf(),
                self.render_distance == old(self).render_distance,
                self.grid_region_size == old(self).grid_region_size,
                self.chunk_cache == old(self).chunk_cache,
                self.cache_access_order == old(self).cache_access_order,
                self.max_cache_size == old(self).max_cache_size,
                loaded0 == old(self).loaded_chunks@,
                old(self).loaded_in_range(*player_chunk_pos),
                forall|j: int| 0 <= j < list@.len() ==> old(self).is_loaded(#[trigger] list@[j]),
                self.loaded_chunks@ == loaded0.remove_keys(picked_keys(out@)),
                out@ + unload_pick(
                    list@.skip(i as int),
                    self.loaded_chunks@,
                    *player_chunk_pos,
                    rdi,
                    (4 - out@.len()) as nat,
                ) == target,
            decreases list.len() - i,
        {
            let p = list[i];
            proof {
                assert(list@.skip(i as int)[0] == p);
                assert(list@.skip(i as int).drop_first() =~= list@.skip(i + 1));
                assert(old(self).is_loaded(p));
            }
            let ghost before = out@;
            let ghost loaded_before = self.loaded_chunks@;
            let ghost left = (4 - out@.len()) as nat;
            proof {
                assert(left > 0);
                assert(unload_pick(list@.skip(i as int), loaded_before, *player_chunk_pos, rdi, left)
                    == if !within_distance(p, *player_chunk_pos, rdi) && loaded_before.contains_key(
                    pos_key(p),
                ) {
                    seq![(p, loaded_before[pos_key(p)])] + unload_pick(
                        list@.skip(i + 1),
                        loaded_before.remove(pos_key(p)),
                        *player_chunk_pos,
                        rdi,
                        (left - 1) as nat,
                    )
                } else {
                    unload_pick(list@.skip(i + 1), loaded_before, *player_chunk_pos, rdi, left)
                });
            }
            if self.should_unload_chunk(p, *player_chunk_pos) {
                match self.remove_chunk(&p) {
                    Some(e) => {
                        out.push((p, e));
                        proof {
                            assert(out@ =~= before + seq![(p, e)]);
                            assert(picked_keys(out@) =~= picked_keys(before).insert(pos_key(p))) by {
                                assert forall|k: u64| picked_keys(out@).contains(k) == picked_keys(
                                    before,
                                ).insert(pos_key(p)).contains(k) by {
                                    let mo = out@.map_values(|e: (ChunkPosition, Entity)| pos_key(e.0));
                                    let mb = before.map_values(|e: (ChunkPosition, Entity)| pos_key(e.0));
                                    if mo.contains(k) {
                                        let t = choose|t: int| 0 <= t < mo.len() && mo[t] == k;
                                        if t < mb.len() {
                                            assert(mb[t] == k);
                                        }
                                    }
                                    if mb.contains(k) {
                                        let t = choose|t: int| 0 <= t < mb.len() && mb[t] == k;
                                        assert(mo[t] == k);
                                    }
                                    if k == pos_key(p) {
                                        assert(mo[before.len() as int] == k);
                                    }
                                }
                            }
                            assert(self.loaded_chunks@ =~= loaded0.remove_keys(picked_keys(out@)));
                            assert((before + seq![(p, e)]) + unload_pick(
                                list@.skip(i + 1),
                                self.loaded_chunks@,
                                *player_chunk_pos,
                                rdi,
                                (4 - out@.len()) as nat,
                            ) =~= before + (seq![(p, e)] + unload_pick(
                                list@.skip(i + 1),
                                self.loaded_chunks@,
                                *player_chunk_pos,
                                rdi,
                                (4 - out@.len()) as nat,
                            )));
                        }
                    },
                    None => {
                        proof {
                            assert(self.loaded_chunks@ =~= loaded_before);
                        }
                    },
                }
            }
            i = i + 1;
        }
        proof {
            if i == list@.len() {
                assert(list@.skip(i as int) =~= Seq::<ChunkPosition>::empty());
            }
            assert(out@ + Seq::<(ChunkPosition, Entity)>::empty() =~= out@);
            lemma_unload_pick_sound(list@, loaded0, *player_chunk_pos, rdi, 4);
            lemma_unload_pick_complete(list@, loaded0, *player_chunk_pos, rdi, 4);
            if out@.len() < MAX_CHUNKS_UNLOADED_PER_FRAME {
                let dq = old(self).distance_query(*player_chunk_pos, old(self).render_distance + 1);
                assert(dq == list@);
                assert forall|p: ChunkPosition|
                    dq.contains(p) && (abs_int(p.x - player_chunk_pos.x) > rdi || abs_int(
                        p.z - player_chunk_pos.z,
                    ) > rdi) implies !#[trigger] self.is_loaded(p) by {
                    if loaded0.contains_key(pos_key(p)) {
                        let j = choose|j: int| 0 <= j < dq.len() && dq[j] == p;
                        assert(loaded0.contains_key(pos_key(dq[j])));
                        let i = choose|i: int| 0 <= i < out@.len() && out@[i].0 == dq[j];
                        let mo = out@.map_values(|e: (ChunkPosition, Entity)| pos_key(e.0));
                        assert(mo[i] == pos_key(p));
                        assert(picked_keys(out@).contains(pos_key(p)));
                    }
                }
                if old(self).grid_region_size > 0 {
                    assert forall|p: ChunkPosition|
                        old(self).is_loaded(p) && abs_int(p.x - player_chunk_pos.x) <= rdi + 1
                            && abs_int(p.z - player_chunk_pos.z) <= rdi + 1 && (abs_int(
                            p.x - player_chunk_pos.x,
                        ) > rdi || abs_int(p.z - player_chunk_pos.z) > rdi) implies !#[trigger] self.is_loaded(
                        p,
                    ) by {
                        lemma_distance_query_finds_exactly(old(self), *player_chunk_pos, (rd + 1) as i32, p);
                        assert(dq.contains(p));
                    }
                }
            }
        }
        out
    }
}

/// Region offsets of the region scan that looks for chunks to load: the
/// player's region, then the eight around it in `dx`, then `dz` order.
pub open spec fn region_scan_offsets() -> Seq<(i32, i32)> {
    seq![
        (0i32, 0i32),
        (-1i32, -1i32),
        (-1i32, 0i32),
        (-1i32, 1i32),
        (0i32, -1i32),
        (0i32, 1i32),
        (1i32, -1i32),
        (1i32, 0i32),
        (1i32, 1i32),
    ]
}

/// Largest ring distance of the spiral scan: the render distance, at least 1.
pub open spec fn spiral_limit(render_distance: i32) -> int {
    if render_distance < 1 {
        1
    } else {
        render_distance as int
    }
}

/// Whether offset `(dx, dz)` lies on the square ring at distance `d`.
pub open spec fn on_ring(d: int, dx: int, dz: int) -> bool {
    abs_int(dx) == d || abs_int(dz) == d
}

/// Most chunks one loading pass loads.
pub const MAX_CHUNKS_PER_FRAME: usize = 2;

impl ChunkManager {
    /// Whether chunk `p` is to be loaded: within render distance and not loaded.
    pub open spec fn wants_chunk(&self, p: ChunkPosition, player: ChunkPosition) -> bool {
        within_distance(p, player, self.render_distance as int) && !self.is_loaded(p)
    }

    /// Whether chunk `p` is wanted and not among the chunks of `taken`.
    pub open spec fn wants_besides(&self, p: ChunkPosition, player: ChunkPosition, taken: Seq<ChunkPosition>) -> bool {
        self.wants_chunk(p, player) && !taken.contains(p)
    }

    /// Chunk `(a, b)` of the `ri`-th region of the region scan around `player`.
    pub open spec fn region_cell(&self, player: ChunkPosition, ri: int, a: int, b: int) -> ChunkPosition {
        let g = self.grid_region_size;
        let off = region_scan_offsets()[ri];
        ChunkPosition {
            x: ((region_coord(player.x, g) + off.0) * g + a) as i32,
            z: ((region_coord(player.z, g) + off.1) * g + b) as i32,
        }
    }

    /// First wanted chunk among cells `b..g` of row `a` of region `ri`.
    pub open spec fn first_in_cells(&self, player: ChunkPosition, taken: Seq<ChunkPosition>, ri: int, a: int, b: int) -> Option<
        ChunkPosition,
    >
        decreases self.grid_region_size - b,
    {
        if b < 0 || b >= self.grid_region_size {
            None
        } else if self.wants_besides(self.region_cell(player, ri, a, b), player, taken) {
            Some(self.region_cell(player, ri, a, b))
        } else {
            self.first_in_cells(player, taken, ri, a, b + 1)
        }
    }

    /// First wanted chunk among rows `a..g` of region `ri`.
    pub open spec fn first_in_rows(&self, player: ChunkPosition, taken: Seq<ChunkPosition>, ri: int, a: int) -> Option<ChunkPosition>
        decreases self.grid_region_size - a,
    {
        if a < 0 || a >= self.grid_region_size {
            None
        } else {
            match self.first_in_cells(player, taken, ri, a, 0) {
                Some(p) => Some(p),
                None => self.first_in_rows(player, taken, ri, a + 1),
            }
        }
    }

    /// First wanted chunk among regions `ri..9` of the region scan.
    pub open spec fn first_in_regions(&self, player: ChunkPosition, taken: Seq<ChunkPosition>, ri: int) -> Option<ChunkPosition>
        decreases 9 - ri,
    {
        if ri < 0 || ri >= 9 {
            None
        } else {
            match self.first_in_rows(player, taken, ri, 0) {
                Some(p) => Some(p),
                None => self.first_in_regions(player, taken, ri + 1),
            }
        }
    }

    /// First wanted chunk on ring `d` around `player` among cells `b..2d+1` of row `a`.
    pub open spec fn first_in_ring_cells(&self, player: ChunkPosition, taken: Seq<ChunkPosition>, d: int, a: int, b: int) -> Option<
        ChunkPosition,
    >
        decreases 2 * d + 1 - b,
    {
        if b < 0 || b >= 2 * d + 1 {
            None
        } else {
            let p = ChunkPosition { x: (player.x + a - d) as i32, z: (player.z + b - d) as i32 };
            if on_ring(d, a - d, b - d) && self.wants_besides(p, player, taken) {
                Some(p)
            } else {
                self.first_in_ring_cells(player, taken, d, a, b + 1)
            }
        }
    }

    /// First wanted chunk on ring `d` around `player` among rows `a..2d+1`.
    pub open spec fn first_in_ring_rows(&self, player: ChunkPosition, taken: Seq<ChunkPosition>, d: int, a: int) -> Option<
        ChunkPosition,
    >
        decreases 2 * d + 1 - a,
    {
        if a < 0 || a >= 2 * d + 1 {
            None
        } else {
            match self.first_in_ring_cells(player, taken, d, a, 0) {
                Some(p) => Some(p),
                None => self.first_in_ring_rows(player, taken, d, a + 1),
            }
        }
    }

    /// First wanted chunk on rings `d..=last` around `player`.
    pub open spec fn first_in_rings(&self, player: ChunkPosition, taken: Seq<ChunkPosition>, d: int, last: int) -> Option<
        ChunkPosition,
    >
        decreases last + 1 - d,
    {
        if d > last {
            None
        } else {
            match self.first_in_ring_rows(player, taken, d, 0) {
                Some(p) => Some(p),
                None => self.first_in_rings(player, taken, d + 1, last),
            }
        }
    }

    /// The next chunk a loading pass loads: the first wanted chunk of the
    /// region scan, else of the spiral scan over rings `1..=spiral_limit`.
    pub open spec fn next_load(&self, player: ChunkPosition) -> Option<ChunkPosition> {
        self.next_load_besides(player, Seq::empty())
    }

    /// The chunk a loading pass loads next once the chunks of `taken` are
    /// loaded too: the first chunk of the region scan, else of the spiral scan,
    /// that is wanted and not in `taken`.
    pub open spec fn next_load_besides(&self, player: ChunkPosition, taken: Seq<ChunkPosition>) -> Option<
        ChunkPosition,
    > {
        match self.first_in_regions(player, taken, 0) {
            Some(p) => Some(p),
            None => self.first_in_rings(player, taken, 1, spiral_limit(self.render_distance)),
        }
    }

    /// The chunks one loading pass loads, at most `left` of them: the next
    /// chunk to load besides `taken`, then the plan with that chunk taken too.
    pub open spec fn load_plan(&self, player: ChunkPosition, taken: Seq<ChunkPosition>, left: nat) -> Seq<
        ChunkPosition,
    >
        decreases left,
    {
        if left == 0 {
            Seq::empty()
        } else {
            match self.next_load_besides(player, taken) {
                Some(p) => seq![p] + self.load_plan(player, taken.push(p), (left - 1) as nat),
                None => Seq::empty(),
            }
        }
    }

    /// Whatever the region scan finds from cell `b` of row `a` of region `ri` on is wanted.
    pub proof fn lemma_first_in_cells_wanted(&self, player: ChunkPosition, taken: Seq<ChunkPosition>, ri: int, a: int, b: int)
        ensures
            self.first_in_cells(player, taken, ri, a, b) matches Some(p) ==> self.wants_besides(p, player, taken),
        decreases self.grid_region_size - b,
    {
        if 0 <= b < self.grid_region_size {
            self.lemma_first_in_cells_wanted(player, taken, ri, a, b + 1);
        }
    }

    /// Whatever the region scan finds from row `a` of region `ri` on is wanted.
    pub proof fn lemma_first_in_rows_wanted(&self, player: ChunkPosition, taken: Seq<ChunkPosition>, ri: int, a: int)
        ensures
            self.first_in_rows(player, taken, ri, a) matches Some(p) ==> self.wants_besides(p, player, taken),
        decreases self.grid_region_size - a,
    {
        if 0 <= a < self.grid_region_size {
            self.lemma_first_in_cells_wanted(player, taken, ri, a, 0);
            self.lemma_first_in_rows_wanted(player, taken, ri, a + 1);
        }
    }

    /// Whatever the region scan finds from region `ri` on is wanted.
    pub proof fn lemma_first_in_regions_wanted(&self, player: ChunkPosition, taken: Seq<ChunkPosition>, ri: int)
        ensures
            self.first_in_regions(player, taken, ri) matches Some(p) ==> self.wants_besides(p, player, taken),
        decreases 9 - ri,
    {
        if 0 <= ri < 9 {
            self.lemma_first_in_rows_wanted(player, taken, ri, 0);
            self.lemma_first_in_regions_wanted(player, taken, ri + 1);
        }
    }

    /// Whatever the spiral scan finds from cell `b` of row `a` of ring `d` on is wanted.
    pub proof fn lemma_first_in_ring_cells_wanted(&self, player: ChunkPosition, taken: Seq<ChunkPosition>, d: int, a: int, b: int)
        ensures
            self.first_in_ring_cells(player, taken, d, a, b) matches Some(p) ==> self.wants_besides(p, player, taken),
        decreases 2 * d + 1 - b,
    {
        if 0 <= b < 2 * d + 1 {
            self.lemma_first_in_ring_cells_wanted(player, taken, d, a, b + 1);
        }
    }

    /// Whatever the spiral scan finds from row `a` of ring `d` on is wanted.
    pub proof fn lemma_first_in_ring_rows_wanted(&self, player: ChunkPosition, taken: Seq<ChunkPosition>, d: int, a: int)
        ensures
            self.first_in_ring_rows(player, taken, d, a) matches Some(p) ==> self.wants_besides(p, player, taken),
        decreases 2 * d + 1 - a,
    {
        if 0 <= a < 2 * d + 1 {
            self.lemma_first_in_ring_cells_wanted(player, taken, d, a, 0);
            self.lemma_first_in_ring_rows_wanted(player, taken, d, a + 1);
        }
    }

    /// Whatever the spiral scan finds from ring `d` to ring `last` is wanted.
    pub proof fn lemma_first_in_rings_wanted(&self, player: ChunkPosition, taken: Seq<ChunkPosition>, d: int, last: int)
        ensures
            self.first_in_rings(player, taken, d, last) matches Some(p) ==> self.wants_besides(p, player, taken),
        decreases last + 1 - d,
    {
        if d <= last {
            self.lemma_first_in_ring_rows_wanted(player, taken, d, 0);
            self.lemma_first_in_rings_wanted(player, taken, d + 1, last);
        }
    }

    /// The chunk a loading pass picks besides `taken` is wanted and not in `taken`.
    pub proof fn lemma_next_load_besides_wanted(&self, player: ChunkPosition, taken: Seq<ChunkPosition>)
        ensures
            self.next_load_besides(player, taken) matches Some(p) ==> self.wants_besides(p, player, taken),
    {
        self.lemma_first_in_regions_wanted(player, taken, 0);
        self.lemma_first_in_rings_wanted(player, taken, 1, spiral_limit(self.render_distance));
    }

    proof fn lemma_cells_find(&self, player: ChunkPosition, taken: Seq<ChunkPosition>, ri: int, a: int, b0: int, b: int)
        requires
            0 <= b0 <= b < self.grid_region_size,
            self.wants_besides(self.region_cell(player, ri, a, b), player, taken),
        ensures
            self.first_in_cells(player, taken, ri, a, b0) is Some,
        decreases b - b0,
    {
        if b0 < b {
            self.lemma_cells_find(player, taken, ri, a, b0 + 1, b);
        }
    }

    proof fn lemma_rows_find(&self, player: ChunkPosition, taken: Seq<ChunkPosition>, ri: int, a0: int, a: int)
        requires
            0 <= a0 <= a < self.grid_region_size,
            self.first_in_cells(player, taken, ri, a, 0) is Some,
        ensures
            self.first_in_rows(player, taken, ri, a0) is Some,
        decreases a - a0,
    {
        if a0 < a {
            self.lemma_rows_find(player, taken, ri, a0 + 1, a);
        }
    }

    proof fn lemma_regions_find(&self, player: ChunkPosition, taken: Seq<ChunkPosition>, r0: int, ri: int)
        requires
            0 <= r0 <= ri < 9,
            self.first_in_rows(player, taken, ri, 0) is Some,
        ensures
            self.first_in_regions(player, taken, r0) is Some,
        decreases ri - r0,
    {
        if r0 < ri {
            self.lemma_regions_find(player, taken, r0 + 1, ri);
        }
    }

    proof fn lemma_ring_cells_find(&self, player: ChunkPosition, taken: Seq<ChunkPosition>, d: int, a: int, b0: int, b: int)
        requires
            0 <= b0 <= b < 2 * d + 1,
            on_ring(d, a - d, b - d),
            self.wants_besides(
                ChunkPosition { x: (player.x + a - d) as i32, z: (player.z + b - d) as i32 },
                player,
                taken,
            ),
        ensures
            self.first_in_ring_cells(player, taken, d, a, b0) is Some,
        decreases b - b0,
    {
        if b0 < b {
            self.lemma_ring_cells_find(player, taken, d, a, b0 + 1, b);
        }
    }

    proof fn lemma_ring_rows_find(&self, player: ChunkPosition, taken: Seq<ChunkPosition>, d: int, a0: int, a: int)
        requires
            0 <= a0 <= a < 2 * d + 1,
            self.first_in_ring_cells(player, taken, d, a, 0) is Some,
        ensures
            self.first_in_ring_rows(player, taken, d, a0) is Some,
        decreases a - a0,
    {
        if a0 < a {
            self.lemma_ring_rows_find(player, taken, d, a0 + 1, a);
        }
    }

    proof fn lemma_rings_find(&self, player: ChunkPosition, taken: Seq<ChunkPosition>, d0: int, d: int, last: int)
        requires
            1 <= d0 <= d <= last,
            self.first_in_ring_rows(player, taken, d, 0) is Some,
        ensures
            self.first_in_rings(player, taken, d0, last) is Some,
        decreases d - d0,
    {
        if d0 < d {
            self.lemma_rings_find(player, taken, d0 + 1, d, last);
        }
    }

    /// The loading pass misses nothing: while some chunk within render
    /// distance of the player's chunk (along both axes) is neither loaded nor
    /// among `taken`, a next chunk to load is found. The player's own chunk
    /// is found through its grid region, so it needs a positive region size.
    pub proof fn lemma_next_load_complete(&self, player: ChunkPosition, taken: Seq<ChunkPosition>, p: ChunkPosition)
        requires
            abs_int(p.x - player.x) <= self.render_distance,
            abs_int(p.z - player.z) <= self.render_distance,
            !self.is_loaded(p),
            !taken.contains(p),
            self.grid_region_size > 0 || p != player,
        ensures
            self.next_load_besides(player, taken) is Some,
    {
        let dx = p.x - player.x;
        let dz = p.z - player.z;
        let d = if abs_int(dx) >= abs_int(dz) { abs_int(dx) } else { abs_int(dz) };
        assert(self.wants_besides(p, player, taken));
        if d == 0 {
            assert(p.x == player.x && p.z == player.z);
            assert(p == player);
            let g = self.grid_region_size;
            vstd::arithmetic::div_mod::lemma_fundamental_div_mod(player.x as int, g as int);
            vstd::arithmetic::div_mod::lemma_fundamental_div_mod(player.z as int, g as int);
            let a = player.x as int % g as int;
            let b = player.z as int % g as int;
            assert(region_scan_offsets()[0] == (0i32, 0i32));
            let cx = region_coord(player.x, g);
            let cz = region_coord(player.z, g);
            assert((cx + 0) * g + a == player.x) by (nonlinear_arith)
                requires
                    player.x == g * cx + a,
            ;
            assert((cz + 0) * g + b == player.z) by (nonlinear_arith)
                requires
                    player.z == g * cz + b,
            ;
            assert(self.region_cell(player, 0, a, b) == player);
            self.lemma_cells_find(player, taken, 0, a, 0, b);
            self.lemma_rows_find(player, taken, 0, 0, a);
            self.lemma_regions_find(player, taken, 0, 0);
        } else {
            let last = spiral_limit(self.render_distance);
            let a = dx + d;
            let b = dz + d;
            let q = ChunkPosition { x: (player.x + a - d) as i32, z: (player.z + b - d) as i32 };
            assert(q == p);
            self.lemma_ring_cells_find(player, taken, d, a, 0, b);
            self.lemma_ring_rows_find(player, taken, d, 0, a);
            self.lemma_rings_find(player, taken, 1, d, last);
        }
    }

    /// A loading plan that stops short of `left` chunks leaves nothing out:
    /// every chunk within render distance is then loaded, taken, or in the plan.
    pub proof fn lemma_load_plan_complete(
        &self,
        player: ChunkPosition,
        taken: Seq<ChunkPosition>,
        left: nat,
        p: ChunkPosition,
    )
        requires
            abs_int(p.x - player.x) <= self.render_distance,
            abs_int(p.z - player.z) <= self.render_distance,
            self.grid_region_size > 0 || p != player,
            self.load_plan(player, taken, left).len() < left,
        ensures
            self.is_loaded(p) || taken.contains(p) || self.load_plan(player, taken, left).contains(p),
        decreases left,
    {
        let plan = self.load_plan(player, taken, left);
        match self.next_load_besides(player, taken) {
            None => {
                if !self.is_loaded(p) && !taken.contains(p) {
                    self.lemma_next_load_complete(player, taken, p);
                }
            },
            Some(q) => {
                let rest = self.load_plan(player, taken.push(q), (left - 1) as nat);
                assert(plan == seq![q] + rest);
                self.lemma_load_plan_complete(player, taken.push(q), (left - 1) as nat, p);
                if p == q {
                    assert(plan[0] == p);
                } else if taken.push(q).contains(p) {
                    let i = choose|i: int| 0 <= i < taken.push(q).len() && taken.push(q)[i] == p;
                    assert(taken[i] == p);
                } else if rest.contains(p) {
                    let i = choose|i: int| 0 <= i < rest.len() && rest[i] == p;
                    assert(plan[i + 1] == p);
                }
            },
        }
    }

    /// Coordinates touched by the scans for chunks to load fit in an `i32`.
    pub open spec fn load_scan_fits(&self, player: ChunkPosition) -> bool {
        let g = self.grid_region_size as int;
        let cx = region_coord(player.x, self.grid_region_size);
        let cz = region_coord(player.z, self.grid_region_size);
        let lim = spiral_limit(self.render_distance);
        &&& valid_region_size(self.grid_region_size)
        &&& g <= 0x4000_0000
        &&& g > 0 ==> {
            &&& i32::MIN <= (cx - 1) * g
            &&& (cx + 2) * g - 1 <= i32::MAX
            &&& i32::MIN <= (cz - 1) * g
            &&& (cz + 2) * g - 1 <= i32::MAX
        }
        &&& i32::MIN <= player.x - lim && player.x + lim <= i32::MAX
        &&& i32::MIN <= player.z - lim && player.z + lim <= i32::MAX
    }

    /// `(c + o) * g + a` for the region scan, as an `i32`.
    fn region_cell_coord(c: i32, o: i32, g: i32, a: i32) -> (r: i32)
        requires
            -1 <= o <= 1,
            0 < g <= 0x4000_0000,
            0 <= a < g,
            i32::MIN <= (c - 1) * g,
            (c + 2) * g - 1 <= i32::MAX,
        ensures
            r == (c + o) * g + a,
            (c - 1) * g <= r <= (c + 2) * g - 1,
    {
        assert((c - 1) * g <= (c + o) * g + a <= (c + 2) * g - 1) by (nonlinear_arith)
            requires
                -1 <= o <= 1,
                0 < g,
                0 <= a < g,
        ;
        assert(-0x8000_0001 * 0x4000_0000 <= (c + o) * g <= 0x8000_0001 * 0x4000_0000) by (nonlinear_arith)
            requires
                -0x8000_0001 <= c + o <= 0x8000_0001,
                0 < g <= 0x4000_0000,
        ;
        let v: i64 = (c as i64 + o as i64) * g as i64 + a as i64;
        v as i32
    }

    /// The next chunk a loading pass loads around the player's chunk, if any:
    /// the first wanted chunk (within render distance, not loaded) of the
    /// player's grid region and the eight around it, cell by cell, else of the
    /// square rings at distance 1 up to the render distance (at least 1).
    pub fn next_chunk_to_load(&self, player_chunk_pos: &ChunkPosition) -> (r: Option<ChunkPosition>)
        requires
            self.load_scan_fits(*player_chunk_pos),
        ensures
            r == self.next_load(*player_chunk_pos),
            r matches Some(p) ==> self.wants_chunk(p, *player_chunk_pos),
            r is None ==> forall|p: ChunkPosition|
                abs_int(p.x - player_chunk_pos.x) <= self.render_distance && abs_int(
                    p.z - player_chunk_pos.z,
                ) <= self.render_distance && (self.grid_region_size > 0 || p != *player_chunk_pos)
                    ==> #[trigger] self.is_loaded(p),
    {
        let none: Vec<ChunkPosition> = Vec::new();
        let r = self.next_chunk_besides(player_chunk_pos, &none);
        proof {
            if r is None {
                assert forall|p: ChunkPosition|
                    abs_int(p.x - player_chunk_pos.x) <= self.render_distance && abs_int(
                        p.z - player_chunk_pos.z,
                    ) <= self.render_distance && (self.grid_region_size > 0 || p
                        != *player_chunk_pos) implies #[trigger] self.is_loaded(p) by {
                    if !self.is_loaded(p) {
                        self.lemma_next_load_complete(*player_chunk_pos, Seq::empty(), p);
                    }
                }
            }
        }
        r
    }

    /// The chunks one loading pass loads around the player's chunk, in order:
    /// at most `MAX_CHUNKS_PER_FRAME` of them, each the next chunk to load
    /// once the ones before it are loaded.
    pub fn chunks_to_load(&self, player_chunk_pos: &ChunkPosition) -> (r: Vec<ChunkPosition>)
        requires
            self.load_scan_fits(*player_chunk_pos),
        ensures
            r@ == self.load_plan(*player_chunk_pos, Seq::empty(), MAX_CHUNKS_PER_FRAME as nat),
            r@.len() <= MAX_CHUNKS_PER_FRAME,
            r@.no_duplicates(),
            forall|i: int| 0 <= i < r@.len() ==> self.wants_chunk(#[trigger] r@[i], *player_chunk_pos),
            r@.len() < MAX_CHUNKS_PER_FRAME ==> forall|p: ChunkPosition|
                abs_int(p.x - player_chunk_pos.x) <= self.render_distance && abs_int(
                    p.z - player_chunk_pos.z,
                ) <= self.render_distance && (self.grid_region_size > 0 || p != *player_chunk_pos)
                    ==> #[trigger] self.is_loaded(p) || r@.contains(p),
    {
        let r = self.plan_chunks(player_chunk_pos);
        proof {
            if r@.len() < MAX_CHUNKS_PER_FRAME {
                assert forall|p: ChunkPosition|
                    abs_int(p.x - player_chunk_pos.x) <= self.render_distance && abs_int(
                        p.z - player_chunk_pos.z,
                    ) <= self.render_distance && (self.grid_region_size > 0 || p
                        != *player_chunk_pos) implies #[trigger] self.is_loaded(p) || r@.contains(p) by {
                    self.lemma_load_plan_complete(
                        *player_chunk_pos,
                        Seq::empty(),
                        MAX_CHUNKS_PER_FRAME as nat,
                        p,
                    );
                }
            }
        }
        r
    }

    /// The chunks of one loading pass, in order.
    fn plan_chunks(&self, player_chunk_pos: &ChunkPosition) -> (r: Vec<ChunkPosition>)
        requires
            self.load_scan_fits(*player_chunk_pos),
        ensures
            r@ == self.load_plan(*player_chunk_pos, Seq::empty(), MAX_CHUNKS_PER_FRAME as nat),
            r@.len() <= MAX_CHUNKS_PER_FRAME,
            r@.no_duplicates(),
            forall|i: int| 0 <= i < r@.len() ==> self.wants_chunk(#[trigger] r@[i], *player_chunk_pos),
    {
        let ghost player = *player_chunk_pos;
        let ghost plan = self.load_plan(player, Seq::empty(), MAX_CHUNKS_PER_FRAME as nat);
        let mut out: Vec<ChunkPosition> = Vec::new();
        assert(plan == out@ + self.load_plan(player, out@, MAX_CHUNKS_PER_FRAME as nat));
        while out.len() < MAX_CHUNKS_PER_FRAME
            invariant
                self.load_scan_fits(player),
                player == *player_chunk_pos,
                out.len() <= MAX_CHUNKS_PER_FRAME,
                plan == self.load_plan(player, Seq::empty(), MAX_CHUNKS_PER_FRAME as nat),
                plan == out@ + self.load_plan(player, out@, (MAX_CHUNKS_PER_FRAME - out.len()) as nat),
                out@.no_duplicates(),
                forall|i: int| 0 <= i < out@.len() ==> self.wants_chunk(#[trigger] out@[i], player),
            decreases MAX_CHUNKS_PER_FRAME - out.len(),
        {
            let left: Ghost<nat> = Ghost((MAX_CHUNKS_PER_FRAME - out.len()) as nat);
            match self.next_chunk_besides(player_chunk_pos, &out) {
                Some(p) => {
                    let ghost before = out@;
                    out.push(p);
                    proof {
                        assert(self.load_plan(player, before, left@) == seq![p] + self.load_plan(
                            player,
                            out@,
                            (left@ - 1) as nat,
                        ));
                        assert(before + (seq![p] + self.load_plan(player, out@, (left@ - 1) as nat))
                            =~= out@ + self.load_plan(player, out@, (left@ - 1) as nat));
                        assert forall|i: int, j: int|
                            0 <= i < out@.len() && 0 <= j < out@.len() && i != j implies out@[i]
                            != out@[j] by {
                            if i == out@.len() - 1 {
                                assert(before[j] == out@[j]);
                            } else if j == out@.len() - 1 {
                                assert(before[i] == out@[i]);
                            } else {
                                assert(before[i] == out@[i] && before[j] == out@[j]);
                            }
                        }
                        assert forall|i: int| 0 <= i < out@.len() implies self.wants_chunk(
                            #[trigger] out@[i],
                            player,
                        ) by {
                            if i < before.len() {
                                assert(before[i] == out@[i]);
                            }
                        }
                    }
                },
                None => {
                    assert(self.load_plan(player, out@, left@) == Seq::<ChunkPosition>::empty());
                    assert(plan == out@);
                    return out;
                },
            }
        }
        assert(plan == out@);
        out
    }

    /// The next chunk to load around the player's chunk once the chunks of
    /// `taken` are loaded too.
    fn next_chunk_besides(&self, player_chunk_pos: &ChunkPosition, taken: &Vec<ChunkPosition>) -> (r:
        Option<ChunkPosition>)
        requires
            self.load_scan_fits(*player_chunk_pos),
        ensures
            r == self.next_load_besides(*player_chunk_pos, taken@),
            r matches Some(p) ==> self.wants_besides(p, *player_chunk_pos, taken@),
    {
        proof {
            self.lemma_next_load_besides_wanted(*player_chunk_pos, taken@);
        }
        let player = *player_chunk_pos;
        let g = self.grid_region_size;
        let (cx, cz) = self.chunk_pos_to_grid_region(player_chunk_pos);
        let offsets: [(i32, i32); 9] = [
            (0, 0),
            (-1, -1),
            (-1, 0),
            (-1, 1),
            (0, -1),
            (0, 1),
            (1, -1),
            (1, 0),
            (1, 1),
        ];
        assert(offsets@ == region_scan_offsets());
        proof {
            vstd::arithmetic::div_mod::lemma_fundamental_div_mod(player.x as int, g as int);
            vstd::arithmetic::div_mod::lemma_fundamental_div_mod(player.z as int, g as int);
        }
        let mut ri: usize = 0;
        while ri < 9
            invariant
                ri <= 9,
                self.load_scan_fits(player),
                player == *player_chunk_pos,
                g == self.grid_region_size,
                cx == region_coord(player.x, g),
                cz == region_coord(player.z, g),
                offsets@ == region_scan_offsets(),
                g > 0 ==> cx * g <= player.x < cx * g + g && cz * g <= player.z < cz * g + g,
                self.first_in_regions(player, taken@, 0) == self.first_in_regions(player, taken@, ri as int),
            decreases 9 - ri,
        {
            let (ox, oz) = offsets[ri];
            let mut a: i32 = 0;
            while a < g
                invariant
                    ri < 9,
                    0 <= a,
                    self.load_scan_fits(player),
                    player == *player_chunk_pos,
                    g == self.grid_region_size,
                    cx == region_coord(player.x, g),
                    cz == region_coord(player.z, g),
                    offsets@ == region_scan_offsets(),
                    (ox, oz) == region_scan_offsets()[ri as int],
                    g > 0 ==> cx * g <= player.x < cx * g + g && cz * g <= player.z < cz * g + g,
                    self.first_in_regions(player, taken@, 0) == self.first_in_regions(player, taken@, ri as int),
                    self.first_in_rows(player, taken@, ri as int, 0) == self.first_in_rows(player, taken@, ri as int, a as int),
                decreases g - a,
            {
                let mut b: i32 = 0;
                while b < g
                    invariant
                        ri < 9,
                        0 <= a < g,
                        0 <= b,
                        self.load_scan_fits(player),
                        player == *player_chunk_pos,
                        g == self.grid_region_size,
                        cx == region_coord(player.x, g),
                        cz == region_coord(player.z, g),
                        (ox, oz) == region_scan_offsets()[ri as int],
                        g > 0 ==> cx * g <= player.x < cx * g + g && cz * g <= player.z < cz * g + g,
                        self.first_in_regions(player, taken@, 0) == self.first_in_regions(player, taken@, ri as int),
                        self.first_in_rows(player, taken@, ri as int, 0) == self.first_in_rows(player, taken@, ri as int, a as int),
                        self.first_in_cells(player, taken@, ri as int, a as int, 0) == self.first_in_cells(
                            player,
                            taken@,
                            ri as int,
                            a as int,
                            b as int,
                        ),
                    decreases g - b,
                {
                    let x = Self::region_cell_coord(cx, ox, g, a);
                    let z = Self::region_cell_coord(cz, oz, g, b);
                    let p = ChunkPosition { x, z };
                    assert(p == self.region_cell(player, ri as int, a as int, b as int));
                    assert(diff_in_range(p, player)) by {
                        assert(-2 * g + 1 <= x - player.x <= 2 * g - 1) by (nonlinear_arith)
                            requires
                                (cx - 1) * g <= x <= (cx + 2) * g - 1,
                                cx * g <= player.x < cx * g + g,
                        ;
                        assert(-2 * g + 1 <= z - player.z <= 2 * g - 1) by (nonlinear_arith)
                            requires
                                (cz - 1) * g <= z <= (cz + 2) * g - 1,
                                cz * g <= player.z < cz * g + g,
                        ;
                    }
                    if self.should_load_chunk(p, player) && !self.loaded_chunks.contains_key(
                        &grid_key_of(x, z),
                    ) && !contains_position(taken, &p) {
                        return Some(p);
                    }
                    b = b + 1;
                }
                a = a + 1;
            }
            ri = ri + 1;
        }
        let last: i64 = if self.render_distance < 1 {
            1
        } else {
            self.render_distance as i64
        };
        let mut d: i64 = 1;
        while d <= last
            invariant
                1 <= d <= last + 1,
                last == spiral_limit(self.render_distance),
                self.load_scan_fits(player),
                player == *player_chunk_pos,
                self.first_in_regions(player, taken@, 0) is None,
                self.first_in_rings(player, taken@, 1, last as int) == self.first_in_rings(player, taken@, d as int, last as int),
            decreases last + 1 - d,
        {
            let mut a: i64 = 0;
            while a < 2 * d + 1
                invariant
                    1 <= d <= last,
                    0 <= a,
                    last == spiral_limit(self.render_distance),
                    self.load_scan_fits(player),
                    player == *player_chunk_pos,
                    self.first_in_regions(player, taken@, 0) is None,
                    self.first_in_rings(player, taken@, 1, last as int) == self.first_in_rings(player, taken@, d as int, last as int),
                    self.first_in_ring_rows(player, taken@, d as int, 0) == self.first_in_ring_rows(player, taken@, d as int, a as int),
                decreases 2 * d + 1 - a,
            {
                let mut b: i64 = 0;
                while b < 2 * d + 1
                    invariant
                        1 <= d <= last,
                        0 <= a < 2 * d + 1,
                        0 <= b,
                        last == spiral_limit(self.render_distance),
                        self.load_scan_fits(player),
                        player == *player_chunk_pos,
                        self.first_in_regions(player, taken@, 0) is None,
                        self.first_in_rings(player, taken@, 1, last as int) == self.first_in_rings(player, taken@, d as int, last as int),
                        self.first_in_ring_rows(player, taken@, d as int, 0) == self.first_in_ring_rows(player, taken@, d as int, a as int),
                        self.first_in_ring_cells(player, taken@, d as int, a as int, 0) == self.first_in_ring_cells(
                            player,
                            taken@,
                            d as int,
                            a as int,
                            b as int,
                        ),
                    decreases 2 * d + 1 - b,
                {
                    let dx = a - d;
                    let dz = b - d;
                    let on = dx == d || dx == -d || dz == d || dz == -d;
                    if on {
                        let p = ChunkPosition {
                            x: (player.x as i64 + dx) as i32,
                            z: (player.z as i64 + dz) as i32,
                        };
                        if self.should_load_chunk(p, player) && !self.loaded_chunks.contains_key(
                            &grid_key_of(p.x, p.z),
                        ) && !contains_position(taken, &p) {
                            return Some(p);
                        }
                    }
                    b = b + 1;
                }
                a = a + 1;
            }
            d = d + 1;
        }
        None
    }
}

/// `after` is `before` with the chunks of `taken` loaded as well, its render
/// distance and grid region size unchanged.
pub open spec fn loaded_with(after: &ChunkManager, before: &ChunkManager, taken: Seq<ChunkPosition>) -> bool {
    &&& after.render_distance == before.render_distance
    &&& after.grid_region_size == before.grid_region_size
    &&& forall|q: ChunkPosition| #[trigger]
        after.is_loaded(q) == (before.is_loaded(q) || taken.contains(q))
}

proof fn lemma_cells_after_loading(
    after: &ChunkManager,
    before: &ChunkManager,
    player: ChunkPosition,
    taken: Seq<ChunkPosition>,
    ri: int,
    a: int,
    b: int,
)
    requires
        loaded_with(after, before, taken),
    ensures
        after.first_in_cells(player, Seq::empty(), ri, a, b) == before.first_in_cells(player, taken, ri, a, b),
    decreases before.grid_region_size - b,
{
    if 0 <= b < before.grid_region_size {
        let q = before.region_cell(player, ri, a, b);
        assert(after.region_cell(player, ri, a, b) == q);
        assert(after.is_loaded(q) == (before.is_loaded(q) || taken.contains(q)));
        lemma_cells_after_loading(after, before, player, taken, ri, a, b + 1);
    }
}

proof fn lemma_rows_after_loading(
    after: &ChunkManager,
    before: &ChunkManager,
    player: ChunkPosition,
    taken: Seq<ChunkPosition>,
    ri: int,
    a: int,
)
    requires
        loaded_with(after, before, taken),
    ensures
        after.first_in_rows(player, Seq::empty(), ri, a) == before.first_in_rows(player, taken, ri, a),
    decreases before.grid_region_size - a,
{
    if 0 <= a < before.grid_region_size {
        lemma_cells_after_loading(after, before, player, taken, ri, a, 0);
        lemma_rows_after_loading(after, before, player, taken, ri, a + 1);
    }
}

proof fn lemma_regions_after_loading(
    after: &ChunkManager,
    before: &ChunkManager,
    player: ChunkPosition,
    taken: Seq<ChunkPosition>,
    ri: int,
)
    requires
        loaded_with(after, before, taken),
    ensures
        after.first_in_regions(player, Seq::empty(), ri) == before.first_in_regions(player, taken, ri),
    decreases 9 - ri,
{
    if 0 <= ri < 9 {
        lemma_rows_after_loading(after, before, player, taken, ri, 0);
        lemma_regions_after_loading(after, before, player, taken, ri + 1);
    }
}

proof fn lemma_ring_cells_after_loading(
    after: &ChunkManager,
    before: &ChunkManager,
    player: ChunkPosition,
    taken: Seq<ChunkPosition>,
    d: int,
    a: int,
    b: int,
)
    requires
        loaded_with(after, before, taken),
    ensures
        after.first_in_ring_cells(player, Seq::empty(), d, a, b) == before.first_in_ring_cells(
            player,
            taken,
            d,
            a,
            b,
        ),
    decreases 2 * d + 1 - b,
{
    if 0 <= b < 2 * d + 1 {
        let q = ChunkPosition { x: (player.x + a - d) as i32, z: (player.z + b - d) as i32 };
        assert(after.is_loaded(q) == (before.is_loaded(q) || taken.contains(q)));
        lemma_ring_cells_after_loading(after, before, player, taken, d, a, b + 1);
    }
}

proof fn lemma_ring_rows_after_loading(
    after: &ChunkManager,
    before: &ChunkManager,
    player: ChunkPosition,
    taken: Seq<ChunkPosition>,
    d: int,
    a: int,
)
    requires
        loaded_with(after, before, taken),
    ensures
        after.first_in_ring_rows(player, Seq::empty(), d, a) == before.first_in_ring_rows(player, taken, d, a),
    decreases 2 * d + 1 - a,
{
    if 0 <= a < 2 * d + 1 {
        lemma_ring_cells_after_loading(after, before, player, taken, d, a, 0);
        lemma_ring_rows_after_loading(after, before, player, taken, d, a + 1);
    }
}

proof fn lemma_rings_after_loading(
    after: &ChunkManager,
    before: &ChunkManager,
    player: ChunkPosition,
    taken: Seq<ChunkPosition>,
    d: int,
    last: int,
)
    requires
        loaded_with(after, before, taken),
    ensures
        after.first_in_rings(player, Seq::empty(), d, last) == before.first_in_rings(player, taken, d, last),
    decreases last + 1 - d,
{
    if d <= last {
        lemma_ring_rows_after_loading(after, before, player, taken, d, 0);
        lemma_rings_after_loading(after, before, player, taken, d + 1, last);
    }
}

/// Loading the chunks of `taken` and then asking for the next chunk to load
/// gives the chunk that the plan picks next besides `taken`: so the chunks that
/// `chunks_to_load` returns are those that repeated `next_chunk_to_load` calls
/// would give, each followed by `insert_chunk`.
pub proof fn lemma_next_load_after_loading(
    after: &ChunkManager,
    before: &ChunkManager,
    player: ChunkPosition,
    taken: Seq<ChunkPosition>,
)
    requires
        loaded_with(after, before, taken),
    ensures
        after.next_load(player) == before.next_load_besides(player, taken),
{
    lemma_regions_after_loading(after, before, player, taken, 0);
    lemma_rings_after_loading(after, before, player, taken, 1, spiral_limit(before.render_distance));
}

/// Inserting chunk `p` loads it and keeps every other chunk's state, the
/// render distance and the region size: the manager after the call is the one
/// before it with `p` loaded as well.
pub proof fn lemma_insert_chunk_loads(
    after: &ChunkManager,
    before: &ChunkManager,
    p: ChunkPosition,
    e: Entity,
)
    requires
        after.loaded_chunks@ == before.loaded_chunks@.insert(pos_key(p), e),
        after.render_distance == before.render_distance,
        after.grid_region_size == before.grid_region_size,
    ensures
        loaded_with(after, before, seq![p]),
{
    assert forall|q: ChunkPosition| #[trigger]
        after.is_loaded(q) == (before.is_loaded(q) || seq![p].contains(q)) by {
        if q != p {
            lemma_pos_key_injective(q, p);
            assert(!seq![p].contains(q));
        } else {
            assert(seq![p][0] == q);
        }
    }
}

/// Loading the chunks of `s` and then those of `t` loads the chunks of `s + t`.
pub proof fn lemma_loaded_with_chain(
    last: &ChunkManager,
    mid: &ChunkManager,
    first: &ChunkManager,
    s: Seq<ChunkPosition>,
    t: Seq<ChunkPosition>,
)
    requires
        loaded_with(mid, first, s),
        loaded_with(last, mid, t),
    ensures
        loaded_with(last, first, s + t),
{
    assert forall|q: ChunkPosition| #[trigger]
        last.is_loaded(q) == (first.is_loaded(q) || (s + t).contains(q)) by {
        assert(last.is_loaded(q) == (mid.is_loaded(q) || t.contains(q)));
        assert(mid.is_loaded(q) == (first.is_loaded(q) || s.contains(q)));
        if s.contains(q) {
            let i = choose|i: int| 0 <= i < s.len() && s[i] == q;
            assert((s + t)[i] == q);
        }
        if t.contains(q) {
            let i = choose|i: int| 0 <= i < t.len() && t[i] == q;
            assert((s + t)[s.len() + i] == q);
        }
        if (s + t).contains(q) {
            let i = choose|i: int| 0 <= i < (s + t).len() && (s + t)[i] == q;
            if i < s.len() {
                assert(s[i] == q);
            } else {
                assert(t[i - s.len()] == q);
            }
        }
    }
}

/// Whether `p` occurs in `v`.
fn contains_position(v: &Vec<ChunkPosition>, p: &ChunkPosition) -> (r: bool)
    ensures
        r == v@.contains(*p),
{
    let mut i: usize = 0;
    while i < v.len()
        invariant
            i <= v.len(),
            forall|j: int| 0 <= j < i ==> v@[j] != *p,
        decreases v.len() - i,
    {
        if v[i].x == p.x && v[i].z == p.z {
            assert(v@[i as int] == *p);
            return true;
        }
        i = i + 1;
    }
    false
}

/// The smaller of `a` and `b`.
pub open spec fn min_usize(a: usize, b: usize) -> usize {
    if a < b {
        a
    } else {
        b
    }
}

/// `v` clamped to the range 4..=8.
pub open spec fn clamp_region_size(v: int) -> int {
    if v < 4 {
        4
    } else if v > 8 {
        8
    } else {
        v
    }
}

} // verus!
