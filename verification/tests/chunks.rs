use bevy_craft::block::{Block, BlockType, IVec3};
use bevy_craft::collision::{check_block_at_position, find_highest_solid_ground, highest_solid_y};
use bevy_craft::chunk::{
    Chunk, ChunkBiomeData, ChunkData, ChunkPosition, ChunkPriority, CHUNK_VOLUME,
};
use bevy_craft::chunk_manager::{ChunkManager, Entity};

fn pos(x: i32, z: i32) -> ChunkPosition {
    ChunkPosition::new(x, z)
}

#[test]
fn entity_from_raw_keeps_id() {
    assert_eq!(Entity::from_raw(42).0, 42);
}

#[test]
fn chunk_position_of_blocks() {
    assert_eq!(ChunkPosition::from_block_position(IVec3::new(17, 5, -1)), pos(1, -1));
    assert_eq!(ChunkPosition::from_block_position(IVec3::new(-16, 0, -17)), pos(-1, -2));
    assert_eq!(pos(2, -3).min_block_position(), IVec3::new(32, 0, -48));
    assert_eq!(pos(0, 0).neighbors(), [pos(0, -1), pos(0, 1), pos(1, 0), pos(-1, 0)]);
}

#[test]
fn chunk_data_set_then_get() {
    let mut d = ChunkData::new();
    assert_eq!(d.get_block(1, 2, 3), None);
    d.set_block(1, 2, 3, BlockType::Stone);
    assert_eq!(d.get_block(1, 2, 3), Some(BlockType::Stone));
    assert_eq!(d.get_block(3, 2, 1), None);
    d.set_block(16, 0, 0, BlockType::Stone);
    assert_eq!(d.get_block(16, 0, 0), None);
    let i = d.local_to_index(5, 7, 9);
    assert_eq!(i, 7 * 256 + 9 * 16 + 5);
    assert_eq!(d.index_to_local(i), (5, 7, 9));
    assert_eq!(d.duplicate().blocks, d.blocks);
    assert_eq!(d.blocks.len(), CHUNK_VOLUME);
}

#[test]
fn chunk_world_access() {
    let mut c = Chunk::new(pos(-1, 2));
    assert!(c.contains(IVec3::new(-16, 0, 32)));
    assert!(!c.contains(IVec3::new(0, 0, 32)));
    c.set_block_world(IVec3::new(-15, 10, 33), BlockType::Wood);
    assert_eq!(c.get_block_world(IVec3::new(-15, 10, 33)), Some(BlockType::Wood));
    assert_eq!(c.data.get_block(1, 10, 1), Some(BlockType::Wood));
}

#[test]
fn biome_data_roundtrip() {
    let mut b = ChunkBiomeData::new();
    b.set_biome_data(3, 4, 0.25f32.to_bits(), 0.5f32.to_bits(), "forest");
    let got = b.get_biome_data(3, 4).unwrap();
    assert_eq!(f32::from_bits(got.temperature_bits), 0.25);
    assert_eq!(got.biome_type, "forest");
    assert!(b.get_biome_data(0, 16).is_none());
}

#[test]
fn manager_new_sizes() {
    let m = ChunkManager::new(10);
    assert_eq!(m.grid_region_size, 5);
    assert_eq!(m.max_cache_size, 800);
    assert_eq!(ChunkManager::new(2).grid_region_size, 4);
    assert_eq!(ChunkManager::new(40).grid_region_size, 8);
    assert_eq!(m.get_loaded_chunk_count(), 0);
}

#[test]
fn load_unload_decisions() {
    let m = ChunkManager::new(4);
    assert!(m.should_load_chunk(pos(4, -4), pos(0, 0)));
    assert!(!m.should_load_chunk(pos(5, 0), pos(0, 0)));
    assert!(m.should_unload_chunk(pos(5, 0), pos(0, 0)));
    assert!(!m.should_unload_chunk(pos(-4, 3), pos(0, 0)));
}

#[test]
fn insert_remove_and_neighbors() {
    let mut m = ChunkManager::new(8);
    m.insert_chunk(pos(0, 0), Entity::from_raw(1));
    m.insert_chunk(pos(1, 0), Entity::from_raw(2));
    m.insert_chunk(pos(0, -1), Entity::from_raw(3));
    assert_eq!(m.get_loaded_chunk_count(), 3);
    assert_eq!(m.get_neighbor_chunk(&pos(0, 0), &pos(1, 0)), Some(Entity::from_raw(2)));
    assert_eq!(
        m.get_neighboring_chunks(&pos(0, 0)),
        vec![(pos(0, -1), Entity::from_raw(3)), (pos(1, 0), Entity::from_raw(2))]
    );
    assert!(m.has_neighbor(&pos(0, 0), "north"));
    assert!(m.has_neighbor(&pos(0, 0), "east"));
    assert!(!m.has_neighbor(&pos(0, 0), "west"));
    assert!(!m.has_neighbor(&pos(0, 0), "up"));
    assert_eq!(m.remove_chunk(&pos(1, 0)), Some(Entity::from_raw(2)));
    assert_eq!(m.remove_chunk(&pos(1, 0)), None);
    assert!(!m.has_neighbor(&pos(0, 0), "east"));
    assert_eq!(m.estimate_memory_usage(), 2 * CHUNK_VOLUME);
}

#[test]
fn spatial_queries() {
    let mut m = ChunkManager::new(8);
    m.insert_chunk(pos(0, 0), Entity::from_raw(1));
    m.insert_chunk(pos(3, 3), Entity::from_raw(2));
    m.insert_chunk(pos(20, 0), Entity::from_raw(3));
    assert_eq!(m.chunk_pos_to_grid_region(&pos(-1, 9)), (-1, 2));
    let mut near = m.get_chunks_in_spatial_region(&pos(1, 1));
    near.sort_by_key(|p| (p.x, p.z));
    assert_eq!(near, vec![pos(0, 0), pos(3, 3)]);
    let mut within = m.get_chunks_within_distance_spatial(&pos(0, 0), 3);
    within.sort_by_key(|p| (p.x, p.z));
    assert_eq!(within, vec![pos(0, 0), pos(3, 3)]);
    assert_eq!(m.get_chunks_within_distance_spatial(&pos(0, 0), 2), vec![pos(0, 0)]);
    assert_eq!(m.get_chunks_within_distance_spatial(&pos(0, 0), 20).len(), 3);
}

#[test]
fn priorities() {
    let mut m = ChunkManager::new(8);
    assert_eq!(m.calculate_chunk_priority(&pos(9, 0), &pos(0, 0), true), ChunkPriority::Visible);
    assert_eq!(m.calculate_chunk_priority(&pos(4, 0), &pos(0, 0), false), ChunkPriority::Near);
    assert_eq!(m.calculate_chunk_priority(&pos(5, 8), &pos(0, 0), false), ChunkPriority::Far);
    assert_eq!(m.calculate_chunk_priority(&pos(9, 0), &pos(0, 0), false), ChunkPriority::Unload);
    m.insert_chunk(pos(9, 0), Entity::from_raw(1));
    m.insert_chunk(pos(1, 1), Entity::from_raw(2));
    m.insert_chunk(pos(6, 0), Entity::from_raw(3));
    let sorted = m.get_chunks_sorted_by_priority(&pos(0, 0));
    assert_eq!(
        sorted,
        vec![
            (pos(1, 1), ChunkPriority::Near),
            (pos(6, 0), ChunkPriority::Far),
            (pos(9, 0), ChunkPriority::Unload)
        ]
    );
    assert_eq!(m.get_high_priority_chunks(&pos(0, 0)), vec![pos(1, 1)]);
    assert!(ChunkPriority::Visible > ChunkPriority::Near);
    assert_eq!(ChunkPriority::default(), ChunkPriority::Far);
}

#[test]
fn cache_gives_back_what_was_cached() {
    let mut m = ChunkManager::new(1);
    assert_eq!(m.max_cache_size, 8);
    let mut data = ChunkData::new();
    data.set_block(0, 0, 0, BlockType::Bedrock);
    m.cache_chunk(pos(3, 3), data, ChunkBiomeData::new(), true, 7);
    let got = m.get_cached_chunk(&pos(3, 3), 9).unwrap();
    assert_eq!(got.data.get_block(0, 0, 0), Some(BlockType::Bedrock));
    assert!(got.is_generated);
    assert_eq!(got.last_accessed, 7);
    assert!(m.get_cached_chunk(&pos(4, 4), 9).is_none());
    m.remove_from_cache(&pos(3, 3));
    assert!(m.get_cached_chunk(&pos(3, 3), 9).is_none());
}

#[test]
fn cache_evicts_least_recently_used() {
    let mut m = ChunkManager::new(1);
    for i in 0..10 {
        m.cache_chunk(pos(i, 0), ChunkData::new(), ChunkBiomeData::new(), false, 0);
    }
    let stats = m.get_cache_stats();
    assert_eq!(stats.cached_chunks, 8);
    assert_eq!(stats.max_cache_size, 8);
    assert!(m.get_cached_chunk(&pos(0, 0), 0).is_none());
    assert!(m.get_cached_chunk(&pos(1, 0), 0).is_none());
    // Touch chunk 2 so that it is the most recently used.
    assert!(m.get_cached_chunk(&pos(2, 0), 0).is_some());
    m.cache_chunk(pos(10, 0), ChunkData::new(), ChunkBiomeData::new(), false, 0);
    assert!(m.get_cached_chunk(&pos(2, 0), 0).is_some());
    assert!(m.get_cached_chunk(&pos(3, 0), 0).is_none());
    m.optimize_cache(0);
    assert_eq!(m.get_cache_stats().cached_chunks, 0);
    assert_eq!(m.max_cache_size, 0);
    m.clear_cache();
    assert_eq!(m.get_cache_stats().cached_chunks, 0);
}

#[test]
fn neighbor_block_from_neighbor_data() {
    let mut m = ChunkManager::new(8);
    let mut east = ChunkData::new();
    east.set_block(0, 5, 7, BlockType::Stone);
    assert_eq!(m.get_neighbor_block(Some(&east), &pos(0, 0), &pos(1, 0), 15, 5, 7), None);
    m.insert_chunk(pos(1, 0), Entity::from_raw(1));
    assert_eq!(
        m.get_neighbor_block(Some(&east), &pos(0, 0), &pos(1, 0), 15, 5, 7),
        Some(BlockType::Stone)
    );
    assert_eq!(m.get_neighbor_block(None, &pos(0, 0), &pos(1, 0), 15, 5, 7), None);
}

#[test]
fn loading_pass_picks_wanted_chunks_in_scan_order() {
    let mut m = ChunkManager::new(2);
    assert_eq!(m.grid_region_size, 4);
    // The player's region (0, 0) is scanned first, cell by cell.
    let first = m.next_chunk_to_load(&pos(1, 1)).unwrap();
    assert_eq!(first, pos(0, 0));
    m.insert_chunk(first, Entity::from_raw(1));
    assert_eq!(m.next_chunk_to_load(&pos(1, 1)), Some(pos(0, 1)));
    // Nothing within render distance -1.
    let mut far = ChunkManager::new(-1);
    far.grid_region_size = 4;
    assert_eq!(far.next_chunk_to_load(&pos(0, 0)), None);
}

#[test]
fn loading_pass_fills_the_render_area() {
    let mut m = ChunkManager::new(2);
    let player = pos(0, 0);
    let mut n = 0;
    while let Some(p) = m.next_chunk_to_load(&player) {
        assert!(m.should_load_chunk(p, player));
        m.insert_chunk(p, Entity::from_raw(n));
        n += 1;
    }
    assert_eq!(n, 25);
}

#[test]
fn loading_pass_takes_at_most_two_chunks_in_scan_order() {
    let mut m = ChunkManager::new(2);
    let player = pos(1, 1);
    let plan = m.chunks_to_load(&player);
    assert_eq!(plan, vec![pos(0, 0), pos(0, 1)]);
    // The same chunks come from asking one at a time and loading each.
    let first = m.next_chunk_to_load(&player).unwrap();
    m.insert_chunk(first, Entity::from_raw(1));
    let second = m.next_chunk_to_load(&player).unwrap();
    assert_eq!(vec![first, second], plan);
    // Nothing is left to load once the whole area is loaded.
    let mut full = ChunkManager::new(1);
    let mut frames = 0;
    loop {
        let batch = full.chunks_to_load(&pos(0, 0));
        assert!(batch.len() <= 2);
        if batch.is_empty() {
            break;
        }
        for p in batch {
            assert!(full.should_load_chunk(p, pos(0, 0)));
            full.insert_chunk(p, Entity::from_raw(frames));
        }
        frames += 1;
    }
    assert_eq!(full.get_loaded_chunk_count(), 9);
    assert_eq!(frames, 5);
}

#[test]
fn unloading_pass_removes_chunks_just_beyond_render_distance() {
    let mut m = ChunkManager::new(2);
    m.insert_chunk(pos(0, 0), Entity::from_raw(1));
    m.insert_chunk(pos(3, 0), Entity::from_raw(2));
    m.insert_chunk(pos(10, 0), Entity::from_raw(3));
    let removed = m.unload_distant_chunks(&pos(0, 0));
    assert_eq!(removed, vec![(pos(3, 0), Entity::from_raw(2))]);
    assert_eq!(m.get_loaded_chunk_count(), 2);
    assert!(m.get_chunks_within_distance_spatial(&pos(0, 0), 3).iter().all(|p| *p != pos(3, 0)));
}

#[test]
fn unloading_pass_stops_after_four() {
    let mut m = ChunkManager::new(1);
    for i in 0..5 {
        m.insert_chunk(pos(2, i - 2), Entity::from_raw(i as u64));
    }
    let removed = m.unload_distant_chunks(&pos(0, 0));
    assert_eq!(removed.len(), 4);
    assert_eq!(m.get_loaded_chunk_count(), 1);
}

#[test]
fn block_types_present_lists_each_kind_once() {
    let mut d = ChunkData::new();
    assert!(d.block_types_present().is_empty());
    d.set_block(0, 0, 0, BlockType::Stone);
    d.set_block(1, 0, 0, BlockType::Air);
    d.set_block(2, 5, 0, BlockType::Stone);
    d.set_block(3, 9, 9, BlockType::Grass);
    assert_eq!(d.block_types_present(), vec![BlockType::Stone, BlockType::Grass]);
}

#[test]
fn ground_levels() {
    let mut d = ChunkData::new();
    d.set_block(1, 4, 2, BlockType::Stone);
    d.set_block(1, 9, 2, BlockType::Water);
    assert_eq!(highest_solid_y(&d, 1, 2), Some(4));
    assert_eq!(highest_solid_y(&d, 0, 0), None);
    let blocks = [
        Block::new(BlockType::Dirt, IVec3::new(17, 30, 2)),
        Block::new(BlockType::Water, IVec3::new(17, 50, 2)),
        Block::new(BlockType::Grass, IVec3::new(17, -2000, 2)),
    ];
    // The chunk's column wins when it has a solid block.
    assert_eq!(find_highest_solid_ground(17, 2, &blocks, Some(&d)), Some(4));
    // Without the chunk, the highest solid block above -1000 of the column.
    assert_eq!(find_highest_solid_ground(17, 2, &blocks, None), Some(30));
    assert_eq!(find_highest_solid_ground(5, 5, &blocks, None), None);
    assert!(check_block_at_position(IVec3::new(17, 30, 2), &blocks, None));
    assert!(!check_block_at_position(IVec3::new(17, 50, 2), &blocks, None));
    assert!(check_block_at_position(IVec3::new(-15, 4, 2), &[], Some(&d)));
    assert!(!check_block_at_position(IVec3::new(1, -1, 2), &[], Some(&d)));
}

#[test]
fn block_properties() {
    assert_eq!(BlockType::Bedrock.name(), "Bedrock");
    assert!(BlockType::Leaves.is_transparent());
    assert!(!BlockType::Stone.is_transparent());
    assert!(BlockType::Leaves.is_solid());
    assert!(!BlockType::Water.is_solid());
    let b = Block::new(BlockType::Sand, IVec3::new(1, 2, 3));
    assert_eq!(b.position, IVec3::new(1, 2, 3));
}

#[test]
fn all_neighbors_include_diagonals() {
    let mut m = ChunkManager::new(8);
    m.insert_chunk(pos(1, 1), Entity::from_raw(7));
    m.insert_chunk(pos(0, 1), Entity::from_raw(8));
    assert_eq!(
        m.get_all_neighboring_chunks(&pos(0, 0)),
        vec![(pos(0, 1), Entity::from_raw(8)), (pos(1, 1), Entity::from_raw(7))]
    );
    assert_eq!(m.get_neighboring_chunks(&pos(0, 0)), vec![(pos(0, 1), Entity::from_raw(8))]);
}
