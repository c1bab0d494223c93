use vinox_chunks::{
    add_sea, add_surface, generate_chunk_from_caves, BlockData, BlockDescriptor, BlockTable,
    ChunkData, ChunkPos, VoxelVisibility, TOTAL_CHUNK_SIZE,
};

fn block(name: &str) -> BlockData {
    BlockData::new("vinox".to_string(), name.to_string())
}

fn table() -> BlockTable {
    let mut t = BlockTable::new();
    let d = |v| BlockDescriptor { visibility: Some(v), has_direction: false, exclusive_direction: false };
    t.insert("vinox:air".to_string(), d(VoxelVisibility::Empty));
    t.insert("vinox:stone".to_string(), d(VoxelVisibility::Opaque));
    t.insert("vinox:grass".to_string(), d(VoxelVisibility::Opaque));
    t
}

#[test]
fn surface_turns_exposed_ground_to_grass() {
    let mut chunk = ChunkData::default();
    for z in 0..16 {
        for x in 0..16 {
            for y in 0..5 {
                chunk.set(x, y, z, block("stone"));
            }
        }
    }
    chunk.set(4, 15, 4, block("stone"));
    add_surface(&mut chunk, ChunkPos { x: 0, y: 0, z: 0 }, &table());
    assert_eq!(chunk.get(0, 4, 0), block("grass"));
    assert_eq!(chunk.get(0, 3, 0), block("stone"));
    assert_eq!(chunk.get(0, 5, 0), BlockData::default());
    assert_eq!(chunk.get(4, 15, 4), block("grass"));
    assert_eq!(chunk.get(15, 4, 15), block("grass"));
}

#[test]
fn sea_fills_empty_voxels_at_and_below_sea_level() {
    let t = table();
    let mut below = ChunkData::default();
    below.set(1, 1, 1, block("stone"));
    add_sea(&mut below, ChunkPos { x: 0, y: -1, z: 0 }, &t);
    assert_eq!(below.get(0, 0, 0), block("water"));
    assert_eq!(below.get(1, 1, 1), block("stone"));
    assert_eq!(below.get(15, 15, 15), block("water"));

    let mut at = ChunkData::default();
    add_sea(&mut at, ChunkPos { x: 3, y: 0, z: 3 }, &t);
    assert_eq!(at.get(2, 0, 2), block("water.divot"));
    assert_eq!(at.get(2, 1, 2), BlockData::default());

    let mut above = ChunkData::default();
    add_sea(&mut above, ChunkPos { x: 0, y: 1, z: 0 }, &t);
    assert!(above.is_uniform());
    assert_eq!(above.get(0, 0, 0), BlockData::default());
}

#[test]
fn caves_become_air_and_the_rest_stone() {
    let caves: Vec<bool> = (0..TOTAL_CHUNK_SIZE).map(|i| i % 3 == 0).collect();
    let chunk = ChunkData::from_raw(generate_chunk_from_caves(&caves));
    for i in 0..TOTAL_CHUNK_SIZE {
        let (x, y, z) = ChunkData::delinearize(i);
        if i % 3 == 0 {
            assert_eq!(chunk.get(x, y, z), block("air"));
        } else {
            assert_eq!(chunk.get(x, y, z), block("worley"));
        }
    }
    let solid = ChunkData::from_raw(generate_chunk_from_caves(&vec![false; TOTAL_CHUNK_SIZE]));
    assert_eq!(solid.get(7, 7, 7), block("worley"));
}
