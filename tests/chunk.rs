use vinox_chunks::{
    BlockData, BlockDescriptor, BlockTable, ChunkData, VoxelVisibility, CHUNK_SIZE,
    TOTAL_CHUNK_SIZE,
};

fn block(name: &str) -> BlockData {
    BlockData::new("vinox".to_string(), name.to_string())
}

#[test]
fn scenario_dirt_and_stone() {
    let mut chunk = ChunkData::default();
    chunk.set(0, 0, 0, block("dirt"));
    chunk.set(15, 15, 15, block("stone"));
    chunk.set(0, 0, 0, block("dirt"));
    assert!(!chunk.is_uniform());
    assert_eq!(chunk.get(0, 0, 0), block("dirt"));
    assert_eq!(chunk.get(1, 1, 1), BlockData::default());
    assert_eq!(chunk.get(15, 15, 15), block("stone"));
    let entries = chunk.to_raw().palette_entries();
    let live: Vec<&(BlockData, usize)> = entries.iter().filter(|(_, c)| *c > 0).collect();
    assert!(live.len() <= 3);
    assert_eq!(live.len(), 3);
    let count_of = |b: &BlockData| entries.iter().filter(|(v, _)| v == b).map(|(_, c)| *c).sum::<usize>();
    assert_eq!(count_of(&BlockData::default()), 16 * 16 * 16 - 2);
    assert_eq!(count_of(&block("dirt")), 1);
    assert_eq!(count_of(&block("stone")), 1);
}

#[test]
fn fresh_chunk_is_uniform_air() {
    let chunk = ChunkData::default();
    assert!(chunk.is_uniform());
    assert!(chunk.is_dirty());
    for z in 0..CHUNK_SIZE {
        for y in 0..CHUNK_SIZE {
            for x in 0..CHUNK_SIZE {
                assert_eq!(chunk.get(x, y, z), BlockData::default());
            }
        }
    }
    assert_eq!(chunk.get_identifier(3, 4, 5), "vinox:air");
}

#[test]
fn snapshot_round_trip() {
    let mut chunk = ChunkData::default();
    for i in 0..200usize {
        let name = format!("b{}", i % 9);
        chunk.set(i % 16, (i / 16) % 16, (i * 7) % 16, block(&name));
    }
    chunk.set_dirty(true);
    let restored = ChunkData::from_raw(chunk.to_raw());
    assert!(!restored.is_dirty());
    assert_eq!(restored.is_uniform(), chunk.is_uniform());
    for z in 0..CHUNK_SIZE {
        for y in 0..CHUNK_SIZE {
            for x in 0..CHUNK_SIZE {
                assert_eq!(restored.get(x, y, z), chunk.get(x, y, z));
            }
        }
    }
}

#[test]
fn uniform_snapshot_round_trip() {
    let chunk = ChunkData::default();
    let raw = chunk.to_raw();
    assert!(raw.palette_entries().is_empty());
    let restored = ChunkData::from_raw(raw.clone());
    assert!(restored.is_uniform());
    assert_eq!(restored.get(9, 9, 9), BlockData::default());
}

#[test]
fn linearize_is_x_fastest() {
    assert_eq!(ChunkData::linearize(0, 0, 0), 0);
    assert_eq!(ChunkData::linearize(1, 0, 0), 1);
    assert_eq!(ChunkData::linearize(0, 1, 0), 16);
    assert_eq!(ChunkData::linearize(0, 0, 1), 256);
    assert_eq!(ChunkData::linearize(15, 15, 15), 4095);
    assert_eq!(ChunkData::delinearize(4095), (15, 15, 15));
    assert_eq!(ChunkData::delinearize(0x123), (3, 2, 1));
    for i in 0..TOTAL_CHUNK_SIZE {
        let (x, y, z) = ChunkData::delinearize(i);
        assert_eq!(ChunkData::linearize(x, y, z), i);
    }
    assert_eq!(ChunkData::size(), 4096);
    assert_eq!(ChunkData::edge(), 16);
}

#[test]
fn writes_mark_dirty() {
    let mut chunk = ChunkData::from_raw(ChunkData::default().to_raw());
    assert!(!chunk.is_dirty());
    chunk.set(1, 2, 3, block("dirt"));
    assert!(chunk.is_dirty());
    chunk.set_dirty(false);
    assert!(!chunk.is_dirty());
    assert_eq!(chunk.get_identifier(1, 2, 3), "vinox:dirt");
}

#[test]
fn trim_runs_after_the_write_threshold() {
    let mut chunk = ChunkData::default();
    chunk.set(0, 0, 0, block("dirt"));
    chunk.set(0, 0, 0, BlockData::default());
    assert!(!chunk.is_uniform());
    for _ in 0..498 {
        chunk.set(5, 5, 5, BlockData::default());
    }
    assert!(!chunk.is_uniform());
    chunk.set(5, 5, 5, BlockData::default());
    assert!(chunk.is_uniform());
}

#[test]
fn explicit_trim() {
    let mut chunk = ChunkData::default();
    chunk.set(2, 2, 2, block("dirt"));
    chunk.set(2, 2, 2, BlockData::default());
    assert!(!chunk.is_uniform());
    chunk.trim();
    assert!(chunk.is_uniform());
}

#[test]
fn emptiness_of_a_chunk() {
    let mut table = BlockTable::new();
    let d = |v| BlockDescriptor { visibility: Some(v), has_direction: false, exclusive_direction: false };
    table.insert("vinox:air".to_string(), d(VoxelVisibility::Empty));
    table.insert("vinox:stone".to_string(), d(VoxelVisibility::Opaque));
    let mut chunk = ChunkData::default();
    assert!(chunk.is_empty(&table));
    chunk.set(3, 3, 3, block("stone"));
    assert!(!chunk.is_empty(&table));
    let mut solid = ChunkData::default();
    for i in 0..TOTAL_CHUNK_SIZE {
        let (x, y, z) = ChunkData::delinearize(i);
        solid.set(x, y, z, block("stone"));
    }
    solid.trim();
    assert!(solid.is_uniform());
    assert!(!solid.is_empty(&table));
    assert!(!ChunkData::default().is_empty(&BlockTable::new()));
}
