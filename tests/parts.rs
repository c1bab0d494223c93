use vinox_chunks::{BlockData, ChunkData, RawChunk, Storage, StorageParts, CHUNK_SIZE};

fn block(name: &str) -> BlockData {
    BlockData::new("vinox".to_string(), name.to_string())
}

// Two-bit little-endian indices, one per voxel.
fn pack(indices: &[usize]) -> Vec<bool> {
    indices.iter().flat_map(|&i| [i & 1 == 1, i & 2 == 2]).collect()
}

#[test]
fn chunk_parts_round_trip() {
    let mut chunk = ChunkData::default();
    for i in 0..300usize {
        chunk.set(i % 16, (i / 16) % 16, (i / 7) % 16, block(&format!("m{}", i % 6)));
    }
    let parts = chunk.to_raw().to_parts();
    assert!(matches!(parts, StorageParts::Multi { .. }));
    let back = ChunkData::from_raw(RawChunk::from_parts(parts).expect("valid parts"));
    for x in 0..CHUNK_SIZE {
        for y in 0..CHUNK_SIZE {
            for z in 0..CHUNK_SIZE {
                assert_eq!(back.get(x, y, z), chunk.get(x, y, z));
            }
        }
    }
}

#[test]
fn uniform_parts_round_trip() {
    let parts = ChunkData::default().to_raw().to_parts();
    match &parts {
        StorageParts::Single { size, voxel } => {
            assert_eq!(*size, 4096);
            assert_eq!(*voxel, BlockData::default());
        }
        StorageParts::Multi { .. } => panic!("expected the uniform form"),
    }
    let back = ChunkData::from_raw(RawChunk::from_parts(parts).expect("valid parts"));
    assert!(back.is_uniform());
}

#[test]
fn palette_parts_decode() {
    let parts = StorageParts::Multi {
        size: 4,
        palette: vec![(block("air"), 2), (block("dirt"), 1), (block("stone"), 1)],
        indices_length: 2,
        data: pack(&[0, 1, 0, 2]),
    };
    let s = Storage::from_parts(parts).expect("valid parts");
    assert_eq!(s.get(0), block("air"));
    assert_eq!(s.get(1), block("dirt"));
    assert_eq!(s.get(2), block("air"));
    assert_eq!(s.get(3), block("stone"));
}

#[test]
fn parts_with_a_wrong_count_are_rejected() {
    let parts = StorageParts::Multi {
        size: 4,
        palette: vec![(block("air"), 3), (block("dirt"), 1)],
        indices_length: 2,
        data: pack(&[0, 1, 0, 1]),
    };
    assert!(Storage::from_parts(parts).is_none());
}

#[test]
fn parts_with_a_missing_entry_are_rejected() {
    let parts = StorageParts::Multi {
        size: 2,
        palette: vec![(block("air"), 1)],
        indices_length: 2,
        data: pack(&[0, 3]),
    };
    assert!(Storage::from_parts(parts).is_none());
}

#[test]
fn parts_with_duplicate_live_values_are_rejected() {
    let parts = StorageParts::Multi {
        size: 2,
        palette: vec![(block("air"), 1), (block("air"), 1)],
        indices_length: 2,
        data: pack(&[0, 1]),
    };
    assert!(Storage::from_parts(parts).is_none());
    let with_hole = StorageParts::Multi {
        size: 2,
        palette: vec![(block("air"), 2), (block("air"), 0)],
        indices_length: 2,
        data: pack(&[0, 0]),
    };
    assert!(Storage::from_parts(with_hole).is_some());
}

#[test]
fn parts_with_a_bad_width_or_length_are_rejected() {
    let odd_width = StorageParts::Multi {
        size: 1,
        palette: vec![(block("air"), 1)],
        indices_length: 3,
        data: vec![false; 3],
    };
    assert!(Storage::from_parts(odd_width).is_none());
    let short = StorageParts::Multi {
        size: 2,
        palette: vec![(block("air"), 2)],
        indices_length: 2,
        data: vec![false; 3],
    };
    assert!(Storage::from_parts(short).is_none());
    let crowded = StorageParts::Multi {
        size: 5,
        palette: (0..5).map(|i| (block(&format!("p{}", i)), 1)).collect(),
        indices_length: 2,
        data: vec![false; 10],
    };
    assert!(Storage::from_parts(crowded).is_none());
}

#[test]
fn parts_of_another_volume_are_not_a_chunk() {
    let parts = StorageParts::Single { size: 8, voxel: block("air") };
    assert!(RawChunk::from_parts(parts).is_none());
    let s = Storage::from_parts(StorageParts::Single { size: 8, voxel: block("air") });
    assert!(s.is_some());
}

#[test]
fn storage_parts_list_palette_and_indices() {
    let mut s = Storage::new(3);
    s.set(1, block("dirt"));
    match s.to_parts() {
        StorageParts::Multi { size, palette, indices_length, data } => {
            assert_eq!(size, 3);
            assert_eq!(palette, vec![(BlockData::default(), 2), (block("dirt"), 1)]);
            assert_eq!(indices_length, 2);
            assert_eq!(data, pack(&[0, 1, 0]));
        }
        StorageParts::Single { .. } => panic!("expected the palette form"),
    }
}

#[test]
fn fifth_distinct_value_widens_indices() {
    let mut s = Storage::new(8);
    for (i, n) in ["a", "b", "c"].iter().enumerate() {
        s.set(i, block(n));
    }
    match s.to_parts() {
        StorageParts::Multi { indices_length, palette, .. } => {
            assert_eq!(indices_length, 2);
            assert_eq!(palette.len(), 4);
        }
        StorageParts::Single { .. } => panic!("expected the palette form"),
    }
    s.set(3, block("d"));
    match s.to_parts() {
        StorageParts::Multi { indices_length, palette, .. } => {
            assert_eq!(indices_length, 4);
            assert_eq!(palette.len(), 5);
            assert_eq!(palette[4], (block("d"), 1));
            assert_eq!(palette[0], (BlockData::default(), 4));
        }
        StorageParts::Single { .. } => panic!("expected the palette form"),
    }
    for (i, n) in ["a", "b", "c", "d"].iter().enumerate() {
        assert_eq!(s.get(i), block(n));
    }
}

#[test]
fn promotion_gives_one_entry_and_two_bit_indices() {
    let mut s = Storage::new(5);
    s.set(2, BlockData::default());
    assert!(matches!(s.to_parts(), StorageParts::Single { .. }));
    s.set(2, block("dirt"));
    match s.to_parts() {
        StorageParts::Multi { size, palette, indices_length, data } => {
            assert_eq!(size, 5);
            assert_eq!(indices_length, 2);
            assert_eq!(palette, vec![(BlockData::default(), 4), (block("dirt"), 1)]);
            assert_eq!(data, pack(&[0, 0, 1, 0, 0]));
        }
        StorageParts::Single { .. } => panic!("expected the palette form"),
    }
}
