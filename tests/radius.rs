use vinox_chunks::{ChunkManager, ChunkPos, PlayerChunk, ViewRadius};

fn pos(x: i32, y: i32, z: i32) -> ChunkPos {
    ChunkPos { x, y, z }
}

fn dist2(a: ChunkPos, b: ChunkPos) -> i64 {
    let d = |p: i32, q: i32| (p as i64 - q as i64) * (p as i64 - q as i64);
    d(a.x, b.x) + d(a.y, b.y) + d(a.z, b.z)
}

#[test]
fn radius_ten_four_around_origin() {
    let manager = ChunkManager { view_radius: ViewRadius { horizontal: 10, vertical: 4 } };
    let center = pos(0, 0, 0);
    let r = manager.get_chunk_positions(center);
    assert!(!r.is_empty());
    assert_eq!(r[0], center);
    for p in &r {
        assert!(p.x * p.x + p.z * p.z < 100);
        assert!(p.y >= 0);
        assert!(p.y < 4);
    }
    for w in r.windows(2) {
        assert!(dist2(center, w[0]) <= dist2(center, w[1]));
    }
    let disc = (-10..10)
        .flat_map(|x| (-10..10).map(move |z| (x, z)))
        .filter(|(x, z)| x * x + z * z < 100)
        .count();
    assert_eq!(r.len(), disc * 8);
    let zero_height = r.iter().filter(|p| p.x == 0 && p.z == 0 && p.y == 0).count();
    assert_eq!(zero_height, 5);
}

#[test]
fn radius_offsets_are_in_chunk_units() {
    let manager = ChunkManager { view_radius: ViewRadius { horizontal: 2, vertical: 1 } };
    let center = pos(10, 5, -3);
    let mut r = manager.get_chunk_positions(center);
    assert_eq!(r[0], center);
    r.sort_by_key(|p| (p.x, p.y, p.z));
    let mut expected = Vec::new();
    for x in -2..2 {
        for z in -2..2 {
            if x * x + z * z < 4 {
                for y in -1..1 {
                    expected.push(pos(10 + x, 5 + y, -3 + z));
                }
            }
        }
    }
    expected.sort_by_key(|p| (p.x, p.y, p.z));
    assert_eq!(r, expected);
}

#[test]
fn radius_below_floor_is_raised() {
    let manager = ChunkManager { view_radius: ViewRadius { horizontal: 1, vertical: 3 } };
    let r = manager.get_chunk_positions(pos(0, -10, 0));
    assert_eq!(r.len(), 6);
    for p in &r {
        assert_eq!(*p, pos(0, 0, 0));
    }
}

#[test]
fn zero_radius_gives_nothing() {
    let manager = ChunkManager { view_radius: ViewRadius { horizontal: 0, vertical: 4 } };
    assert!(manager.get_chunk_positions(pos(1, 2, 3)).is_empty());
    let manager = ChunkManager { view_radius: ViewRadius { horizontal: 4, vertical: 0 } };
    assert!(manager.get_chunk_positions(pos(1, 2, 3)).is_empty());
}

#[test]
fn beyond_radius_is_reported() {
    let player = PlayerChunk { chunk_pos: pos(0, 0, 0) };
    let radius = ViewRadius { horizontal: 2, vertical: 1 };
    assert!(!player.is_in_radius(pos(0, 0, 0), &radius));
    assert!(!player.is_in_radius(pos(32, 16, 0), &radius));
    assert!(player.is_in_radius(pos(33, 0, 0), &radius));
    assert!(player.is_in_radius(pos(0, 17, 0), &radius));
    assert!(player.is_in_radius(pos(24, 0, 24), &radius));
    assert!(!player.is_in_radius(pos(1000, 1000, 1000), &ViewRadius { horizontal: 0, vertical: 1 }));
}
