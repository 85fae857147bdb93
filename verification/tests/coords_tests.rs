use bevoxel::coords::{ChunkCoord, VoxelPos, DEFAULT_CHUNK_SIZE};

#[test]
fn world_pos_round_trip() {
    for &(x, y, z) in &[(0, 0, 0), (1, -2, 3), (-7, 5, -1), (100, -100, 42)] {
        let c = ChunkCoord::new(x, y, z);
        let p = c.to_world_pos(DEFAULT_CHUNK_SIZE);
        assert_eq!(ChunkCoord::from_world_pos(p, DEFAULT_CHUNK_SIZE), c);
    }
}

#[test]
fn world_pos_containment() {
    let c = ChunkCoord::new(-3, 2, 7);
    let size = 16usize;
    let corner = c.to_world_pos(size);
    for off in [0i64, 1, 7, 15] {
        let p = VoxelPos::new(corner.x + off, corner.y + 15 - off, corner.z + off / 2);
        assert_eq!(ChunkCoord::from_world_pos(p, size), c);
    }
    let outside = VoxelPos::new(corner.x + 16, corner.y, corner.z);
    assert_ne!(ChunkCoord::from_world_pos(outside, size), c);
}

#[test]
fn negative_positions_floor_divide() {
    // -1 lies in chunk -1, not chunk 0.
    let p = VoxelPos::new(-1, -32, -33);
    let c = ChunkCoord::from_world_pos(p, 32);
    assert_eq!(c, ChunkCoord::new(-1, -1, -2));
}

#[test]
fn face_neighbors_are_six_distinct() {
    let c = ChunkCoord::new(4, -9, 2);
    let ns = c.neighbors();
    assert_eq!(ns.len(), 6);
    for i in 0..ns.len() {
        assert_ne!(ns[i], c);
        for j in 0..i {
            assert_ne!(ns[i], ns[j]);
        }
    }
    assert!(ns.contains(&ChunkCoord::new(5, -9, 2)));
    assert!(ns.contains(&ChunkCoord::new(4, -9, 1)));
}

#[test]
fn all_neighbors_are_26_distinct_adjacent() {
    let c = ChunkCoord::new(-2, 0, 11);
    let ns = c.all_neighbors();
    assert_eq!(ns.len(), 26);
    for i in 0..ns.len() {
        let n = ns[i];
        assert_ne!(n, c);
        let d = (n.x - c.x).abs().max((n.y - c.y).abs()).max((n.z - c.z).abs());
        assert_eq!(d, 1);
        for j in 0..i {
            assert_ne!(ns[i], ns[j]);
        }
    }
}

#[test]
fn neighbors_within_radius_two() {
    let c = ChunkCoord::new(0, 0, 0);
    let ns = c.neighbors_within_radius(2);
    assert_eq!(ns.len(), 5 * 5 * 5 - 1);
    assert!(ns.contains(&ChunkCoord::new(2, 2, 2)));
    assert!(ns.contains(&ChunkCoord::new(-2, 0, 1)));
    assert!(!ns.contains(&c));
    assert!(!ns.contains(&ChunkCoord::new(3, 0, 0)));
}

#[test]
fn neighbors_within_radius_zero_is_empty() {
    assert_eq!(ChunkCoord::new(1, 2, 3).neighbors_within_radius(0).len(), 0);
}
