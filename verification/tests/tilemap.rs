use magnate::tilemap::{
    RuneTile, TileCoord, TriangleOrient, TriangleTile, VertexCoord, WorldPos, RUNE_LAYER,
    TRIANGLE_LAYER, WORLD_SCALE,
};

fn up(x: i64, y: i64) -> TileCoord {
    TileCoord::new(VertexCoord::new(x, y), TriangleOrient::PointingUp)
}

fn down(x: i64, y: i64) -> TileCoord {
    TileCoord::new(VertexCoord::new(x, y), TriangleOrient::PointingDown)
}

#[test]
fn test_rotation() {
    assert_eq!(
        up(0, 0).rotated_clockwise(VertexCoord::new(0, 0)),
        down(0, 0)
    );
    assert_eq!(
        up(0, 0).rotated_counter_clockwise(VertexCoord::new(0, 0)),
        down(-1, 1)
    );
    assert_eq!(
        down(0, 0).rotated_clockwise(VertexCoord::new(1, 0)),
        up(0, 0)
    );
}

#[test]
fn rotations_cancel() {
    let anchors = [
        VertexCoord::new(0, 0),
        VertexCoord::new(3, -2),
        VertexCoord::new(-7, 11),
    ];
    let tiles = [up(0, 0), down(5, 4), up(-3, 9), down(-2, -2)];
    for &a in &anchors {
        for &t in &tiles {
            assert_eq!(t.rotated_counter_clockwise(a).rotated_clockwise(a), t);
            assert_eq!(t.rotated_clockwise(a).rotated_counter_clockwise(a), t);
        }
    }
}

#[test]
fn six_turns_are_identity() {
    let a = VertexCoord::new(2, -1);
    let tiles = [up(0, 0), down(4, -3), up(-5, 2)];
    for &t in &tiles {
        let mut r = t;
        for _ in 0..6 {
            r = r.rotated_clockwise(a);
        }
        assert_eq!(r, t);
        let mut r = t;
        for _ in 0..6 {
            r = r.rotated_counter_clockwise(a);
        }
        assert_eq!(r, t);
    }
}

#[test]
fn neighbors_exact_values() {
    let n = up(0, 0).iter_neighbors();
    assert_eq!(n.len(), 3);
    assert_eq!(n[0], down(0, 0));
    assert_eq!(n[1], down(-1, 1));
    assert_eq!(n[2], down(0, 1));
    let n = down(0, 0).iter_neighbors();
    assert_eq!(n.len(), 3);
    assert_eq!(n[0], up(0, 0));
    assert_eq!(n[1], up(1, -1));
    assert_eq!(n[2], up(0, -1));
}

#[test]
fn neighbors_are_symmetric_and_opposite() {
    let tiles = [up(0, 0), down(3, 5), up(-4, 1), down(-6, -6)];
    for &t in &tiles {
        let ns = t.iter_neighbors();
        assert_eq!(ns.len(), 3);
        for &n in &ns {
            assert_ne!(n.orient, t.orient);
            assert!(n.iter_neighbors().contains(&t));
        }
    }
}

#[test]
fn world_round_trip_is_exact() {
    let vs = [
        VertexCoord::new(0, 0),
        VertexCoord::new(1, 0),
        VertexCoord::new(0, 1),
        VertexCoord::new(-17, 23),
        VertexCoord::new(600_000, -600_000),
    ];
    for &v in &vs {
        assert_eq!(VertexCoord::from_world_pos(v.to_world_pos()), v);
    }
}

#[test]
fn vertex_rounding_is_nearest_half_away() {
    assert_eq!(
        VertexCoord::from_world_pos(WorldPos::new(599, 0)),
        VertexCoord::new(0, 0)
    );
    assert_eq!(
        VertexCoord::from_world_pos(WorldPos::new(600, 0)),
        VertexCoord::new(1, 0)
    );
    assert_eq!(
        VertexCoord::from_world_pos(WorldPos::new(-599, -599)),
        VertexCoord::new(0, 0)
    );
    assert_eq!(
        VertexCoord::from_world_pos(WorldPos::new(-600, 1801)),
        VertexCoord::new(-1, 2)
    );
}

#[test]
fn face_under_point() {
    // low fractional parts: the upward face of the unit rhombus
    assert_eq!(
        TileCoord::from_world_pos(WorldPos::new(100, 100)),
        up(0, 0)
    );
    // high fractional parts: the downward face, named by base + (0, 1)
    assert_eq!(
        TileCoord::from_world_pos(WorldPos::new(1100, 1150)),
        down(0, 1)
    );
    // exactly on the diagonal counts as pointing up
    assert_eq!(
        TileCoord::from_world_pos(WorldPos::new(600, 600)),
        up(0, 0)
    );
    // negative coordinates floor correctly
    assert_eq!(
        TileCoord::from_world_pos(WorldPos::new(-100, -100)),
        down(-1, 0)
    );
}

#[test]
fn triangle_world_transform() {
    let t = TriangleTile { position: up(2, 3) };
    let w = t.to_world_pos();
    assert_eq!(w.pos, WorldPos::new(2 * WORLD_SCALE, 3 * WORLD_SCALE));
    assert_eq!(w.layer, TRIANGLE_LAYER);
    assert!(!w.flipped);
    let t = TriangleTile { position: down(2, 3) };
    assert!(t.to_world_pos().flipped);
}

#[test]
fn rune_world_transform() {
    let r = RuneTile { position: up(0, 0) };
    let w = r.to_world_pos();
    assert_eq!(w.pos, WorldPos::new(400, 400));
    assert_eq!(w.layer, RUNE_LAYER);
    assert!(!w.flipped);
    let r = RuneTile { position: down(0, 0) };
    assert_eq!(r.to_world_pos().pos, WorldPos::new(800, -400));
}

#[test]
fn corner_vertices() {
    assert_eq!(up(0, 0).corner_vertex(0), VertexCoord::new(0, 0));
    assert_eq!(up(0, 0).corner_vertex(1), VertexCoord::new(1, 0));
    assert_eq!(up(0, 0).corner_vertex(2), VertexCoord::new(0, 1));
    assert_eq!(down(0, 0).corner_vertex(0), VertexCoord::new(0, 0));
    assert_eq!(down(0, 0).corner_vertex(1), VertexCoord::new(1, 0));
    assert_eq!(down(0, 0).corner_vertex(2), VertexCoord::new(1, -1));
}
