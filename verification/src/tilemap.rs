//! Coordinates on the triangular grid and their exact world-space model.
//!
//! A vertex of the grid is an integer point in the lattice basis: `x` runs
//! towards the right of the viewport, `y` towards the upper right, the two
//! basis vectors meeting at 60 degrees.  A triangular face is named by its
//! left vertex plus whether it points up or down.
//!
//! World positions are kept exact: a [`WorldPos`] stores lattice coordinates
//! in fixed point, with [`WORLD_SCALE`] subdivisions per lattice unit.  The
//! embedding converts screen pixels to and from this representation with the
//! (irrational) orthogonal basis; everything the puzzle rules depend on --
//! rounding to a vertex, picking a face under a point, squared distances --
//! happens here in integers.

use vstd::prelude::*;

verus! {

/// Fixed-point subdivisions of one lattice unit in world coordinates.
pub const WORLD_SCALE: i64 = 1200;

/// Half of [`WORLD_SCALE`], used when rounding to the nearest vertex.
pub const WORLD_SCALE_HALF: i64 = 600;

/// Magnitude bound on vertex components accepted by the rotation helpers;
/// keeps every intermediate of the integer rotation inside `i64`.
pub const ROTATE_LIMIT: i64 = 1_000_000_000_000_000_000;

/// Magnitude bound on vertex components accepted by the world conversions;
/// keeps `vertex * WORLD_SCALE` plus the largest face offset inside `i64`.
pub const WORLD_VERTEX_LIMIT: i64 = 7_000_000_000_000_000;

/// Magnitude bound on world coordinates accepted by [`VertexCoord::from_world_pos`]
/// and [`TileCoord::from_world_pos`]; leaves room for the rounding offset.
pub const WORLD_POS_LIMIT: i64 = 9_000_000_000_000_000_000;

/// Layer at which triangle tiles are drawn.
pub const TRIANGLE_LAYER: i64 = 500;

/// Layer at which rune tiles are drawn.
pub const RUNE_LAYER: i64 = 600;

/// A vertex of the triangular grid, in the lattice basis.
#[derive(Clone, Copy, Debug, PartialEq, Eq, Structural, Hash, Default)]
pub struct VertexCoord {
    pub x: i64,
    pub y: i64,
}

impl View for VertexCoord {
    type V = (int, int);

    open spec fn view(&self) -> (int, int) {
        (self.x as int, self.y as int)
    }
}

impl VertexCoord {
    pub fn new(x: i64, y: i64) -> (r: VertexCoord)
        ensures
            r@ == (x as int, y as int),
    {
        VertexCoord { x, y }
    }
}

/// Whether a triangular face points up or down.  A face pointing down is
/// drawn vertically mirrored.
#[derive(Clone, Copy, Debug, PartialEq, Eq, Structural, Hash, Default)]
pub enum TriangleOrient {
    #[default]
    PointingUp,
    PointingDown,
}

/// One triangular face: its left vertex plus its orientation.
#[derive(Clone, Copy, Debug, PartialEq, Eq, Structural, Hash, Default)]
pub struct TileCoord {
    pub vertex: VertexCoord,
    pub orient: TriangleOrient,
}

impl View for TileCoord {
    type V = ((int, int), TriangleOrient);

    open spec fn view(&self) -> ((int, int), TriangleOrient) {
        (self.vertex@, self.orient)
    }
}

impl TileCoord {
    pub fn new(vertex: VertexCoord, orient: TriangleOrient) -> (r: TileCoord)
        ensures
            r@ == (vertex@, orient),
    {
        TileCoord { vertex, orient }
    }
}

/// A movable triangle tile, identified by the face it occupies.
#[derive(Clone, Copy, Debug, PartialEq, Eq, Structural, Default)]
pub struct TriangleTile {
    pub position: TileCoord,
}

/// A decorative rune goal, satisfied when a triangle covers its face.
#[derive(Clone, Copy, Debug, PartialEq, Eq, Structural, Default)]
pub struct RuneTile {
    pub position: TileCoord,
}

/// An exact world position: lattice coordinates in fixed point, with
/// [`WORLD_SCALE`] subdivisions per lattice unit.
#[derive(Clone, Copy, Debug, PartialEq, Eq, Structural, Default)]
pub struct WorldPos {
    pub x: i64,
    pub y: i64,
}

impl View for WorldPos {
    type V = (int, int);

    open spec fn view(&self) -> (int, int) {
        (self.x as int, self.y as int)
    }
}

impl WorldPos {
    pub fn new(x: i64, y: i64) -> (r: WorldPos)
        ensures
            r@ == (x as int, y as int),
    {
        WorldPos { x, y }
    }
}

/// A world placement for rendering: exact position, draw layer, and whether
/// the sprite is vertically mirrored.
#[derive(Clone, Copy, Debug, PartialEq, Eq, Structural)]
pub struct WorldTransform {
    pub pos: WorldPos,
    pub layer: i64,
    pub flipped: bool,
}

/// Both components of a lattice point lie within [`ROTATE_LIMIT`].
pub open spec fn in_rotate_range(v: (int, int)) -> bool {
    -ROTATE_LIMIT <= v.0 <= ROTATE_LIMIT && -ROTATE_LIMIT <= v.1 <= ROTATE_LIMIT
}

/// Both components of a lattice point lie within [`WORLD_VERTEX_LIMIT`].
pub open spec fn in_world_vertex_range(v: (int, int)) -> bool {
    -WORLD_VERTEX_LIMIT <= v.0 <= WORLD_VERTEX_LIMIT && -WORLD_VERTEX_LIMIT <= v.1
        <= WORLD_VERTEX_LIMIT
}

/// Both components of a world position lie within [`WORLD_POS_LIMIT`].
pub open spec fn in_world_pos_range(p: (int, int)) -> bool {
    -WORLD_POS_LIMIT <= p.0 <= WORLD_POS_LIMIT && -WORLD_POS_LIMIT <= p.1 <= WORLD_POS_LIMIT
}

/// The sixth-turn clockwise rotation of `v` around `a` in the lattice basis:
/// the displacement `(dx, dy)` becomes `(dx + dy, -dx)`.
pub open spec fn rotate_vertex_cw(v: (int, int), a: (int, int)) -> (int, int) {
    (a.0 + (v.0 - a.0) + (v.1 - a.1), a.1 - (v.0 - a.0))
}

/// The sixth-turn counter-clockwise rotation of `v` around `a`: the
/// displacement `(dx, dy)` becomes `(-dy, dx + dy)`.
pub open spec fn rotate_vertex_ccw(v: (int, int), a: (int, int)) -> (int, int) {
    (a.0 - (v.1 - a.1), a.1 + (v.0 - a.0) + (v.1 - a.1))
}

/// A face rotated a sixth turn clockwise around the vertex `a`.  The left
/// vertex of a rotated face is a different corner of the triangle, hence the
/// orientation-dependent correction.
pub open spec fn spec_rotated_clockwise(
    t: ((int, int), TriangleOrient),
    a: (int, int),
) -> ((int, int), TriangleOrient) {
    let p = rotate_vertex_cw(t.0, a);
    match t.1 {
        TriangleOrient::PointingUp => (p, TriangleOrient::PointingDown),
        TriangleOrient::PointingDown => ((p.0, p.1 - 1), TriangleOrient::PointingUp),
    }
}

/// A face rotated a sixth turn counter-clockwise around the vertex `a`.
pub open spec fn spec_rotated_counter_clockwise(
    t: ((int, int), TriangleOrient),
    a: (int, int),
) -> ((int, int), TriangleOrient) {
    let p = rotate_vertex_ccw(t.0, a);
    match t.1 {
        TriangleOrient::PointingUp => ((p.0 - 1, p.1 + 1), TriangleOrient::PointingDown),
        TriangleOrient::PointingDown => (p, TriangleOrient::PointingUp),
    }
}

/// The three faces sharing an edge with `t`; all have the opposite
/// orientation.
pub open spec fn spec_neighbors(
    t: ((int, int), TriangleOrient),
) -> Seq<((int, int), TriangleOrient)> {
    let v = t.0;
    match t.1 {
        TriangleOrient::PointingUp => seq![
            ((v.0, v.1), TriangleOrient::PointingDown),
            ((v.0 - 1, v.1 + 1), TriangleOrient::PointingDown),
            ((v.0, v.1 + 1), TriangleOrient::PointingDown),
        ],
        TriangleOrient::PointingDown => seq![
            ((v.0, v.1), TriangleOrient::PointingUp),
            ((v.0 + 1, v.1 - 1), TriangleOrient::PointingUp),
            ((v.0, v.1 - 1), TriangleOrient::PointingUp),
        ],
    }
}

/// The exact world position of a lattice vertex.
pub open spec fn spec_vertex_to_world(v: (int, int)) -> (int, int) {
    (v.0 * WORLD_SCALE, v.1 * WORLD_SCALE)
}

/// One fixed-point world coordinate rounded to the nearest lattice unit,
/// halves away from zero.
pub open spec fn spec_round_coord(x: int) -> int {
    if x >= 0 {
        (x + WORLD_SCALE_HALF) / (WORLD_SCALE as int)
    } else {
        -(((-x) + WORLD_SCALE_HALF) / (WORLD_SCALE as int))
    }
}

/// The lattice vertex nearest to a world position.
pub open spec fn spec_vertex_from_world(p: (int, int)) -> (int, int) {
    (spec_round_coord(p.0), spec_round_coord(p.1))
}

/// The face that contains a world position: the fractional parts of the
/// lattice coordinates split the unit rhombus into a lower-left face
/// pointing up and an upper-right face pointing down.
pub open spec fn spec_tile_from_world(p: (int, int)) -> ((int, int), TriangleOrient) {
    let s = WORLD_SCALE as int;
    let bx = p.0 / s;
    let by = p.1 / s;
    let fx = p.0 % s;
    let fy = p.1 % s;
    if fx + fy <= s {
        ((bx, by), TriangleOrient::PointingUp)
    } else {
        ((bx, by + 1), TriangleOrient::PointingDown)
    }
}

/// Squared world distance between two positions, in units of
/// `(side / WORLD_SCALE)^2`.  In the 60-degree lattice basis the squared
/// length of a displacement `(dx, dy)` is `dx^2 + dx*dy + dy^2`.
pub open spec fn spec_dist_sq(p: (int, int), q: (int, int)) -> int {
    let dx = p.0 - q.0;
    let dy = p.1 - q.1;
    dx * dx + dx * dy + dy * dy
}

/// Corner `k` (0, 1 or 2) of a face, as a lattice vertex.  A face pointing
/// up at `v` has corners `v`, `v + (1, 0)` and `v + (0, 1)`; one pointing
/// down at `v` has corners `v`, `v + (1, 0)` and `v + (1, -1)`.
pub open spec fn spec_corner_vertex(t: ((int, int), TriangleOrient), k: int) -> (int, int) {
    let v = t.0;
    match t.1 {
        TriangleOrient::PointingUp => {
            if k == 0 {
                v
            } else if k == 1 {
                (v.0 + 1, v.1)
            } else {
                (v.0, v.1 + 1)
            }
        },
        TriangleOrient::PointingDown => {
            if k == 0 {
                v
            } else if k == 1 {
                (v.0 + 1, v.1)
            } else {
                (v.0 + 1, v.1 - 1)
            }
        },
    }
}

/// Rotating counter-clockwise and then clockwise around the same anchor
/// returns every face to where it started; the two gestures are exact
/// inverses (and so are their mirror compositions).
pub proof fn lemma_rotation_inverses(t: ((int, int), TriangleOrient), a: (int, int))
    ensures
        spec_rotated_clockwise(spec_rotated_counter_clockwise(t, a), a) == t,
        spec_rotated_counter_clockwise(spec_rotated_clockwise(t, a), a) == t,
{
}

/// Six clockwise sixth turns around any anchor are the identity: the
/// triangular lattice has six-fold symmetry around each vertex.
pub proof fn lemma_rotation_six_fold(t: ((int, int), TriangleOrient), a: (int, int))
    ensures
        spec_rotated_clockwise(
            spec_rotated_clockwise(
                spec_rotated_clockwise(
                    spec_rotated_clockwise(
                        spec_rotated_clockwise(spec_rotated_clockwise(t, a), a),
                        a,
                    ),
                    a,
                ),
                a,
            ),
            a,
        ) == t,
{
}

/// Every face has exactly three neighbors, each of the opposite orientation,
/// and adjacency is symmetric: `t` is a neighbor of each of its neighbors.
pub proof fn lemma_neighbor_symmetry(t: ((int, int), TriangleOrient))
    ensures
        spec_neighbors(t).len() == 3,
        forall|i: int|
            0 <= i < 3 ==> #[trigger] spec_neighbors(t)[i].1 != t.1,
        forall|i: int|
            0 <= i < 3 ==> #[trigger] spec_neighbors(spec_neighbors(t)[i]).contains(t),
{
    assert forall|i: int| 0 <= i < 3 implies #[trigger] spec_neighbors(
        spec_neighbors(t)[i],
    ).contains(t) by {
        let n = spec_neighbors(t)[i];
        assert(spec_neighbors(n)[i] == t);
    }
}

/// Converting a vertex to world space and rounding back is exact: the world
/// embedding of the lattice is injective and rounding inverts it.
pub proof fn lemma_world_round_trip(v: (int, int))
    ensures
        spec_vertex_from_world(spec_vertex_to_world(v)) == v,
{
    lemma_round_coord_exact(v.0);
    lemma_round_coord_exact(v.1);
}

proof fn lemma_round_coord_exact(x: int)
    ensures
        spec_round_coord(x * WORLD_SCALE) == x,
{
    let s = WORLD_SCALE as int;
    if x >= 0 {
        assert((x * s + WORLD_SCALE_HALF) / s == x) by (nonlinear_arith)
            requires
                x >= 0,
                s == 1200,
                WORLD_SCALE_HALF == 600,
        ;
    } else {
        assert((-(x * s) + WORLD_SCALE_HALF) / s == -x) by (nonlinear_arith)
            requires
                x < 0,
                s == 1200,
                WORLD_SCALE_HALF == 600,
        ;
    }
}

impl TileCoord {
    /// The face a sixth turn clockwise around `anchor`.
    pub fn rotated_clockwise(&self, anchor: VertexCoord) -> (r: TileCoord)
        requires
            in_rotate_range(self.vertex@),
            in_rotate_range(anchor@),
        ensures
            r@ == spec_rotated_clockwise(self@, anchor@),
    {
        let dx = self.vertex.x - anchor.x;
        let dy = self.vertex.y - anchor.y;
        let px = anchor.x + dx + dy;
        let py = anchor.y - dx;
        match self.orient {
            TriangleOrient::PointingUp => TileCoord {
                vertex: VertexCoord { x: px, y: py },
                orient: TriangleOrient::PointingDown,
            },
            TriangleOrient::PointingDown => TileCoord {
                vertex: VertexCoord { x: px, y: py - 1 },
                orient: TriangleOrient::PointingUp,
            },
        }
    }

    /// The face a sixth turn counter-clockwise around `anchor`.
    pub fn rotated_counter_clockwise(&self, anchor: VertexCoord) -> (r: TileCoord)
        requires
            in_rotate_range(self.vertex@),
            in_rotate_range(anchor@),
        ensures
            r@ == spec_rotated_counter_clockwise(self@, anchor@),
    {
        let dx = self.vertex.x - anchor.x;
        let dy = self.vertex.y - anchor.y;
        let px = anchor.x - dy;
        let py = anchor.y + dx + dy;
        match self.orient {
            TriangleOrient::PointingUp => TileCoord {
                vertex: VertexCoord { x: px - 1, y: py + 1 },
                orient: TriangleOrient::PointingDown,
            },
            TriangleOrient::PointingDown => TileCoord {
                vertex: VertexCoord { x: px, y: py },
                orient: TriangleOrient::PointingUp,
            },
        }
    }

    /// Corner `k` (0, 1 or 2) of this face, as a lattice vertex.
    pub fn corner_vertex(&self, k: u8) -> (r: VertexCoord)
        requires
            in_rotate_range(self.vertex@),
            k < 3,
        ensures
            r@ == spec_corner_vertex(self@, k as int),
    {
        let v = self.vertex;
        match self.orient {
            TriangleOrient::PointingUp => {
                if k == 0 {
                    v
                } else if k == 1 {
                    VertexCoord { x: v.x + 1, y: v.y }
                } else {
                    VertexCoord { x: v.x, y: v.y + 1 }
                }
            },
            TriangleOrient::PointingDown => {
                if k == 0 {
                    v
                } else if k == 1 {
                    VertexCoord { x: v.x + 1, y: v.y }
                } else {
                    VertexCoord { x: v.x + 1, y: v.y - 1 }
                }
            },
        }
    }

    /// The three faces sharing an edge with this one, all of the opposite
    /// orientation.
    pub fn iter_neighbors(&self) -> (r: Vec<TileCoord>)
        requires
            in_rotate_range(self.vertex@),
        ensures
            r@.len() == spec_neighbors(self@).len(),
            forall|i: int| 0 <= i < r@.len() ==> #[trigger] r@[i]@ == spec_neighbors(self@)[i],
    {
        let v = self.vertex;
        let mut r: Vec<TileCoord> = Vec::new();
        match self.orient {
            TriangleOrient::PointingUp => {
                r.push(TileCoord {
                    vertex: v,
                    orient: TriangleOrient::PointingDown,
                });
                r.push(TileCoord {
                    vertex: VertexCoord { x: v.x - 1, y: v.y + 1 },
                    orient: TriangleOrient::PointingDown,
                });
                r.push(TileCoord {
                    vertex: VertexCoord { x: v.x, y: v.y + 1 },
                    orient: TriangleOrient::PointingDown,
                });
            },
            TriangleOrient::PointingDown => {
                r.push(TileCoord {
                    vertex: v,
                    orient: TriangleOrient::PointingUp,
                });
                r.push(TileCoord {
                    vertex: VertexCoord { x: v.x + 1, y: v.y - 1 },
                    orient: TriangleOrient::PointingUp,
                });
                r.push(TileCoord {
                    vertex: VertexCoord { x: v.x, y: v.y - 1 },
                    orient: TriangleOrient::PointingUp,
                });
            },
        }
        r
    }
}

impl VertexCoord {
    /// The exact world position of this vertex.
    pub fn to_world_pos(&self) -> (r: WorldPos)
        requires
            in_world_vertex_range(self@),
        ensures
            r@ == spec_vertex_to_world(self@),
    {
        WorldPos { x: self.x * WORLD_SCALE, y: self.y * WORLD_SCALE }
    }

    /// The lattice vertex nearest to a world position, halves rounded away
    /// from zero.
    pub fn from_world_pos(pos: WorldPos) -> (r: VertexCoord)
        requires
            in_world_pos_range(pos@),
        ensures
            r@ == spec_vertex_from_world(pos@),
    {
        VertexCoord { x: round_coord(pos.x), y: round_coord(pos.y) }
    }
}

/// One fixed-point coordinate rounded to the nearest lattice unit.
fn round_coord(x: i64) -> (r: i64)
    requires
        -WORLD_POS_LIMIT <= x <= WORLD_POS_LIMIT,
    ensures
        r as int == spec_round_coord(x as int),
{
    if x >= 0 {
        (x + WORLD_SCALE_HALF) / WORLD_SCALE
    } else {
        -((-x + WORLD_SCALE_HALF) / WORLD_SCALE)
    }
}

/// One fixed-point coordinate divided into its lattice unit (floor) and
/// non-negative fractional part.
fn floor_coord(x: i64) -> (r: (i64, i64))
    requires
        -WORLD_POS_LIMIT <= x <= WORLD_POS_LIMIT,
    ensures
        r.0 as int == (x as int) / (WORLD_SCALE as int),
        r.1 as int == (x as int) % (WORLD_SCALE as int),
{
    if x >= 0 {
        (x / WORLD_SCALE, x % WORLD_SCALE)
    } else {
        let m = -x % WORLD_SCALE;
        if m == 0 {
            (x / WORLD_SCALE, 0)
        } else {
            (-((-x + WORLD_SCALE - 1) / WORLD_SCALE), WORLD_SCALE - m)
        }
    }
}

impl TileCoord {
    /// The face of the grid containing a world position.
    pub fn from_world_pos(pos: WorldPos) -> (r: TileCoord)
        requires
            in_world_pos_range(pos@),
        ensures
            r@ == spec_tile_from_world(pos@),
    {
        let (bx, fx) = floor_coord(pos.x);
        let (by, fy) = floor_coord(pos.y);
        if fx + fy <= WORLD_SCALE {
            TileCoord {
                vertex: VertexCoord { x: bx, y: by },
                orient: TriangleOrient::PointingUp,
            }
        } else {
            TileCoord {
                vertex: VertexCoord { x: bx, y: by + 1 },
                orient: TriangleOrient::PointingDown,
            }
        }
    }
}

impl TriangleTile {
    /// The world placement of this tile: the position of its left vertex on
    /// the triangle layer, mirrored when the face points down.
    pub fn to_world_pos(&self) -> (r: WorldTransform)
        requires
            in_world_vertex_range(self.position.vertex@),
        ensures
            r.pos@ == spec_vertex_to_world(self.position.vertex@),
            r.layer == TRIANGLE_LAYER,
            r.flipped == (self.position.orient is PointingDown),
    {
        WorldTransform {
            pos: WorldPos {
                x: self.position.vertex.x * WORLD_SCALE,
                y: self.position.vertex.y * WORLD_SCALE,
            },
            layer: TRIANGLE_LAYER,
            flipped: match self.position.orient {
                TriangleOrient::PointingUp => false,
                TriangleOrient::PointingDown => true,
            },
        }
    }
}

/// The offset from a face's left vertex to the centroid of that face, in
/// fixed-point world units.
pub open spec fn spec_rune_offset(orient: TriangleOrient) -> (int, int) {
    match orient {
        TriangleOrient::PointingUp => (WORLD_SCALE as int / 3, WORLD_SCALE as int / 3),
        TriangleOrient::PointingDown => (2 * (WORLD_SCALE as int) / 3, -(WORLD_SCALE as int) / 3),
    }
}

impl RuneTile {
    /// The world placement of this rune: the centroid of its face on the
    /// rune layer.
    pub fn to_world_pos(&self) -> (r: WorldTransform)
        requires
            in_world_vertex_range(self.position.vertex@),
        ensures
            r.pos@.0 == spec_vertex_to_world(self.position.vertex@).0 + spec_rune_offset(
                self.position.orient,
            ).0,
            r.pos@.1 == spec_vertex_to_world(self.position.vertex@).1 + spec_rune_offset(
                self.position.orient,
            ).1,
            r.layer == RUNE_LAYER,
            !r.flipped,
    {
        let base_x = self.position.vertex.x * WORLD_SCALE;
        let base_y = self.position.vertex.y * WORLD_SCALE;
        let (ox, oy): (i64, i64) = match self.position.orient {
            TriangleOrient::PointingUp => (WORLD_SCALE / 3, WORLD_SCALE / 3),
            TriangleOrient::PointingDown => (2 * WORLD_SCALE / 3, -(WORLD_SCALE / 3)),
        };
        WorldTransform {
            pos: WorldPos { x: base_x + ox, y: base_y + oy },
            layer: RUNE_LAYER,
            flipped: false,
        }
    }
}

} // verus!
