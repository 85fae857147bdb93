//! Chunk coordinates and their relation to world-space voxel positions.

use vstd::prelude::*;
use vstd::arithmetic::div_mod::lemma_fundamental_div_mod_converse_div;

verus! {

/// Edge length, in voxels, of a chunk when no other size is configured.
pub const DEFAULT_CHUNK_SIZE: usize = 32;

/// Largest supported chunk edge length.
pub const MAX_CHUNK_SIZE: usize = 256;

/// The chunk edge lengths the world accepts.
pub open spec fn valid_chunk_size(size: usize) -> bool {
    1 <= size <= MAX_CHUNK_SIZE
}

/// Position of a voxel cell in world space, in whole voxels.
#[derive(Clone, Copy, Debug, PartialEq, Eq, Structural)]
pub struct VoxelPos {
    pub x: i64,
    pub y: i64,
    pub z: i64,
}

impl VoxelPos {
    pub fn new(x: i64, y: i64, z: i64) -> (r: VoxelPos)
        ensures
            r == (VoxelPos { x, y, z }),
    {
        VoxelPos { x, y, z }
    }

    /// True when every axis lies in the range addressable by chunk
    /// coordinates of the given chunk size.
    pub open spec fn in_chunk_range(self, size: usize) -> bool {
        &&& i32::MIN * size <= self.x < (i32::MAX + 1) * size
        &&& i32::MIN * size <= self.y < (i32::MAX + 1) * size
        &&& i32::MIN * size <= self.z < (i32::MAX + 1) * size
    }
}

/// Coordinate of a chunk in the uniform grid of side `size`.
#[derive(Clone, Copy, Debug, PartialEq, Eq, Structural)]
pub struct ChunkCoord {
    pub x: i32,
    pub y: i32,
    pub z: i32,
}

/// Floor division of a world axis value by the chunk size.
pub open spec fn chunk_axis(v: int, size: int) -> int {
    v / size
}

impl ChunkCoord {
    pub fn new(x: i32, y: i32, z: i32) -> (c: ChunkCoord)
        ensures
            c == (ChunkCoord { x, y, z }),
    {
        ChunkCoord { x, y, z }
    }

    /// The chunk that owns a world voxel: floor division on each axis.
    pub open spec fn spec_from_world_pos(pos: VoxelPos, size: usize) -> ChunkCoord {
        ChunkCoord {
            x: chunk_axis(pos.x as int, size as int) as i32,
            y: chunk_axis(pos.y as int, size as int) as i32,
            z: chunk_axis(pos.z as int, size as int) as i32,
        }
    }

    /// The minimum-corner world voxel of this chunk.
    pub open spec fn spec_to_world_pos(self, size: usize) -> VoxelPos {
        VoxelPos {
            x: (self.x * size) as i64,
            y: (self.y * size) as i64,
            z: (self.z * size) as i64,
        }
    }

    pub fn from_world_pos(pos: VoxelPos, size: usize) -> (c: ChunkCoord)
        requires
            valid_chunk_size(size),
            pos.in_chunk_range(size),
        ensures
            c == ChunkCoord::spec_from_world_pos(pos, size),
    {
        let s = size as i64;
        proof {
            lemma_axis_quotient_fits(pos.x as int, size as int);
            lemma_axis_quotient_fits(pos.y as int, size as int);
            lemma_axis_quotient_fits(pos.z as int, size as int);
        }
        let qx = pos.x.checked_div_euclid(s).unwrap();
        let qy = pos.y.checked_div_euclid(s).unwrap();
        let qz = pos.z.checked_div_euclid(s).unwrap();
        ChunkCoord { x: qx as i32, y: qy as i32, z: qz as i32 }
    }

    pub fn to_world_pos(self, size: usize) -> (pos: VoxelPos)
        requires
            valid_chunk_size(size),
        ensures
            pos == self.spec_to_world_pos(size),
    {
        proof {
            lemma_axis_world_fits(self.x as int, size as int);
            lemma_axis_world_fits(self.y as int, size as int);
            lemma_axis_world_fits(self.z as int, size as int);
        }
        VoxelPos {
            x: (self.x as i64) * (size as i64),
            y: (self.y as i64) * (size as i64),
            z: (self.z as i64) * (size as i64),
        }
    }
}

/// The product of a chunk axis and a chunk size stays far inside `i64`.
pub proof fn lemma_axis_world_fits(a: int, size: int)
    requires
        i32::MIN <= a <= i32::MAX,
        1 <= size <= MAX_CHUNK_SIZE,
    ensures
        -0x100_0000_0000 <= a * size <= 0x100_0000_0000,
{
    assert(-0x100_0000_0000 <= a * size <= 0x100_0000_0000) by (nonlinear_arith)
        requires
            i32::MIN <= a <= i32::MAX,
            1 <= size <= 256,
    ;
}

/// Distance between two values on one axis.
pub open spec fn axis_dist(a: int, b: int) -> int {
    if a >= b {
        a - b
    } else {
        b - a
    }
}

/// Chebyshev distance between two chunk coordinates: the largest per-axis
/// absolute difference.
pub open spec fn cheb_dist(a: ChunkCoord, b: ChunkCoord) -> int {
    let dx = axis_dist(a.x as int, b.x as int);
    let dy = axis_dist(a.y as int, b.y as int);
    let dz = axis_dist(a.z as int, b.z as int);
    if dx >= dy && dx >= dz {
        dx
    } else if dy >= dz {
        dy
    } else {
        dz
    }
}

/// Squared Euclidean distance between two chunk coordinates.
pub open spec fn eucl_dist_sq(a: ChunkCoord, b: ChunkCoord) -> int {
    (a.x - b.x) * (a.x - b.x) + (a.y - b.y) * (a.y - b.y) + (a.z - b.z) * (a.z - b.z)
}

impl ChunkCoord {
    /// Every axis can be moved by up to `r` in either direction without
    /// leaving the `i32` range.
    pub open spec fn can_offset(self, r: int) -> bool {
        &&& i32::MIN + r <= self.x <= i32::MAX - r
        &&& i32::MIN + r <= self.y <= i32::MAX - r
        &&& i32::MIN + r <= self.z <= i32::MAX - r
    }

    /// The six face-adjacent chunk coordinates, in the fixed order
    /// +X, -X, +Y, -Y, +Z, -Z.
    pub open spec fn spec_face_neighbors(self) -> Seq<ChunkCoord> {
        seq![
            ChunkCoord { x: (self.x + 1) as i32, y: self.y, z: self.z },
            ChunkCoord { x: (self.x - 1) as i32, y: self.y, z: self.z },
            ChunkCoord { x: self.x, y: (self.y + 1) as i32, z: self.z },
            ChunkCoord { x: self.x, y: (self.y - 1) as i32, z: self.z },
            ChunkCoord { x: self.x, y: self.y, z: (self.z + 1) as i32 },
            ChunkCoord { x: self.x, y: self.y, z: (self.z - 1) as i32 },
        ]
    }

    /// The 6 face-adjacent coordinates.
    pub fn neighbors(self) -> (r: Vec<ChunkCoord>)
        requires
            self.can_offset(1),
        ensures
            r@ == self.spec_face_neighbors(),
    {
        let mut out: Vec<ChunkCoord> = Vec::new();
        out.push(ChunkCoord { x: self.x + 1, y: self.y, z: self.z });
        out.push(ChunkCoord { x: self.x - 1, y: self.y, z: self.z });
        out.push(ChunkCoord { x: self.x, y: self.y + 1, z: self.z });
        out.push(ChunkCoord { x: self.x, y: self.y - 1, z: self.z });
        out.push(ChunkCoord { x: self.x, y: self.y, z: self.z + 1 });
        out.push(ChunkCoord { x: self.x, y: self.y, z: self.z - 1 });
        proof {
            assert(out@ =~= self.spec_face_neighbors());
        }
        out
    }

    /// All chunk coordinates within cubic (Chebyshev) radius `radius` of
    /// `self`, excluding `self` itself, in ascending x, then y, then z order
    /// of the offsets.
    pub fn neighbors_within_radius(self, radius: i32) -> (r: Vec<ChunkCoord>)
        requires
            0 <= radius,
            self.can_offset(radius as int),
        ensures
            forall|i: int, j: int| 0 <= i < j < r@.len() ==> r@[i] != r@[j],
            forall|i: int|
                0 <= i < r@.len() ==> 1 <= cheb_dist(self, #[trigger] r@[i]) <= radius,
            forall|d: ChunkCoord| 1 <= cheb_dist(self, d) <= radius ==> r@.contains(d),
    {
        let mut out: Vec<ChunkCoord> = Vec::new();
        let rad = radius as i64;
        let mut dx: i64 = -rad;
        while dx <= rad
            invariant
                rad == radius as int,
                0 <= rad,
                self.can_offset(rad as int),
                -rad <= dx <= rad + 1,
                forall|i: int, j: int| 0 <= i < j < out@.len() ==> out@[i] != out@[j],
                forall|i: int|
                    0 <= i < out@.len() ==> 1 <= cheb_dist(self, #[trigger] out@[i]) <= rad,
                forall|d: ChunkCoord|
                    #[trigger] out@.contains(d) <==> 1 <= cheb_dist(self, d) <= rad
                        && d.x - self.x < dx,
            decreases rad + 1 - dx,
        {
            let mut dy: i64 = -rad;
            while dy <= rad
                invariant
                    rad == radius as int,
                    0 <= rad,
                    self.can_offset(rad as int),
                    -rad <= dx <= rad,
                    -rad <= dy <= rad + 1,
                    forall|i: int, j: int| 0 <= i < j < out@.len() ==> out@[i] != out@[j],
                    forall|i: int|
                        0 <= i < out@.len() ==> 1 <= cheb_dist(self, #[trigger] out@[i]) <= rad,
                    forall|d: ChunkCoord|
                        #[trigger] out@.contains(d) <==> 1 <= cheb_dist(self, d) <= rad
                            && (d.x - self.x < dx || (d.x - self.x == dx && d.y - self.y < dy)),
                decreases rad + 1 - dy,
            {
                let mut dz: i64 = -rad;
                while dz <= rad
                    invariant
                        rad == radius as int,
                        0 <= rad,
                        self.can_offset(rad as int),
                        -rad <= dx <= rad,
                        -rad <= dy <= rad,
                        -rad <= dz <= rad + 1,
                        forall|i: int, j: int| 0 <= i < j < out@.len() ==> out@[i] != out@[j],
                        forall|i: int|
                            0 <= i < out@.len() ==> 1 <= cheb_dist(self, #[trigger] out@[i]) <= rad,
                        forall|d: ChunkCoord|
                            #[trigger] out@.contains(d) <==> 1 <= cheb_dist(self, d) <= rad
                                && (d.x - self.x < dx || (d.x - self.x == dx && (d.y - self.y < dy
                                    || (d.y - self.y == dy && d.z - self.z < dz)))),
                    decreases rad + 1 - dz,
                {
                    if !(dx == 0 && dy == 0 && dz == 0) {
                        let nb = ChunkCoord {
                            x: (self.x as i64 + dx) as i32,
                            y: (self.y as i64 + dy) as i32,
                            z: (self.z as i64 + dz) as i32,
                        };
                        let ghost prev = out@;
                        out.push(nb);
                        proof {
                            assert(1 <= cheb_dist(self, nb) <= rad);
                            assert(!prev.contains(nb));
                            assert forall|d: ChunkCoord|
                                #[trigger] out@.contains(d) <==> (prev.contains(d) || d == nb)
                            by {
                                if out@.contains(d) {
                                    let i = choose|i: int|
                                        0 <= i < out@.len() && out@[i] == d;
                                    if i < prev.len() {
                                        assert(prev[i] == d);
                                    }
                                } else {
                                    if prev.contains(d) {
                                        let i = choose|i: int|
                                            0 <= i < prev.len() && prev[i] == d;
                                        assert(out@[i] == d);
                                    }
                                    assert(out@[prev.len() as int] == nb);
                                }
                            }
                        }
                    }
                    dz = dz + 1;
                }
                dy = dy + 1;
            }
            dx = dx + 1;
        }
        out
    }

    /// The 26 face-, edge- and corner-adjacent chunk coordinates.
    pub fn all_neighbors(self) -> (r: Vec<ChunkCoord>)
        requires
            self.can_offset(1),
        ensures
            r@.len() == 26,
            forall|i: int, j: int| 0 <= i < j < r@.len() ==> r@[i] != r@[j],
            forall|i: int| 0 <= i < r@.len() ==> cheb_dist(self, #[trigger] r@[i]) == 1,
            forall|i: int| 0 <= i < r@.len() ==> #[trigger] r@[i] != self,
            forall|d: ChunkCoord| cheb_dist(self, d) == 1 ==> r@.contains(d),
    {
        let out = self.neighbors_within_radius(1);
        proof {
            lemma_ring_one_count(self, out@);
        }
        out
    }
}

/// A duplicate-free sequence holding exactly the coordinates at Chebyshev
/// distance 1 from `c` has 26 elements.
proof fn lemma_ring_one_count(c: ChunkCoord, s: Seq<ChunkCoord>)
    requires
        c.can_offset(1),
        forall|i: int, j: int| 0 <= i < j < s.len() ==> s[i] != s[j],
        forall|i: int| 0 <= i < s.len() ==> 1 <= cheb_dist(c, #[trigger] s[i]) <= 1,
        forall|d: ChunkCoord| 1 <= cheb_dist(c, d) <= 1 ==> s.contains(d),
    ensures
        s.len() == 26,
{
    let ring = Set::new(|d: ChunkCoord| cheb_dist(c, d) == 1);
    let f = |i: int| s[i];
    assert(s.to_set() =~= ring) by {
        assert forall|d: ChunkCoord| ring.contains(d) implies s.to_set().contains(d) by {
            assert(s.contains(d));
        }
        assert forall|d: ChunkCoord| s.to_set().contains(d) implies ring.contains(d) by {
            let i = choose|i: int| 0 <= i < s.len() && s[i] == d;
            assert(cheb_dist(c, s[i]) == 1);
        }
    }
    assert(s.no_duplicates()) by {
        assert forall|i: int, j: int|
            0 <= i < s.len() && 0 <= j < s.len() && i != j implies s[i] != s[j] by {
            if i < j {
                assert(s[i] != s[j]);
            } else {
                assert(s[j] != s[i]);
            }
        }
    }
    s.unique_seq_to_set();
    lemma_ring_one_is_26(c);
}

/// The set of coordinates at Chebyshev distance 1 from `c` has exactly 26
/// elements: the 27 offsets of a 3x3x3 cube, minus the center.
proof fn lemma_ring_one_is_26(c: ChunkCoord)
    requires
        c.can_offset(1),
    ensures
        Set::new(|d: ChunkCoord| cheb_dist(c, d) == 1).finite(),
        Set::new(|d: ChunkCoord| cheb_dist(c, d) == 1).len() == 26,
{
    let ring = Set::new(|d: ChunkCoord| cheb_dist(c, d) == 1);
    let explicit = explicit_ring(c);
    assert(ring =~= explicit.to_set()) by {
        assert forall|d: ChunkCoord| ring.contains(d) implies explicit.to_set().contains(d) by {
            lemma_explicit_ring_complete(c, d);
        }
        assert forall|d: ChunkCoord| explicit.to_set().contains(d) implies ring.contains(d) by {
            let i = choose|i: int| 0 <= i < explicit.len() && explicit[i] == d;
            assert(cheb_dist(c, explicit[i]) == 1);
        }
    }
    assert(explicit.no_duplicates()) by {
        assert forall|i: int, j: int|
            0 <= i < explicit.len() && 0 <= j < explicit.len() && i != j
            implies explicit[i] != explicit[j] by {
            lemma_ring_elem_injective(c, i, j);
        }
    }
    explicit.unique_seq_to_set();
}

/// The 26 coordinates at Chebyshev distance 1 from `c`, written out.
spec fn explicit_ring(c: ChunkCoord) -> Seq<ChunkCoord> {
    Seq::new(26, |i: int| ring_elem(c, i))
}

/// Decodes index `i` in `0..26` to an offset triple in `{-1,0,1}^3`, skipping
/// the all-zero triple, and applies it to `c`.
spec fn ring_elem(c: ChunkCoord, i: int) -> ChunkCoord {
    let k = if i < 13 { i } else { i + 1 };
    ChunkCoord {
        x: (c.x + k / 9 - 1) as i32,
        y: (c.y + (k % 9) / 3 - 1) as i32,
        z: (c.z + k % 3 - 1) as i32,
    }
}

/// Distinct indices decode to distinct ring coordinates.
proof fn lemma_ring_elem_injective(c: ChunkCoord, i: int, j: int)
    requires
        c.can_offset(1),
        0 <= i < 26,
        0 <= j < 26,
        i != j,
    ensures
        ring_elem(c, i) != ring_elem(c, j),
{
    let ki = if i < 13 { i } else { i + 1 };
    let kj = if j < 13 { j } else { j + 1 };
    assert(ki != kj);
    if ring_elem(c, i) == ring_elem(c, j) {
        assert(ki / 9 == kj / 9);
        assert((ki % 9) / 3 == (kj % 9) / 3);
        assert(ki % 3 == kj % 3);
        assert(ki == 9 * (ki / 9) + 3 * ((ki % 9) / 3) + ki % 3);
        assert(kj == 9 * (kj / 9) + 3 * ((kj % 9) / 3) + kj % 3);
        assert(false);
    }
}

/// Every coordinate at Chebyshev distance 1 from `c` appears in the explicit
/// ring enumeration.
proof fn lemma_explicit_ring_complete(c: ChunkCoord, d: ChunkCoord)
    requires
        c.can_offset(1),
        cheb_dist(c, d) == 1,
    ensures
        explicit_ring(c).contains(d),
{
    let ox = d.x - c.x;
    let oy = d.y - c.y;
    let oz = d.z - c.z;
    assert(-1 <= ox <= 1 && -1 <= oy <= 1 && -1 <= oz <= 1);
    assert(!(ox == 0 && oy == 0 && oz == 0));
    let k = (ox + 1) * 9 + (oy + 1) * 3 + (oz + 1);
    let i = if k < 13 { k } else { k - 1 };
    assert(0 <= i < 26);
    assert(ring_elem(c, i) == d);
    assert(explicit_ring(c)[i] == d);
}

/// The owning chunk's span contains the world voxel: every position maps
/// to a chunk whose bounds include it.
pub proof fn lemma_owner_bounds(p: VoxelPos, size: usize)
    requires
        valid_chunk_size(size),
        p.in_chunk_range(size),
    ensures
        ({
            let c = ChunkCoord::spec_from_world_pos(p, size);
            &&& c.spec_to_world_pos(size).x <= p.x < c.spec_to_world_pos(size).x + size
            &&& c.spec_to_world_pos(size).y <= p.y < c.spec_to_world_pos(size).y + size
            &&& c.spec_to_world_pos(size).z <= p.z < c.spec_to_world_pos(size).z + size
        }),
{
    lemma_axis_owner(p.x as int, size as int);
    lemma_axis_owner(p.y as int, size as int);
    lemma_axis_owner(p.z as int, size as int);
}

/// One axis of the owner-bounds fact.
proof fn lemma_axis_owner(v: int, size: int)
    requires
        1 <= size <= 256,
        i32::MIN * size <= v < (i32::MAX + 1) * size,
    ensures
        ({
            let q = chunk_axis(v, size);
            &&& (q as i32) == q
            &&& q * size <= v < q * size + size
            &&& -0x100_0000_0000 <= q * size <= 0x100_0000_0000
        }),
{
    lemma_axis_quotient_fits(v, size);
    vstd::arithmetic::div_mod::lemma_fundamental_div_mod(v, size);
    vstd::arithmetic::div_mod::lemma_mod_division_less_than_divisor(v, size);
    let q = chunk_axis(v, size);
    assert(q * size == size * q) by (nonlinear_arith);
    lemma_axis_world_fits(q, size);
}

/// For an axis value in chunk range, the floor quotient fits in an `i32`.
proof fn lemma_axis_quotient_fits(v: int, size: int)
    requires
        1 <= size,
        i32::MIN * size <= v < (i32::MAX + 1) * size,
    ensures
        i32::MIN <= v / size <= i32::MAX,
{
    let q = v / size;
    let r = v % size;
    vstd::arithmetic::div_mod::lemma_fundamental_div_mod(v, size);
    vstd::arithmetic::div_mod::lemma_mod_division_less_than_divisor(v, size);
    assert(v == size * q + r);
    if q < i32::MIN {
        assert(false) by (nonlinear_arith)
            requires
                1 <= size,
                q <= i32::MIN - 1,
                v == size * q + r,
                0 <= r < size,
                i32::MIN * size <= v,
        ;
    }
    if q > i32::MAX {
        assert(false) by (nonlinear_arith)
            requires
                1 <= size,
                q >= i32::MAX + 1,
                v == size * q + r,
                0 <= r < size,
                v < (i32::MAX + 1) * size,
        ;
    }
}

/// Round trip: a chunk's minimum corner maps back to the chunk, and so does
/// every world voxel strictly inside the chunk's bounds.
pub proof fn lemma_world_pos_round_trip(c: ChunkCoord, size: usize)
    requires
        valid_chunk_size(size),
    ensures
        ChunkCoord::spec_from_world_pos(c.spec_to_world_pos(size), size) == c,
{
    let s = size as int;
    lemma_axis_world_fits(c.x as int, s);
    lemma_axis_world_fits(c.y as int, s);
    lemma_axis_world_fits(c.z as int, s);
    lemma_fundamental_div_mod_converse_div(c.x as int * s, s, c.x as int, 0);
    lemma_fundamental_div_mod_converse_div(c.y as int * s, s, c.y as int, 0);
    lemma_fundamental_div_mod_converse_div(c.z as int * s, s, c.z as int, 0);
}

/// Containment: every world voxel whose axes lie inside chunk `c`'s bounds
/// maps to `c`.
pub proof fn lemma_world_pos_containment(c: ChunkCoord, p: VoxelPos, size: usize)
    requires
        valid_chunk_size(size),
        c.spec_to_world_pos(size).x <= p.x < c.spec_to_world_pos(size).x + size,
        c.spec_to_world_pos(size).y <= p.y < c.spec_to_world_pos(size).y + size,
        c.spec_to_world_pos(size).z <= p.z < c.spec_to_world_pos(size).z + size,
    ensures
        ChunkCoord::spec_from_world_pos(p, size) == c,
{
    let s = size as int;
    lemma_axis_world_fits(c.x as int, s);
    lemma_axis_world_fits(c.y as int, s);
    lemma_axis_world_fits(c.z as int, s);
    lemma_fundamental_div_mod_converse_div(p.x as int, s, c.x as int, p.x - c.x * s);
    lemma_fundamental_div_mod_converse_div(p.y as int, s, c.y as int, p.y - c.y * s);
    lemma_fundamental_div_mod_converse_div(p.z as int, s, c.z as int, p.z - c.z * s);
}

} // verus!
