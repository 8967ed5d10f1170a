//! Integer world coordinates: block positions and chunk columns.
use vstd::prelude::*;
use vstd::arithmetic::div_mod::lemma_fundamental_div_mod_converse;

verus! {

/// Euclidean quotient and remainder of `x` by `d` (the remainder is never
/// negative), as `i32::div_euclid` and `i32::rem_euclid` compute them.
fn div_rem_euclid(x: i32, d: i32) -> (qr: (i32, i32))
    requires
        d != 0,
        !(x == i32::MIN && d == -1),
    ensures
        qr.0 as int == x as int / d as int,
        qr.1 as int == x as int % d as int,
{
    let xx = x as i64;
    let dd = d as i64;
    let ad: i64 = if dd > 0 {
        dd
    } else {
        -dd
    };
    let (q, r): (i64, i64) = if xx >= 0 {
        let q = xx / ad;
        let r = xx % ad;
        proof {
            assert(xx == q * ad + r) by (nonlinear_arith)
                requires
                    ad > 0,
                    xx >= 0,
                    q == xx / ad,
                    r == xx % ad,
            ;
        }
        (q, r)
    } else {
        let m = -xx - 1;
        let t = m / ad;
        let u = m % ad;
        proof {
            assert(m == t * ad + u && 0 <= u < ad) by (nonlinear_arith)
                requires
                    ad > 0,
                    m >= 0,
                    t == m / ad,
                    u == m % ad,
            ;
            assert(xx == (-t - 1) * ad + (ad - u - 1)) by (nonlinear_arith)
                requires
                    m == t * ad + u,
                    m == -xx - 1,
            ;
            assert(0 <= t <= 0x8000_0000) by (nonlinear_arith)
                requires
                    ad > 0,
                    0 <= m <= 0x8000_0000,
                    t == m / ad,
            ;
        }
        (-t - 1, ad - u - 1)
    };
    proof {
        assert(xx == q * ad + r);
        assert(0 <= r < ad);
        if dd > 0 {
            lemma_fundamental_div_mod_converse(xx as int, dd as int, q as int, r as int);
        } else {
            assert(xx == (-q) * dd + r) by (nonlinear_arith)
                requires
                    xx == q * ad + r,
                    ad == -dd,
            ;
            assert(xx / dd == -q && xx % dd == r) by (nonlinear_arith)
                requires
                    xx == (-q) * dd + r,
                    0 <= r < -dd,
            ;
        }
    }
    let q2: i64 = if dd > 0 {
        q
    } else {
        -q
    };
    proof {
        assert(-0x8000_0000 <= q2 <= 0x7fff_ffff) by (nonlinear_arith)
            requires
                q2 == xx / dd,
                -0x8000_0000 <= xx <= 0x7fff_ffff,
                -0x8000_0000 <= dd <= 0x7fff_ffff,
                dd != 0,
                !(xx == -0x8000_0000 && dd == -1),
        {
            vstd::arithmetic::div_mod::lemma_div_is_ordered_by_denominator(0, 1, 1);
            if dd > 0 {
                vstd::arithmetic::div_mod::lemma_div_pos_is_pos(0, dd as int);
            }
        }
    }
    (q2 as i32, r as i32)
}

/// Integer block coordinates in the world.
#[derive(Debug, Clone, Copy, PartialEq, Eq, Hash, Structural)]
pub struct BlockPos {
    pub x: i32,
    pub y: i32,
    pub z: i32,
}

/// Coordinates of a 16×16 chunk column in the world.
#[derive(Debug, Clone, Copy, PartialEq, Eq, Hash, Structural)]
pub struct ChunkPos {
    pub x: i32,
    pub z: i32,
}

impl Default for BlockPos {
    fn default() -> (p: Self)
        ensures
            p.x == 0 && p.y == 0 && p.z == 0,
    {
        BlockPos { x: 0, y: 0, z: 0 }
    }
}

impl Default for ChunkPos {
    fn default() -> (p: Self)
        ensures
            p.x == 0 && p.z == 0,
    {
        ChunkPos { x: 0, z: 0 }
    }
}

impl std::ops::Add<BlockPos> for BlockPos {
    type Output = BlockPos;

    /// The componentwise sum; each must fit in `i32`.
    fn add(self, rhs: BlockPos) -> (p: BlockPos) {
        BlockPos { x: self.x + rhs.x, y: self.y + rhs.y, z: self.z + rhs.z }
    }
}

impl vstd::std_specs::ops::AddSpecImpl<BlockPos> for BlockPos {
    open spec fn obeys_add_spec() -> bool {
        true
    }

    open spec fn add_req(self, rhs: BlockPos) -> bool {
        &&& i32::MIN <= self.x + rhs.x <= i32::MAX
        &&& i32::MIN <= self.y + rhs.y <= i32::MAX
        &&& i32::MIN <= self.z + rhs.z <= i32::MAX
    }

    open spec fn add_spec(self, rhs: BlockPos) -> BlockPos {
        BlockPos { x: (self.x + rhs.x) as i32, y: (self.y + rhs.y) as i32, z: (self.z + rhs.z) as i32 }
    }
}

impl std::ops::Add<ChunkPos> for ChunkPos {
    type Output = ChunkPos;

    /// The componentwise sum; each must fit in `i32`.
    fn add(self, rhs: ChunkPos) -> (c: ChunkPos) {
        ChunkPos { x: self.x + rhs.x, z: self.z + rhs.z }
    }
}

impl vstd::std_specs::ops::AddSpecImpl<ChunkPos> for ChunkPos {
    open spec fn obeys_add_spec() -> bool {
        true
    }

    open spec fn add_req(self, rhs: ChunkPos) -> bool {
        &&& i32::MIN <= self.x + rhs.x <= i32::MAX
        &&& i32::MIN <= self.z + rhs.z <= i32::MAX
    }

    open spec fn add_spec(self, rhs: ChunkPos) -> ChunkPos {
        ChunkPos { x: (self.x + rhs.x) as i32, z: (self.z + rhs.z) as i32 }
    }
}

impl std::ops::Sub<ChunkPos> for ChunkPos {
    type Output = ChunkPos;

    /// The componentwise difference; each must fit in `i32`.
    fn sub(self, rhs: ChunkPos) -> (c: ChunkPos) {
        ChunkPos { x: self.x - rhs.x, z: self.z - rhs.z }
    }
}

impl vstd::std_specs::ops::SubSpecImpl<ChunkPos> for ChunkPos {
    open spec fn obeys_sub_spec() -> bool {
        true
    }

    open spec fn sub_req(self, rhs: ChunkPos) -> bool {
        &&& i32::MIN <= self.x - rhs.x <= i32::MAX
        &&& i32::MIN <= self.z - rhs.z <= i32::MAX
    }

    open spec fn sub_spec(self, rhs: ChunkPos) -> ChunkPos {
        ChunkPos { x: (self.x - rhs.x) as i32, z: (self.z - rhs.z) as i32 }
    }
}

impl BlockPos {
    pub fn new(x: i32, y: i32, z: i32) -> (p: Self)
        ensures
            p.x == x && p.y == y && p.z == z,
    {
        BlockPos { x, y, z }
    }

    /// The position moved by `(dx, dy, dz)`; each sum must fit in `i32`.
    pub fn offset(self, dx: i32, dy: i32, dz: i32) -> (p: Self)
        requires
            i32::MIN <= self.x + dx <= i32::MAX,
            i32::MIN <= self.y + dy <= i32::MAX,
            i32::MIN <= self.z + dz <= i32::MAX,
        ensures
            p.x == self.x + dx && p.y == self.y + dy && p.z == self.z + dz,
    {
        BlockPos { x: self.x + dx, y: self.y + dy, z: self.z + dz }
    }

    /// The chunk column containing this block.
    pub fn chunk_pos(self) -> (c: ChunkPos)
        ensures
            c.x == self.x as int / 16,
            c.z == self.z as int / 16,
    {
        ChunkPos::from_block(self.x, self.z)
    }

    /// Index of the section (of `section_height` blocks) holding this
    /// block; sections below zero count as zero.
    pub fn section_y(self, section_height: u32) -> (s: u32)
        requires
            section_height != 0,
            !(self.y == i32::MIN && section_height == u32::MAX),
        ensures
            s == (if (self.y as int / (section_height as i32) as int) < 0 {
                0
            } else {
                self.y as int / (section_height as i32) as int
            }),
    {
        let h = section_height as i32;
        proof {
            assert(section_height != 0 ==> section_height as i32 != 0) by (bit_vector);
            assert(section_height == u32::MAX <==> section_height as i32 == -1) by (bit_vector);
        }
        let (shifted, _) = div_rem_euclid(self.y, h);
        if shifted < 0 {
            0
        } else {
            shifted as u32
        }
    }

    /// Coordinates of this block within its section.
    pub fn section_relative(self, section_height: u32) -> (r: (u32, u32, u32))
        requires
            section_height != 0,
            !(self.y == i32::MIN && section_height == u32::MAX),
        ensures
            r.0 == self.x as int % 16,
            r.1 == self.y as int % (section_height as i32) as int,
            r.2 == self.z as int % 16,
    {
        let h = section_height as i32;
        proof {
            assert(section_height != 0 ==> section_height as i32 != 0) by (bit_vector);
            assert(section_height == u32::MAX <==> section_height as i32 == -1) by (bit_vector);
        }
        let (_, sx) = div_rem_euclid(self.x, 16);
        let (_, sy) = div_rem_euclid(self.y, h);
        let (_, sz) = div_rem_euclid(self.z, 16);
        (sx as u32, sy as u32, sz as u32)
    }
}

impl ChunkPos {
    pub fn new(x: i32, z: i32) -> (c: Self)
        ensures
            c.x == x && c.z == z,
    {
        ChunkPos { x, z }
    }

    /// The chunk column containing the block at `(block_x, block_z)`.
    pub fn from_block(block_x: i32, block_z: i32) -> (c: Self)
        ensures
            c.x == block_x as int / 16,
            c.z == block_z as int / 16,
    {
        let (x, _) = div_rem_euclid(block_x, 16);
        let (z, _) = div_rem_euclid(block_z, 16);
        ChunkPos { x, z }
    }

    /// Block coordinates of the chunk's corner; they must fit in `i32`.
    pub fn block_origin(self) -> (o: (i32, i32))
        requires
            i32::MIN <= self.x * 16 <= i32::MAX,
            i32::MIN <= self.z * 16 <= i32::MAX,
        ensures
            o.0 == self.x * 16,
            o.1 == self.z * 16,
    {
        (self.x * 16, self.z * 16)
    }

    /// The 32×32-chunk region holding this chunk.
    pub fn region_pos(self) -> (r: (i32, i32))
        ensures
            r.0 == self.x as int / 32,
            r.1 == self.z as int / 32,
    {
        let (rx, _) = div_rem_euclid(self.x, 32);
        let (rz, _) = div_rem_euclid(self.z, 32);
        (rx, rz)
    }

    /// Coordinates of this chunk inside its region.
    pub fn region_local(self) -> (r: (u32, u32))
        ensures
            r.0 == self.x as int % 32,
            r.1 == self.z as int % 32,
    {
        let (_, lx) = div_rem_euclid(self.x, 32);
        let (_, lz) = div_rem_euclid(self.z, 32);
        (lx as u32, lz as u32)
    }

    /// Squared Euclidean distance in chunks; each difference must fit in `i32`.
    pub fn square_distance(self, other: Self) -> (d: i64)
        requires
            i32::MIN <= self.x - other.x <= i32::MAX,
            i32::MIN <= self.z - other.z <= i32::MAX,
            (self.x - other.x) * (self.x - other.x) + (self.z - other.z) * (self.z - other.z)
                <= i64::MAX,
        ensures
            d == (self.x - other.x) * (self.x - other.x) + (self.z - other.z) * (self.z - other.z),
    {
        let dx = (self.x - other.x) as i64;
        let dz = (self.z - other.z) as i64;
        proof {
            assert(0 <= dx * dx <= 0x4000_0000_0000_0000) by (nonlinear_arith)
                requires
                    -0x8000_0000 <= dx <= 0x7fff_ffff,
            ;
            assert(0 <= dz * dz <= 0x4000_0000_0000_0000) by (nonlinear_arith)
                requires
                    -0x8000_0000 <= dz <= 0x7fff_ffff,
            ;
        }
        dx * dx + dz * dz
    }

    /// The larger of the coordinate distances; each difference must fit in
    /// `i32` and not be `i32::MIN`.
    pub fn chebyshev_distance(self, other: Self) -> (d: i32)
        requires
            i32::MIN < self.x - other.x <= i32::MAX,
            i32::MIN < self.z - other.z <= i32::MAX,
        ensures
            d == spec_max(spec_abs(self.x - other.x), spec_abs(self.z - other.z)),
    {
        let dx0 = self.x - other.x;
        let dz0 = self.z - other.z;
        let dx = if dx0 < 0 {
            -dx0
        } else {
            dx0
        };
        let dz = if dz0 < 0 {
            -dz0
        } else {
            dz0
        };
        if dx >= dz {
            dx
        } else {
            dz
        }
    }
}

/// Absolute value.
pub open spec fn spec_abs(v: int) -> int {
    if v < 0 {
        -v
    } else {
        v
    }
}

/// The larger of two integers.
pub open spec fn spec_max(a: int, b: int) -> int {
    if a >= b {
        a
    } else {
        b
    }
}

/// A block lies in the chunk column `from_block` names: its coordinates are
/// at least the column's corner and less than 16 past it.
pub proof fn lemma_block_in_its_chunk(bx: i32, bz: i32)
    ensures
        (bx as int / 16) * 16 <= bx < (bx as int / 16) * 16 + 16,
        (bz as int / 16) * 16 <= bz < (bz as int / 16) * 16 + 16,
{
    vstd::arithmetic::div_mod::lemma_fundamental_div_mod(bx as int, 16);
    vstd::arithmetic::div_mod::lemma_fundamental_div_mod(bz as int, 16);
}

/// A chunk is the region's corner plus its region-local coordinates, and
/// those lie in `0..32`.
pub proof fn lemma_region_decomposition(cx: i32, cz: i32)
    ensures
        (cx as int / 32) * 32 + cx as int % 32 == cx,
        (cz as int / 32) * 32 + cz as int % 32 == cz,
        0 <= cx as int % 32 < 32,
        0 <= cz as int % 32 < 32,
{
    vstd::arithmetic::div_mod::lemma_fundamental_div_mod(cx as int, 32);
    vstd::arithmetic::div_mod::lemma_fundamental_div_mod(cz as int, 32);
}

} // verus!
