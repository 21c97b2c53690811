//! Fixed-size chunks of blocks and their derived visibility masks.
//!
//! A chunk is a dense `SIZE_X x SIZE_Y x SIZE_Z` grid of block values,
//! addressed by local coordinates, together with three parallel grids of
//! bitmasks derived from it: one bit per face (6), per edge (12) and per
//! corner (8) of every voxel.  A bit is set when the neighbouring voxel in
//! that direction is transparent; a probe that leaves the chunk counts as
//! transparent.  The masks are recomputed as a whole by [`Chunk::process_sides`]
//! and are stale after any edit until it runs again.

use vstd::prelude::*;
use crate::block::Block;

verus! {

/// Extent of a chunk along the x axis.
pub const SIZE_X: usize = 32;

/// Extent of a chunk along the y axis.
pub const SIZE_Y: usize = 32;

/// Extent of a chunk along the z axis (the vertical axis of the storage grid).
pub const SIZE_Z: usize = 64;

/// Number of voxels in a chunk: `SIZE_X * SIZE_Y * SIZE_Z`.
pub const VOLUME: usize = 65536;

/// Per-voxel face visibility bits, one per side direction.
pub type BlockSides = u8;

/// Per-voxel edge visibility bits, one per edge direction.
pub type BlockEdges = u32;

/// Per-voxel corner visibility bits, one per corner direction.
pub type BlockCorners = u8;

/// Local coordinates of a voxel within a chunk, each in `[0, SIZE)`.
#[derive(Clone, Copy, Debug, PartialEq, Eq, Structural)]
pub struct ChunkBlockIndex {
    pub x: usize,
    pub y: usize,
    pub z: usize,
}

impl ChunkBlockIndex {
    /// In-bounds local coordinates.
    pub open spec fn wf(self) -> bool {
        in_bounds(self.x as int, self.y as int, self.z as int)
    }

    #[inline]
    pub fn new(x: usize, y: usize, z: usize) -> (r: ChunkBlockIndex)
        ensures
            r.x == x,
            r.y == y,
            r.z == z,
    {
        ChunkBlockIndex { x, y, z }
    }
}

/// Whether local coordinates lie inside the chunk grid.
pub open spec fn in_bounds(x: int, y: int, z: int) -> bool {
    &&& 0 <= x < SIZE_X as int
    &&& 0 <= y < SIZE_Y as int
    &&& 0 <= z < SIZE_Z as int
}

/// Position of local coordinates in the flattened grids (x major, z minor):
/// one step in x spans `SIZE_Y * SIZE_Z` slots, one step in y spans `SIZE_Z`.
pub open spec fn flat_index(x: int, y: int, z: int) -> int {
    x * 2048 + y * 64 + z
}

/// The flattened position is inside the grid, and distinct coordinates map
/// to distinct positions.
pub proof fn lemma_flat_index_bijective(x1: int, y1: int, z1: int, x2: int, y2: int, z2: int)
    requires
        in_bounds(x1, y1, z1),
        in_bounds(x2, y2, z2),
    ensures
        0 <= flat_index(x1, y1, z1) < VOLUME as int,
        flat_index(x1, y1, z1) == flat_index(x2, y2, z2) ==> x1 == x2 && y1 == y2 && z1 == z2,
{
    if flat_index(x1, y1, z1) == flat_index(x2, y2, z2) {
        let k = (x1 - x2) * 32 + (y1 - y2);
        assert(z2 - z1 == 64 * k);
        assert(k == 0);
        let j = x1 - x2;
        assert(y2 - y1 == 32 * j);
        assert(j == 0);
    }
}

/// One step along one axis: -1, 0 or +1.
#[derive(Clone, Copy, PartialEq, Eq, Structural)]
pub enum DeltaDir {
    Negative,
    Zero,
    Positive,
}

impl DeltaDir {
    /// The signed offset this direction stands for.
    pub open spec fn delta(self) -> int {
        match self {
            DeltaDir::Negative => -1,
            DeltaDir::Zero => 0,
            DeltaDir::Positive => 1,
        }
    }

    /// Offsets `base` by this direction, or reports that the result would
    /// leave the `usize` range.
    pub fn checked_add_usize(&self, base: usize) -> (r: Option<usize>)
        ensures
            match r {
                Some(v) => v == base + self.delta(),
                None => base + self.delta() < 0 || base + self.delta() > usize::MAX,
            },
    {
        match self {
            DeltaDir::Negative => base.checked_sub(1),
            DeltaDir::Zero => Some(base),
            DeltaDir::Positive => base.checked_add(1),
        }
    }
}

/// Offset probed for face `i` of a voxel, in the order: close, far, right,
/// left, top, bottom.
pub open spec fn side_dir(i: int) -> (int, int, int) {
    if i == 0 { (0, -1, 0) }
    else if i == 1 { (0, 1, 0) }
    else if i == 2 { (1, 0, 0) }
    else if i == 3 { (-1, 0, 0) }
    else if i == 4 { (0, 0, 1) }
    else { (0, 0, -1) }
}

/// Offset probed for edge `i` of a voxel.
pub open spec fn edge_dir(i: int) -> (int, int, int) {
    if i == 0 { (1, -1, 0) }
    else if i == 1 { (-1, -1, 0) }
    else if i == 2 { (0, -1, 1) }
    else if i == 3 { (0, -1, -1) }
    else if i == 4 { (1, 1, 0) }
    else if i == 5 { (-1, 1, 0) }
    else if i == 6 { (0, 1, 1) }
    else if i == 7 { (0, 1, -1) }
    else if i == 8 { (1, 0, 1) }
    else if i == 9 { (1, 0, -1) }
    else if i == 10 { (-1, 0, 1) }
    else { (-1, 0, -1) }
}

/// Offset probed for corner `i` of a voxel.
pub open spec fn corner_dir(i: int) -> (int, int, int) {
    if i == 0 { (-1, -1, -1) }
    else if i == 1 { (1, -1, -1) }
    else if i == 2 { (1, 1, -1) }
    else if i == 3 { (-1, 1, -1) }
    else if i == 4 { (-1, -1, 1) }
    else if i == 5 { (1, -1, 1) }
    else if i == 6 { (1, 1, 1) }
    else { (-1, 1, 1) }
}

/// Whether a probe at the given coordinates counts as transparent: it does
/// when it leaves the chunk, or when the block there can be seen through.
pub open spec fn probe_transparent(data: Seq<Block>, x: int, y: int, z: int) -> bool {
    !in_bounds(x, y, z) || data[flat_index(x, y, z)].transparent()
}

/// Whether face `i` of the voxel at the given coordinates is visible: the
/// voxel draws something and the neighbour across that face lets light
/// through (or lies outside the chunk).
pub open spec fn side_visible(data: Seq<Block>, x: int, y: int, z: int, i: int) -> bool {
    &&& !data[flat_index(x, y, z)].invisible()
    &&& probe_transparent(data, x + side_dir(i).0, y + side_dir(i).1, z + side_dir(i).2)
}

/// Whether edge `i` of the voxel at the given coordinates is visible.
pub open spec fn edge_visible(data: Seq<Block>, x: int, y: int, z: int, i: int) -> bool {
    &&& !data[flat_index(x, y, z)].invisible()
    &&& probe_transparent(data, x + edge_dir(i).0, y + edge_dir(i).1, z + edge_dir(i).2)
}

/// Whether corner `i` of the voxel at the given coordinates is visible.
pub open spec fn corner_visible(data: Seq<Block>, x: int, y: int, z: int, i: int) -> bool {
    &&& !data[flat_index(x, y, z)].invisible()
    &&& probe_transparent(data, x + corner_dir(i).0, y + corner_dir(i).1, z + corner_dir(i).2)
}

/// Bit `i` of an 8-bit mask.
pub open spec fn mask_bit8(m: u8, i: int) -> bool {
    (m >> (i as u8)) & 1u8 == 1u8
}

/// Bit `i` of a 32-bit mask.
pub open spec fn mask_bit32(m: u32, i: int) -> bool {
    (m >> (i as u32)) & 1u32 == 1u32
}

/// `m` is exactly the face visibility mask of the voxel at (x, y, z).
pub open spec fn sides_mask_ok(m: u8, data: Seq<Block>, x: int, y: int, z: int) -> bool {
    &&& m >> 6u8 == 0u8
    &&& forall|i: int| 0 <= i < 6 ==> mask_bit8(m, i) == side_visible(data, x, y, z, i)
}

/// `m` is exactly the edge visibility mask of the voxel at (x, y, z).
pub open spec fn edges_mask_ok(m: u32, data: Seq<Block>, x: int, y: int, z: int) -> bool {
    &&& m >> 12u32 == 0u32
    &&& forall|i: int| 0 <= i < 12 ==> mask_bit32(m, i) == edge_visible(data, x, y, z, i)
}

/// `m` is exactly the corner visibility mask of the voxel at (x, y, z).
pub open spec fn corners_mask_ok(m: u8, data: Seq<Block>, x: int, y: int, z: int) -> bool {
    forall|i: int| 0 <= i < 8 ==> mask_bit8(m, i) == corner_visible(data, x, y, z, i)
}

/// A dense grid of blocks with three derived visibility mask grids.
pub struct Chunk {
    data: Vec<Block>,
    sides: Vec<BlockSides>,
    edges: Vec<BlockEdges>,
    corners: Vec<BlockCorners>,
}

impl Chunk {
    /// The stored blocks, flattened with [`flat_index`].
    pub closed spec fn blocks(self) -> Seq<Block> {
        self.data@
    }

    /// The stored face masks, flattened with [`flat_index`].
    pub closed spec fn side_masks(self) -> Seq<BlockSides> {
        self.sides@
    }

    /// The stored edge masks, flattened with [`flat_index`].
    pub closed spec fn edge_masks(self) -> Seq<BlockEdges> {
        self.edges@
    }

    /// The stored corner masks, flattened with [`flat_index`].
    pub closed spec fn corner_masks(self) -> Seq<BlockCorners> {
        self.corners@
    }

    /// The block stored at the given local coordinates.
    pub open spec fn block_at(self, x: int, y: int, z: int) -> Block {
        self.blocks()[flat_index(x, y, z)]
    }

    /// All four grids cover the whole chunk and every stored block id names
    /// an entry of the block table.
    pub open spec fn wf(self) -> bool {
        &&& self.blocks().len() == VOLUME as int
        &&& self.side_masks().len() == VOLUME as int
        &&& self.edge_masks().len() == VOLUME as int
        &&& self.corner_masks().len() == VOLUME as int
        &&& forall|i: int| 0 <= i < VOLUME as int ==> (#[trigger] self.blocks()[i]).valid()
    }

    /// The three masks stored for the voxel at (x, y, z) agree with the
    /// stored blocks.
    pub open spec fn voxel_clean(self, x: int, y: int, z: int) -> bool {
        &&& sides_mask_ok(self.side_masks()[flat_index(x, y, z)], self.blocks(), x, y, z)
        &&& edges_mask_ok(self.edge_masks()[flat_index(x, y, z)], self.blocks(), x, y, z)
        &&& corners_mask_ok(self.corner_masks()[flat_index(x, y, z)], self.blocks(), x, y, z)
    }

    /// Every voxel's masks agree with the stored blocks: the state reached
    /// by [`Chunk::process_sides`], stale again after any edit.
    pub open spec fn clean(self) -> bool {
        forall|x: int, y: int, z: int| in_bounds(x, y, z) ==> #[trigger] self.voxel_clean(x, y, z)
    }

    /// A chunk made entirely of air, with every mask zero.  Air is
    /// invisible, so the zero masks already agree with the grid: the chunk
    /// starts out clean.
    pub fn empty() -> (c: Chunk)
        ensures
            c.wf(),
            c.clean(),
            forall|i: int| 0 <= i < VOLUME as int ==> (#[trigger] c.blocks()[i]).id() == 0,
            forall|i: int| 0 <= i < VOLUME as int ==> (#[trigger] c.side_masks()[i]) == 0,
            forall|i: int| 0 <= i < VOLUME as int ==> (#[trigger] c.edge_masks()[i]) == 0,
            forall|i: int| 0 <= i < VOLUME as int ==> (#[trigger] c.corner_masks()[i]) == 0,
    {
        let mut data: Vec<Block> = Vec::new();
        let mut sides: Vec<BlockSides> = Vec::new();
        let mut edges: Vec<BlockEdges> = Vec::new();
        let mut corners: Vec<BlockCorners> = Vec::new();
        let mut i: usize = 0;
        while i < VOLUME
            invariant
                i <= VOLUME,
                data@.len() == i as int,
                sides@.len() == i as int,
                edges@.len() == i as int,
                corners@.len() == i as int,
                forall|j: int| 0 <= j < i as int ==> (#[trigger] data@[j]).id() == 0
                    && data@[j].valid(),
                forall|j: int| 0 <= j < i as int ==> (#[trigger] sides@[j]) == 0,
                forall|j: int| 0 <= j < i as int ==> (#[trigger] edges@[j]) == 0,
                forall|j: int| 0 <= j < i as int ==> (#[trigger] corners@[j]) == 0,
            decreases VOLUME - i,
        {
            data.push(Block::air());
            sides.push(0);
            edges.push(0);
            corners.push(0);
            i += 1;
        }
        let c = Chunk { data, sides, edges, corners };
        proof {
            assert forall|x: int, y: int, z: int| in_bounds(x, y, z)
                implies c.voxel_clean(x, y, z) by {
                lemma_flat_index_bijective(x, y, z, x, y, z);
                lemma_u8_zero_bits(0u8);
                lemma_u32_zero_bits(0u32);
            }
        }
        c
    }

    /// Direct read of the grid; the coordinates must be in bounds.
    pub fn get_block(&self, position: &ChunkBlockIndex) -> (b: &Block)
        requires
            self.wf(),
            position.wf(),
        ensures
            *b == self.block_at(position.x as int, position.y as int, position.z as int),
    {
        proof {
            lemma_flat_index_bijective(
                position.x as int, position.y as int, position.z as int,
                position.x as int, position.y as int, position.z as int,
            );
        }
        &self.data[position.x * (SIZE_Y * SIZE_Z) + position.y * SIZE_Z + position.z]
    }

    /// Mutable access to one voxel of the grid.  As with `set_block`, the
    /// masks are left as they were, so a write through the returned
    /// reference leaves them stale.
    pub fn get_block_mut(&mut self, position: &ChunkBlockIndex) -> (b: &mut Block)
        requires
            old(self).wf(),
            position.wf(),
        ensures
            *b == old(self).block_at(position.x as int, position.y as int, position.z as int),
            (*final(b)).valid() ==> final(self).wf(),
            final(self).blocks() == old(self).blocks().update(
                flat_index(position.x as int, position.y as int, position.z as int),
                *final(b),
            ),
            final(self).side_masks() == old(self).side_masks(),
            final(self).edge_masks() == old(self).edge_masks(),
            final(self).corner_masks() == old(self).corner_masks(),
    {
        proof {
            lemma_flat_index_bijective(
                position.x as int, position.y as int, position.z as int,
                position.x as int, position.y as int, position.z as int,
            );
        }
        &mut self.data[position.x * (SIZE_Y * SIZE_Z) + position.y * SIZE_Z + position.z]
    }

    /// Direct write of the grid; the masks are left as they were, so the
    /// chunk must be reprocessed before the masks are relied on again.
    pub fn set_block(&mut self, position: &ChunkBlockIndex, block: Block)
        requires
            old(self).wf(),
            position.wf(),
            block.valid(),
        ensures
            final(self).wf(),
            final(self).blocks() == old(self).blocks().update(
                flat_index(position.x as int, position.y as int, position.z as int),
                block,
            ),
            final(self).side_masks() == old(self).side_masks(),
            final(self).edge_masks() == old(self).edge_masks(),
            final(self).corner_masks() == old(self).corner_masks(),
    {
        proof {
            lemma_flat_index_bijective(
                position.x as int, position.y as int, position.z as int,
                position.x as int, position.y as int, position.z as int,
            );
        }
        self.data.set(position.x * (SIZE_Y * SIZE_Z) + position.y * SIZE_Z + position.z, block);
    }

    /// The flattened block grid.
    pub fn data(&self) -> (r: &Vec<Block>)
        ensures
            r@ == self.blocks(),
    {
        &self.data
    }

    /// The flattened face mask grid.
    pub fn sides(&self) -> (r: &Vec<BlockSides>)
        ensures
            r@ == self.side_masks(),
    {
        &self.sides
    }

    /// The flattened edge mask grid.
    pub fn edges(&self) -> (r: &Vec<BlockEdges>)
        ensures
            r@ == self.edge_masks(),
    {
        &self.edges
    }

    /// The flattened corner mask grid.
    pub fn corners(&self) -> (r: &Vec<BlockCorners>)
        ensures
            r@ == self.corner_masks(),
    {
        &self.corners
    }
}

/// The probe offsets for face `side`, as delta directions per axis.
fn side_dirs(side: usize) -> (d: [DeltaDir; 3])
    requires
        side < 6,
    ensures
        d@[0].delta() == side_dir(side as int).0,
        d@[1].delta() == side_dir(side as int).1,
        d@[2].delta() == side_dir(side as int).2,
{
    if side == 0 { [DeltaDir::Zero, DeltaDir::Negative, DeltaDir::Zero] }
    else if side == 1 { [DeltaDir::Zero, DeltaDir::Positive, DeltaDir::Zero] }
    else if side == 2 { [DeltaDir::Positive, DeltaDir::Zero, DeltaDir::Zero] }
    else if side == 3 { [DeltaDir::Negative, DeltaDir::Zero, DeltaDir::Zero] }
    else if side == 4 { [DeltaDir::Zero, DeltaDir::Zero, DeltaDir::Positive] }
    else { [DeltaDir::Zero, DeltaDir::Zero, DeltaDir::Negative] }
}

/// The probe offsets for edge `edge`, as delta directions per axis.
fn edge_dirs(edge: usize) -> (d: [DeltaDir; 3])
    requires
        edge < 12,
    ensures
        d@[0].delta() == edge_dir(edge as int).0,
        d@[1].delta() == edge_dir(edge as int).1,
        d@[2].delta() == edge_dir(edge as int).2,
{
    if edge == 0 { [DeltaDir::Positive, DeltaDir::Negative, DeltaDir::Zero] }
    else if edge == 1 { [DeltaDir::Negative, DeltaDir::Negative, DeltaDir::Zero] }
    else if edge == 2 { [DeltaDir::Zero, DeltaDir::Negative, DeltaDir::Positive] }
    else if edge == 3 { [DeltaDir::Zero, DeltaDir::Negative, DeltaDir::Negative] }
    else if edge == 4 { [DeltaDir::Positive, DeltaDir::Positive, DeltaDir::Zero] }
    else if edge == 5 { [DeltaDir::Negative, DeltaDir::Positive, DeltaDir::Zero] }
    else if edge == 6 { [DeltaDir::Zero, DeltaDir::Positive, DeltaDir::Positive] }
    else if edge == 7 { [DeltaDir::Zero, DeltaDir::Positive, DeltaDir::Negative] }
    else if edge == 8 { [DeltaDir::Positive, DeltaDir::Zero, DeltaDir::Positive] }
    else if edge == 9 { [DeltaDir::Positive, DeltaDir::Zero, DeltaDir::Negative] }
    else if edge == 10 { [DeltaDir::Negative, DeltaDir::Zero, DeltaDir::Positive] }
    else { [DeltaDir::Negative, DeltaDir::Zero, DeltaDir::Negative] }
}

/// The probe offsets for corner `corner`, as delta directions per axis.
fn corner_dirs(corner: usize) -> (d: [DeltaDir; 3])
    requires
        corner < 8,
    ensures
        d@[0].delta() == corner_dir(corner as int).0,
        d@[1].delta() == corner_dir(corner as int).1,
        d@[2].delta() == corner_dir(corner as int).2,
{
    if corner == 0 { [DeltaDir::Negative, DeltaDir::Negative, DeltaDir::Negative] }
    else if corner == 1 { [DeltaDir::Positive, DeltaDir::Negative, DeltaDir::Negative] }
    else if corner == 2 { [DeltaDir::Positive, DeltaDir::Positive, DeltaDir::Negative] }
    else if corner == 3 { [DeltaDir::Negative, DeltaDir::Positive, DeltaDir::Negative] }
    else if corner == 4 { [DeltaDir::Negative, DeltaDir::Negative, DeltaDir::Positive] }
    else if corner == 5 { [DeltaDir::Positive, DeltaDir::Negative, DeltaDir::Positive] }
    else if corner == 6 { [DeltaDir::Positive, DeltaDir::Positive, DeltaDir::Positive] }
    else { [DeltaDir::Negative, DeltaDir::Positive, DeltaDir::Positive] }
}

impl Chunk {
    /// Looks up the neighbour of (x, y, z) one step along `dir`, or reports
    /// that the step leaves the chunk.
    fn get_block_from_dir(&self, x: usize, y: usize, z: usize, dir: &[DeltaDir; 3]) -> (r: Option<Block>)
        requires
            self.wf(),
            in_bounds(x as int, y as int, z as int),
        ensures
            ({
                let nx = x + dir@[0].delta();
                let ny = y + dir@[1].delta();
                let nz = z + dir@[2].delta();
                match r {
                    Some(b) => in_bounds(nx, ny, nz) && b == self.blocks()[flat_index(nx, ny, nz)]
                        && b.valid(),
                    None => !in_bounds(nx, ny, nz),
                }
            }),
    {
        let dx = if let Some(v) = dir[0].checked_add_usize(x) { v } else { return None; };
        let dy = if let Some(v) = dir[1].checked_add_usize(y) { v } else { return None; };
        let dz = if let Some(v) = dir[2].checked_add_usize(z) { v } else { return None; };
        if dx >= SIZE_X || dy >= SIZE_Y || dz >= SIZE_Z {
            return None;
        }
        proof {
            lemma_flat_index_bijective(dx as int, dy as int, dz as int, dx as int, dy as int, dz as int);
        }
        Some(self.data[dx * (SIZE_Y * SIZE_Z) + dy * SIZE_Z + dz])
    }

    /// Face visibility mask of the voxel at (x, y, z), from the stored blocks.
    fn compute_sides_mask(&self, x: usize, y: usize, z: usize) -> (m: BlockSides)
        requires
            self.wf(),
            in_bounds(x as int, y as int, z as int),
        ensures
            sides_mask_ok(m, self.blocks(), x as int, y as int, z as int),
    {
        proof {
            lemma_flat_index_bijective(x as int, y as int, z as int, x as int, y as int, z as int);
        }
        let flat = x * (SIZE_Y * SIZE_Z) + y * SIZE_Z + z;
        let here = self.data[flat];
        if here.is_invisible() {
            proof {
                lemma_u8_zero_bits(0u8);
            }
            return 0;
        }
        let mut m: u8 = 0;
        let mut side: usize = 0;
        proof {
            assert(0u8 >> 0u8 == 0u8) by (bit_vector);
        }
        while side < 6
            invariant
                self.wf(),
                in_bounds(x as int, y as int, z as int),
                !self.blocks()[flat_index(x as int, y as int, z as int)].invisible(),
                side <= 6,
                m >> (side as u8) == 0u8,
                forall|i: int| 0 <= i < side as int
                    ==> mask_bit8(m, i) == side_visible(self.blocks(), x as int, y as int, z as int, i),
            decreases 6 - side,
        {
            let dir = side_dirs(side);
            let visible = match self.get_block_from_dir(x, y, z, &dir) {
                Some(block) => block.is_transparent(),
                None => true,
            };
            proof {
                assert(visible == side_visible(self.blocks(), x as int, y as int, z as int, side as int));
            }
            let s8: u8 = side as u8;
            if visible {
                let ghost m0 = m;
                m = m | (1u8 << s8);
                proof {
                    lemma_u8_set_shift_up(m0, s8);
                    assert forall|i: int| 0 <= i < side as int + 1 implies
                        mask_bit8(m, i) == side_visible(self.blocks(), x as int, y as int, z as int, i)
                    by {
                        lemma_u8_set_bit(m0, s8, i as u8);
                        if i == side as int {
                            assert(mask_bit8(m, i));
                        } else {
                            assert(mask_bit8(m, i) == mask_bit8(m0, i));
                        }
                    }
                }
            } else {
                proof {
                    lemma_u8_high_zero(m, s8, s8);
                    lemma_u8_keep_shift_up(m, s8);
                    assert(!mask_bit8(m, side as int));
                }
            }
            side += 1;
        }
        m
    }

    /// Edge visibility mask of the voxel at (x, y, z), from the stored blocks.
    fn compute_edges_mask(&self, x: usize, y: usize, z: usize) -> (m: BlockEdges)
        requires
            self.wf(),
            in_bounds(x as int, y as int, z as int),
        ensures
            edges_mask_ok(m, self.blocks(), x as int, y as int, z as int),
    {
        proof {
            lemma_flat_index_bijective(x as int, y as int, z as int, x as int, y as int, z as int);
        }
        let flat = x * (SIZE_Y * SIZE_Z) + y * SIZE_Z + z;
        let here = self.data[flat];
        if here.is_invisible() {
            proof {
                lemma_u32_zero_bits(0u32);
            }
            return 0;
        }
        let mut m: u32 = 0;
        let mut edge: usize = 0;
        proof {
            assert(0u32 >> 0u32 == 0u32) by (bit_vector);
        }
        while edge < 12
            invariant
                self.wf(),
                in_bounds(x as int, y as int, z as int),
                !self.blocks()[flat_index(x as int, y as int, z as int)].invisible(),
                edge <= 12,
                m >> (edge as u32) == 0u32,
                forall|i: int| 0 <= i < edge as int
                    ==> mask_bit32(m, i) == edge_visible(self.blocks(), x as int, y as int, z as int, i),
            decreases 12 - edge,
        {
            let dir = edge_dirs(edge);
            let visible = match self.get_block_from_dir(x, y, z, &dir) {
                Some(block) => block.is_transparent(),
                None => true,
            };
            proof {
                assert(visible == edge_visible(self.blocks(), x as int, y as int, z as int, edge as int));
            }
            let e32: u32 = edge as u32;
            if visible {
                let ghost m0 = m;
                m = m | (1u32 << e32);
                proof {
                    lemma_u32_set_shift_up(m0, e32);
                    assert forall|i: int| 0 <= i < edge as int + 1 implies
                        mask_bit32(m, i) == edge_visible(self.blocks(), x as int, y as int, z as int, i)
                    by {
                        lemma_u32_set_bit(m0, e32, i as u32);
                        if i == edge as int {
                            assert(mask_bit32(m, i));
                        } else {
                            assert(mask_bit32(m, i) == mask_bit32(m0, i));
                        }
                    }
                }
            } else {
                proof {
                    lemma_u32_high_zero(m, e32, e32);
                    lemma_u32_keep_shift_up(m, e32);
                    assert(!mask_bit32(m, edge as int));
                }
            }
            edge += 1;
        }
        m
    }

    /// Corner visibility mask of the voxel at (x, y, z), from the stored blocks.
    fn compute_corners_mask(&self, x: usize, y: usize, z: usize) -> (m: BlockCorners)
        requires
            self.wf(),
            in_bounds(x as int, y as int, z as int),
        ensures
            corners_mask_ok(m, self.blocks(), x as int, y as int, z as int),
    {
        proof {
            lemma_flat_index_bijective(x as int, y as int, z as int, x as int, y as int, z as int);
        }
        let flat = x * (SIZE_Y * SIZE_Z) + y * SIZE_Z + z;
        let here = self.data[flat];
        if here.is_invisible() {
            proof {
                lemma_u8_zero_bits(0u8);
            }
            return 0;
        }
        let mut m: u8 = 0;
        let mut corner: usize = 0;
        proof {
            assert(0u8 >> 0u8 == 0u8) by (bit_vector);
        }
        while corner < 8
            invariant
                self.wf(),
                in_bounds(x as int, y as int, z as int),
                !self.blocks()[flat_index(x as int, y as int, z as int)].invisible(),
                corner <= 8,
                corner < 8 ==> m >> (corner as u8) == 0u8,
                forall|i: int| 0 <= i < corner as int
                    ==> mask_bit8(m, i) == corner_visible(self.blocks(), x as int, y as int, z as int, i),
            decreases 8 - corner,
        {
            let dir = corner_dirs(corner);
            let visible = match self.get_block_from_dir(x, y, z, &dir) {
                Some(block) => block.is_transparent(),
                None => true,
            };
            proof {
                assert(visible == corner_visible(self.blocks(), x as int, y as int, z as int, corner as int));
            }
            let c8: u8 = corner as u8;
            if visible {
                let ghost m0 = m;
                m = m | (1u8 << c8);
                proof {
                    if corner < 7 {
                        lemma_u8_set_shift_up(m0, c8);
                    }
                    assert forall|i: int| 0 <= i < corner as int + 1 implies
                        mask_bit8(m, i) == corner_visible(self.blocks(), x as int, y as int, z as int, i)
                    by {
                        lemma_u8_set_bit(m0, c8, i as u8);
                        if i == corner as int {
                            assert(mask_bit8(m, i));
                        } else {
                            assert(mask_bit8(m, i) == mask_bit8(m0, i));
                        }
                    }
                }
            } else {
                proof {
                    lemma_u8_high_zero(m, c8, c8);
                    if corner < 7 {
                        lemma_u8_keep_shift_up(m, c8);
                    }
                    assert(!mask_bit8(m, corner as int));
                }
            }
            corner += 1;
        }
        m
    }

    /// Recomputes the three masks of the voxel at (x, y, z) from the stored
    /// blocks; no other voxel's masks change.
    fn process_sides_for_index(&mut self, x: usize, y: usize, z: usize)
        requires
            old(self).wf(),
            in_bounds(x as int, y as int, z as int),
        ensures
            final(self).wf(),
            final(self).blocks() == old(self).blocks(),
            final(self).voxel_clean(x as int, y as int, z as int),
            forall|i: int| 0 <= i < VOLUME as int && i != flat_index(x as int, y as int, z as int)
                ==> (#[trigger] final(self).side_masks()[i]) == old(self).side_masks()[i],
            forall|i: int| 0 <= i < VOLUME as int && i != flat_index(x as int, y as int, z as int)
                ==> (#[trigger] final(self).edge_masks()[i]) == old(self).edge_masks()[i],
            forall|i: int| 0 <= i < VOLUME as int && i != flat_index(x as int, y as int, z as int)
                ==> (#[trigger] final(self).corner_masks()[i]) == old(self).corner_masks()[i],
    {
        proof {
            lemma_flat_index_bijective(x as int, y as int, z as int, x as int, y as int, z as int);
        }
        let sides = self.compute_sides_mask(x, y, z);
        let edges = self.compute_edges_mask(x, y, z);
        let corners = self.compute_corners_mask(x, y, z);
        let flat = x * (SIZE_Y * SIZE_Z) + y * SIZE_Z + z;
        self.sides.set(flat, sides);
        self.edges.set(flat, edges);
        self.corners.set(flat, corners);
    }

    /// Full visibility recomputation: afterwards every voxel's masks agree
    /// with the stored blocks, which are left untouched.
    pub fn process_sides(&mut self)
        requires
            old(self).wf(),
        ensures
            final(self).wf(),
            final(self).blocks() == old(self).blocks(),
            final(self).clean(),
    {
        let mut x: usize = 0;
        while x < SIZE_X
            invariant
                self.wf(),
                self.blocks() == old(self).blocks(),
                x <= SIZE_X,
                forall|xi: int, yi: int, zi: int|
                    in_bounds(xi, yi, zi) && xi < x as int ==> #[trigger] self.voxel_clean(xi, yi, zi),
            decreases SIZE_X - x,
        {
            let mut y: usize = 0;
            while y < SIZE_Y
                invariant
                    self.wf(),
                    self.blocks() == old(self).blocks(),
                    x < SIZE_X,
                    y <= SIZE_Y,
                    forall|xi: int, yi: int, zi: int|
                        in_bounds(xi, yi, zi) && xi < x as int ==> #[trigger] self.voxel_clean(xi, yi, zi),
                    forall|yi: int, zi: int|
                        in_bounds(x as int, yi, zi) && yi < y as int ==> #[trigger] self.voxel_clean(x as int, yi, zi),
                decreases SIZE_Y - y,
            {
                let mut z: usize = 0;
                while z < SIZE_Z
                    invariant
                        self.wf(),
                        self.blocks() == old(self).blocks(),
                        x < SIZE_X,
                        y < SIZE_Y,
                        z <= SIZE_Z,
                        forall|xi: int, yi: int, zi: int|
                            in_bounds(xi, yi, zi) && xi < x as int ==> #[trigger] self.voxel_clean(xi, yi, zi),
                        forall|yi: int, zi: int|
                            in_bounds(x as int, yi, zi) && yi < y as int ==> #[trigger] self.voxel_clean(x as int, yi, zi),
                        forall|zi: int|
                            in_bounds(x as int, y as int, zi) && zi < z as int ==> #[trigger] self.voxel_clean(x as int, y as int, zi),
                    decreases SIZE_Z - z,
                {
                    let ghost prev = *self;
                    self.process_sides_for_index(x, y, z);
                    proof {
                        assert forall|xi: int, yi: int, zi: int|
                            in_bounds(xi, yi, zi) && !(xi == x as int && yi == y as int && zi == z as int)
                                && prev.voxel_clean(xi, yi, zi)
                            implies self.voxel_clean(xi, yi, zi)
                        by {
                            lemma_flat_index_bijective(xi, yi, zi, x as int, y as int, z as int);
                        }
                    }
                    z += 1;
                }
                y += 1;
            }
            x += 1;
        }
    }
}

/// A mask whose bits above 5 are clear is the sum of its six low bits.
proof fn lemma_u8_value6(m: u8, b0: bool, b1: bool, b2: bool, b3: bool, b4: bool, b5: bool)
    requires
        m >> 6u8 == 0u8,
        b0 == mask_bit8(m, 0),
        b1 == mask_bit8(m, 1),
        b2 == mask_bit8(m, 2),
        b3 == mask_bit8(m, 3),
        b4 == mask_bit8(m, 4),
        b5 == mask_bit8(m, 5),
    ensures
        m as int == (if b0 { 1int } else { 0int }) + (if b1 { 2int } else { 0int })
            + (if b2 { 4int } else { 0int }) + (if b3 { 8int } else { 0int })
            + (if b4 { 16int } else { 0int }) + (if b5 { 32int } else { 0int }),
{
    assert(m as int == (if b0 { 1int } else { 0int }) + (if b1 { 2int } else { 0int })
        + (if b2 { 4int } else { 0int }) + (if b3 { 8int } else { 0int })
        + (if b4 { 16int } else { 0int }) + (if b5 { 32int } else { 0int }))
        by (bit_vector)
        requires
            m >> 6u8 == 0u8,
            b0 == ((m >> 0u8) & 1u8 == 1u8),
            b1 == ((m >> 1u8) & 1u8 == 1u8),
            b2 == ((m >> 2u8) & 1u8 == 1u8),
            b3 == ((m >> 3u8) & 1u8 == 1u8),
            b4 == ((m >> 4u8) & 1u8 == 1u8),
            b5 == ((m >> 5u8) & 1u8 == 1u8),
    ;
}

/// An 8-bit mask is the sum of its bits.
proof fn lemma_u8_value8(m: u8, b0: bool, b1: bool, b2: bool, b3: bool, b4: bool, b5: bool, b6: bool, b7: bool)
    requires
        b0 == mask_bit8(m, 0),
        b1 == mask_bit8(m, 1),
        b2 == mask_bit8(m, 2),
        b3 == mask_bit8(m, 3),
        b4 == mask_bit8(m, 4),
        b5 == mask_bit8(m, 5),
        b6 == mask_bit8(m, 6),
        b7 == mask_bit8(m, 7),
    ensures
        m as int == (if b0 { 1int } else { 0int }) + (if b1 { 2int } else { 0int })
            + (if b2 { 4int } else { 0int }) + (if b3 { 8int } else { 0int })
            + (if b4 { 16int } else { 0int }) + (if b5 { 32int } else { 0int })
            + (if b6 { 64int } else { 0int }) + (if b7 { 128int } else { 0int }),
{
    assert(m as int == (if b0 { 1int } else { 0int }) + (if b1 { 2int } else { 0int })
        + (if b2 { 4int } else { 0int }) + (if b3 { 8int } else { 0int })
        + (if b4 { 16int } else { 0int }) + (if b5 { 32int } else { 0int })
        + (if b6 { 64int } else { 0int }) + (if b7 { 128int } else { 0int }))
        by (bit_vector)
        requires
            b0 == ((m >> 0u8) & 1u8 == 1u8),
            b1 == ((m >> 1u8) & 1u8 == 1u8),
            b2 == ((m >> 2u8) & 1u8 == 1u8),
            b3 == ((m >> 3u8) & 1u8 == 1u8),
            b4 == ((m >> 4u8) & 1u8 == 1u8),
            b5 == ((m >> 5u8) & 1u8 == 1u8),
            b6 == ((m >> 6u8) & 1u8 == 1u8),
            b7 == ((m >> 7u8) & 1u8 == 1u8),
    ;
}

/// A mask whose bits above 11 are clear is the sum of its twelve low bits.
proof fn lemma_u32_value12(m: u32, b0: bool, b1: bool, b2: bool, b3: bool, b4: bool, b5: bool,
        b6: bool, b7: bool, b8: bool, b9: bool, b10: bool, b11: bool)
    requires
        m >> 12u32 == 0u32,
        b0 == mask_bit32(m, 0),
        b1 == mask_bit32(m, 1),
        b2 == mask_bit32(m, 2),
        b3 == mask_bit32(m, 3),
        b4 == mask_bit32(m, 4),
        b5 == mask_bit32(m, 5),
        b6 == mask_bit32(m, 6),
        b7 == mask_bit32(m, 7),
        b8 == mask_bit32(m, 8),
        b9 == mask_bit32(m, 9),
        b10 == mask_bit32(m, 10),
        b11 == mask_bit32(m, 11),
    ensures
        m as int == (if b0 { 1int } else { 0int }) + (if b1 { 2int } else { 0int })
            + (if b2 { 4int } else { 0int }) + (if b3 { 8int } else { 0int })
            + (if b4 { 16int } else { 0int }) + (if b5 { 32int } else { 0int })
            + (if b6 { 64int } else { 0int }) + (if b7 { 128int } else { 0int })
            + (if b8 { 256int } else { 0int }) + (if b9 { 512int } else { 0int })
            + (if b10 { 1024int } else { 0int }) + (if b11 { 2048int } else { 0int }),
{
    assert(m as int == (if b0 { 1int } else { 0int }) + (if b1 { 2int } else { 0int })
        + (if b2 { 4int } else { 0int }) + (if b3 { 8int } else { 0int })
        + (if b4 { 16int } else { 0int }) + (if b5 { 32int } else { 0int })
        + (if b6 { 64int } else { 0int }) + (if b7 { 128int } else { 0int })
        + (if b8 { 256int } else { 0int }) + (if b9 { 512int } else { 0int })
        + (if b10 { 1024int } else { 0int }) + (if b11 { 2048int } else { 0int }))
        by (bit_vector)
        requires
            m >> 12u32 == 0u32,
            b0 == ((m >> 0u32) & 1u32 == 1u32),
            b1 == ((m >> 1u32) & 1u32 == 1u32),
            b2 == ((m >> 2u32) & 1u32 == 1u32),
            b3 == ((m >> 3u32) & 1u32 == 1u32),
            b4 == ((m >> 4u32) & 1u32 == 1u32),
            b5 == ((m >> 5u32) & 1u32 == 1u32),
            b6 == ((m >> 6u32) & 1u32 == 1u32),
            b7 == ((m >> 7u32) & 1u32 == 1u32),
            b8 == ((m >> 8u32) & 1u32 == 1u32),
            b9 == ((m >> 9u32) & 1u32 == 1u32),
            b10 == ((m >> 10u32) & 1u32 == 1u32),
            b11 == ((m >> 11u32) & 1u32 == 1u32),
    ;
}

/// Every bit of the zero mask is clear.
proof fn lemma_u8_zero_bits(m: u8)
    requires
        m == 0u8,
    ensures
        forall|i: int| 0 <= i < 8 ==> !mask_bit8(m, i),
        m >> 6u8 == 0u8,
{
    assert forall|i: int| 0 <= i < 8 implies !mask_bit8(m, i) by {
        let j = i as u8;
        assert((0u8 >> j) & 1u8 == 0u8) by (bit_vector);
    }
    assert(0u8 >> 6u8 == 0u8) by (bit_vector);
}

/// Every bit of the zero mask is clear.
proof fn lemma_u32_zero_bits(m: u32)
    requires
        m == 0u32,
    ensures
        forall|i: int| 0 <= i < 32 ==> !mask_bit32(m, i),
        m >> 12u32 == 0u32,
{
    assert forall|i: int| 0 <= i < 32 implies !mask_bit32(m, i) by {
        let j = i as u32;
        assert((0u32 >> j) & 1u32 == 0u32) by (bit_vector);
    }
    assert(0u32 >> 12u32 == 0u32) by (bit_vector);
}

/// Setting bit `s` leaves every other bit as it was.
proof fn lemma_u8_set_bit(m: u8, s: u8, j: u8)
    requires
        s < 8,
        j < 8,
    ensures
        ((m | (1u8 << s)) >> j) & 1u8 == (if j == s { 1u8 } else { (m >> j) & 1u8 }),
{
    assert(((m | (1u8 << s)) >> j) & 1u8 == (if j == s { 1u8 } else { (m >> j) & 1u8 }))
        by (bit_vector)
        requires
            s < 8,
            j < 8,
    ;
}

/// Setting bit `s` leaves every other bit as it was.
proof fn lemma_u32_set_bit(m: u32, s: u32, j: u32)
    requires
        s < 32,
        j < 32,
    ensures
        ((m | (1u32 << s)) >> j) & 1u32 == (if j == s { 1u32 } else { (m >> j) & 1u32 }),
{
    assert(((m | (1u32 << s)) >> j) & 1u32 == (if j == s { 1u32 } else { (m >> j) & 1u32 }))
        by (bit_vector)
        requires
            s < 32,
            j < 32,
    ;
}

/// When everything from bit `s` up is clear, setting bit `s` clears
/// everything from bit `s + 1` up.
proof fn lemma_u8_set_shift_up(m: u8, s: u8)
    requires
        s < 7,
        m >> s == 0u8,
    ensures
        (m | (1u8 << s)) >> ((s + 1) as u8) == 0u8,
{
    assert((m | (1u8 << s)) >> ((s + 1) as u8) == 0u8)
        by (bit_vector)
        requires
            s < 7,
            m >> s == 0u8,
    ;
}

/// When everything from bit `s` up is clear, setting bit `s` clears
/// everything from bit `s + 1` up.
proof fn lemma_u32_set_shift_up(m: u32, s: u32)
    requires
        s < 31,
        m >> s == 0u32,
    ensures
        (m | (1u32 << s)) >> ((s + 1) as u32) == 0u32,
{
    assert((m | (1u32 << s)) >> ((s + 1) as u32) == 0u32)
        by (bit_vector)
        requires
            s < 31,
            m >> s == 0u32,
    ;
}

/// When everything from bit `s` up is clear, so is everything from `s + 1` up.
proof fn lemma_u8_keep_shift_up(m: u8, s: u8)
    requires
        s < 7,
        m >> s == 0u8,
    ensures
        m >> ((s + 1) as u8) == 0u8,
{
    assert(m >> ((s + 1) as u8) == 0u8)
        by (bit_vector)
        requires
            s < 7,
            m >> s == 0u8,
    ;
}

/// When everything from bit `s` up is clear, so is everything from `s + 1` up.
proof fn lemma_u32_keep_shift_up(m: u32, s: u32)
    requires
        s < 31,
        m >> s == 0u32,
    ensures
        m >> ((s + 1) as u32) == 0u32,
{
    assert(m >> ((s + 1) as u32) == 0u32)
        by (bit_vector)
        requires
            s < 31,
            m >> s == 0u32,
    ;
}

/// When everything from bit `s` up is clear, bit `j >= s` is clear.
proof fn lemma_u8_high_zero(m: u8, s: u8, j: u8)
    requires
        s <= j,
        j < 8,
        m >> s == 0u8,
    ensures
        (m >> j) & 1u8 == 0u8,
{
    assert((m >> j) & 1u8 == 0u8)
        by (bit_vector)
        requires
            s <= j,
            j < 8,
            m >> s == 0u8,
    ;
}

/// When everything from bit `s` up is clear, bit `j >= s` is clear.
proof fn lemma_u32_high_zero(m: u32, s: u32, j: u32)
    requires
        s <= j,
        j < 32,
        m >> s == 0u32,
    ensures
        (m >> j) & 1u32 == 0u32,
{
    assert((m >> j) & 1u32 == 0u32)
        by (bit_vector)
        requires
            s <= j,
            j < 32,
            m >> s == 0u32,
    ;
}

/// After a visibility pass over a chunk that holds only air, the side, edge
/// and corner masks of every voxel are zero.
pub proof fn lemma_air_chunk_masks_zero(c: Chunk, x: int, y: int, z: int)
    requires
        c.wf(),
        c.clean(),
        forall|i: int| 0 <= i < VOLUME as int ==> (#[trigger] c.blocks()[i]).id() == 0,
        in_bounds(x, y, z),
    ensures
        c.side_masks()[flat_index(x, y, z)] == 0,
        c.edge_masks()[flat_index(x, y, z)] == 0,
        c.corner_masks()[flat_index(x, y, z)] == 0,
{
    lemma_flat_index_bijective(x, y, z, x, y, z);
    assert(c.voxel_clean(x, y, z));
    assert(c.blocks()[flat_index(x, y, z)].invisible());
    let sm = c.side_masks()[flat_index(x, y, z)];
    let em = c.edge_masks()[flat_index(x, y, z)];
    let cm = c.corner_masks()[flat_index(x, y, z)];
    lemma_u8_value6(sm, mask_bit8(sm, 0), mask_bit8(sm, 1), mask_bit8(sm, 2), mask_bit8(sm, 3),
        mask_bit8(sm, 4), mask_bit8(sm, 5));
    lemma_u32_value12(em, mask_bit32(em, 0), mask_bit32(em, 1), mask_bit32(em, 2),
        mask_bit32(em, 3), mask_bit32(em, 4), mask_bit32(em, 5), mask_bit32(em, 6),
        mask_bit32(em, 7), mask_bit32(em, 8), mask_bit32(em, 9), mask_bit32(em, 10),
        mask_bit32(em, 11));
    lemma_u8_value8(cm, mask_bit8(cm, 0), mask_bit8(cm, 1), mask_bit8(cm, 2), mask_bit8(cm, 3),
        mask_bit8(cm, 4), mask_bit8(cm, 5), mask_bit8(cm, 6), mask_bit8(cm, 7));
}

/// A single opaque block in an otherwise-air chunk, placed away from the
/// chunk boundary, shows all 6 faces, 12 edges and 8 corners after a
/// visibility pass: every one of its neighbours is transparent.
pub proof fn lemma_single_block_fully_visible(c: Chunk, x: int, y: int, z: int)
    requires
        c.wf(),
        c.clean(),
        1 <= x < SIZE_X as int - 1,
        1 <= y < SIZE_Y as int - 1,
        1 <= z < SIZE_Z as int - 1,
        !c.block_at(x, y, z).transparent(),
        forall|i: int| 0 <= i < VOLUME as int && i != flat_index(x, y, z)
            ==> (#[trigger] c.blocks()[i]).id() == 0,
    ensures
        c.side_masks()[flat_index(x, y, z)] == 63,
        c.edge_masks()[flat_index(x, y, z)] == 4095,
        c.corner_masks()[flat_index(x, y, z)] == 255,
{
    lemma_flat_index_bijective(x, y, z, x, y, z);
    assert(c.voxel_clean(x, y, z));
    assert(!c.blocks()[flat_index(x, y, z)].invisible());
    assert forall|i: int| 0 <= i < 6 implies side_visible(c.blocks(), x, y, z, i) by {
        let d = side_dir(i);
        lemma_flat_index_bijective(x + d.0, y + d.1, z + d.2, x, y, z);
    }
    assert forall|i: int| 0 <= i < 12 implies edge_visible(c.blocks(), x, y, z, i) by {
        let d = edge_dir(i);
        lemma_flat_index_bijective(x + d.0, y + d.1, z + d.2, x, y, z);
    }
    assert forall|i: int| 0 <= i < 8 implies corner_visible(c.blocks(), x, y, z, i) by {
        let d = corner_dir(i);
        lemma_flat_index_bijective(x + d.0, y + d.1, z + d.2, x, y, z);
    }
    let sm = c.side_masks()[flat_index(x, y, z)];
    let em = c.edge_masks()[flat_index(x, y, z)];
    let cm = c.corner_masks()[flat_index(x, y, z)];
    lemma_u8_value6(sm, mask_bit8(sm, 0), mask_bit8(sm, 1), mask_bit8(sm, 2), mask_bit8(sm, 3),
        mask_bit8(sm, 4), mask_bit8(sm, 5));
    lemma_u32_value12(em, mask_bit32(em, 0), mask_bit32(em, 1), mask_bit32(em, 2),
        mask_bit32(em, 3), mask_bit32(em, 4), mask_bit32(em, 5), mask_bit32(em, 6),
        mask_bit32(em, 7), mask_bit32(em, 8), mask_bit32(em, 9), mask_bit32(em, 10),
        mask_bit32(em, 11));
    lemma_u8_value8(cm, mask_bit8(cm, 0), mask_bit8(cm, 1), mask_bit8(cm, 2), mask_bit8(cm, 3),
        mask_bit8(cm, 4), mask_bit8(cm, 5), mask_bit8(cm, 6), mask_bit8(cm, 7));
}

/// Two face-adjacent opaque blocks in an otherwise-air chunk occlude each
/// other: after a visibility pass each hides the shared face (the bit for
/// the face towards the other block is clear) while every other face, edge
/// and corner bit is set, since all remaining neighbours are transparent.
pub proof fn lemma_adjacent_blocks_mutual_occlusion(c: Chunk, x: int, y: int, z: int)
    requires
        c.wf(),
        c.clean(),
        in_bounds(x, y, z),
        in_bounds(x + 1, y, z),
        !c.block_at(x, y, z).transparent(),
        !c.block_at(x + 1, y, z).transparent(),
        forall|i: int| 0 <= i < VOLUME as int && i != flat_index(x, y, z)
            && i != flat_index(x + 1, y, z) ==> (#[trigger] c.blocks()[i]).id() == 0,
    ensures
        !mask_bit8(c.side_masks()[flat_index(x, y, z)], 2),
        !mask_bit8(c.side_masks()[flat_index(x + 1, y, z)], 3),
        c.side_masks()[flat_index(x, y, z)] == 59,
        c.side_masks()[flat_index(x + 1, y, z)] == 55,
        c.edge_masks()[flat_index(x, y, z)] == 4095,
        c.edge_masks()[flat_index(x + 1, y, z)] == 4095,
        c.corner_masks()[flat_index(x, y, z)] == 255,
        c.corner_masks()[flat_index(x + 1, y, z)] == 255,
{
    lemma_flat_index_bijective(x, y, z, x + 1, y, z);
    assert(c.voxel_clean(x, y, z));
    assert(c.voxel_clean(x + 1, y, z));
    assert(!c.blocks()[flat_index(x, y, z)].invisible());
    assert(!c.blocks()[flat_index(x + 1, y, z)].invisible());
    assert forall|i: int| 0 <= i < 6 implies
        #[trigger] side_visible(c.blocks(), x, y, z, i) == (i != 2) by {
        let d = side_dir(i);
        if in_bounds(x + d.0, y + d.1, z + d.2) {
            lemma_flat_index_bijective(x + d.0, y + d.1, z + d.2, x, y, z);
            lemma_flat_index_bijective(x + d.0, y + d.1, z + d.2, x + 1, y, z);
        }
    }
    assert forall|i: int| 0 <= i < 6 implies
        #[trigger] side_visible(c.blocks(), x + 1, y, z, i) == (i != 3) by {
        let d = side_dir(i);
        if in_bounds(x + 1 + d.0, y + d.1, z + d.2) {
            lemma_flat_index_bijective(x + 1 + d.0, y + d.1, z + d.2, x, y, z);
            lemma_flat_index_bijective(x + 1 + d.0, y + d.1, z + d.2, x + 1, y, z);
        }
    }
    assert forall|i: int| 0 <= i < 12 implies edge_visible(c.blocks(), x, y, z, i)
        && edge_visible(c.blocks(), x + 1, y, z, i) by {
        let d = edge_dir(i);
        if in_bounds(x + d.0, y + d.1, z + d.2) {
            lemma_flat_index_bijective(x + d.0, y + d.1, z + d.2, x, y, z);
            lemma_flat_index_bijective(x + d.0, y + d.1, z + d.2, x + 1, y, z);
        }
        if in_bounds(x + 1 + d.0, y + d.1, z + d.2) {
            lemma_flat_index_bijective(x + 1 + d.0, y + d.1, z + d.2, x, y, z);
            lemma_flat_index_bijective(x + 1 + d.0, y + d.1, z + d.2, x + 1, y, z);
        }
    }
    assert forall|i: int| 0 <= i < 8 implies corner_visible(c.blocks(), x, y, z, i)
        && corner_visible(c.blocks(), x + 1, y, z, i) by {
        let d = corner_dir(i);
        if in_bounds(x + d.0, y + d.1, z + d.2) {
            lemma_flat_index_bijective(x + d.0, y + d.1, z + d.2, x, y, z);
            lemma_flat_index_bijective(x + d.0, y + d.1, z + d.2, x + 1, y, z);
        }
        if in_bounds(x + 1 + d.0, y + d.1, z + d.2) {
            lemma_flat_index_bijective(x + 1 + d.0, y + d.1, z + d.2, x, y, z);
            lemma_flat_index_bijective(x + 1 + d.0, y + d.1, z + d.2, x + 1, y, z);
        }
    }
    let sm1 = c.side_masks()[flat_index(x, y, z)];
    let sm2 = c.side_masks()[flat_index(x + 1, y, z)];
    let em1 = c.edge_masks()[flat_index(x, y, z)];
    let em2 = c.edge_masks()[flat_index(x + 1, y, z)];
    let cm1 = c.corner_masks()[flat_index(x, y, z)];
    let cm2 = c.corner_masks()[flat_index(x + 1, y, z)];
    lemma_u8_value6(sm1, mask_bit8(sm1, 0), mask_bit8(sm1, 1), mask_bit8(sm1, 2),
        mask_bit8(sm1, 3), mask_bit8(sm1, 4), mask_bit8(sm1, 5));
    lemma_u8_value6(sm2, mask_bit8(sm2, 0), mask_bit8(sm2, 1), mask_bit8(sm2, 2),
        mask_bit8(sm2, 3), mask_bit8(sm2, 4), mask_bit8(sm2, 5));
    lemma_u32_value12(em1, mask_bit32(em1, 0), mask_bit32(em1, 1), mask_bit32(em1, 2),
        mask_bit32(em1, 3), mask_bit32(em1, 4), mask_bit32(em1, 5), mask_bit32(em1, 6),
        mask_bit32(em1, 7), mask_bit32(em1, 8), mask_bit32(em1, 9), mask_bit32(em1, 10),
        mask_bit32(em1, 11));
    lemma_u32_value12(em2, mask_bit32(em2, 0), mask_bit32(em2, 1), mask_bit32(em2, 2),
        mask_bit32(em2, 3), mask_bit32(em2, 4), mask_bit32(em2, 5), mask_bit32(em2, 6),
        mask_bit32(em2, 7), mask_bit32(em2, 8), mask_bit32(em2, 9), mask_bit32(em2, 10),
        mask_bit32(em2, 11));
    lemma_u8_value8(cm1, mask_bit8(cm1, 0), mask_bit8(cm1, 1), mask_bit8(cm1, 2),
        mask_bit8(cm1, 3), mask_bit8(cm1, 4), mask_bit8(cm1, 5), mask_bit8(cm1, 6),
        mask_bit8(cm1, 7));
    lemma_u8_value8(cm2, mask_bit8(cm2, 0), mask_bit8(cm2, 1), mask_bit8(cm2, 2),
        mask_bit8(cm2, 3), mask_bit8(cm2, 4), mask_bit8(cm2, 5), mask_bit8(cm2, 6),
        mask_bit8(cm2, 7));
}

} // verus!
