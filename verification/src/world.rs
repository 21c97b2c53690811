//! The sparse block world: a map from chunk coordinates to chunks, filled
//! lazily through a delegate, with global-to-local coordinate conversion and
//! bulk edits.

use vstd::prelude::*;
use crate::block::Block;
use crate::chunk::{Chunk, ChunkBlockIndex, SIZE_X, SIZE_Y, SIZE_Z, VOLUME, in_bounds, flat_index, lemma_flat_index_bijective};

verus! {

/// Global (world-wide) coordinates of a single voxel.
#[derive(Clone, Copy, Debug, PartialEq, Eq, Structural)]
pub struct WorldBlockIndex {
    pub x: u32,
    pub y: u32,
    pub z: u32,
}

/// Coordinates of a chunk in the world: the global voxel coordinates
/// divided by the chunk extent.
#[derive(Clone, Copy, Debug, Hash, PartialEq, Eq, Structural)]
pub struct ChunkIndex {
    pub x: u32,
    pub y: u32,
    pub z: u32,
}

impl WorldBlockIndex {
    #[inline]
    pub fn new(x: u32, y: u32, z: u32) -> (r: WorldBlockIndex)
        ensures
            r.x == x,
            r.y == y,
            r.z == z,
    {
        WorldBlockIndex { x, y, z }
    }

    /// The chunk this voxel falls in: component-wise division by the chunk
    /// extent.
    pub open spec fn chunk_index_spec(self) -> ChunkIndex {
        ChunkIndex {
            x: (self.x as int / SIZE_X as int) as u32,
            y: (self.y as int / SIZE_Y as int) as u32,
            z: (self.z as int / SIZE_Z as int) as u32,
        }
    }

    /// The voxel's coordinates within its chunk: component-wise remainder.
    pub open spec fn chunk_local_spec(self) -> ChunkBlockIndex {
        ChunkBlockIndex {
            x: (self.x as int % SIZE_X as int) as usize,
            y: (self.y as int % SIZE_Y as int) as usize,
            z: (self.z as int % SIZE_Z as int) as usize,
        }
    }

    #[inline]
    pub fn get_chunk_index(&self) -> (r: ChunkIndex)
        ensures
            r == self.chunk_index_spec(),
    {
        ChunkIndex::new(
            self.x / (SIZE_X as u32),
            self.y / (SIZE_Y as u32),
            self.z / (SIZE_Z as u32),
        )
    }

    #[inline]
    pub fn get_chunk_block_index(&self) -> (r: ChunkBlockIndex)
        ensures
            r == self.chunk_local_spec(),
            r.wf(),
    {
        let chunk_index = self.get_chunk_index();
        ChunkBlockIndex::new(
            self.x as usize - chunk_index.x as usize * SIZE_X,
            self.y as usize - chunk_index.y as usize * SIZE_Y,
            self.z as usize - chunk_index.z as usize * SIZE_Z,
        )
    }
}

/// Splitting a global voxel coordinate into its chunk coordinate and its
/// local coordinate and recombining them restores the original coordinate
/// exactly; the local coordinate always lies inside the chunk.
pub proof fn lemma_index_round_trip(index: WorldBlockIndex)
    ensures
        index.chunk_local_spec().wf(),
        index.chunk_index_spec().x * SIZE_X as int + index.chunk_local_spec().x as int == index.x as int,
        index.chunk_index_spec().y * SIZE_Y as int + index.chunk_local_spec().y as int == index.y as int,
        index.chunk_index_spec().z * SIZE_Z as int + index.chunk_local_spec().z as int == index.z as int,
{
}

impl ChunkIndex {
    #[inline]
    pub fn new(x: u32, y: u32, z: u32) -> (r: ChunkIndex)
        ensures
            r.x == x,
            r.y == y,
            r.z == z,
    {
        ChunkIndex { x, y, z }
    }
}

/// Supplies newly needed chunks on demand.  The world calls `create_chunk`
/// exactly once per distinct index, the first time that index is requested.
pub trait WorldDelegate {
    /// Builds the chunk for the given index.  Any generation strategy is
    /// allowed, but the chunk handed back must be well-formed.
    fn create_chunk(&self, index: &ChunkIndex) -> (c: Chunk)
        ensures
            c.wf(),
    ;
}

/// Position of the first entry with key `k`, if any.
pub open spec fn key_index_of(s: Seq<(ChunkIndex, Chunk)>, k: ChunkIndex) -> int {
    choose|i: int| 0 <= i < s.len() && s[i].0 == k
}

/// The sparse world: chunks keyed by their chunk coordinates, unique per
/// coordinate, created lazily by the delegate.
pub struct World<D: WorldDelegate> {
    chunks: Vec<(ChunkIndex, Chunk)>,
    delegate: D,
}

impl<D: WorldDelegate> World<D> {
    /// The stored chunks, keyed by chunk coordinates, in insertion order.
    pub closed spec fn chunks_seq(self) -> Seq<(ChunkIndex, Chunk)> {
        self.chunks@
    }

    /// The delegate that manufactures missing chunks.
    pub closed spec fn delegate(self) -> D {
        self.delegate
    }

    /// Chunk coordinates are unique and every stored chunk is well-formed.
    pub open spec fn wf(self) -> bool {
        &&& seq_unique_keys(self.chunks_seq())
        &&& forall|i: int| 0 <= i < self.chunks_seq().len()
            ==> (#[trigger] self.chunks_seq()[i]).1.wf()
    }

    /// Whether a chunk is stored for the given coordinates.
    pub open spec fn has_chunk(self, k: ChunkIndex) -> bool {
        seq_has_key(self.chunks_seq(), k)
    }

    /// The chunk stored for the given coordinates.
    pub open spec fn chunk_at(self, k: ChunkIndex) -> Chunk {
        self.chunks_seq()[key_index_of(self.chunks_seq(), k)].1
    }

    /// A world with no chunks yet.
    pub fn new(delegate: D) -> (w: World<D>)
        ensures
            w.wf(),
            w.delegate() == delegate,
            forall|k: ChunkIndex| !w.has_chunk(k),
    {
        World { chunks: Vec::new(), delegate }
    }

    /// Position of the entry for `index`, or `None` when no chunk is stored
    /// for it.
    fn find_chunk(&self, index: &ChunkIndex) -> (r: Option<usize>)
        ensures
            match r {
                Some(i) => i < self.chunks_seq().len() && self.chunks_seq()[i as int].0 == *index
                    && self.has_chunk(*index),
                None => !self.has_chunk(*index),
            },
    {
        let n = self.chunks.len();
        let mut i: usize = 0;
        while i < n
            invariant
                i <= n,
                n == self.chunks_seq().len(),
                forall|j: int| 0 <= j < i as int ==> (#[trigger] self.chunks_seq()[j]).0 != *index,
            decreases n - i,
        {
            if self.chunks[i].0 == *index {
                return Some(i);
            }
            i += 1;
        }
        None
    }

    /// Returns the chunk at `index`, creating it through the delegate first
    /// when no chunk is stored there yet.  A stored chunk is returned as it
    /// is, with the delegate left out of the exchange: this is what makes
    /// chunk construction happen at most once per index.
    pub fn get_or_create_chunk(&mut self, index: &ChunkIndex) -> (c: &mut Chunk)
        requires
            old(self).wf(),
        ensures
            (*c).wf(),
            old(self).has_chunk(*index) ==> *c == old(self).chunk_at(*index),
            (*final(c)).wf() ==> final(self).wf(),
            final(self).delegate() == old(self).delegate(),
            final(self).has_chunk(*index),
            final(self).chunk_at(*index) == *final(c),
            forall|k: ChunkIndex| k != *index
                ==> #[trigger] final(self).has_chunk(k) == old(self).has_chunk(k),
            forall|k: ChunkIndex| k != *index && old(self).has_chunk(k)
                ==> #[trigger] final(self).chunk_at(k) == old(self).chunk_at(k),
    {
        let found = self.find_chunk(index);
        let i: usize = match found {
            Some(i) => {
                proof {
                    let s = self.chunks@;
                    assert(s == old(self).chunks@);
                    lemma_key_index_at(s, i as int);
                    assert forall|v: Chunk| #![trigger s.update(i as int, (s[i as int].0, v))] ({
                        let t = s.update(i as int, (s[i as int].0, v));
                        get_or_create_step(old(self).chunks@, t, *index, v)
                    }) by {
                        let t = s.update(i as int, (s[i as int].0, v));
                        lemma_update_own_key(s, i as int, v);
                        assert forall|k: ChunkIndex| k != *index implies
                            #[trigger] seq_has_key(t, k) == seq_has_key(s, k) by {
                            lemma_update_other_keys(s, i as int, v, k);
                        }
                        assert forall|k: ChunkIndex| k != *index && #[trigger] seq_has_key(s, k) implies
                            t[key_index_of(t, k)].1 == s[key_index_of(s, k)].1 by {
                            lemma_update_other_keys(s, i as int, v, k);
                        }
                        if v.wf() {
                            assert forall|j: int| 0 <= j < t.len() implies (#[trigger] t[j]).1.wf() by {
                                if j != i as int {
                                    assert(t[j] == s[j]);
                                }
                            }
                        }
                    }
                }
                i
            },
            None => {
                let chunk = self.delegate.create_chunk(index);
                let i = self.chunks.len();
                self.chunks.push((*index, chunk));
                proof {
                    let s = self.chunks@;
                    assert(s == old(self).chunks@.push((*index, chunk)));
                    lemma_push_fresh_key(old(self).chunks@, (*index, chunk));
                    lemma_key_index_at(s, i as int);
                    assert forall|v: Chunk| #![trigger s.update(i as int, (s[i as int].0, v))] ({
                        let t = s.update(i as int, (s[i as int].0, v));
                        get_or_create_step(old(self).chunks@, t, *index, v)
                    }) by {
                        let t = s.update(i as int, (s[i as int].0, v));
                        assert(t =~= old(self).chunks@.push((*index, v)));
                        lemma_push_fresh_key(old(self).chunks@, (*index, v));
                        if v.wf() {
                            assert forall|j: int| 0 <= j < t.len() implies (#[trigger] t[j]).1.wf() by {
                                if j < i as int {
                                    assert(t[j] == old(self).chunks@[j]);
                                }
                            }
                        }
                    }
                }
                i
            },
        };
        &mut self.chunks[i].1
    }

    /// The block stored for the global voxel `p`, read through its chunk.
    pub open spec fn block_at_world(self, p: WorldBlockIndex) -> Block {
        self.chunk_at(p.chunk_index_spec()).block_at(
            p.chunk_local_spec().x as int,
            p.chunk_local_spec().y as int,
            p.chunk_local_spec().z as int,
        )
    }

    /// Writes one voxel of the world, creating the containing chunk through
    /// the delegate first when absent.  Visibility masks are not touched:
    /// the affected chunk is stale until its next `process_sides`.
    pub fn set_block(&mut self, index: &WorldBlockIndex, block: Block)
        requires
            old(self).wf(),
            block.valid(),
        ensures
            final(self).wf(),
            final(self).delegate() == old(self).delegate(),
            final(self).has_chunk(index.chunk_index_spec()),
            final(self).block_at_world(*index) == block,
            forall|k: ChunkIndex| k != index.chunk_index_spec()
                ==> #[trigger] final(self).has_chunk(k) == old(self).has_chunk(k),
            forall|k: ChunkIndex| k != index.chunk_index_spec() && old(self).has_chunk(k)
                ==> #[trigger] final(self).chunk_at(k) == old(self).chunk_at(k),
            ({
                let ci = index.chunk_index_spec();
                let li = index.chunk_local_spec();
                old(self).has_chunk(ci) ==> {
                    &&& final(self).chunk_at(ci).blocks() == old(self).chunk_at(ci).blocks()
                        .update(flat_index(li.x as int, li.y as int, li.z as int), block)
                    &&& final(self).chunk_at(ci).side_masks() == old(self).chunk_at(ci).side_masks()
                    &&& final(self).chunk_at(ci).edge_masks() == old(self).chunk_at(ci).edge_masks()
                    &&& final(self).chunk_at(ci).corner_masks() == old(self).chunk_at(ci).corner_masks()
                }
            }),
    {
        let ci = index.get_chunk_index();
        let li = index.get_chunk_block_index();
        proof {
            lemma_flat_index_bijective(
                li.x as int, li.y as int, li.z as int,
                li.x as int, li.y as int, li.z as int,
            );
        }
        let chunk = self.get_or_create_chunk(&ci);
        chunk.set_block(&li, block);
    }

    /// What holds of the world throughout the fill scan with its cursor at
    /// (x, y, z): every filled voxel already passed holds `block`, every
    /// other voxel of the chunks of `w0` is as it was there, the chunks of
    /// `w0` are still present with their masks untouched, and chunks
    /// appeared only where the fill reached.
    spec fn fill_inv(self, w0: World<D>, block: Block, lower: WorldBlockIndex, upper: WorldBlockIndex, x: int, y: int, z: int) -> bool {
        &&& self.wf()
        &&& self.delegate() == w0.delegate()
        &&& forall|p: WorldBlockIndex| #[trigger] filled(p, lower, upper) && fill_visited(p, x, y, z)
            ==> self.has_chunk(p.chunk_index_spec()) && self.block_at_world(p) == block
        &&& forall|p: WorldBlockIndex| #![trigger self.block_at_world(p)]
            !(filled(p, lower, upper) && fill_visited(p, x, y, z))
            && w0.has_chunk(p.chunk_index_spec())
            ==> self.block_at_world(p) == w0.block_at_world(p)
        &&& forall|k: ChunkIndex| #[trigger] w0.has_chunk(k) ==> self.has_chunk(k)
            && self.chunk_at(k).side_masks() == w0.chunk_at(k).side_masks()
            && self.chunk_at(k).edge_masks() == w0.chunk_at(k).edge_masks()
            && self.chunk_at(k).corner_masks() == w0.chunk_at(k).corner_masks()
        &&& forall|k: ChunkIndex| !w0.has_chunk(k) && #[trigger] self.has_chunk(k)
            ==> exists|p: WorldBlockIndex| #[trigger] filled(p, lower, upper) && p.chunk_index_spec() == k
    }

    /// Bulk edit: writes `block` into every voxel of the inclusive box from
    /// `lower` to `upper` that lies within the box's ellipsoid (centre at
    /// the box midpoint, radii half the span plus one, so that boundary
    /// voxels are included).  A plain scan of the whole box; chunks are
    /// created on demand as the writes reach them, and no visibility mask
    /// of any previously existing chunk changes.
    pub fn fill_ellipsoid(&mut self, block: Block, lower: &WorldBlockIndex, upper: &WorldBlockIndex)
        requires
            old(self).wf(),
            block.valid(),
            upper.x as int - lower.x as int <= FILL_SPAN_MAX as int,
            upper.y as int - lower.y as int <= FILL_SPAN_MAX as int,
            upper.z as int - lower.z as int <= FILL_SPAN_MAX as int,
        ensures
            final(self).wf(),
            final(self).delegate() == old(self).delegate(),
            forall|p: WorldBlockIndex| #[trigger] filled(p, *lower, *upper)
                ==> final(self).has_chunk(p.chunk_index_spec())
                    && final(self).block_at_world(p) == block,
            forall|p: WorldBlockIndex| !(#[trigger] filled(p, *lower, *upper))
                && old(self).has_chunk(p.chunk_index_spec())
                ==> final(self).block_at_world(p) == old(self).block_at_world(p),
            forall|k: ChunkIndex| #[trigger] old(self).has_chunk(k) ==> final(self).has_chunk(k)
                && final(self).chunk_at(k).side_masks() == old(self).chunk_at(k).side_masks()
                && final(self).chunk_at(k).edge_masks() == old(self).chunk_at(k).edge_masks()
                && final(self).chunk_at(k).corner_masks() == old(self).chunk_at(k).corner_masks(),
            forall|k: ChunkIndex| !old(self).has_chunk(k) && #[trigger] final(self).has_chunk(k)
                ==> exists|p: WorldBlockIndex| #[trigger] filled(p, *lower, *upper)
                    && p.chunk_index_spec() == k,
    {
        let ghost w0 = *old(self);
        let mut x: u64 = lower.x as u64;
        while x <= upper.x as u64
            invariant
                self.fill_inv(w0, block, *lower, *upper, x as int, lower.y as int, lower.z as int),
                w0 == *old(self),
                block.valid(),
                upper.x as int - lower.x as int <= FILL_SPAN_MAX as int,
                upper.y as int - lower.y as int <= FILL_SPAN_MAX as int,
                upper.z as int - lower.z as int <= FILL_SPAN_MAX as int,
                lower.x as int <= x as int,
            decreases upper.x as int + 1 - x as int,
        {
            let mut y: u64 = lower.y as u64;
            while y <= upper.y as u64
                invariant
                    self.fill_inv(w0, block, *lower, *upper, x as int, y as int, lower.z as int),
                    w0 == *old(self),
                    block.valid(),
                    upper.x as int - lower.x as int <= FILL_SPAN_MAX as int,
                    upper.y as int - lower.y as int <= FILL_SPAN_MAX as int,
                    upper.z as int - lower.z as int <= FILL_SPAN_MAX as int,
                    lower.x as int <= x as int <= upper.x as int,
                    lower.y as int <= y as int,
                decreases upper.y as int + 1 - y as int,
            {
                let mut z: u64 = lower.z as u64;
                while z <= upper.z as u64
                    invariant
                        self.fill_inv(w0, block, *lower, *upper, x as int, y as int, z as int),
                        w0 == *old(self),
                        block.valid(),
                        upper.x as int - lower.x as int <= FILL_SPAN_MAX as int,
                        upper.y as int - lower.y as int <= FILL_SPAN_MAX as int,
                        upper.z as int - lower.z as int <= FILL_SPAN_MAX as int,
                        lower.x as int <= x as int <= upper.x as int,
                        lower.y as int <= y as int <= upper.y as int,
                        lower.z as int <= z as int,
                    decreases upper.z as int + 1 - z as int,
                {
                    if ellipsoid_contains(x as u32, y as u32, z as u32, lower, upper) {
                        let index = WorldBlockIndex::new(x as u32, y as u32, z as u32);
                        let ghost prev = *self;
                        self.set_block(&index, block);
                        proof {
                            lemma_fill_step(prev, *self, w0, block, *lower, *upper, index);
                        }
                    } else {
                        proof {
                            let p0 = WorldBlockIndex { x: x as u32, y: y as u32, z: z as u32 };
                            assert(!filled(p0, *lower, *upper));
                            assert forall|p: WorldBlockIndex|
                                filled(p, *lower, *upper)
                                    && fill_visited(p, x as int, y as int, z as int + 1)
                                implies fill_visited(p, x as int, y as int, z as int) by {
                                assert(p != p0);
                            }
                        }
                    }
                    z += 1;
                }
                proof {
                    assert forall|p: WorldBlockIndex| filled(p, *lower, *upper) implies
                        fill_visited(p, x as int, y as int, z as int)
                            == fill_visited(p, x as int, y as int + 1, lower.z as int) by {}
                }
                y += 1;
            }
            proof {
                assert forall|p: WorldBlockIndex| filled(p, *lower, *upper) implies
                    fill_visited(p, x as int, y as int, lower.z as int)
                        == fill_visited(p, x as int + 1, lower.y as int, lower.z as int) by {}
            }
            x += 1;
        }
        proof {
            assert forall|p: WorldBlockIndex| #[trigger] filled(p, *lower, *upper) implies
                fill_visited(p, x as int, lower.y as int, lower.z as int) by {}
        }
    }
}

/// Exact integer evaluation of the ellipsoid membership test for one voxel
/// of the fill box.
fn ellipsoid_contains(px: u32, py: u32, pz: u32, lower: &WorldBlockIndex, upper: &WorldBlockIndex) -> (r: bool)
    requires
        lower.x <= px <= upper.x,
        lower.y <= py <= upper.y,
        lower.z <= pz <= upper.z,
        upper.x as int - lower.x as int <= FILL_SPAN_MAX as int,
        upper.y as int - lower.y as int <= FILL_SPAN_MAX as int,
        upper.z as int - lower.z as int <= FILL_SPAN_MAX as int,
    ensures
        r == in_ellipsoid(px as int, py as int, pz as int, lower.x as int, lower.y as int,
            lower.z as int, upper.x as int, upper.y as int, upper.z as int),
{
    let ax: i128 = 2 * (px as i128) - (lower.x as i128) - (upper.x as i128);
    let ay: i128 = 2 * (py as i128) - (lower.y as i128) - (upper.y as i128);
    let az: i128 = 2 * (pz as i128) - (lower.z as i128) - (upper.z as i128);
    let rx: i128 = (upper.x as i128) - (lower.x as i128) + 2;
    let ry: i128 = (upper.y as i128) - (lower.y as i128) + 2;
    let rz: i128 = (upper.z as i128) - (lower.z as i128) + 2;
    proof {
        lemma_square_bound(ax, rx);
        lemma_square_bound(ay, ry);
        lemma_square_bound(az, rz);
    }
    let ax2: i128 = ax * ax;
    let ay2: i128 = ay * ay;
    let az2: i128 = az * az;
    let rx2: i128 = rx * rx;
    let ry2: i128 = ry * ry;
    let rz2: i128 = rz * rz;
    proof {
        lemma_product_bound(ax2, ry2);
        lemma_product_bound(ay2, rx2);
        lemma_product_bound(az2, rx2);
        lemma_product_bound(rx2, ry2);
    }
    let t1a: i128 = ax2 * ry2;
    let t2a: i128 = ay2 * rx2;
    let t3a: i128 = az2 * rx2;
    let ra: i128 = rx2 * ry2;
    proof {
        lemma_product_bound_wide(t1a, rz2);
        lemma_product_bound_wide(t2a, rz2);
        lemma_product_bound_wide(t3a, ry2);
        lemma_product_bound_wide(ra, rz2);
    }
    let t1: i128 = t1a * rz2;
    let t2: i128 = t2a * rz2;
    let t3: i128 = t3a * ry2;
    let rhs: i128 = ra * rz2;
    t1 + t2 + t3 <= rhs
}

/// The square of a value bounded by `r <= 2^20` in magnitude fits well
/// inside `i128`.
proof fn lemma_square_bound(a: i128, r: i128)
    requires
        0 < r <= 0x100000,
        -r <= a <= r,
    ensures
        0 <= a * a <= 0x10000000000,
        0 <= r * r <= 0x10000000000,
{
    assert(0 <= a * a <= 0x10000000000 && 0 <= r * r <= 0x10000000000) by (nonlinear_arith)
        requires
            0 < r <= 0x100000,
            -r <= a <= r,
    ;
}

/// The product of two squares bounded by `2^40` stays under `2^80`.
proof fn lemma_product_bound(a: i128, b: i128)
    requires
        0 <= a <= 0x10000000000,
        0 <= b <= 0x10000000000,
    ensures
        0 <= a * b <= 0x100000000000000000000,
{
    assert(0 <= a * b <= 0x100000000000000000000) by (nonlinear_arith)
        requires
            0 <= a <= 0x10000000000,
            0 <= b <= 0x10000000000,
    ;
}

/// The product of a value under `2^80` and one under `2^40` stays under
/// `2^120`, well inside `i128`.
proof fn lemma_product_bound_wide(a: i128, b: i128)
    requires
        0 <= a <= 0x100000000000000000000,
        0 <= b <= 0x10000000000,
    ensures
        0 <= a * b <= 0x1000000000000000000000000000000,
{
    assert(0 <= a * b <= 0x1000000000000000000000000000000) by (nonlinear_arith)
        requires
            0 <= a <= 0x100000000000000000000,
            0 <= b <= 0x10000000000,
    ;
}

/// One write of the fill scan preserves its invariant: the cursor's voxel
/// was inside the ellipsoid and now holds `block`, and nothing else moved.
proof fn lemma_fill_step<D: WorldDelegate>(prev: World<D>, cur: World<D>, w0: World<D>,
        block: Block, lower: WorldBlockIndex, upper: WorldBlockIndex, p0: WorldBlockIndex)
    requires
        prev.fill_inv(w0, block, lower, upper, p0.x as int, p0.y as int, p0.z as int),
        filled(p0, lower, upper),
        block.valid(),
        cur.wf(),
        cur.delegate() == prev.delegate(),
        cur.has_chunk(p0.chunk_index_spec()),
        cur.block_at_world(p0) == block,
        forall|k: ChunkIndex| k != p0.chunk_index_spec()
            ==> #[trigger] cur.has_chunk(k) == prev.has_chunk(k),
        forall|k: ChunkIndex| k != p0.chunk_index_spec() && prev.has_chunk(k)
            ==> #[trigger] cur.chunk_at(k) == prev.chunk_at(k),
        prev.has_chunk(p0.chunk_index_spec()) ==> ({
            let ci = p0.chunk_index_spec();
            let li = p0.chunk_local_spec();
            &&& cur.chunk_at(ci).blocks() == prev.chunk_at(ci).blocks()
                .update(flat_index(li.x as int, li.y as int, li.z as int), block)
            &&& cur.chunk_at(ci).side_masks() == prev.chunk_at(ci).side_masks()
            &&& cur.chunk_at(ci).edge_masks() == prev.chunk_at(ci).edge_masks()
            &&& cur.chunk_at(ci).corner_masks() == prev.chunk_at(ci).corner_masks()
        }),
    ensures
        cur.fill_inv(w0, block, lower, upper, p0.x as int, p0.y as int, p0.z as int + 1),
{
    let ci = p0.chunk_index_spec();
    let li = p0.chunk_local_spec();
    lemma_index_round_trip(p0);
    lemma_flat_index_bijective(li.x as int, li.y as int, li.z as int,
        li.x as int, li.y as int, li.z as int);
    assert forall|p: WorldBlockIndex|
        #[trigger] filled(p, lower, upper)
            && fill_visited(p, p0.x as int, p0.y as int, p0.z as int + 1)
        implies cur.has_chunk(p.chunk_index_spec()) && cur.block_at_world(p) == block by {
        if p != p0 {
            assert(fill_visited(p, p0.x as int, p0.y as int, p0.z as int));
            lemma_preserved_voxel(prev, cur, block, p0, p);
        }
    }
    assert forall|p: WorldBlockIndex|
        !(#[trigger] filled(p, lower, upper)
            && fill_visited(p, p0.x as int, p0.y as int, p0.z as int + 1))
            && w0.has_chunk(p.chunk_index_spec())
        implies cur.block_at_world(p) == w0.block_at_world(p) by {
        assert(p != p0);
        assert(!(filled(p, lower, upper)
            && fill_visited(p, p0.x as int, p0.y as int, p0.z as int)));
        lemma_preserved_voxel(prev, cur, block, p0, p);
        assert(prev.block_at_world(p) == w0.block_at_world(p));
    }
    assert forall|k: ChunkIndex| #[trigger] w0.has_chunk(k) implies cur.has_chunk(k)
        && cur.chunk_at(k).side_masks() == w0.chunk_at(k).side_masks()
        && cur.chunk_at(k).edge_masks() == w0.chunk_at(k).edge_masks()
        && cur.chunk_at(k).corner_masks() == w0.chunk_at(k).corner_masks() by {
    }
    assert forall|k: ChunkIndex| !w0.has_chunk(k) && #[trigger] cur.has_chunk(k) implies
        exists|p: WorldBlockIndex| #[trigger] filled(p, lower, upper)
            && p.chunk_index_spec() == k by {
        if k == ci {
            assert(filled(p0, lower, upper) && p0.chunk_index_spec() == k);
        } else {
            assert(prev.has_chunk(k));
        }
    }
}

/// A voxel other than the one just written reads the same before and after
/// the write.
proof fn lemma_preserved_voxel<D: WorldDelegate>(prev: World<D>, cur: World<D>, block: Block,
        p0: WorldBlockIndex, p: WorldBlockIndex)
    requires
        p != p0,
        prev.wf(),
        cur.wf(),
        prev.has_chunk(p.chunk_index_spec()),
        forall|k: ChunkIndex| k != p0.chunk_index_spec()
            ==> #[trigger] cur.has_chunk(k) == prev.has_chunk(k),
        forall|k: ChunkIndex| k != p0.chunk_index_spec() && prev.has_chunk(k)
            ==> #[trigger] cur.chunk_at(k) == prev.chunk_at(k),
        cur.has_chunk(p0.chunk_index_spec()),
        prev.has_chunk(p0.chunk_index_spec()) ==> ({
            let ci = p0.chunk_index_spec();
            let li = p0.chunk_local_spec();
            cur.chunk_at(ci).blocks() == prev.chunk_at(ci).blocks()
                .update(flat_index(li.x as int, li.y as int, li.z as int), block)
        }),
    ensures
        cur.has_chunk(p.chunk_index_spec()),
        cur.block_at_world(p) == prev.block_at_world(p),
{
    let ci = p0.chunk_index_spec();
    let li = p0.chunk_local_spec();
    let lp = p.chunk_local_spec();
    lemma_index_round_trip(p0);
    lemma_index_round_trip(p);
    if p.chunk_index_spec() == ci {
        assert(!(lp.x == li.x && lp.y == li.y && lp.z == li.z));
        lemma_flat_index_bijective(lp.x as int, lp.y as int, lp.z as int,
            li.x as int, li.y as int, li.z as int);
    }
}

/// Largest per-axis span (upper minus lower) that `fill_ellipsoid` accepts:
/// it keeps the exact integer ellipsoid arithmetic within `i128`.
pub const FILL_SPAN_MAX: u32 = 1048574;

/// Whether the voxel (px, py, pz) lies within the ellipsoid spanned by the
/// inclusive box from (lx, ly, lz) to (ux, uy, uz).  The centre is the box
/// midpoint and each radius is half the span plus one, so that voxels on
/// the requested boundary are included; the membership test
/// `((px-cx)/rx)² + ((py-cy)/ry)² + ((pz-cz)/rz)² <= 1` is multiplied out
/// (with coordinates doubled) so that it stays in integers.
pub open spec fn in_ellipsoid(px: int, py: int, pz: int, lx: int, ly: int, lz: int, ux: int, uy: int, uz: int) -> bool {
    let ax = 2 * px - (lx + ux);
    let ay = 2 * py - (ly + uy);
    let az = 2 * pz - (lz + uz);
    let rx = ux - lx + 2;
    let ry = uy - ly + 2;
    let rz = uz - lz + 2;
    ax * ax * (ry * ry) * (rz * rz) + ay * ay * (rx * rx) * (rz * rz)
        + az * az * (rx * rx) * (ry * ry) <= (rx * rx) * (ry * ry) * (rz * rz)
}

/// Whether the voxel `p` lies in the inclusive box from `lower` to `upper`.
pub open spec fn in_fill_box(p: WorldBlockIndex, lower: WorldBlockIndex, upper: WorldBlockIndex) -> bool {
    &&& lower.x <= p.x <= upper.x
    &&& lower.y <= p.y <= upper.y
    &&& lower.z <= p.z <= upper.z
}

/// The voxels that `fill_ellipsoid(lower, upper)` writes: those of the box
/// that lie within its ellipsoid.
pub open spec fn filled(p: WorldBlockIndex, lower: WorldBlockIndex, upper: WorldBlockIndex) -> bool {
    &&& in_fill_box(p, lower, upper)
    &&& in_ellipsoid(p.x as int, p.y as int, p.z as int, lower.x as int, lower.y as int,
        lower.z as int, upper.x as int, upper.y as int, upper.z as int)
}

/// Voxels that the fill scan has already passed when its cursor stands at
/// (x, y, z): those lexicographically earlier in its scan order.
spec fn fill_visited(p: WorldBlockIndex, x: int, y: int, z: int) -> bool {
    p.x < x || (p.x == x && (p.y < y || (p.y == y && p.z < z)))
}

/// Whether the association list holds an entry with key `k`.
pub open spec fn seq_has_key(s: Seq<(ChunkIndex, Chunk)>, k: ChunkIndex) -> bool {
    exists|i: int| 0 <= i < s.len() && (#[trigger] s[i]).0 == k
}

/// Whether the association list's keys are pairwise distinct.
pub open spec fn seq_unique_keys(s: Seq<(ChunkIndex, Chunk)>) -> bool {
    forall|i: int, j: int| 0 <= i < j < s.len() ==> (#[trigger] s[i]).0 != (#[trigger] s[j]).0
}

/// What one `get_or_create_chunk` call leaves behind, for any value `v` the
/// caller may write through the returned reference: the list `t` holds `v`
/// under `index`, every other key's presence and value as in `s`, and its
/// keys stay unique.
spec fn get_or_create_step(s: Seq<(ChunkIndex, Chunk)>, t: Seq<(ChunkIndex, Chunk)>, index: ChunkIndex, v: Chunk) -> bool {
    &&& seq_has_key(t, index)
    &&& t[key_index_of(t, index)].1 == v
    &&& seq_unique_keys(t)
    &&& forall|k: ChunkIndex| k != index ==> #[trigger] seq_has_key(t, k) == seq_has_key(s, k)
    &&& forall|k: ChunkIndex| k != index && #[trigger] seq_has_key(s, k)
        ==> t[key_index_of(t, k)].1 == s[key_index_of(s, k)].1
    &&& (v.wf() && (forall|j: int| 0 <= j < s.len() ==> (#[trigger] s[j]).1.wf()))
        ==> (forall|j: int| 0 <= j < t.len() ==> (#[trigger] t[j]).1.wf())
}

/// Appending an entry whose key is not yet present keeps the keys unique,
/// leaves every other key's presence and value as they were, and stores the
/// new entry last.
proof fn lemma_push_fresh_key(s: Seq<(ChunkIndex, Chunk)>, e: (ChunkIndex, Chunk))
    requires
        seq_unique_keys(s),
        !seq_has_key(s, e.0),
    ensures
        seq_unique_keys(s.push(e)),
        seq_has_key(s.push(e), e.0),
        s.push(e)[key_index_of(s.push(e), e.0)].1 == e.1,
        forall|k: ChunkIndex| k != e.0 ==> #[trigger] seq_has_key(s.push(e), k) == seq_has_key(s, k),
        forall|k: ChunkIndex| k != e.0 && #[trigger] seq_has_key(s, k)
            ==> s.push(e)[key_index_of(s.push(e), k)].1 == s[key_index_of(s, k)].1,
{
    let t = s.push(e);
    assert(t[s.len() as int] == e);
    assert(forall|j: int| 0 <= j < s.len() ==> t[j] == s[j]);
    assert(seq_has_key(t, e.0));
    let j0 = key_index_of(t, e.0);
    assert(0 <= j0 < t.len() && t[j0].0 == e.0);
    if j0 != s.len() as int {
        assert(s[j0].0 == e.0);
        assert(seq_has_key(s, e.0));
    }
    assert(t[j0].1 == e.1);
    assert forall|i: int, j: int| 0 <= i < j < t.len() implies
        (#[trigger] t[i]).0 != (#[trigger] t[j]).0 by {
        if j == s.len() as int {
            assert(t[i] == s[i]);
            if t[i].0 == e.0 {
                assert(seq_has_key(s, e.0));
            }
        }
    }
    assert forall|k: ChunkIndex| k != e.0 implies
        #[trigger] seq_has_key(t, k) == seq_has_key(s, k) by {
        if seq_has_key(s, k) {
            let j = choose|j: int| 0 <= j < s.len() && s[j].0 == k;
            assert(t[j].0 == k);
        }
        if seq_has_key(t, k) {
            let j = choose|j: int| 0 <= j < t.len() && t[j].0 == k;
            assert(j < s.len());
            assert(s[j].0 == k);
        }
    }
    assert forall|k: ChunkIndex| k != e.0 && #[trigger] seq_has_key(s, k) implies
        t[key_index_of(t, k)].1 == s[key_index_of(s, k)].1 by {
        let j = key_index_of(s, k);
        assert(0 <= j < s.len() && s[j].0 == k);
        assert(t[j].0 == k);
        assert(seq_has_key(t, k));
        let j2 = key_index_of(t, k);
        assert(0 <= j2 < t.len() && t[j2].0 == k);
        assert(j2 < s.len());
        if j2 != j {
            assert(s[j2].0 == k);
            assert(false);
        }
    }
}

/// With unique keys, the entry at `i` is the one `key_index_of` finds for
/// its key.
proof fn lemma_key_index_at(s: Seq<(ChunkIndex, Chunk)>, i: int)
    requires
        seq_unique_keys(s),
        0 <= i < s.len(),
    ensures
        seq_has_key(s, s[i].0),
        key_index_of(s, s[i].0) == i,
{
    assert(seq_has_key(s, s[i].0));
    let j = key_index_of(s, s[i].0);
    if j != i {
        assert(s[j].0 == s[i].0);
        assert(false);
    }
}

/// Replacing the value at `i` leaves every other key's presence and value
/// as they were.
proof fn lemma_update_other_keys(s: Seq<(ChunkIndex, Chunk)>, i: int, v: Chunk, k: ChunkIndex)
    requires
        seq_unique_keys(s),
        0 <= i < s.len(),
        k != s[i].0,
    ensures
        seq_has_key(s.update(i, (s[i].0, v)), k) == seq_has_key(s, k),
        seq_has_key(s, k) ==> s.update(i, (s[i].0, v))[key_index_of(s.update(i, (s[i].0, v)), k)].1
            == s[key_index_of(s, k)].1,
{
    let t = s.update(i, (s[i].0, v));
    assert(t.len() == s.len());
    assert(forall|j: int| 0 <= j < s.len() ==> (#[trigger] t[j]).0 == s[j].0);
    if seq_has_key(s, k) {
        let j = key_index_of(s, k);
        assert(0 <= j < s.len() && s[j].0 == k);
        assert(t[j].0 == k);
        assert(seq_has_key(t, k));
        let j2 = key_index_of(t, k);
        assert(0 <= j2 < t.len() && t[j2].0 == k);
        assert(s[j2].0 == k);
        if j2 != j {
            assert(false);
        }
        assert(j != i);
        assert(t[j].1 == s[j].1);
    }
    if seq_has_key(t, k) {
        let j2 = key_index_of(t, k);
        assert(s[j2].0 == k);
        assert(seq_has_key(s, k));
    }
}

/// Replacing the value at `i` stores exactly that value under the key at
/// `i` and keeps the keys unique.
proof fn lemma_update_own_key(s: Seq<(ChunkIndex, Chunk)>, i: int, v: Chunk)
    requires
        seq_unique_keys(s),
        0 <= i < s.len(),
    ensures
        seq_has_key(s.update(i, (s[i].0, v)), s[i].0),
        s.update(i, (s[i].0, v))[key_index_of(s.update(i, (s[i].0, v)), s[i].0)].1 == v,
        seq_unique_keys(s.update(i, (s[i].0, v))),
{
    let t = s.update(i, (s[i].0, v));
    assert(forall|j: int| 0 <= j < s.len() ==> (#[trigger] t[j]).0 == s[j].0);
    assert(t[i].0 == s[i].0);
    assert(seq_has_key(t, s[i].0));
    let j2 = key_index_of(t, s[i].0);
    assert(0 <= j2 < t.len() && t[j2].0 == s[i].0);
    if j2 != i {
        assert(s[j2].0 == s[i].0);
        assert(false);
    }
}

} // verus!
