//! Mesh generation: turns a chunk's blocks and visibility masks into a
//! stream of textured triangles.
//!
//! For every voxel and every face whose visibility bit is set, six vertices
//! (two triangles) are emitted.  Everything is kept in exact units: vertex
//! positions in voxel units local to the chunk (with the storage grid's
//! vertical axis swapped into the renderer's y axis), texture coordinates
//! in atlas pixels (v measured from the bottom of the atlas), unit normal
//! components, and a flag marking vertices darkened by ambient occlusion.
//! A renderer divides the texture coordinates by the atlas extent and maps
//! the flag to its darkening constant.

use vstd::prelude::*;
use crate::block::{Block, kind_texture};
use crate::chunk::{Chunk, SIZE_X, SIZE_Y, SIZE_Z, VOLUME, BlockSides, BlockEdges, in_bounds, flat_index, mask_bit8, mask_bit32};

verus! {

/// Width of the texture atlas, in pixels.
pub const SPRITESHEET_WIDTH: u32 = 1024;

/// Height of the texture atlas, in pixels.
pub const SPRITESHEET_HEIGHT: u32 = 2048;

/// Edge length of one square atlas tile, in pixels.
pub const SPRITESHEET_TILE_SIZE: u32 = 128;

/// One mesh vertex, in exact units.  `x`/`y`/`z` are the position in voxel
/// units local to the chunk, with `y` the vertical axis of the renderer
/// (the storage grid's z).  `u`/`v` are atlas pixels, `v` measured from the
/// bottom.  `nx`/`ny`/`nz` form the face's unit normal.  `shaded` marks a
/// vertex that ambient occlusion darkens.
#[derive(Clone, Copy, Debug, PartialEq, Eq, Structural)]
pub struct MeshVertex {
    pub x: u32,
    pub y: u32,
    pub z: u32,
    pub u: u32,
    pub v: u32,
    pub nx: i8,
    pub ny: i8,
    pub nz: i8,
    pub shaded: bool,
}

/// Corner `corner` of face `side` of the unit cube, as an index into the
/// cube's vertex table.
pub open spec fn face_vertex_index(side: int, corner: int) -> int {
    if side == 0 {
        if corner == 0 { 5 } else if corner == 1 { 4 } else if corner == 2 { 0 } else { 1 }
    } else if side == 1 {
        if corner == 0 { 7 } else if corner == 1 { 6 } else if corner == 2 { 2 } else { 3 }
    } else if side == 2 {
        if corner == 0 { 6 } else if corner == 1 { 5 } else if corner == 2 { 1 } else { 2 }
    } else if side == 3 {
        if corner == 0 { 4 } else if corner == 1 { 7 } else if corner == 2 { 3 } else { 0 }
    } else if side == 4 {
        if corner == 0 { 6 } else if corner == 1 { 7 } else if corner == 2 { 4 } else { 5 }
    } else {
        if corner == 0 { 1 } else if corner == 1 { 0 } else if corner == 2 { 3 } else { 2 }
    }
}

/// Vertex `i` of the unit cube: (x, vertical, z) offsets, each 0 or 1.
pub open spec fn cube_vertex(i: int) -> (int, int, int) {
    if i == 0 { (0, 0, 0) }
    else if i == 1 { (1, 0, 0) }
    else if i == 2 { (1, 0, 1) }
    else if i == 3 { (0, 0, 1) }
    else if i == 4 { (0, 1, 0) }
    else if i == 5 { (1, 1, 0) }
    else if i == 6 { (1, 1, 1) }
    else { (0, 1, 1) }
}

/// Which of a face's four corners the `k`-th emitted vertex uses: the fixed
/// triangulation of the quad into two triangles.
pub open spec fn face_order(k: int) -> int {
    if k == 0 { 0 }
    else if k == 1 { 3 }
    else if k == 2 { 1 }
    else if k == 3 { 1 }
    else if k == 4 { 3 }
    else { 2 }
}

/// The edge-mask bit index of the edge that ends at corner `corner` of face
/// `side`; the edge starting there is the entry at `(corner + 1) % 4`.
pub open spec fn face_edge(side: int, corner: int) -> int {
    if side == 0 {
        if corner == 0 { 0 } else if corner == 1 { 2 } else if corner == 2 { 1 } else { 3 }
    } else if side == 1 {
        if corner == 0 { 5 } else if corner == 1 { 6 } else if corner == 2 { 4 } else { 7 }
    } else if side == 2 {
        if corner == 0 { 4 } else if corner == 1 { 8 } else if corner == 2 { 0 } else { 9 }
    } else if side == 3 {
        if corner == 0 { 1 } else if corner == 1 { 10 } else if corner == 2 { 5 } else { 11 }
    } else if side == 4 {
        if corner == 0 { 8 } else if corner == 1 { 6 } else if corner == 2 { 10 } else { 2 }
    } else {
        if corner == 0 { 9 } else if corner == 1 { 3 } else if corner == 2 { 11 } else { 7 }
    }
}

/// Unit normal of face `side`, in renderer axes.
pub open spec fn face_normal(side: int) -> (int, int, int) {
    if side == 0 { (0, 0, -1) }
    else if side == 1 { (0, 0, 1) }
    else if side == 2 { (1, 0, 0) }
    else if side == 3 { (-1, 0, 0) }
    else if side == 4 { (0, 1, 0) }
    else { (0, -1, 0) }
}

/// The `k`-th vertex emitted for face `side` of the block at local grid
/// coordinates (x, y, z), under edge mask `emask`.  A vertex is shaded when
/// either edge-mask bit adjacent to its corner is clear: a neighbour there
/// occludes the light.
pub open spec fn vertex_spec(block: Block, x: int, y: int, z: int, emask: BlockEdges, side: int, k: int) -> MeshVertex {
    let corner = face_order(k);
    let c = cube_vertex(face_vertex_index(side, corner));
    let tex = kind_texture(block.id(), side);
    let u0 = tex.0 * SPRITESHEET_TILE_SIZE as int;
    let v0 = SPRITESHEET_HEIGHT as int - tex.1 * SPRITESHEET_TILE_SIZE as int
        - SPRITESHEET_TILE_SIZE as int;
    let n = face_normal(side);
    MeshVertex {
        x: (x + c.0) as u32,
        y: (z + c.1) as u32,
        z: (y + c.2) as u32,
        u: (u0 + if corner == 1 || corner == 2 { SPRITESHEET_TILE_SIZE as int } else { 0 }) as u32,
        v: (v0 + if corner == 2 || corner == 3 { SPRITESHEET_TILE_SIZE as int } else { 0 }) as u32,
        nx: n.0 as i8,
        ny: n.1 as i8,
        nz: n.2 as i8,
        shaded: !mask_bit32(emask, face_edge(side, corner))
            || !mask_bit32(emask, face_edge(side, (corner + 1) % 4)),
    }
}

/// The six vertices (two triangles) emitted for face `side` of a voxel.
pub open spec fn face_vertices(block: Block, x: int, y: int, z: int, emask: BlockEdges, side: int) -> Seq<MeshVertex> {
    Seq::new(6, |k: int| vertex_spec(block, x, y, z, emask, side, k))
}

/// The vertices emitted for the faces of one voxel whose index is below
/// `side`, in face order.
pub open spec fn voxel_mesh_upto(block: Block, x: int, y: int, z: int, smask: BlockSides, emask: BlockEdges, side: int) -> Seq<MeshVertex>
    decreases side,
{
    if side <= 0 {
        Seq::empty()
    } else {
        voxel_mesh_upto(block, x, y, z, smask, emask, side - 1)
            + if mask_bit8(smask, side - 1) {
                face_vertices(block, x, y, z, emask, side - 1)
            } else {
                Seq::empty()
            }
    }
}

/// The vertices emitted for one voxel: nothing when no face is visible,
/// else two triangles per visible face.
pub open spec fn voxel_mesh(block: Block, x: int, y: int, z: int, smask: BlockSides, emask: BlockEdges) -> Seq<MeshVertex> {
    if smask == 0 {
        Seq::empty()
    } else {
        voxel_mesh_upto(block, x, y, z, smask, emask, 6)
    }
}

/// The vertices emitted for the voxels with flat index below `i`, in grid
/// order.
pub open spec fn chunk_mesh_upto(c: Chunk, i: int) -> Seq<MeshVertex>
    decreases i,
{
    if i <= 0 {
        Seq::empty()
    } else {
        chunk_mesh_upto(c, i - 1) + voxel_mesh(
            c.blocks()[i - 1],
            (i - 1) / 2048,
            ((i - 1) / 64) % 32,
            (i - 1) % 64,
            c.side_masks()[i - 1],
            c.edge_masks()[i - 1],
        )
    }
}

/// The whole mesh of a chunk, in voxel grid order.
pub open spec fn chunk_mesh(c: Chunk) -> Seq<MeshVertex> {
    chunk_mesh_upto(c, VOLUME as int)
}

/// Meshing a chunk whose face masks are all zero, as they are right after
/// construction and before any visibility pass, yields no geometry at all.
pub proof fn lemma_unprocessed_chunk_mesh_empty(c: Chunk)
    requires
        forall|i: int| 0 <= i < VOLUME as int ==> (#[trigger] c.side_masks()[i]) == 0,
    ensures
        chunk_mesh(c) == Seq::<MeshVertex>::empty(),
{
    lemma_mesh_upto_empty(c, VOLUME as int);
}

/// Helper for the empty-mesh law: induction over the voxels.
proof fn lemma_mesh_upto_empty(c: Chunk, i: int)
    requires
        0 <= i <= VOLUME as int,
        forall|j: int| 0 <= j < VOLUME as int ==> (#[trigger] c.side_masks()[j]) == 0,
    ensures
        chunk_mesh_upto(c, i) == Seq::<MeshVertex>::empty(),
    decreases i,
{
    if i > 0 {
        lemma_mesh_upto_empty(c, i - 1);
        assert(chunk_mesh_upto(c, i) =~= Seq::<MeshVertex>::empty());
    }
}

/// Texture tiles of the fixed block table lie within the atlas grid.
proof fn lemma_kind_texture_bounds(id: int, side: int)
    requires
        0 <= id < 18,
        0 <= side < 6,
    ensures
        0 <= kind_texture(id, side).0 <= 5,
        0 <= kind_texture(id, side).1 <= 6,
{
}

/// Corner `corner` of face `side` of the unit cube, as exec data.
fn face_vertex_index_at(side: usize, corner: usize) -> (r: usize)
    requires
        side < 6,
        corner < 4,
    ensures
        r as int == face_vertex_index(side as int, corner as int),
        r < 8,
{
    let row: [usize; 4] = if side == 0 { [5, 4, 0, 1] }
        else if side == 1 { [7, 6, 2, 3] }
        else if side == 2 { [6, 5, 1, 2] }
        else if side == 3 { [4, 7, 3, 0] }
        else if side == 4 { [6, 7, 4, 5] }
        else { [1, 0, 3, 2] };
    row[corner]
}

/// Vertex `i` of the unit cube, as exec data.
fn cube_vertex_at(i: usize) -> (r: (u32, u32, u32))
    requires
        i < 8,
    ensures
        r.0 as int == cube_vertex(i as int).0,
        r.1 as int == cube_vertex(i as int).1,
        r.2 as int == cube_vertex(i as int).2,
{
    if i == 0 { (0, 0, 0) }
    else if i == 1 { (1, 0, 0) }
    else if i == 2 { (1, 0, 1) }
    else if i == 3 { (0, 0, 1) }
    else if i == 4 { (0, 1, 0) }
    else if i == 5 { (1, 1, 0) }
    else if i == 6 { (1, 1, 1) }
    else { (0, 1, 1) }
}

/// The fixed quad triangulation, as exec data.
fn face_order_at(k: usize) -> (r: usize)
    requires
        k < 6,
    ensures
        r as int == face_order(k as int),
        r < 4,
{
    let order: [usize; 6] = [0, 3, 1, 1, 3, 2];
    order[k]
}

/// The edge-mask bit adjacent to a face corner, as exec data.
fn face_edge_at(side: usize, corner: usize) -> (r: u32)
    requires
        side < 6,
        corner < 4,
    ensures
        r as int == face_edge(side as int, corner as int),
        r < 12,
{
    let row: [u32; 4] = if side == 0 { [0, 2, 1, 3] }
        else if side == 1 { [5, 6, 4, 7] }
        else if side == 2 { [4, 8, 0, 9] }
        else if side == 3 { [1, 10, 5, 11] }
        else if side == 4 { [8, 6, 10, 2] }
        else { [9, 3, 11, 7] };
    row[corner]
}

/// The unit normal of a face, as exec data.
fn face_normal_at(side: usize) -> (r: (i8, i8, i8))
    requires
        side < 6,
    ensures
        r.0 as int == face_normal(side as int).0,
        r.1 as int == face_normal(side as int).1,
        r.2 as int == face_normal(side as int).2,
{
    if side == 0 { (0, 0, -1) }
    else if side == 1 { (0, 0, 1) }
    else if side == 2 { (1, 0, 0) }
    else if side == 3 { (-1, 0, 0) }
    else if side == 4 { (0, 1, 0) }
    else { (0, -1, 0) }
}

impl Block {
    /// Appends the vertices of this block's visible faces at local grid
    /// coordinates (x, y, z) to the stream.  A voxel with no visible face
    /// contributes nothing.
    pub fn render(&self, vertices: &mut Vec<MeshVertex>, x: usize, y: usize, z: usize, sides: BlockSides, edges: BlockEdges)
        requires
            self.valid(),
            in_bounds(x as int, y as int, z as int),
        ensures
            final(vertices)@ == old(vertices)@
                + voxel_mesh(*self, x as int, y as int, z as int, sides, edges),
    {
        if sides == 0 {
            proof {
                assert(old(vertices)@ + voxel_mesh(*self, x as int, y as int, z as int, sides, edges)
                    =~= old(vertices)@);
            }
            return;
        }
        let mut side: usize = 0;
        while side < 6
            invariant
                self.valid(),
                in_bounds(x as int, y as int, z as int),
                sides != 0,
                side <= 6,
                vertices@ == old(vertices)@
                    + voxel_mesh_upto(*self, x as int, y as int, z as int, sides, edges, side as int),
            decreases 6 - side,
        {
            let s8: u8 = side as u8;
            if (sides >> s8) & 1u8 == 1u8 {
                let tex = self.texture_pos(side);
                proof {
                    lemma_kind_texture_bounds(self.id(), side as int);
                }
                let u0: u32 = (tex.0 as u32) * SPRITESHEET_TILE_SIZE;
                let v0: u32 = SPRITESHEET_HEIGHT - (tex.1 as u32) * SPRITESHEET_TILE_SIZE
                    - SPRITESHEET_TILE_SIZE;
                let normal = face_normal_at(side);
                let mut k: usize = 0;
                while k < 6
                    invariant
                        self.valid(),
                        in_bounds(x as int, y as int, z as int),
                        side < 6,
                        k <= 6,
                        u0 as int == kind_texture(self.id(), side as int).0 * SPRITESHEET_TILE_SIZE as int,
                        v0 as int == SPRITESHEET_HEIGHT as int
                            - kind_texture(self.id(), side as int).1 * SPRITESHEET_TILE_SIZE as int
                            - SPRITESHEET_TILE_SIZE as int,
                        normal.0 as int == face_normal(side as int).0,
                        normal.1 as int == face_normal(side as int).1,
                        normal.2 as int == face_normal(side as int).2,
                        vertices@ == old(vertices)@
                            + voxel_mesh_upto(*self, x as int, y as int, z as int, sides, edges, side as int)
                            + face_vertices(*self, x as int, y as int, z as int, edges, side as int)
                                .subrange(0, k as int),
                    decreases 6 - k,
                {
                    let corner = face_order_at(k);
                    let c = cube_vertex_at(face_vertex_index_at(side, corner));
                    let ea = face_edge_at(side, corner);
                    let eb = face_edge_at(side, (corner + 1) % 4);
                    let vtx = MeshVertex {
                        x: (x as u32) + c.0,
                        y: (z as u32) + c.1,
                        z: (y as u32) + c.2,
                        u: u0 + if corner == 1 || corner == 2 { SPRITESHEET_TILE_SIZE } else { 0 },
                        v: v0 + if corner == 2 || corner == 3 { SPRITESHEET_TILE_SIZE } else { 0 },
                        nx: normal.0,
                        ny: normal.1,
                        nz: normal.2,
                        shaded: (edges >> ea) & 1u32 != 1u32 || (edges >> eb) & 1u32 != 1u32,
                    };
                    proof {
                        assert(vtx == vertex_spec(*self, x as int, y as int, z as int, edges,
                            side as int, k as int));
                    }
                    vertices.push(vtx);
                    proof {
                        assert(face_vertices(*self, x as int, y as int, z as int, edges, side as int)
                            .subrange(0, k as int + 1)
                            =~= face_vertices(*self, x as int, y as int, z as int, edges, side as int)
                                .subrange(0, k as int).push(vtx));
                        assert(vertices@ == old(vertices)@
                            + voxel_mesh_upto(*self, x as int, y as int, z as int, sides, edges, side as int)
                            + face_vertices(*self, x as int, y as int, z as int, edges, side as int)
                                .subrange(0, k as int + 1));
                    }
                    k += 1;
                }
                proof {
                    assert(face_vertices(*self, x as int, y as int, z as int, edges, side as int)
                        .subrange(0, 6)
                        =~= face_vertices(*self, x as int, y as int, z as int, edges, side as int));
                    assert(mask_bit8(sides, side as int));
                    assert(vertices@ == old(vertices)@
                        + voxel_mesh_upto(*self, x as int, y as int, z as int, sides, edges, side as int + 1))
                    by {
                        assert(old(vertices)@
                            + voxel_mesh_upto(*self, x as int, y as int, z as int, sides, edges, side as int)
                            + face_vertices(*self, x as int, y as int, z as int, edges, side as int)
                            =~= old(vertices)@
                            + (voxel_mesh_upto(*self, x as int, y as int, z as int, sides, edges, side as int)
                                + face_vertices(*self, x as int, y as int, z as int, edges, side as int)));
                    }
                }
            } else {
                proof {
                    assert(!mask_bit8(sides, side as int));
                    assert(voxel_mesh_upto(*self, x as int, y as int, z as int, sides, edges, side as int + 1)
                        =~= voxel_mesh_upto(*self, x as int, y as int, z as int, sides, edges, side as int));
                }
            }
            side += 1;
        }
    }
}

impl Chunk {
    /// Appends this chunk's whole mesh to the stream: for every voxel, two
    /// triangles per visible face, in voxel grid order.
    pub fn render(&self, vertices: &mut Vec<MeshVertex>)
        requires
            self.wf(),
        ensures
            final(vertices)@ == old(vertices)@ + chunk_mesh(*self),
    {
        let mut x: usize = 0;
        while x < SIZE_X
            invariant
                self.wf(),
                x <= SIZE_X,
                vertices@ == old(vertices)@ + chunk_mesh_upto(*self, (x * 2048) as int),
            decreases SIZE_X - x,
        {
            let mut y: usize = 0;
            while y < SIZE_Y
                invariant
                    self.wf(),
                    x < SIZE_X,
                    y <= SIZE_Y,
                    vertices@ == old(vertices)@ + chunk_mesh_upto(*self, (x * 2048 + y * 64) as int),
                decreases SIZE_Y - y,
            {
                let mut z: usize = 0;
                while z < SIZE_Z
                    invariant
                        self.wf(),
                        x < SIZE_X,
                        y < SIZE_Y,
                        z <= SIZE_Z,
                        vertices@ == old(vertices)@
                            + chunk_mesh_upto(*self, (x * 2048 + y * 64 + z) as int),
                    decreases SIZE_Z - z,
                {
                    let flat = x * (SIZE_Y * SIZE_Z) + y * SIZE_Z + z;
                    proof {
                        crate::chunk::lemma_flat_index_bijective(
                            x as int, y as int, z as int, x as int, y as int, z as int);
                        lemma_flat_coords(x as int, y as int, z as int);
                    }
                    let block = self.data()[flat];
                    let ghost before = vertices@;
                    block.render(vertices, x, y, z, self.sides()[flat], self.edges()[flat]);
                    proof {
                        assert(vertices@ == old(vertices)@
                            + chunk_mesh_upto(*self, flat as int + 1))
                        by {
                            assert(chunk_mesh_upto(*self, flat as int + 1)
                                == chunk_mesh_upto(*self, flat as int) + voxel_mesh(
                                    self.blocks()[flat as int], x as int, y as int, z as int,
                                    self.side_masks()[flat as int], self.edge_masks()[flat as int]));
                            assert(old(vertices)@ + chunk_mesh_upto(*self, flat as int)
                                + voxel_mesh(self.blocks()[flat as int], x as int, y as int, z as int,
                                    self.side_masks()[flat as int], self.edge_masks()[flat as int])
                                =~= old(vertices)@ + (chunk_mesh_upto(*self, flat as int)
                                + voxel_mesh(self.blocks()[flat as int], x as int, y as int, z as int,
                                    self.side_masks()[flat as int], self.edge_masks()[flat as int])));
                        }
                    }
                    z += 1;
                }
                y += 1;
            }
            x += 1;
        }
        proof {
            assert(chunk_mesh_upto(*self, (SIZE_X * 2048) as int) == chunk_mesh(*self));
        }
    }
}

/// The voxel grid coordinates encoded in a flat index.
proof fn lemma_flat_coords(x: int, y: int, z: int)
    requires
        in_bounds(x, y, z),
    ensures
        flat_index(x, y, z) / 2048 == x,
        (flat_index(x, y, z) / 64) % 32 == y,
        flat_index(x, y, z) % 64 == z,
{
    let f = flat_index(x, y, z);
    assert(f == x * 2048 + y * 64 + z);
    assert(f / 2048 == x) by (nonlinear_arith)
        requires
            f == x * 2048 + y * 64 + z,
            0 <= y < 32,
            0 <= z < 64,
            0 <= x,
    ;
    assert(f / 64 == x * 32 + y) by (nonlinear_arith)
        requires
            f == x * 2048 + y * 64 + z,
            0 <= y < 32,
            0 <= z < 64,
            0 <= x,
    ;
    assert((x * 32 + y) % 32 == y) by (nonlinear_arith)
        requires
            0 <= y < 32,
            0 <= x,
    ;
    assert(f % 64 == z) by (nonlinear_arith)
        requires
            f == x * 2048 + y * 64 + z,
            0 <= y < 32,
            0 <= z < 64,
            0 <= x,
    ;
}

} // verus!
