use voxel_world::block::Block;
use voxel_world::chunk::{Chunk, ChunkBlockIndex};
use voxel_world::mesh::MeshVertex;

/// Meshing a chunk whose masks were never computed (all zero) produces an
/// empty stream, even when blocks were placed.
#[test]
fn mesh_unprocessed_chunk_is_empty() {
    let mut c = Chunk::empty();
    c.set_block(&ChunkBlockIndex::new(5, 5, 5), Block::from_id("dirt"));
    let mut vertices: Vec<MeshVertex> = Vec::new();
    c.render(&mut vertices);
    assert!(vertices.is_empty());
}

/// An all-air chunk produces no geometry after a visibility pass either.
#[test]
fn mesh_air_chunk_is_empty() {
    let mut c = Chunk::empty();
    c.process_sides();
    let mut vertices: Vec<MeshVertex> = Vec::new();
    c.render(&mut vertices);
    assert!(vertices.is_empty());
}

/// A single free-standing block emits two triangles for each of its six
/// faces, with exact positions, texture pixels, normals, and no shading.
#[test]
fn mesh_single_block_exact_vertices() {
    let mut c = Chunk::empty();
    c.set_block(&ChunkBlockIndex::new(1, 2, 3), Block::from_id("dirt"));
    c.process_sides();
    let mut vertices: Vec<MeshVertex> = Vec::new();
    c.render(&mut vertices);
    assert_eq!(vertices.len(), 36);

    // dirt uses tile (5, 1) on every face: u from 640, v from 1792
    for v in &vertices {
        assert!(v.u == 640 || v.u == 768);
        assert!(v.v == 1792 || v.v == 1920);
        // every neighbour is air, so nothing is darkened
        assert!(!v.shaded);
    }

    // the first face is side 0 (towards -y of the grid): normal (0, 0, -1)
    // in renderer axes, corners in the fixed triangulation order, with the
    // grid's z (3) as the renderer's vertical y and the grid's y (2) as z.
    let first: Vec<MeshVertex> = vertices[0..6].to_vec();
    let expect = [
        // corner 0: cube vertex 5 = (1, 1, 0)
        (2, 4, 2, 640, 1792),
        // corner 3: cube vertex 1 = (1, 0, 0)
        (2, 3, 2, 640, 1920),
        // corner 1: cube vertex 4 = (0, 1, 0)
        (1, 4, 2, 768, 1792),
        // corner 1 again
        (1, 4, 2, 768, 1792),
        // corner 3 again
        (2, 3, 2, 640, 1920),
        // corner 2: cube vertex 0 = (0, 0, 0)
        (1, 3, 2, 768, 1920),
    ];
    for (got, want) in first.iter().zip(expect.iter()) {
        assert_eq!((got.x, got.y, got.z, got.u, got.v), *want);
        assert_eq!((got.nx, got.ny, got.nz), (0, 0, -1));
    }
}

/// Faces hidden by an opaque neighbour contribute no vertices.
#[test]
fn mesh_adjacent_blocks_drop_shared_faces() {
    let mut c = Chunk::empty();
    let stone = Block::from_id("stone_gravel");
    c.set_block(&ChunkBlockIndex::new(10, 10, 10), stone);
    c.set_block(&ChunkBlockIndex::new(11, 10, 10), stone);
    c.process_sides();
    let mut vertices: Vec<MeshVertex> = Vec::new();
    c.render(&mut vertices);
    // two blocks, five visible faces each
    assert_eq!(vertices.len(), 2 * 5 * 6);
}

/// A vertex whose corner sits against an occluding neighbour is shaded.
#[test]
fn mesh_occluded_corner_is_shaded() {
    let mut c = Chunk::empty();
    let stone = Block::from_id("stone_gravel");
    // a block with a second one diagonally above one of its top edges:
    // the neighbour clears edge bits of the lower block's top face
    c.set_block(&ChunkBlockIndex::new(10, 10, 10), stone);
    c.set_block(&ChunkBlockIndex::new(11, 10, 11), stone);
    c.process_sides();
    let mut vertices: Vec<MeshVertex> = Vec::new();
    c.render(&mut vertices);
    let shaded: Vec<&MeshVertex> = vertices.iter().filter(|v| v.shaded).collect();
    assert!(!shaded.is_empty());
    // but a fully free block stays unshaded
    let mut lone = Chunk::empty();
    lone.set_block(&ChunkBlockIndex::new(5, 5, 5), stone);
    lone.process_sides();
    let mut lone_vertices: Vec<MeshVertex> = Vec::new();
    lone.render(&mut lone_vertices);
    assert!(lone_vertices.iter().all(|v| !v.shaded));
}

/// Rendering appends: an earlier stream is left in place.
#[test]
fn mesh_render_appends_to_the_stream() {
    let mut a = Chunk::empty();
    a.set_block(&ChunkBlockIndex::new(0, 0, 0), Block::from_id("wood"));
    a.process_sides();
    let mut vertices: Vec<MeshVertex> = Vec::new();
    a.render(&mut vertices);
    let first_len = vertices.len();
    assert_eq!(first_len, 36);
    a.render(&mut vertices);
    assert_eq!(vertices.len(), 2 * first_len);
    assert_eq!(vertices[0], vertices[first_len]);
}
