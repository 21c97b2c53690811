use voxel_world::block::Block;
use voxel_world::chunk::{Chunk, ChunkBlockIndex, DeltaDir, SIZE_X, SIZE_Y, SIZE_Z, VOLUME};

fn flat(x: usize, y: usize, z: usize) -> usize {
    x * (SIZE_Y * SIZE_Z) + y * SIZE_Z + z
}

#[test]
fn chunk_empty_is_all_air_with_zero_masks() {
    let c = Chunk::empty();
    assert_eq!(c.data().len(), VOLUME);
    assert_eq!(c.sides().len(), VOLUME);
    assert_eq!(c.edges().len(), VOLUME);
    assert_eq!(c.corners().len(), VOLUME);
    for i in 0..VOLUME {
        assert!(c.data()[i].is_air());
        assert_eq!(c.sides()[i], 0);
        assert_eq!(c.edges()[i], 0);
        assert_eq!(c.corners()[i], 0);
    }
}

#[test]
fn chunk_get_set_block() {
    let mut c = Chunk::empty();
    let pos = ChunkBlockIndex::new(3, 7, 11);
    let dirt = Block::from_id("dirt");
    c.set_block(&pos, dirt);
    assert_eq!(*c.get_block(&pos), dirt);
    assert!(c.get_block(&ChunkBlockIndex::new(3, 7, 12)).is_air());
    let slot = c.get_block_mut(&pos);
    *slot = Block::from_id("wood");
    assert_eq!(*c.get_block(&pos), Block::from_id("wood"));
}

/// A chunk that is entirely air has every side, edge and corner mask zero
/// after a visibility pass.
#[test]
fn chunk_all_air_masks_stay_zero() {
    let mut c = Chunk::empty();
    c.process_sides();
    for i in 0..VOLUME {
        assert_eq!(c.sides()[i], 0);
        assert_eq!(c.edges()[i], 0);
        assert_eq!(c.corners()[i], 0);
    }
}

/// One opaque block away from the chunk boundary sees transparent
/// neighbours in all 6 + 12 + 8 directions after a visibility pass.
#[test]
fn chunk_single_block_fully_visible() {
    let mut c = Chunk::empty();
    let pos = ChunkBlockIndex::new(5, 6, 7);
    c.set_block(&pos, Block::from_id("brick_stone"));
    c.process_sides();
    let i = flat(5, 6, 7);
    assert_eq!(c.sides()[i], 0b111111);
    assert_eq!(c.edges()[i], 0b1111_1111_1111);
    assert_eq!(c.corners()[i], 0b1111_1111);
    // air voxels still show nothing
    assert_eq!(c.sides()[flat(5, 6, 8)], 0);
    assert_eq!(c.edges()[flat(4, 6, 7)], 0);
}

/// Two opaque blocks sharing a face each hide that face after a visibility
/// pass; every other face, edge and corner stays visible.
#[test]
fn chunk_adjacent_blocks_occlude_each_other() {
    let mut c = Chunk::empty();
    let stone = Block::from_id("stone_gravel");
    c.set_block(&ChunkBlockIndex::new(10, 12, 20), stone);
    c.set_block(&ChunkBlockIndex::new(11, 12, 20), stone);
    c.process_sides();
    let left = flat(10, 12, 20);
    let right = flat(11, 12, 20);
    // side 2 points right (+x), side 3 points left (-x)
    assert_eq!(c.sides()[left] & (1 << 2), 0);
    assert_eq!(c.sides()[right] & (1 << 3), 0);
    assert_eq!(c.sides()[left], 0b111011);
    assert_eq!(c.sides()[right], 0b110111);
    assert_eq!(c.edges()[left], 0b1111_1111_1111);
    assert_eq!(c.edges()[right], 0b1111_1111_1111);
    assert_eq!(c.corners()[left], 0b1111_1111);
    assert_eq!(c.corners()[right], 0b1111_1111);
}

/// Probes that leave the chunk count as transparent: a block in the corner
/// of the chunk still shows all of its faces.
#[test]
fn chunk_boundary_block_shows_all_faces() {
    let mut c = Chunk::empty();
    c.set_block(&ChunkBlockIndex::new(0, 0, 0), Block::from_id("wood"));
    c.process_sides();
    assert_eq!(c.sides()[flat(0, 0, 0)], 0b111111);
    assert_eq!(c.edges()[flat(0, 0, 0)], 0b1111_1111_1111);
    assert_eq!(c.corners()[flat(0, 0, 0)], 0b1111_1111);
}

/// A transparent but visible block still shows its faces, and its opaque
/// neighbour's shared face stays visible through it.
#[test]
fn chunk_transparent_neighbour_keeps_face_visible() {
    let mut c = Chunk::empty();
    c.set_block(&ChunkBlockIndex::new(8, 8, 8), Block::from_id("brick_stone"));
    c.set_block(&ChunkBlockIndex::new(9, 8, 8), Block::from_id("mushroom_red"));
    c.process_sides();
    // the opaque block's +x face looks at a transparent mushroom: visible
    assert_eq!(c.sides()[flat(8, 8, 8)], 0b111111);
    // the mushroom's -x face looks at opaque brick: hidden
    assert_eq!(c.sides()[flat(9, 8, 8)], 0b110111);
}

/// An invisible voxel gets no bits at all, even with visible neighbours.
#[test]
fn chunk_air_voxel_keeps_zero_masks_next_to_solid() {
    let mut c = Chunk::empty();
    c.set_block(&ChunkBlockIndex::new(4, 4, 4), Block::from_id("dirt"));
    c.process_sides();
    assert_eq!(c.sides()[flat(4, 4, 5)], 0);
    assert_eq!(c.sides()[flat(3, 4, 4)], 0);
}

/// Editing after a pass leaves the masks stale until the next pass.
#[test]
fn chunk_masks_stale_after_edit() {
    let mut c = Chunk::empty();
    let pos = ChunkBlockIndex::new(2, 2, 2);
    c.set_block(&pos, Block::from_id("dirt"));
    c.process_sides();
    assert_eq!(c.sides()[flat(2, 2, 2)], 0b111111);
    c.set_block(&pos, Block::air());
    // not reprocessed: the old mask is still there
    assert_eq!(c.sides()[flat(2, 2, 2)], 0b111111);
    c.process_sides();
    assert_eq!(c.sides()[flat(2, 2, 2)], 0);
}

#[test]
fn delta_dir_checked_add() {
    assert_eq!(DeltaDir::Negative.checked_add_usize(0), None);
    assert_eq!(DeltaDir::Negative.checked_add_usize(5), Some(4));
    assert_eq!(DeltaDir::Zero.checked_add_usize(5), Some(5));
    assert_eq!(DeltaDir::Positive.checked_add_usize(5), Some(6));
    assert_eq!(DeltaDir::Positive.checked_add_usize(usize::MAX), None);
}

#[test]
fn chunk_sizes() {
    assert_eq!(SIZE_X, 32);
    assert_eq!(SIZE_Y, 32);
    assert_eq!(SIZE_Z, 64);
    assert_eq!(VOLUME, SIZE_X * SIZE_Y * SIZE_Z);
}
