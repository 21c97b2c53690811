use std::cell::Cell;
use std::rc::Rc;

use voxel_world::block::Block;
use voxel_world::chunk::{Chunk, ChunkBlockIndex, SIZE_X, SIZE_Y, SIZE_Z};
use voxel_world::world::{ChunkIndex, World, WorldBlockIndex, WorldDelegate};

/// Hands out empty chunks and counts how often it was asked.
struct CountingDelegate {
    count: Rc<Cell<u32>>,
}

impl WorldDelegate for CountingDelegate {
    fn create_chunk(&self, _index: &ChunkIndex) -> Chunk {
        self.count.set(self.count.get() + 1);
        Chunk::empty()
    }
}

fn counting_world() -> (World<CountingDelegate>, Rc<Cell<u32>>) {
    let count = Rc::new(Cell::new(0));
    let world = World::new(CountingDelegate { count: count.clone() });
    (world, count)
}

#[test]
fn world_index_round_trip() {
    for (x, y, z) in [(0, 0, 0), (31, 31, 63), (32, 32, 64), (1000, 2000, 3000),
        (u32::MAX, u32::MAX, u32::MAX)] {
        let index = WorldBlockIndex::new(x, y, z);
        let ci = index.get_chunk_index();
        let li = index.get_chunk_block_index();
        assert!(li.x < SIZE_X && li.y < SIZE_Y && li.z < SIZE_Z);
        assert_eq!(ci.x as u64 * SIZE_X as u64 + li.x as u64, x as u64);
        assert_eq!(ci.y as u64 * SIZE_Y as u64 + li.y as u64, y as u64);
        assert_eq!(ci.z as u64 * SIZE_Z as u64 + li.z as u64, z as u64);
    }
}

#[test]
fn world_chunk_index_is_division() {
    let index = WorldBlockIndex::new(65, 31, 130);
    assert_eq!(index.get_chunk_index(), ChunkIndex::new(2, 0, 2));
    let li = index.get_chunk_block_index();
    assert_eq!((li.x, li.y, li.z), (1, 31, 2));
}

/// Two requests for the same chunk index invoke the delegate only once;
/// the second request hands back the chunk stored by the first.
#[test]
fn world_creates_each_chunk_at_most_once() {
    let (mut world, count) = counting_world();
    let index = ChunkIndex::new(3, 4, 5);
    let marker = Block::from_id("brick_stone");
    let pos = ChunkBlockIndex::new(1, 2, 3);

    let first = world.get_or_create_chunk(&index);
    assert_eq!(count.get(), 1);
    first.set_block(&pos, marker);

    let second = world.get_or_create_chunk(&index);
    assert_eq!(count.get(), 1);
    assert_eq!(*second.get_block(&pos), marker);

    world.get_or_create_chunk(&ChunkIndex::new(3, 4, 6));
    assert_eq!(count.get(), 2);
}

#[test]
fn world_set_block_creates_the_chunk_lazily() {
    let (mut world, count) = counting_world();
    assert_eq!(count.get(), 0);
    let dirt = Block::from_id("dirt");
    world.set_block(&WorldBlockIndex::new(40, 10, 70), dirt);
    assert_eq!(count.get(), 1);
    let chunk = world.get_or_create_chunk(&ChunkIndex::new(1, 0, 1));
    assert_eq!(count.get(), 1);
    assert_eq!(*chunk.get_block(&ChunkBlockIndex::new(8, 10, 6)), dirt);
}

/// Filling the degenerate box of a single voxel fills exactly that voxel.
#[test]
fn world_fill_ellipsoid_single_voxel() {
    let (mut world, _count) = counting_world();
    let brick = Block::from_id("brick_stone");
    world.fill_ellipsoid(brick, &WorldBlockIndex::new(0, 0, 0), &WorldBlockIndex::new(0, 0, 0));
    let chunk = world.get_or_create_chunk(&ChunkIndex::new(0, 0, 0));
    for x in 0..4 {
        for y in 0..4 {
            for z in 0..4 {
                let b = *chunk.get_block(&ChunkBlockIndex::new(x, y, z));
                if (x, y, z) == (0, 0, 0) {
                    assert_eq!(b, brick);
                } else {
                    assert!(b.is_air());
                }
            }
        }
    }
}

/// Filling a flat 3-voxel line includes its boundary voxels: the radius is
/// half the span plus one.
#[test]
fn world_fill_ellipsoid_line_boundary_included() {
    let (mut world, _count) = counting_world();
    let brick = Block::from_id("brick_stone");
    world.fill_ellipsoid(brick, &WorldBlockIndex::new(0, 0, 0), &WorldBlockIndex::new(2, 0, 0));
    let chunk = world.get_or_create_chunk(&ChunkIndex::new(0, 0, 0));
    for x in 0..5 {
        for y in 0..3 {
            for z in 0..3 {
                let b = *chunk.get_block(&ChunkBlockIndex::new(x, y, z));
                if y == 0 && z == 0 && x <= 2 {
                    assert_eq!(b, brick, "({x},0,0) should be filled");
                } else {
                    assert!(b.is_air(), "({x},{y},{z}) should stay air");
                }
            }
        }
    }
}

/// A wide flat box leaves its far corners outside the ellipsoid.
#[test]
fn world_fill_ellipsoid_excludes_box_corners() {
    let (mut world, _count) = counting_world();
    let brick = Block::from_id("brick_stone");
    world.fill_ellipsoid(brick, &WorldBlockIndex::new(0, 0, 0), &WorldBlockIndex::new(8, 8, 0));
    let chunk = world.get_or_create_chunk(&ChunkIndex::new(0, 0, 0));
    assert!(chunk.get_block(&ChunkBlockIndex::new(0, 0, 0)).is_air());
    assert!(chunk.get_block(&ChunkBlockIndex::new(8, 8, 0)).is_air());
    assert_eq!(*chunk.get_block(&ChunkBlockIndex::new(4, 4, 0)), brick);
    assert_eq!(*chunk.get_block(&ChunkBlockIndex::new(0, 4, 0)), brick);
    assert_eq!(*chunk.get_block(&ChunkBlockIndex::new(4, 8, 0)), brick);
}

/// An empty box (lower above upper) fills nothing and creates no chunk.
#[test]
fn world_fill_ellipsoid_empty_box() {
    let (mut world, count) = counting_world();
    let brick = Block::from_id("brick_stone");
    world.fill_ellipsoid(brick, &WorldBlockIndex::new(5, 5, 5), &WorldBlockIndex::new(4, 5, 5));
    assert_eq!(count.get(), 0);
}

/// A fill that crosses a chunk boundary writes into both chunks.
#[test]
fn world_fill_ellipsoid_spans_chunks() {
    let (mut world, count) = counting_world();
    let brick = Block::from_id("brick_stone");
    world.fill_ellipsoid(brick, &WorldBlockIndex::new(30, 0, 0), &WorldBlockIndex::new(34, 0, 0));
    assert_eq!(count.get(), 2);
    let left = world.get_or_create_chunk(&ChunkIndex::new(0, 0, 0));
    assert_eq!(*left.get_block(&ChunkBlockIndex::new(30, 0, 0)), brick);
    assert_eq!(*left.get_block(&ChunkBlockIndex::new(31, 0, 0)), brick);
    let right = world.get_or_create_chunk(&ChunkIndex::new(1, 0, 0));
    assert_eq!(*right.get_block(&ChunkBlockIndex::new(0, 0, 0)), brick);
    assert_eq!(*right.get_block(&ChunkBlockIndex::new(2, 0, 0)), brick);
    assert!(right.get_block(&ChunkBlockIndex::new(3, 0, 0)).is_air());
}
