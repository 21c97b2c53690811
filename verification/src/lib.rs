//! A sparse voxel world: a fixed table of block kinds, fixed-size chunks of
//! block ids with derived visibility bitmasks, a sparse map of chunks with
//! lazy creation through a delegate, and a mesher that turns the visibility
//! data into a stream of textured triangles.

pub mod block;
pub mod chunk;
pub mod mesh;
pub mod world;
