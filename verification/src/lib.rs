//! Voxel-world core: chunked block storage, greedy surface meshing and
//! chunk streaming around a moving observer.
//!
//! A world is a sparse grid of chunks, each a cube of blocks. The meshing
//! engine turns a chunk into the rectangles that cover its visible faces;
//! the streaming manager decides which chunks are loaded, which are stale
//! and when they are unloaded. Terrain generation, drawing and the camera
//! live outside: terrain comes in as a function from coordinate and seed to
//! blocks, geometry goes out as vertices on the block lattice, and the
//! observer is given by a chunk coordinate and an integer direction.

pub mod bitset;
pub mod block;
pub mod chunk;
pub mod clock;
pub mod faces;
pub mod greedy_mesher;
pub mod lifecycle;
pub mod load_order;
pub mod loading;
pub mod mesh;
pub mod priority;
pub mod storage;
pub mod sweep_exists;
pub mod sweep_laws;
pub mod voxel;
pub mod world;
