//! Voxel storage for fixed-size cubic chunks: a bit-packed index buffer, a
//! reference-counted palette, and storage that switches between a uniform and
//! a paletted form as the contents diverge and converge. Around it: chunk
//! data with coordinate linearization and change bookkeeping, snapshots, the
//! enumeration of chunk coordinates within a view radius, and the terrain
//! passes that work on chunk data.

mod bits;
mod block;
mod chunk;
mod generation;
mod palette;
mod radius;
mod storage;

pub use bits::BitBuffer;
pub use block::{
    identifier_to_just_name, identifier_to_name, name_to_identifier, trim_geo_identifier,
    BlockData, BlockDescriptor, BlockTable, Container, Direction, GrowthState, VoxelVisibility,
};
pub use chunk::{
    ChunkData, RawChunk, CHUNK_SIZE, CHUNK_SIZE_ARR, HORIZONTAL_DISTANCE, TOTAL_CHUNK_SIZE,
    TRIM_THRESHOLD, VERTICAL_DISTANCE,
};
pub use generation::{add_sea, add_surface, generate_chunk_from_caves, SEA_LEVEL};
pub use palette::PaletteEntry;
pub use radius::{ChunkManager, ChunkPos, PlayerChunk, ViewRadius};
pub use storage::{MultiStorage, SingleStorage, Storage, StorageParts, MAX_VOLUME};
