use crate::block::{
    identifier_of, plain_block, visibility_in, BlockData, BlockDescriptor, BlockTable, BlockView,
    VoxelVisibility,
};
use crate::chunk::{linear_index, ChunkData, RawChunk, TOTAL_CHUNK_SIZE};
use crate::radius::ChunkPos;
use vstd::prelude::*;
use vstd::string::*;

verus! {

/// The height, in voxels, of the sea surface.
pub const SEA_LEVEL: i32 = 0;

pub open spec fn air_id() -> Seq<char> {
    "vinox:air"@
}

pub open spec fn grass() -> BlockView {
    plain_block("vinox"@, "grass"@)
}

/// The voxel above storage index `i`, one step further in y.
pub open spec fn above(i: int) -> int {
    i + 16
}

/// The height of storage index `i` within its chunk.
pub open spec fn height_of(i: int) -> int {
    (i % 256) / 16
}

/// What grass covering makes of voxel `i` of `s`: a solid voxel of the top
/// layer, or a solid voxel with air above it, becomes grass.
pub open spec fn surface_voxel(s: Seq<BlockView>, i: int) -> BlockView {
    if height_of(i) == 15 {
        if identifier_of(s[i]) != air_id() {
            grass()
        } else {
            s[i]
        }
    } else if identifier_of(s[above(i)]) == air_id() && identifier_of(s[i]) != air_id() {
        grass()
    } else {
        s[i]
    }
}

/// The world height of voxel `i` of the chunk at `pos`.
pub open spec fn world_height(pos: ChunkPos, i: int) -> int {
    height_of(i) + 16 * pos.y
}

/// What flooding makes of voxel `i` of `s`: an empty voxel at sea level
/// becomes a water surface, an empty voxel below it water.
pub open spec fn sea_voxel(
    s: Seq<BlockView>,
    pos: ChunkPos,
    table: Map<Seq<char>, BlockDescriptor>,
    i: int,
) -> BlockView {
    let empty = visibility_in(s[i], table) == Some(VoxelVisibility::Empty);
    if world_height(pos, i) == SEA_LEVEL && empty {
        plain_block("vinox"@, "water.divot"@)
    } else if world_height(pos, i) < SEA_LEVEL && empty {
        plain_block("vinox"@, "water"@)
    } else {
        s[i]
    }
}

/// The voxel a cave map asks for: air inside a cave, stone elsewhere.
pub open spec fn cave_voxel(is_cave: bool) -> BlockView {
    if is_cave {
        plain_block("vinox"@, "air"@)
    } else {
        plain_block("vinox"@, "worley"@)
    }
}

fn identifier_is_air(id: &String) -> (r: bool)
    ensures
        r == (id@ == air_id()),
{
    let air = String::from_str("vinox:air");
    id.eq(&air)
}

/// Covers the ground with grass: every solid voxel of the top layer, and
/// every solid voxel with air right above it, becomes `vinox:grass`.
pub fn add_surface(raw_chunk: &mut ChunkData, pos: ChunkPos, block_table: &BlockTable)
    requires
        old(raw_chunk).wf(),
    ensures
        final(raw_chunk).wf(),
        final(raw_chunk)@ == Seq::new(
            TOTAL_CHUNK_SIZE as nat,
            |i: int| surface_voxel(old(raw_chunk)@, i),
        ),
{
    let ghost orig = raw_chunk@;
    proof {
        raw_chunk.lemma_volume();
    }
    let mut i: usize = 0;
    while i < TOTAL_CHUNK_SIZE
        invariant
            raw_chunk.wf(),
            raw_chunk@.len() == TOTAL_CHUNK_SIZE,
            orig.len() == TOTAL_CHUNK_SIZE,
            i <= TOTAL_CHUNK_SIZE,
            forall|k: int| 0 <= k < i ==> #[trigger] raw_chunk@[k] == surface_voxel(orig, k),
            forall|k: int| i <= k < TOTAL_CHUNK_SIZE ==> #[trigger] raw_chunk@[k] == orig[k],
        decreases TOTAL_CHUNK_SIZE - i,
    {
        proof {
            raw_chunk.lemma_volume();
        }
        let (x, y, z) = ChunkData::delinearize(i);
        assert(height_of(i as int) == y);
        let here_air = identifier_is_air(&raw_chunk.get_identifier(x, y, z));
        if y == 15 {
            if !here_air {
                let grass = BlockData::new(String::from_str("vinox"), String::from_str("grass"));
                raw_chunk.set(x, y, z, grass);
            }
        } else {
            assert(linear_index(x as int, (y + 1) as int, z as int) == above(i as int));
            let above_air = identifier_is_air(&raw_chunk.get_identifier(x, y + 1, z));
            if above_air && !here_air {
                let grass = BlockData::new(String::from_str("vinox"), String::from_str("grass"));
                raw_chunk.set(x, y, z, grass);
            }
        }
        i = i + 1;
    }
    assert(raw_chunk@ =~= Seq::new(TOTAL_CHUNK_SIZE as nat, |i: int| surface_voxel(orig, i)));
}

/// Floods the empty voxels of the chunk at `pos` that lie at or below sea
/// level: `vinox:water.divot` at sea level, `vinox:water` below it.
pub fn add_sea(raw_chunk: &mut ChunkData, pos: ChunkPos, block_table: &BlockTable)
    requires
        old(raw_chunk).wf(),
    ensures
        final(raw_chunk).wf(),
        final(raw_chunk)@ == Seq::new(
            TOTAL_CHUNK_SIZE as nat,
            |i: int| sea_voxel(old(raw_chunk)@, pos, block_table@, i),
        ),
{
    let ghost orig = raw_chunk@;
    proof {
        raw_chunk.lemma_volume();
    }
    let mut i: usize = 0;
    while i < TOTAL_CHUNK_SIZE
        invariant
            raw_chunk.wf(),
            raw_chunk@.len() == TOTAL_CHUNK_SIZE,
            orig.len() == TOTAL_CHUNK_SIZE,
            i <= TOTAL_CHUNK_SIZE,
            forall|k: int| 0 <= k < i ==> #[trigger] raw_chunk@[k] == sea_voxel(orig, pos, block_table@, k),
            forall|k: int| i <= k < TOTAL_CHUNK_SIZE ==> #[trigger] raw_chunk@[k] == orig[k],
        decreases TOTAL_CHUNK_SIZE - i,
    {
        proof {
            raw_chunk.lemma_volume();
        }
        let (x, y, z) = ChunkData::delinearize(i);
        let full_y = y as i64 + 16 * pos.y as i64;
        assert(full_y == world_height(pos, i as int));
        if full_y == SEA_LEVEL as i64 && raw_chunk.get(x, y, z).is_empty(block_table) {
            let water = BlockData::new(String::from_str("vinox"), String::from_str("water.divot"));
            raw_chunk.set(x, y, z, water);
        } else if full_y < SEA_LEVEL as i64 && raw_chunk.get(x, y, z).is_empty(block_table) {
            let water = BlockData::new(String::from_str("vinox"), String::from_str("water"));
            raw_chunk.set(x, y, z, water);
        }
        i = i + 1;
    }
    assert(raw_chunk@ =~= Seq::new(
        TOTAL_CHUNK_SIZE as nat,
        |i: int| sea_voxel(orig, pos, block_table@, i),
    ));
}

/// A chunk filled from a cave map in storage order: `vinox:air` where the map
/// says cave, `vinox:worley` elsewhere.
pub fn generate_chunk_from_caves(is_cave: &Vec<bool>) -> (r: RawChunk)
    requires
        is_cave@.len() == TOTAL_CHUNK_SIZE,
    ensures
        r.wf(),
        r@ == Seq::new(TOTAL_CHUNK_SIZE as nat, |i: int| cave_voxel(is_cave@[i])),
{
    let mut raw_chunk = ChunkData::default();
    let mut i: usize = 0;
    while i < TOTAL_CHUNK_SIZE
        invariant
            raw_chunk.wf(),
            raw_chunk@.len() == TOTAL_CHUNK_SIZE,
            is_cave@.len() == TOTAL_CHUNK_SIZE,
            i <= TOTAL_CHUNK_SIZE,
            forall|k: int| 0 <= k < i ==> #[trigger] raw_chunk@[k] == cave_voxel(is_cave@[k]),
        decreases TOTAL_CHUNK_SIZE - i,
    {
        proof {
            raw_chunk.lemma_volume();
        }
        let (x, y, z) = ChunkData::delinearize(i);
        if is_cave[i] {
            raw_chunk.set(x, y, z, BlockData::new(String::from_str("vinox"), String::from_str("air")));
        } else {
            raw_chunk.set(
                x,
                y,
                z,
                BlockData::new(String::from_str("vinox"), String::from_str("worley")),
            );
        }
        i = i + 1;
    }
    assert(raw_chunk@ =~= Seq::new(TOTAL_CHUNK_SIZE as nat, |i: int| cave_voxel(is_cave@[i])));
    raw_chunk.to_raw()
}

} // verus!
