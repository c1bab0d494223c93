use crate::block::{
    air, identifier_of, visibility_in, BlockData, BlockTable, BlockView, VoxelVisibility,
};
use crate::storage::{all_same, palette_after_write, width_after_write, parts_size, parts_valid, parts_view, Storage, StorageParts};
use ndshape::{ConstShape, ConstShape3usize};
use vstd::prelude::*;

verus! {

/// Chunks loaded around a player, horizontally.
pub const HORIZONTAL_DISTANCE: usize = 15;

/// Chunks loaded around a player, vertically.
pub const VERTICAL_DISTANCE: usize = 9;

/// Edge length of a chunk, in voxels.
pub const CHUNK_SIZE: usize = 16;

/// The largest local coordinate, `CHUNK_SIZE - 1`.
pub const CHUNK_SIZE_ARR: u32 = 15;

/// Number of voxels in a chunk.
pub const TOTAL_CHUNK_SIZE: usize = CHUNK_SIZE * CHUNK_SIZE * CHUNK_SIZE;

/// Writes after which a chunk tries to return its storage to the uniform form.
pub const TRIM_THRESHOLD: u16 = 500;

/// The storage index of local coordinate `(x, y, z)`: x varies fastest, then y,
/// then z.
pub open spec fn linear_index(x: int, y: int, z: int) -> int {
    x + 16 * y + 256 * z
}

/// Relies on `ConstShape::linearize` of `ConstShape3usize<16, 16, 16>`, which
/// computes `x + 16 y + 256 z`.
#[verifier::external_body]
fn shape_linearize(x: usize, y: usize, z: usize) -> (r: usize)
    requires
        x < 16,
        y < 16,
        z < 16,
    ensures
        r == linear_index(x as int, y as int, z as int),
{
    <ConstShape3usize<CHUNK_SIZE, CHUNK_SIZE, CHUNK_SIZE> as ConstShape<3>>::linearize([x, y, z])
}

/// Relies on `ConstShape::delinearize` of `ConstShape3usize<16, 16, 16>`,
/// which computes `z = i / 256`, then `y = (i - 256 z) / 16` and `x = i % 16`.
#[verifier::external_body]
fn shape_delinearize(i: usize) -> (r: (usize, usize, usize))
    ensures
        r == (i % 16, (i % 256) / 16, i / 256),
{
    let p = <ConstShape3usize<CHUNK_SIZE, CHUNK_SIZE, CHUNK_SIZE> as ConstShape<3>>::delinearize(i);
    (p[0], p[1], p[2])
}

/// A storage-only copy of a chunk, for saving and for sending.
pub struct RawChunk {
    voxels: Storage,
}

impl View for RawChunk {
    type V = Seq<BlockView>;

    closed spec fn view(&self) -> Seq<BlockView> {
        self.voxels@
    }
}

impl RawChunk {
    /// Holds of every snapshot: the storage is well formed and covers a chunk.
    #[verifier::type_invariant]
    pub closed spec fn wf(&self) -> bool {
        self.voxels.wf() && self.voxels@.len() == TOTAL_CHUNK_SIZE
    }

    /// Whether the snapshot holds the uniform form.
    pub closed spec fn is_uniform_spec(&self) -> bool {
        self.voxels.is_single()
    }

    /// The palette as (value, reference count) pairs; empty when uniform.
    pub closed spec fn palette_view(&self) -> Seq<(BlockView, nat)> {
        self.voxels.palette_view()
    }

    /// The palette as (value, reference count) pairs, in palette order; empty
    /// when the chunk is uniform.
    pub fn palette_entries(&self) -> (r: Vec<(BlockData, usize)>)
        ensures
            r@.len() == self.palette_view().len(),
            forall|i: int|
                0 <= i < r@.len() ==> (#[trigger] r@[i].0@, r@[i].1 as nat) == self.palette_view()[i],
    {
        self.voxels.palette_entries()
    }

    /// The parts of the snapshot's encoding, for saving or sending.
    pub fn to_parts(&self) -> (r: StorageParts)
        ensures
            self.wf(),
            parts_valid(r),
            parts_size(r) == TOTAL_CHUNK_SIZE,
            parts_view(r) == self@,
    {
        proof {
            use_type_invariant(self);
        }
        self.voxels.to_parts()
    }

    /// The snapshot that parts describe, or `None` when they describe no
    /// chunk: an invalid encoding, or a volume other than a chunk's.
    pub fn from_parts(parts: StorageParts) -> (r: Option<RawChunk>)
        ensures
            r is Some <==> parts_valid(parts) && parts_size(parts) == TOTAL_CHUNK_SIZE,
            match r {
                Some(raw) => raw.wf() && raw@ == parts_view(parts),
                None => true,
            },
    {
        let size = match &parts {
            StorageParts::Single { size, .. } => *size,
            StorageParts::Multi { size, .. } => *size,
        };
        if size != TOTAL_CHUNK_SIZE {
            return None;
        }
        match Storage::from_parts(parts) {
            Some(voxels) => Some(RawChunk { voxels }),
            None => None,
        }
    }
}

impl Clone for RawChunk {
    fn clone(&self) -> (r: Self)
        ensures
            r@ == self@,
            r.is_uniform_spec() == self.is_uniform_spec(),
            r.palette_view() == self.palette_view(),
    {
        proof {
            use_type_invariant(self);
        }
        RawChunk { voxels: self.voxels.clone() }
    }
}

/// The voxels of one chunk, with the bookkeeping of changes: a dirty flag for
/// whoever rebuilds what depends on the chunk, and the number of writes since
/// the storage was last trimmed.
pub struct ChunkData {
    voxels: Storage,
    change_count: u16,
    dirty: bool,
}

impl View for ChunkData {
    type V = Seq<BlockView>;

    closed spec fn view(&self) -> Seq<BlockView> {
        self.voxels@
    }
}

impl Default for ChunkData {
    /// A chunk of air, uniform, marked dirty.
    fn default() -> (r: Self)
        ensures
            r.wf(),
            r@ == Seq::new(TOTAL_CHUNK_SIZE as nat, |i: int| air()),
            r.is_uniform_spec(),
            r.is_dirty_spec(),
            r.writes_since_trim() == 0,
    {
        ChunkData { voxels: Storage::new(TOTAL_CHUNK_SIZE), change_count: 0, dirty: true }
    }
}

impl ChunkData {
    /// The storage is well formed and covers a chunk, and the write count has
    /// not passed the trim threshold.
    pub closed spec fn wf(&self) -> bool {
        &&& self.voxels.wf()
        &&& self.voxels@.len() == TOTAL_CHUNK_SIZE
        &&& self.change_count <= TRIM_THRESHOLD
    }

    /// Whether the storage holds the uniform form.
    pub closed spec fn is_uniform_spec(&self) -> bool {
        self.voxels.is_single()
    }

    /// A well-formed chunk holds [`TOTAL_CHUNK_SIZE`] voxels and has counted at
    /// most [`TRIM_THRESHOLD`] writes since its last trim.
    pub proof fn lemma_volume(&self)
        requires
            self.wf(),
        ensures
            self@.len() == TOTAL_CHUNK_SIZE,
            self.writes_since_trim() <= TRIM_THRESHOLD,
    {
    }

    pub closed spec fn is_dirty_spec(&self) -> bool {
        self.dirty
    }

    /// The writes counted since the storage was last trimmed.
    pub closed spec fn writes_since_trim(&self) -> nat {
        self.change_count as nat
    }

    /// The palette as (value, reference count) pairs; empty when uniform.
    pub closed spec fn palette_view(&self) -> Seq<(BlockView, nat)> {
        self.voxels.palette_view()
    }

    /// The bit width of the palette indices; zero when uniform.
    pub closed spec fn index_width(&self) -> nat {
        self.voxels.index_width()
    }

    /// The value at local coordinate `(x, y, z)`.
    pub fn get(&self, x: usize, y: usize, z: usize) -> (r: BlockData)
        requires
            self.wf(),
            x < CHUNK_SIZE,
            y < CHUNK_SIZE,
            z < CHUNK_SIZE,
        ensures
            r@ == self@[linear_index(x as int, y as int, z as int)],
    {
        self.voxels.get(Self::linearize(x, y, z))
    }

    /// The identifier `namespace:name` of the value at `(x, y, z)`.
    pub fn get_identifier(&self, x: usize, y: usize, z: usize) -> (r: String)
        requires
            self.wf(),
            x < CHUNK_SIZE,
            y < CHUNK_SIZE,
            z < CHUNK_SIZE,
        ensures
            r@ == identifier_of(self@[linear_index(x as int, y as int, z as int)]),
    {
        let voxel = self.voxels.get(Self::linearize(x, y, z));
        crate::block::name_to_identifier(voxel.namespace, voxel.name)
    }

    /// Writes `voxel` at `(x, y, z)` and marks the chunk dirty. Every
    /// [`TRIM_THRESHOLD`] + 1 writes the storage is trimmed and the count
    /// starts again.
    pub fn set(&mut self, x: usize, y: usize, z: usize, voxel: BlockData)
        requires
            old(self).wf(),
            x < CHUNK_SIZE,
            y < CHUNK_SIZE,
            z < CHUNK_SIZE,
        ensures
            final(self).wf(),
            final(self)@ == old(self)@.update(linear_index(x as int, y as int, z as int), voxel@),
            final(self).is_dirty_spec(),
            old(self).writes_since_trim() < TRIM_THRESHOLD ==> final(self).writes_since_trim()
                == old(self).writes_since_trim() + 1 && final(self).is_uniform_spec() == (
            old(self).is_uniform_spec() && old(self)@[linear_index(x as int, y as int, z as int)]
                == voxel@),
            old(self).writes_since_trim() == TRIM_THRESHOLD ==> final(self).writes_since_trim() == 0
                && final(self).is_uniform_spec() == all_same(final(self)@),
            !final(self).is_uniform_spec() ==> final(self).palette_view() == palette_after_write(
                old(self).is_uniform_spec(),
                old(self)@,
                old(self).palette_view(),
                linear_index(x as int, y as int, z as int),
                voxel@,
            ),
            !final(self).is_uniform_spec() ==> final(self).index_width() == width_after_write(
                old(self).is_uniform_spec(),
                old(self)@,
                old(self).palette_view(),
                old(self).index_width(),
                linear_index(x as int, y as int, z as int),
                voxel@,
            ),
    {
        let idx = Self::linearize(x, y, z);
        self.voxels.set(idx, voxel);
        self.change_count = self.change_count + 1;
        self.dirty = true;

        if self.change_count > TRIM_THRESHOLD {
            self.voxels.trim();
            self.change_count = 0;
        }
    }

    /// Whether the storage is in its uniform form.
    pub fn is_uniform(&self) -> (r: bool)
        ensures
            r == self.is_uniform_spec(),
    {
        match self.voxels {
            Storage::Single(_) => true,
            Storage::Multi(_) => false,
        }
    }

    /// Whether the chunk is uniform and the table says its one value is not
    /// drawn. A value the table does not know is not empty.
    pub fn is_empty(&self, block_table: &BlockTable) -> (r: bool)
        requires
            self.wf(),
        ensures
            r == (self.is_uniform_spec() && visibility_in(self@[0], block_table@) == Some(
                VoxelVisibility::Empty,
            )),
    {
        self.is_uniform() && self.get(0, 0, 0).is_empty(block_table)
    }

    pub fn is_dirty(&self) -> (r: bool)
        ensures
            r == self.is_dirty_spec(),
    {
        self.dirty
    }

    pub fn set_dirty(&mut self, dirty: bool)
        ensures
            final(self).is_dirty_spec() == dirty,
            final(self)@ == old(self)@,
            old(self).wf() ==> final(self).wf(),
            final(self).is_uniform_spec() == old(self).is_uniform_spec(),
            final(self).palette_view() == old(self).palette_view(),
            final(self).writes_since_trim() == old(self).writes_since_trim(),
    {
        self.dirty = dirty;
    }

    /// Returns the storage to the uniform form when every voxel holds the
    /// same value.
    pub fn trim(&mut self)
        requires
            old(self).wf(),
        ensures
            final(self).wf(),
            final(self)@ == old(self)@,
            final(self).is_uniform_spec() == all_same(old(self)@),
            !final(self).is_uniform_spec() ==> final(self).palette_view() == old(self).palette_view()
                && final(self).index_width() == old(self).index_width(),
            final(self).is_dirty_spec() == old(self).is_dirty_spec(),
            final(self).writes_since_trim() == old(self).writes_since_trim(),
    {
        self.voxels.trim();
    }

    /// Number of voxels in a chunk.
    pub fn size() -> (r: usize)
        ensures
            r == TOTAL_CHUNK_SIZE,
    {
        TOTAL_CHUNK_SIZE
    }

    /// Edge length of a chunk.
    pub fn edge() -> (r: usize)
        ensures
            r == CHUNK_SIZE,
    {
        CHUNK_SIZE
    }

    /// The storage index of `(x, y, z)`.
    pub fn linearize(x: usize, y: usize, z: usize) -> (r: usize)
        requires
            x < CHUNK_SIZE,
            y < CHUNK_SIZE,
            z < CHUNK_SIZE,
        ensures
            r == linear_index(x as int, y as int, z as int),
            r < TOTAL_CHUNK_SIZE,
    {
        shape_linearize(x, y, z)
    }

    /// The local coordinate of storage index `idx`.
    pub fn delinearize(idx: usize) -> (r: (usize, usize, usize))
        requires
            idx < TOTAL_CHUNK_SIZE,
        ensures
            r.0 < CHUNK_SIZE && r.1 < CHUNK_SIZE && r.2 < CHUNK_SIZE,
            linear_index(r.0 as int, r.1 as int, r.2 as int) == idx,
    {
        let res = shape_delinearize(idx);
        (res.0, res.1, res.2)
    }

    /// A chunk holding the snapshot's voxels, not dirty, with no writes counted.
    pub fn from_raw(raw_chunk: RawChunk) -> (r: Self)
        ensures
            raw_chunk.wf(),
            r.wf(),
            r@ == raw_chunk@,
            r.is_uniform_spec() == raw_chunk.is_uniform_spec(),
            r.palette_view() == raw_chunk.palette_view(),
            !r.is_dirty_spec(),
            r.writes_since_trim() == 0,
    {
        proof {
            use_type_invariant(&raw_chunk);
        }
        ChunkData { voxels: raw_chunk.voxels, change_count: 0, dirty: false }
    }

    /// A snapshot of the chunk's voxels.
    pub fn to_raw(&self) -> (r: RawChunk)
        requires
            self.wf(),
        ensures
            r.wf(),
            r@ == self@,
            r.is_uniform_spec() == self.is_uniform_spec(),
            r.palette_view() == self.palette_view(),
    {
        RawChunk { voxels: self.voxels.clone() }
    }
}


/// Saving a chunk to a snapshot and restoring it gives back every voxel: for
/// a chunk in any state that writes can reach, `from_raw(to_raw(c))` reads
/// the same value as `c` at every local coordinate.
pub proof fn lemma_snapshot_round_trip(c: ChunkData, raw: RawChunk, restored: ChunkData)
    requires
        c.wf(),
        call_ensures(ChunkData::to_raw, (&c,), raw),
        call_ensures(ChunkData::from_raw, (raw,), restored),
    ensures
        restored.wf(),
        restored@ == c@,
        forall|x: int, y: int, z: int|
            0 <= x < 16 && 0 <= y < 16 && 0 <= z < 16 ==> #[trigger] restored@[linear_index(x, y, z)]
                == c@[linear_index(x, y, z)],
{
}

/// Encoding a snapshot into parts and decoding them gives the snapshot back:
/// the decoder accepts what the encoder writes, with every voxel intact.
pub proof fn lemma_parts_round_trip(raw: RawChunk, parts: StorageParts, back: Option<RawChunk>)
    requires
        call_ensures(RawChunk::to_parts, (&raw,), parts),
        call_ensures(RawChunk::from_parts, (parts,), back),
    ensures
        back is Some,
        back->0@ == raw@,
{
}

} // verus!
