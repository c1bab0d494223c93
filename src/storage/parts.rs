//! The encoding of a storage as plain parts, for saving and sending, and the
//! decoder that accepts exactly the parts that describe a storage.

use super::{
    lemma_slot_in_buffer, lemma_volume_bits, slot_of, MultiStorage, SingleStorage, Storage,
    MAX_VOLUME,
};
use crate::bits::BitBuffer;
use crate::block::{BlockData, BlockView};
use crate::palette::{count, live, PaletteEntry};
use vstd::arithmetic::power2::{lemma2_to64, pow2};
use vstd::prelude::*;

verus! {

/// The parts of a storage's encoding, as plain values for saving or sending:
/// the uniform value, or the palette as (value, reference count) pairs with
/// the index width and the packed index bits.
pub enum StorageParts {
    Single { size: usize, voxel: BlockData },
    Multi { size: usize, palette: Vec<(BlockData, usize)>, indices_length: usize, data: Vec<bool> },
}

pub open spec fn pairs_view(p: Seq<(BlockData, usize)>) -> Seq<(BlockView, nat)> {
    p.map_values(|e: (BlockData, usize)| (e.0@, e.1 as nat))
}

/// The palette index of each voxel in a packed index array.
pub open spec fn parts_indices(size: int, width: int, data: Seq<bool>) -> Seq<int> {
    Seq::new(size as nat, |i: int| slot_of(data, width, i))
}

/// Whether palette parts describe a storage: a supported index width, one
/// index per voxel naming an entry, counts that match the voxels, and no two
/// entries in use with the same value.
pub open spec fn multi_parts_valid(
    size: int,
    pal: Seq<(BlockView, nat)>,
    width: int,
    data: Seq<bool>,
) -> bool {
    &&& 1 <= size <= MAX_VOLUME
    &&& (width == 2 || width == 4 || width == 8 || width == 16)
    &&& data.len() == size * width
    &&& pal.len() <= pow2(width as nat)
    &&& forall|i: int| 0 <= i < size ==> 0 <= #[trigger] slot_of(data, width, i) < pal.len()
    &&& forall|k: int|
        0 <= k < pal.len() ==> #[trigger] pal[k].1 == count(parts_indices(size, width, data), k)
    &&& forall|j: int, k: int|
        #![trigger pal[j], pal[k]]
        0 <= j < pal.len() && 0 <= k < pal.len() && j != k && pal[j].1 > 0 && pal[k].1 > 0
            ==> pal[j].0 != pal[k].0
}

pub open spec fn parts_valid(p: StorageParts) -> bool {
    match p {
        StorageParts::Single { size, voxel } => size <= MAX_VOLUME,
        StorageParts::Multi { size, palette, indices_length, data } => multi_parts_valid(
            size as int,
            pairs_view(palette@),
            indices_length as int,
            data@,
        ),
    }
}

/// The number of voxels that parts describe.
pub open spec fn parts_size(p: StorageParts) -> nat {
    match p {
        StorageParts::Single { size, voxel } => size as nat,
        StorageParts::Multi { size, palette, indices_length, data } => size as nat,
    }
}

/// The voxels that parts describe.
pub open spec fn parts_view(p: StorageParts) -> Seq<BlockView> {
    match p {
        StorageParts::Single { size, voxel } => Seq::new(size as nat, |i: int| voxel@),
        StorageParts::Multi { size, palette, indices_length, data } => Seq::new(
            size as nat,
            |i: int| palette@[slot_of(data@, indices_length as int, i)].0@,
        ),
    }
}

fn clone_pairs(p: &Vec<PaletteEntry>) -> (r: Vec<(BlockData, usize)>)
    ensures
        r@.len() == p@.len(),
        forall|k: int|
            0 <= k < p@.len() ==> #[trigger] r@[k].0@ == p@[k].voxel_type@ && r@[k].1
                == p@[k].ref_count,
{
    let mut r: Vec<(BlockData, usize)> = Vec::new();
    let mut k: usize = 0;
    while k < p.len()
        invariant
            k <= p@.len(),
            r@.len() == k,
            forall|j: int|
                0 <= j < k ==> #[trigger] r@[j].0@ == p@[j].voxel_type@ && r@[j].1 == p@[j].ref_count,
        decreases p@.len() - k,
    {
        r.push((p[k].voxel_type.clone(), p[k].ref_count));
        k = k + 1;
    }
    r
}

proof fn lemma_count_take(s: Seq<int>, i: int, k: int)
    requires
        0 <= i < s.len(),
    ensures
        count(s.take(i + 1), k) == count(s.take(i), k) + if s[i] == k {
            1nat
        } else {
            0nat
        },
{
    assert(s.take(i + 1).drop_last() =~= s.take(i));
}

impl Storage {
    /// The parts of this storage's encoding.
    pub fn to_parts(&self) -> (r: StorageParts)
        requires
            self.wf(),
        ensures
            parts_valid(r),
            parts_view(r) == self@,
            (r is Single) == self.is_single(),
    {
        match self {
            Storage::Single(storage) => {
                let r = StorageParts::Single { size: storage.size, voxel: storage.voxel.clone() };
                assert(parts_view(r) =~= self@);
                r
            },
            Storage::Multi(storage) => {
                let palette = clone_pairs(&storage.palette);
                let data = storage.data.to_bits();
                let r = StorageParts::Multi {
                    size: storage.size,
                    palette,
                    indices_length: storage.indices_length,
                    data,
                };
                proof {
                    let pal = pairs_view(palette@);
                    let w = storage.indices_length as int;
                    assert(parts_indices(storage.size as int, w, data@) =~= storage.indices());
                    assert forall|i: int| 0 <= i < storage.size implies 0 <= #[trigger] slot_of(
                        data@,
                        w,
                        i,
                    ) < pal.len() by {
                        assert(slot_of(data@, w, i) == storage.slot(i));
                    }
                    assert forall|j: int, k: int|
                        #![trigger pal[j], pal[k]]
                        0 <= j < pal.len() && 0 <= k < pal.len() && j != k && pal[j].1 > 0 && pal[k].1
                            > 0 implies pal[j].0 != pal[k].0 by {
                        assert(live(storage.palette@, j) && live(storage.palette@, k));
                    }
                    assert forall|i: int| 0 <= i < storage.size implies #[trigger] parts_view(r)[i]
                        == self@[i] by {
                        assert(slot_of(data@, w, i) == storage.slot(i));
                    }
                    assert(parts_view(r) =~= self@);
                }
                r
            },
        }
    }

    /// A storage from the parts of an encoding, or `None` when the parts do
    /// not describe one.
    pub fn from_parts(parts: StorageParts) -> (r: Option<Storage>)
        ensures
            r is Some <==> parts_valid(parts),
            match r {
                Some(s) => s.wf() && s@ == parts_view(parts) && s.is_single() == (parts is Single),
                None => true,
            },
    {
        match parts {
            StorageParts::Single { size, voxel } => {
                assert(parts_valid(parts) == (size <= MAX_VOLUME));
                if size > MAX_VOLUME {
                    return None;
                }
                let ghost v = voxel@;
                let s = Storage::Single(SingleStorage { size, voxel });
                assert(s@ =~= Seq::new(size as nat, |i: int| v));
                assert(parts_view(parts) =~= s@);
                Some(s)
            },
            StorageParts::Multi { size, palette, indices_length, data } => {
                let ghost pal = pairs_view(palette@);
                let w = indices_length;
                assert(parts_valid(parts) == multi_parts_valid(size as int, pal, w as int, data@));
                assert(parts_view(parts) == Seq::new(
                    size as nat,
                    |i: int| palette@[slot_of(data@, w as int, i)].0@,
                ));
                if size < 1 || size > MAX_VOLUME {
                    return None;
                }
                if !(w == 2 || w == 4 || w == 8 || w == 16) {
                    return None;
                }
                proof {
                    lemma_volume_bits(size as int, w as int);
                    lemma2_to64();
                }
                if data.len() != size * w {
                    return None;
                }
                let cap: usize = if w == 2 {
                    4
                } else if w == 4 {
                    16
                } else if w == 8 {
                    256
                } else {
                    65536
                };
                let n = palette.len();
                if n > cap {
                    return None;
                }
                let buffer = BitBuffer::from_bits(&data);
                let ghost s = parts_indices(size as int, w as int, data@);
                let mut counts: Vec<usize> = Vec::new();
                let mut k: usize = 0;
                while k < n
                    invariant
                        parts_valid(parts) == multi_parts_valid(size as int, pal, w as int, data@),
                        parts_view(parts) == Seq::new(
                            size as nat,
                            |i: int| palette@[slot_of(data@, w as int, i)].0@,
                        ),
                        s == parts_indices(size as int, w as int, data@),
                        pal == pairs_view(palette@),
                        data@.len() == size * w,
                        1 <= size <= MAX_VOLUME,
                        k <= n,
                        counts@.len() == k,
                        forall|j: int| 0 <= j < k ==> #[trigger] counts@[j] == 0,
                    decreases n - k,
                {
                    counts.push(0);
                    k = k + 1;
                }
                let mut i: usize = 0;
                while i < size
                    invariant
                        parts_valid(parts) == multi_parts_valid(size as int, pal, w as int, data@),
                        parts_view(parts) == Seq::new(
                            size as nat,
                            |i: int| palette@[slot_of(data@, w as int, i)].0@,
                        ),
                        s == parts_indices(size as int, w as int, data@),
                        pal == pairs_view(palette@),
                        data@.len() == size * w,
                        1 <= size <= MAX_VOLUME,
                        w == 2 || w == 4 || w == 8 || w == 16,
                        buffer@ == data@,
                        n == palette@.len(),
                        n == pal.len(),
                        i <= size,
                        counts@.len() == n,
                        forall|j: int| 0 <= j < i ==> 0 <= #[trigger] s[j] < n,
                        forall|k: int| 0 <= k < n ==> #[trigger] counts@[k] == count(s.take(i as int), k),
                        forall|k: int| 0 <= k < n ==> counts@[k] <= i,
                    decreases size - i,
                {
                    proof {
                        lemma_slot_in_buffer(i as int, size as int, w as int);
                        lemma_volume_bits(size as int, w as int);
                    }
                    let idx = buffer.get(i * w, w);
                    assert(idx == s[i as int]);
                    if idx >= n {
                        assert(!(0 <= slot_of(data@, w as int, i as int) < pal.len()));
                        assert(!multi_parts_valid(size as int, pal, w as int, data@));
                        return None;
                    }
                    let c = counts[idx] + 1;
                    counts.set(idx, c);
                    proof {
                        assert forall|k: int| 0 <= k < n implies #[trigger] counts@[k] == count(
                            s.take(i + 1),
                            k,
                        ) by {
                            lemma_count_take(s, i as int, k);
                        }
                    }
                    i = i + 1;
                }
                assert(s.take(size as int) =~= s);
                let mut k: usize = 0;
                while k < n
                    invariant
                        parts_valid(parts) == multi_parts_valid(size as int, pal, w as int, data@),
                        parts_view(parts) == Seq::new(
                            size as nat,
                            |i: int| palette@[slot_of(data@, w as int, i)].0@,
                        ),
                        s == parts_indices(size as int, w as int, data@),
                        pal == pairs_view(palette@),
                        data@.len() == size * w,
                        1 <= size <= MAX_VOLUME,
                        k <= n,
                        n == palette@.len(),
                        n == pal.len(),
                        counts@.len() == n,
                        forall|j: int| 0 <= j < n ==> #[trigger] counts@[j] == count(s, j),
                        forall|j: int| 0 <= j < k ==> #[trigger] pal[j].1 == count(s, j),
                    decreases n - k,
                {
                    if counts[k] != palette[k].1 {
                        assert(pal[k as int].1 != count(s, k as int));
                        assert(!multi_parts_valid(size as int, pal, w as int, data@));
                        return None;
                    }
                    k = k + 1;
                }
                let mut j: usize = 0;
                while j < n
                    invariant
                        parts_valid(parts) == multi_parts_valid(size as int, pal, w as int, data@),
                        parts_view(parts) == Seq::new(
                            size as nat,
                            |i: int| palette@[slot_of(data@, w as int, i)].0@,
                        ),
                        s == parts_indices(size as int, w as int, data@),
                        pal == pairs_view(palette@),
                        data@.len() == size * w,
                        1 <= size <= MAX_VOLUME,
                        j <= n,
                        n == palette@.len(),
                        n == pal.len(),
                        forall|a: int, b: int|
                            #![trigger pal[a], pal[b]]
                            0 <= a < j && 0 <= b < n && a != b && pal[a].1 > 0 && pal[b].1 > 0
                                ==> pal[a].0 != pal[b].0,
                    decreases n - j,
                {
                    let mut k: usize = 0;
                    while k < n
                        invariant
                            parts_valid(parts) == multi_parts_valid(size as int, pal, w as int, data@),
                            parts_view(parts) == Seq::new(
                                size as nat,
                                |i: int| palette@[slot_of(data@, w as int, i)].0@,
                            ),
                            s == parts_indices(size as int, w as int, data@),
                            pal == pairs_view(palette@),
                            data@.len() == size * w,
                            1 <= size <= MAX_VOLUME,
                            j < n,
                            k <= n,
                            n == palette@.len(),
                            n == pal.len(),
                            forall|a: int, b: int|
                                #![trigger pal[a], pal[b]]
                                0 <= a < j && 0 <= b < n && a != b && pal[a].1 > 0 && pal[b].1 > 0
                                    ==> pal[a].0 != pal[b].0,
                            forall|b: int|
                                0 <= b < k && b != j && pal[j as int].1 > 0 && pal[b].1 > 0
                                    ==> pal[j as int].0 != #[trigger] pal[b].0,
                        decreases n - k,
                    {
                        if k != j && palette[j].1 > 0 && palette[k].1 > 0 && palette[j].0.eq(
                            &palette[k].0,
                        ) {
                            assert(pal[j as int].0 == pal[k as int].0);
                            assert(!multi_parts_valid(size as int, pal, w as int, data@));
                            return None;
                        }
                        k = k + 1;
                    }
                    proof {
                        assert forall|a: int, b: int|
                            #![trigger pal[a], pal[b]]
                            0 <= a < j + 1 && 0 <= b < n && a != b && pal[a].1 > 0 && pal[b].1 > 0
                                implies pal[a].0 != pal[b].0 by {
                            if a == j {
                                assert(pal[j as int].0 != pal[b].0);
                            }
                        }
                    }
                    j = j + 1;
                }
                let mut entries: Vec<PaletteEntry> = Vec::new();
                let mut k: usize = 0;
                while k < n
                    invariant
                        parts_valid(parts) == multi_parts_valid(size as int, pal, w as int, data@),
                        parts_view(parts) == Seq::new(
                            size as nat,
                            |i: int| palette@[slot_of(data@, w as int, i)].0@,
                        ),
                        s == parts_indices(size as int, w as int, data@),
                        pal == pairs_view(palette@),
                        data@.len() == size * w,
                        1 <= size <= MAX_VOLUME,
                        k <= n,
                        n == palette@.len(),
                        n == pal.len(),
                        entries@.len() == k,
                        forall|j: int|
                            0 <= j < k ==> #[trigger] entries@[j].voxel_type@ == pal[j].0
                                && entries@[j].ref_count == pal[j].1,
                    decreases n - k,
                {
                    entries.push(
                        PaletteEntry { voxel_type: palette[k].0.clone(), ref_count: palette[k].1 },
                    );
                    k = k + 1;
                }
                let m = MultiStorage {
                    size,
                    data: buffer,
                    palette: entries,
                    palette_capacity: cap,
                    indices_length: w,
                };
                proof {
                    assert(m.indices() =~= s);
                    assert forall|i: int| 0 <= i < size implies 0 <= #[trigger] m.slot(i)
                        < m.palette@.len() by {
                        assert(m.slot(i) == s[i]);
                    }
                    assert forall|k: int| 0 <= k < m.palette@.len() implies #[trigger] m.palette@[k].ref_count
                        == count(m.indices(), k) by {
                        assert(m.palette@[k].voxel_type@ == pal[k].0);
                        assert(m.palette@[k].ref_count == pal[k].1);
                    }
                    assert forall|a: int, b: int|
                        #![trigger live(m.palette@, a), live(m.palette@, b)]
                        live(m.palette@, a) && live(m.palette@, b) && a != b
                        implies m.palette@[a].voxel_type@ != m.palette@[b].voxel_type@ by {
                        assert(m.palette@[a].voxel_type@ == pal[a].0);
                        assert(m.palette@[b].voxel_type@ == pal[b].0);
                    }
                    assert(m.wf());
                    assert forall|i: int| 0 <= i < size implies #[trigger] m.view()[i]
                        == parts_view(parts)[i] by {
                        assert(m.slot(i) == s[i]);
                    }
                    assert(m.view() =~= parts_view(parts));
                    lemma2_to64();
                    assert forall|i: int| 0 <= i < size implies 0 <= #[trigger] slot_of(
                        data@,
                        w as int,
                        i,
                    ) < pal.len() by {
                        assert(m.slot(i) == s[i]);
                    }
                    assert forall|k: int| 0 <= k < pal.len() implies #[trigger] pal[k].1 == count(
                        parts_indices(size as int, w as int, data@),
                        k,
                    ) by {
                        assert(m.palette@[k].voxel_type@ == pal[k].0);
                    }
                    assert(multi_parts_valid(size as int, pal, w as int, data@));
                }
                Some(Storage::Multi(m))
            },
        }
    }
}

} // verus!
