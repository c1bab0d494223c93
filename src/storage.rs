use crate::bits::{
    le_bits, le_value, lemma_le_bits_len, lemma_splice_outside, lemma_zeros_value, splice, BitBuffer,
};
use crate::block::{air, BlockData, BlockView};
use crate::palette::{
    count, find_free, find_live, find_sole_live, lemma_count_constant, lemma_count_pos,
    lemma_count_update, lemma_count_zero, lemma_ref_sum_lower, lemma_ref_sum_shifted, lemma_total,
    live, ref_sum, sole_live, PaletteEntry,
};
use vstd::arithmetic::power2::{lemma2_to64, pow2};
use vstd::prelude::*;

mod parts;

pub use parts::{parts_size, parts_valid, parts_view, StorageParts};

verus! {

/// The largest volume a storage may cover: with every voxel distinct, the
/// palette indices still fit in 16 bits.
pub const MAX_VOLUME: usize = 65536;

/// Whether every element of `s` is the same.
pub open spec fn all_same(s: Seq<BlockView>) -> bool {
    forall|i: int, j: int| 0 <= i < s.len() && 0 <= j < s.len() ==> s[i] == s[j]
}

/// The palette index held in slot `i` of a buffer of `width`-bit slots.
pub open spec fn slot_of(d: Seq<bool>, width: int, i: int) -> int {
    le_value(d.subrange(i * width, i * width + width)) as int
}

proof fn lemma_slot_in_buffer(i: int, size: int, width: int)
    requires
        0 <= i < size,
        width >= 1,
    ensures
        0 <= i * width,
        i * width + width <= size * width,
{
    assert(0 <= i * width) by (nonlinear_arith)
        requires
            0 <= i,
            width >= 1,
    ;
    assert(i * width + width <= size * width) by (nonlinear_arith)
        requires
            i < size,
            width >= 1,
    ;
}

proof fn lemma_slots_apart(i: int, j: int, width: int)
    requires
        0 <= i < j,
        width >= 1,
    ensures
        i * width + width <= j * width,
{
    assert(i * width + width <= j * width) by (nonlinear_arith)
        requires
            i < j,
            width >= 1,
    ;
}

/// Writing one slot leaves every other slot as it was.
proof fn lemma_write_slot(d: Seq<bool>, e: Seq<bool>, size: int, width: int, t: int, v: nat)
    requires
        0 <= t < size,
        width >= 1,
        d.len() == size * width,
        e == splice(d, t * width, le_bits(v, width as nat)),
    ensures
        forall|i: int| 0 <= i < size && i != t ==> #[trigger] slot_of(e, width, i) == slot_of(d, width, i),
{
    lemma_le_bits_len(v, width as nat);
    lemma_slot_in_buffer(t, size, width);
    assert forall|i: int| 0 <= i < size && i != t implies #[trigger] slot_of(e, width, i) == slot_of(d, width, i) by {
        lemma_slot_in_buffer(i, size, width);
        if i < t {
            lemma_slots_apart(i, t, width);
        } else {
            lemma_slots_apart(t, i, width);
        }
        lemma_splice_outside(d, t * width, le_bits(v, width as nat), i * width, i * width + width);
    }
}

proof fn lemma_volume_bits(size: int, width: int)
    requires
        0 <= size <= MAX_VOLUME,
        0 <= width <= 16,
    ensures
        size * width <= 1048576,
{
    assert(size * width <= 65536 * 16) by (nonlinear_arith)
        requires
            0 <= size <= 65536,
            0 <= width <= 16,
    ;
}

/// The palette with the count of the entry in use that holds `u` lowered by
/// one: the entry a voxel holding `u` lets go of when it is overwritten.
pub open spec fn release(p: Seq<(BlockView, nat)>, u: BlockView) -> Seq<(BlockView, nat)> {
    if exists|c: int| 0 <= c < p.len() && p[c].1 > 0 && p[c].0 == u {
        let c = choose|c: int| 0 <= c < p.len() && p[c].1 > 0 && p[c].0 == u;
        p.update(c, (u, (p[c].1 - 1) as nat))
    } else {
        p
    }
}

/// Whether `z` is the first entry not in use.
pub open spec fn first_free(p: Seq<(BlockView, nat)>, z: int) -> bool {
    &&& 0 <= z < p.len()
    &&& p[z].1 == 0
    &&& forall|j: int| 0 <= j < z ==> #[trigger] p[j].1 > 0
}

/// Whether an entry in use holds `v`.
pub open spec fn holds_live(p: Seq<(BlockView, nat)>, v: BlockView) -> bool {
    exists|k: int| 0 <= k < p.len() && p[k].1 > 0 && #[trigger] p[k].0 == v
}

/// The palette after one more voxel takes `v`: the entry in use that holds
/// `v` counts one more; failing that, the first entry not in use takes `v`
/// with count one; failing that, a new entry `(v, 1)` is appended.
pub open spec fn claim(p: Seq<(BlockView, nat)>, v: BlockView) -> Seq<(BlockView, nat)> {
    if holds_live(p, v) {
        let k = choose|k: int| 0 <= k < p.len() && p[k].1 > 0 && #[trigger] p[k].0 == v;
        p.update(k, (v, p[k].1 + 1))
    } else if exists|z: int| first_free(p, z) {
        let z = choose|z: int| first_free(p, z);
        p.update(z, (v, 1nat))
    } else {
        p.push((v, 1nat))
    }
}

/// Whether claiming `v` appends to a palette that already fills the
/// `width`-bit indices, so that the indices must widen first.
pub open spec fn claim_grows(p: Seq<(BlockView, nat)>, v: BlockView, width: nat) -> bool {
    &&& !holds_live(p, v)
    &&& forall|z: int| 0 <= z < p.len() ==> #[trigger] p[z].1 > 0
    &&& p.len() == pow2(width)
}

/// The palette a write to voxel `t` starts from: a uniform storage is
/// promoted first, to the single entry (its value, its volume).
pub open spec fn palette_before_write(
    uniform: bool,
    view: Seq<BlockView>,
    palette: Seq<(BlockView, nat)>,
    t: int,
) -> Seq<(BlockView, nat)> {
    if uniform {
        seq![(view[t], view.len())]
    } else {
        palette
    }
}

/// The index width a write starts from: 2 bits after a promotion.
pub open spec fn width_before_write(uniform: bool, width: nat) -> nat {
    if uniform {
        2
    } else {
        width
    }
}

/// The palette after writing `v` into voxel `t` of a storage that does not
/// already hold `v` uniformly.
pub open spec fn palette_after_write(
    uniform: bool,
    view: Seq<BlockView>,
    palette: Seq<(BlockView, nat)>,
    t: int,
    v: BlockView,
) -> Seq<(BlockView, nat)> {
    claim(release(palette_before_write(uniform, view, palette, t), view[t]), v)
}

/// The index width after that write: doubled when the new value needs an
/// entry that the full palette cannot address.
pub open spec fn width_after_write(
    uniform: bool,
    view: Seq<BlockView>,
    palette: Seq<(BlockView, nat)>,
    width: nat,
    t: int,
    v: BlockView,
) -> nat {
    let w = width_before_write(uniform, width);
    if claim_grows(release(palette_before_write(uniform, view, palette, t), view[t]), v, w) {
        2 * w
    } else {
        w
    }
}

/// Storage for a volume holding one value in every voxel.
pub struct SingleStorage {
    size: usize,
    voxel: BlockData,
}

/// Palette storage for a volume holding several values: each voxel holds, in
/// `indices_length` bits of `data`, an index into `palette`.
pub struct MultiStorage {
    /// Number of voxels.
    size: usize,
    data: BitBuffer,
    palette: Vec<PaletteEntry>,
    /// How many entries the index width can address: `2^indices_length`.
    palette_capacity: usize,
    /// Bit width of each index into the palette.
    indices_length: usize,
}

impl MultiStorage {
    pub closed spec fn slot(&self, i: int) -> int {
        slot_of(self.data@, self.indices_length as int, i)
    }

    pub closed spec fn indices(&self) -> Seq<int> {
        Seq::new(self.size as nat, |i: int| self.slot(i))
    }

    pub closed spec fn shape_ok(&self) -> bool {
        &&& 1 <= self.size <= MAX_VOLUME
        &&& (self.indices_length == 2 || self.indices_length == 4 || self.indices_length == 8
            || self.indices_length == 16)
        &&& self.palette_capacity == pow2(self.indices_length as nat)
        &&& self.data@.len() == self.size * self.indices_length
        &&& self.palette@.len() <= self.palette_capacity
        &&& forall|i: int| 0 <= i < self.size ==> 0 <= #[trigger] self.slot(i) < self.palette@.len()
    }

    /// Each count is the number of voxels that use the entry, and no two
    /// entries in use hold the same value.
    pub closed spec fn wf(&self) -> bool {
        &&& self.shape_ok()
        &&& forall|k: int|
            0 <= k < self.palette@.len() ==> #[trigger] self.palette@[k].ref_count == count(
                self.indices(),
                k,
            )
        &&& forall|j: int, k: int|
            #![trigger live(self.palette@, j), live(self.palette@, k)]
            live(self.palette@, j) && live(self.palette@, k) && j != k
                ==> self.palette@[j].voxel_type@ != self.palette@[k].voxel_type@
    }

    pub closed spec fn view(&self) -> Seq<BlockView> {
        Seq::new(self.size as nat, |i: int| self.palette@[self.slot(i)].voxel_type@)
    }

    /// The palette as (value, reference count) pairs.
    pub closed spec fn pview(&self) -> Seq<(BlockView, nat)> {
        self.palette@.map_values(|e: PaletteEntry| (e.voxel_type@, e.ref_count as nat))
    }

    /// What promotion makes: `size` voxels, one palette entry `(v, size)`,
    /// 2-bit indices (capacity 4), and every index bit zero.
    pub closed spec fn is_promoted(&self, size: nat, v: BlockView) -> bool {
        &&& self.size == size
        &&& self.palette@.len() == 1
        &&& self.palette@[0].voxel_type@ == v
        &&& self.palette@[0].ref_count == size
        &&& self.indices_length == 2
        &&& self.palette_capacity == 4
        &&& self.data@ == Seq::new(2 * size, |i: int| false)
    }

    /// A palette storage of `size` voxels, all holding `initial_voxel`: one
    /// palette entry `(initial_voxel, size)`, 2-bit indices, capacity 4, and
    /// every index bit zero.
    fn new(size: usize, initial_voxel: BlockData) -> (r: Self)
        requires
            1 <= size <= MAX_VOLUME,
        ensures
            r.wf(),
            r.view() == Seq::new(size as nat, |i: int| initial_voxel@),
            r.is_promoted(size as nat, initial_voxel@),
    {
        let indices_length: usize = 2;
        let initial_capacity: usize = 4;
        let mut palette: Vec<PaletteEntry> = Vec::new();
        let ghost v = initial_voxel@;
        palette.push(PaletteEntry { voxel_type: initial_voxel, ref_count: size });
        let r = MultiStorage {
            size,
            data: BitBuffer::new(size * indices_length),
            palette,
            palette_capacity: initial_capacity,
            indices_length,
        };
        proof {
            lemma2_to64();
            assert forall|i: int| 0 <= i < size implies #[trigger] r.slot(i) == 0 by {
                lemma_slot_in_buffer(i, size as int, 2);
                lemma_zeros_value(r.data@.subrange(i * 2, i * 2 + 2));
            }
            lemma_count_constant(r.indices(), 0);
            assert(r.view() =~= Seq::new(size as nat, |i: int| v));
            assert(r.data@ =~= Seq::new(2 * size as nat, |i: int| false));
        }
        r
    }

    /// Doubles the index width, re-encoding every voxel's index.
    fn grow_palette(&mut self)
        requires
            old(self).shape_ok(),
            old(self).indices_length <= 8,
        ensures
            final(self).size == old(self).size,
            final(self).palette@ == old(self).palette@,
            final(self).indices_length == 2 * old(self).indices_length,
            final(self).palette_capacity == pow2(final(self).indices_length as nat),
            final(self).shape_ok(),
            final(self).indices() == old(self).indices(),
    {
        let width = self.indices_length;
        let mut indices: Vec<usize> = Vec::new();
        let mut i: usize = 0;
        while i < self.size
            invariant
                self == old(self),
                self.shape_ok(),
                width == self.indices_length,
                i <= self.size,
                indices@.len() == i,
                forall|j: int| 0 <= j < i ==> indices@[j] == self.slot(j),
            decreases self.size - i,
        {
            proof {
                lemma_slot_in_buffer(i as int, self.size as int, width as int);
                lemma_volume_bits(self.size as int, width as int);
                lemma2_to64();
            }
            indices.push(self.data.get(i * width, width));
            i = i + 1;
        }
        proof {
            lemma2_to64();
            lemma_volume_bits(self.size as int, 16);
            lemma_volume_bits(self.size as int, (width * 2) as int);
            if width == 2 {
                assert(self.palette_capacity * self.palette_capacity == pow2(4));
            } else if width == 4 {
                assert(self.palette_capacity * self.palette_capacity == pow2(8));
            } else {
                assert(self.palette_capacity == 256);
                assert(self.palette_capacity * self.palette_capacity == pow2(16));
            }
        }
        let new_width = width * 2;
        let new_capacity = self.palette_capacity * self.palette_capacity;
        self.indices_length = new_width;
        self.palette_capacity = new_capacity;
        self.data = BitBuffer::new(self.size * new_width);
        let mut i: usize = 0;
        while i < self.size
            invariant
                self.size == old(self).size,
                self.palette@ == old(self).palette@,
                self.indices_length == new_width,
                new_width == 2 * width,
                self.palette_capacity == new_capacity,
                new_capacity == pow2(new_width as nat),
                new_width == 4 || new_width == 8 || new_width == 16,
                old(self).shape_ok(),
                width == old(self).indices_length,
                self.data@.len() == self.size * new_width,
                i <= self.size,
                indices@.len() == self.size,
                forall|j: int| 0 <= j < self.size ==> indices@[j] == old(self).slot(j),
                forall|j: int| 0 <= j < i ==> self.slot(j) == indices@[j],
            decreases self.size - i,
        {
            proof {
                lemma_slot_in_buffer(i as int, self.size as int, new_width as int);
                lemma_volume_bits(self.size as int, new_width as int);
                lemma2_to64();
                assert(0 <= old(self).slot(i as int) < old(self).palette@.len());
                assert(indices@[i as int] < pow2(new_width as nat));
            }
            let ghost d = self.data@;
            self.data.set(i * new_width, new_width, indices[i]);
            proof {
                lemma_write_slot(
                    d,
                    self.data@,
                    self.size as int,
                    new_width as int,
                    i as int,
                    indices@[i as int] as nat,
                );
                assert forall|j: int| 0 <= j < i + 1 implies self.slot(j) == indices@[j] by {
                    if j < i {
                        assert(slot_of(d, new_width as int, j) == indices@[j]);
                    }
                }
            }
            i = i + 1;
        }
        assert(self.indices() =~= old(self).indices());
    }

    /// Proves that when entry `k` is the only one in use, every voxel uses it.
    proof fn lemma_sole_live_everywhere(&self, k: int)
        requires
            self.wf(),
            sole_live(self.palette@, k),
        ensures
            forall|i: int| 0 <= i < self.size ==> #[trigger] self.slot(i) == k,
            all_same(self.view()),
    {
        assert forall|i: int| 0 <= i < self.size implies #[trigger] self.slot(i) == k by {
            let s = self.slot(i);
            assert(self.indices()[i] == s);
            lemma_count_pos(self.indices(), i);
            assert(self.palette@[s].ref_count > 0);
        }
    }

    /// Proves that when no entry is the only one in use, two voxels differ.
    proof fn lemma_several_live(&self)
        requires
            self.wf(),
            forall|k: int| !sole_live(self.palette@, k),
        ensures
            !all_same(self.view()),
    {
        let s = self.indices();
        let a = self.slot(0);
        assert(s[0] == a);
        lemma_count_pos(s, 0);
        assert(live(self.palette@, a));
        assert(!sole_live(self.palette@, a));
        let j = choose|j: int| 0 <= j < self.palette@.len() && j != a && self.palette@[j].ref_count != 0;
        assert(live(self.palette@, j));
        assert(exists|i: int| 0 <= i < s.len() && s[i] == j) by {
            if !(exists|i: int| 0 <= i < s.len() && s[i] == j) {
                lemma_count_zero(s, j);
            }
        }
        let i = choose|i: int| 0 <= i < s.len() && s[i] == j;
        assert(self.view()[0] != self.view()[i]);
    }

    /// The state between releasing voxel `t`'s old entry and pointing it at
    /// its new one: every count but that of `s[t]` matches the voxels, which
    /// all still read as in `before`.
    spec fn released(&self, before: Seq<BlockView>, s: Seq<int>, t: int) -> bool {
        &&& self.shape_ok()
        &&& self.indices() == s
        &&& 0 <= t < self.size
        &&& before.len() == self.size
        &&& forall|k: int|
            0 <= k < self.palette@.len() ==> #[trigger] self.palette@[k].ref_count + (if k == s[t] {
                1nat
            } else {
                0nat
            }) == count(s, k)
        &&& forall|j: int, k: int|
            #![trigger live(self.palette@, j), live(self.palette@, k)]
            live(self.palette@, j) && live(self.palette@, k) && j != k
                ==> self.palette@[j].voxel_type@ != self.palette@[k].voxel_type@
        &&& forall|i: int| 0 <= i < self.size ==> #[trigger] before[i] == self.palette@[s[i]].voxel_type@
    }

    /// Points voxel `target_idx` at entry `k`, which is in use and holds `v`.
    fn reuse_entry(
        &mut self,
        target_idx: usize,
        k: usize,
        Ghost(before): Ghost<Seq<BlockView>>,
        Ghost(s): Ghost<Seq<int>>,
        Ghost(v): Ghost<BlockView>,
    )
        requires
            old(self).released(before, s, target_idx as int),
            live(old(self).palette@, k as int),
            old(self).palette@[k as int].voxel_type@ == v,
        ensures
            final(self).wf(),
            final(self).size == old(self).size,
            final(self).view() == before.update(target_idx as int, v),
            final(self).pview() == claim(old(self).pview(), v),
            final(self).indices_length == old(self).indices_length,
            !claim_grows(old(self).pview(), v, old(self).indices_length as nat),
    {
        let ghost t = target_idx as int;
        let ghost held = self.palette@;
        let ghost pv = self.pview();
        let width = self.indices_length;
        proof {
            lemma_slot_in_buffer(t, self.size as int, width as int);
            lemma_volume_bits(self.size as int, width as int);
            lemma2_to64();
            lemma_count_update(s, t, k as int, k as int);
            crate::palette::lemma_count_le(s, k as int);
        }
        let inc = self.palette[k].ref_count + 1;
        self.palette[k].ref_count = inc;
        let ghost d = self.data@;
        self.data.set(target_idx * width, width, k);
        proof {
            lemma_write_slot(d, self.data@, self.size as int, width as int, t, k as nat);
            let s2 = self.indices();
            assert(s2 =~= s.update(t, k as int));
            assert forall|j: int| 0 <= j < self.palette@.len() implies #[trigger] self.palette@[j].ref_count
                == count(s2, j) by {
                lemma_count_update(s, t, k as int, j);
            }
            assert forall|i: int| 0 <= i < self.size implies #[trigger] self.view()[i]
                == before.update(t, v)[i] by {
                if i != t {
                    assert(s2[i] == s[i]);
                }
            }
            assert(self.view() =~= before.update(t, v));
            assert forall|i: int| 0 <= i < self.size implies 0 <= #[trigger] self.slot(i) < self.palette@.len() by {
                assert(self.slot(i) == s2[i]);
                assert(s[i] == old(self).slot(i));
            }

            assert forall|j: int, k2: int|
                #![trigger live(self.palette@, j), live(self.palette@, k2)]
                live(self.palette@, j) && live(self.palette@, k2) && j != k2
                implies self.palette@[j].voxel_type@ != self.palette@[k2].voxel_type@ by {
                assert(live(held, j) && live(held, k2));
            }
        }
        proof {
            assert(pv[k as int].1 > 0 && pv[k as int].0 == v);
            assert(holds_live(pv, v));
            assert forall|j: int| 0 <= j < pv.len() && pv[j].1 > 0 && #[trigger] pv[j].0 == v implies j
                == k by {
                assert(live(held, j));
            }
            assert(self.pview() =~= pv.update(k as int, (v, pv[k as int].1 + 1)));
        }
    }

    /// Takes over entry `z`, which no voxel uses, for `voxel`, and points
    /// voxel `target_idx` at it. No entry in use holds `voxel`.
    fn recycle_entry(
        &mut self,
        target_idx: usize,
        z: usize,
        voxel: BlockData,
        Ghost(before): Ghost<Seq<BlockView>>,
        Ghost(s): Ghost<Seq<int>>,
    )
        requires
            old(self).released(before, s, target_idx as int),
            z < old(self).palette@.len(),
            old(self).palette@[z as int].ref_count == 0,
            forall|j: int| 0 <= j < z ==> #[trigger] old(self).palette@[j].ref_count > 0,
            forall|k: int|
                live(old(self).palette@, k) ==> #[trigger] old(self).palette@[k].voxel_type@
                    != voxel@,
        ensures
            final(self).wf(),
            final(self).size == old(self).size,
            final(self).view() == before.update(target_idx as int, voxel@),
            final(self).pview() == claim(old(self).pview(), voxel@),
            final(self).indices_length == old(self).indices_length,
            !claim_grows(old(self).pview(), voxel@, old(self).indices_length as nat),
    {
        let ghost t = target_idx as int;
        let ghost held = self.palette@;
        let ghost pv = self.pview();
        let ghost vv = voxel@;
        let width = self.indices_length;
        proof {
            lemma_slot_in_buffer(t, self.size as int, width as int);
            lemma_volume_bits(self.size as int, width as int);
            lemma2_to64();
            lemma_count_update(s, t, z as int, z as int);
            assert forall|i: int| 0 <= i < self.size && i != t implies #[trigger] s[i] != z by {
                if s[i] == z {
                    if s[t] == z {
                        crate::palette::lemma_count_two(s, i, t);
                    } else {
                        lemma_count_pos(s, i);
                    }
                }
            }
        }
        self.palette.set(z, PaletteEntry { voxel_type: voxel, ref_count: 1 });
        let ghost d = self.data@;
        self.data.set(target_idx * width, width, z);
        proof {
            lemma_write_slot(d, self.data@, self.size as int, width as int, t, z as nat);
            let s2 = self.indices();
            assert(s2 =~= s.update(t, z as int));
            assert forall|j: int| 0 <= j < self.palette@.len() implies #[trigger] self.palette@[j].ref_count
                == count(s2, j) by {
                lemma_count_update(s, t, z as int, j);
            }
            assert forall|i: int| 0 <= i < self.size implies #[trigger] self.view()[i]
                == before.update(t, vv)[i] by {
                if i != t {
                    assert(s2[i] == s[i]);
                    assert(s[i] != z);
                }
            }
            assert(self.view() =~= before.update(t, vv));
            assert forall|i: int| 0 <= i < self.size implies 0 <= #[trigger] self.slot(i) < self.palette@.len() by {
                assert(self.slot(i) == s2[i]);
                assert(s[i] == old(self).slot(i));
            }

            assert forall|j: int, k: int|
                #![trigger live(self.palette@, j), live(self.palette@, k)]
                live(self.palette@, j) && live(self.palette@, k) && j != k
                implies self.palette@[j].voxel_type@ != self.palette@[k].voxel_type@ by {
                if j == z {
                    assert(live(held, k));
                } else if k == z {
                    assert(live(held, j));
                } else {
                    assert(live(held, j) && live(held, k));
                }
            }
        }
        proof {
            assert(!holds_live(pv, vv)) by {
                if holds_live(pv, vv) {
                    let k2 = choose|k2: int| 0 <= k2 < pv.len() && pv[k2].1 > 0 && #[trigger] pv[k2].0 == vv;
                    assert(live(held, k2));
                }
            }
            assert(forall|j: int| 0 <= j < z ==> #[trigger] pv[j].1 > 0);
            assert(first_free(pv, z as int));
            let z2 = choose|z2: int| first_free(pv, z2);
            if z2 < z {
                assert(pv[z2].1 > 0);
            } else if z2 > z {
                assert(pv[z as int].1 > 0);
            }
            assert(self.pview() =~= pv.update(z as int, (vv, 1nat)));
            assert(pv[z as int].1 == 0);
        }
    }

    /// Appends an entry for `voxel`, widening the indices first when the
    /// palette is full, and points voxel `target_idx` at it. Every entry is in
    /// use and none holds `voxel`.
    fn append_entry(
        &mut self,
        target_idx: usize,
        voxel: BlockData,
        Ghost(before): Ghost<Seq<BlockView>>,
        Ghost(s): Ghost<Seq<int>>,
    )
        requires
            old(self).released(before, s, target_idx as int),
            forall|k: int|
                0 <= k < old(self).palette@.len() ==> #[trigger] old(self).palette@[k].ref_count
                    > 0,
            forall|k: int|
                live(old(self).palette@, k) ==> #[trigger] old(self).palette@[k].voxel_type@
                    != voxel@,
        ensures
            final(self).wf(),
            final(self).size == old(self).size,
            final(self).view() == before.update(target_idx as int, voxel@),
            final(self).pview() == claim(old(self).pview(), voxel@),
            final(self).indices_length == if claim_grows(
                old(self).pview(),
                voxel@,
                old(self).indices_length as nat,
            ) {
                2 * old(self).indices_length
            } else {
                old(self).indices_length as int
            },
    {
        let ghost t = target_idx as int;
        let ghost held = self.palette@;
        let ghost pv = self.pview();
        let ghost w0 = self.indices_length;
        let ghost vv = voxel@;
        proof {
            lemma2_to64();
        }
        if self.palette.len() == self.palette_capacity {
            proof {
                assert forall|i: int| 0 <= i < s.len() implies 0 <= #[trigger] s[i] < held.len() by {
                    assert(s[i] == self.slot(i));
                }
                lemma_ref_sum_shifted(held, s, held.len() as int, s[t]);
                lemma_total(s, held.len() as int);
                lemma_ref_sum_lower(held, held.len() as int);
                assert(self.indices_length != 16);
            }
            self.grow_palette();
        }
        assert(self.indices() == s);
        let n = self.palette.len();
        let width = self.indices_length;
        self.palette.push(PaletteEntry { voxel_type: voxel, ref_count: 1 });
        proof {
            lemma_slot_in_buffer(t, self.size as int, width as int);
            lemma_volume_bits(self.size as int, width as int);
            lemma_count_update(s, t, n as int, n as int);
            assert forall|i: int| 0 <= i < s.len() implies #[trigger] s[i] != n by {
                assert(s[i] == self.slot(i));
            }
            lemma_count_zero(s, n as int);
        }
        let ghost d = self.data@;
        self.data.set(target_idx * width, width, n);
        proof {
            lemma_write_slot(d, self.data@, self.size as int, width as int, t, n as nat);
            let s2 = self.indices();
            assert(s2 =~= s.update(t, n as int));
            assert forall|j: int| 0 <= j < self.palette@.len() implies #[trigger] self.palette@[j].ref_count
                == count(s2, j) by {
                lemma_count_update(s, t, n as int, j);
            }
            assert forall|i: int| 0 <= i < self.size implies #[trigger] self.view()[i]
                == before.update(t, vv)[i] by {
                if i != t {
                    assert(s2[i] == s[i]);
                    assert(s[i] == d.len() * 0 + slot_of(d, width as int, i));
                }
            }
            assert(self.view() =~= before.update(t, vv));
            assert forall|i: int| 0 <= i < self.size implies 0 <= #[trigger] self.slot(i) < self.palette@.len() by {
                assert(self.slot(i) == s2[i]);
                assert(s[i] == old(self).slot(i));
            }

            assert forall|j: int, k: int|
                #![trigger live(self.palette@, j), live(self.palette@, k)]
                live(self.palette@, j) && live(self.palette@, k) && j != k
                implies self.palette@[j].voxel_type@ != self.palette@[k].voxel_type@ by {
                if j == n {
                    assert(live(held, k));
                } else if k == n {
                    assert(live(held, j));
                } else {
                    assert(live(held, j) && live(held, k));
                }
            }
        }
        proof {
            assert(!holds_live(pv, vv)) by {
                if holds_live(pv, vv) {
                    let k2 = choose|k2: int| 0 <= k2 < pv.len() && pv[k2].1 > 0 && #[trigger] pv[k2].0 == vv;
                    assert(live(held, k2));
                }
            }
            assert(forall|z: int| 0 <= z < pv.len() ==> #[trigger] pv[z].1 > 0);
            assert(!(exists|z: int| first_free(pv, z)));
            assert(self.pview() =~= pv.push((vv, 1nat)));
        }
    }

    /// Writes `voxel` into voxel `target_idx`.
    fn set(&mut self, target_idx: usize, voxel: BlockData)
        requires
            old(self).wf(),
            target_idx < old(self).size,
        ensures
            final(self).wf(),
            final(self).size == old(self).size,
            final(self).view() == old(self).view().update(target_idx as int, voxel@),
            final(self).pview() == claim(
                release(old(self).pview(), old(self).view()[target_idx as int]),
                voxel@,
            ),
            final(self).indices_length == if claim_grows(
                release(old(self).pview(), old(self).view()[target_idx as int]),
                voxel@,
                old(self).indices_length as nat,
            ) {
                2 * old(self).indices_length
            } else {
                old(self).indices_length as int
            },
    {
        let ghost before = self.view();
        let ghost s = self.indices();
        let ghost t = target_idx as int;
        let ghost pre = *self;
        let width = self.indices_length;
        proof {
            lemma_slot_in_buffer(t, self.size as int, width as int);
            lemma_volume_bits(self.size as int, width as int);
            lemma_count_pos(s, t);
            assert(s[t] == self.slot(t));
            lemma2_to64();
        }
        let c = self.data.get(target_idx * width, width);
        let dec = self.palette[c].ref_count - 1;
        self.palette[c].ref_count = dec;
        proof {
            assert(forall|i: int| 0 <= i < self.size ==> #[trigger] self.slot(i) == pre.slot(i));
            assert forall|j: int, k: int|
                #![trigger live(self.palette@, j), live(self.palette@, k)]
                live(self.palette@, j) && live(self.palette@, k) && j != k
                implies self.palette@[j].voxel_type@ != self.palette@[k].voxel_type@ by {
                assert(live(pre.palette@, j) && live(pre.palette@, k));
            }
            assert(self.palette@.len() == pre.palette@.len());
            assert(c == s[t]);
            assert(self.shape_ok());
            assert(self.indices() =~= s);
            assert forall|k: int| 0 <= k < self.palette@.len() implies #[trigger] self.palette@[k].ref_count + (if k == s[t] {
                1nat
            } else {
                0nat
            }) == count(s, k) by {
                assert(pre.palette@[k].ref_count == count(pre.indices(), k));
            }
            assert forall|i: int| 0 <= i < self.size implies #[trigger] before[i] == self.palette@[s[i]].voxel_type@ by {
                assert(s[i] == pre.slot(i));
                assert(0 <= pre.slot(i) < pre.palette@.len());
            }
            assert(self.released(before, s, t));
            let pv = pre.pview();
            let u = before[t];
            assert(pv[c as int].1 > 0 && pv[c as int].0 == u);
            assert forall|j: int| 0 <= j < pv.len() && pv[j].1 > 0 && #[trigger] pv[j].0 == u implies j
                == c by {
                assert(live(pre.palette@, j) && live(pre.palette@, c as int));
            }
            assert(self.pview() =~= pv.update(c as int, (u, (pv[c as int].1 - 1) as nat)));
            assert(self.pview() == release(pv, u));
        }
        match find_live(&self.palette, &voxel) {
            Some(k) => self.reuse_entry(target_idx, k, Ghost(before), Ghost(s), Ghost(voxel@)),
            None => match find_free(&self.palette) {
                Some(z) => self.recycle_entry(target_idx, z, voxel, Ghost(before), Ghost(s)),
                None => self.append_entry(target_idx, voxel, Ghost(before), Ghost(s)),
            },
        }
    }
}

fn clone_palette(p: &Vec<PaletteEntry>) -> (r: Vec<PaletteEntry>)
    ensures
        r@.len() == p@.len(),
        forall|k: int|
            0 <= k < p@.len() ==> #[trigger] r@[k].voxel_type@ == p@[k].voxel_type@ && r@[k].ref_count
                == p@[k].ref_count,
{
    let mut r: Vec<PaletteEntry> = Vec::new();
    let mut k: usize = 0;
    while k < p.len()
        invariant
            k <= p@.len(),
            r@.len() == k,
            forall|j: int|
                0 <= j < k ==> #[trigger] r@[j].voxel_type@ == p@[j].voxel_type@ && r@[j].ref_count
                    == p@[j].ref_count,
        decreases p@.len() - k,
    {
        r.push(p[k].clone());
        k = k + 1;
    }
    r
}

impl Clone for Storage {
    fn clone(&self) -> (r: Self)
        ensures
            self.wf() ==> r.wf(),
            self.wf() ==> r@ == self@,
            r.is_single() == self.is_single(),
            r.palette_view() == self.palette_view(),
    {
        match self {
            Storage::Single(storage) => Storage::Single(
                SingleStorage { size: storage.size, voxel: storage.voxel.clone() },
            ),
            Storage::Multi(storage) => {
                let m = MultiStorage {
                    size: storage.size,
                    data: storage.data.clone(),
                    palette: clone_palette(&storage.palette),
                    palette_capacity: storage.palette_capacity,
                    indices_length: storage.indices_length,
                };
                proof {
                    assert(m.indices() =~= storage.indices());
                    assert(forall|i: int| 0 <= i < m.size ==> #[trigger] m.slot(i) == storage.slot(i));
                    assert forall|k: int| #![auto] live(m.palette@, k) == live(storage.palette@, k) by {
                        if 0 <= k < m.palette@.len() {
                            assert(m.palette@[k].voxel_type@ == storage.palette@[k].voxel_type@);
                        }
                    }
                    if storage.wf() {
                        assert(m.view() =~= storage.view());
                        assert forall|k: int| 0 <= k < m.palette@.len() implies #[trigger] m.palette@[k].ref_count
                            == count(m.indices(), k) by {
                            assert(m.palette@[k].voxel_type@ == storage.palette@[k].voxel_type@);
                            assert(storage.palette@[k].ref_count == count(storage.indices(), k));
                        }
                        assert forall|j: int, k: int|
                            #![trigger live(m.palette@, j), live(m.palette@, k)]
                            live(m.palette@, j) && live(m.palette@, k) && j != k
                            implies m.palette@[j].voxel_type@ != m.palette@[k].voxel_type@ by {
                            assert(live(storage.palette@, j) && live(storage.palette@, k));
                            assert(m.palette@[j].voxel_type@ == storage.palette@[j].voxel_type@);
                            assert(m.palette@[k].voxel_type@ == storage.palette@[k].voxel_type@);
                        }
                        assert(m.wf());
                    }
                    assert(m.palette@.map_values(|e: PaletteEntry| (e.voxel_type@, e.ref_count as nat))
                        =~= storage.palette@.map_values(
                        |e: PaletteEntry| (e.voxel_type@, e.ref_count as nat),
                    ));
                }
                Storage::Multi(m)
            },
        }
    }
}

/// Voxel storage of a fixed volume: one value for all voxels, or a palette of
/// values with a bit-packed index per voxel.
pub enum Storage {
    Single(SingleStorage),
    Multi(MultiStorage),
}

impl View for Storage {
    type V = Seq<BlockView>;

    closed spec fn view(&self) -> Seq<BlockView> {
        match self {
            Storage::Single(s) => Seq::new(s.size as nat, |i: int| s.voxel@),
            Storage::Multi(m) => m.view(),
        }
    }
}

impl Storage {
    /// The storage's internal invariant: ref-counts match the voxels that use
    /// each palette entry, and the volume is at most [`MAX_VOLUME`].
    pub closed spec fn wf(&self) -> bool {
        match self {
            Storage::Single(s) => s.size <= MAX_VOLUME,
            Storage::Multi(m) => m.wf(),
        }
    }

    /// Whether the storage is in its uniform form.
    pub open spec fn is_single(&self) -> bool {
        self is Single
    }

    /// The sum of the reference counts of all palette entries (zero in the
    /// uniform form, which has no palette).
    pub closed spec fn ref_count_total(&self) -> nat {
        match self {
            Storage::Single(_) => 0,
            Storage::Multi(m) => ref_sum(m.palette@, m.palette@.len() as int),
        }
    }

    /// The bit width of the palette indices; zero in the uniform form.
    pub closed spec fn index_width(&self) -> nat {
        match self {
            Storage::Single(_) => 0,
            Storage::Multi(m) => m.indices_length as nat,
        }
    }

    /// The palette as (value, reference count) pairs; empty in the uniform form.
    pub closed spec fn palette_view(&self) -> Seq<(BlockView, nat)> {
        match self {
            Storage::Single(_) => Seq::empty(),
            Storage::Multi(m) => m.pview(),
        }
    }

    /// A uniform storage of `size` voxels of air.
    pub fn new(size: usize) -> (r: Self)
        requires
            size <= MAX_VOLUME,
        ensures
            r.wf(),
            r.is_single(),
            r@ == Seq::new(size as nat, |i: int| air()),
    {
        let r = Storage::Single(SingleStorage { size, voxel: BlockData::default() });
        assert(r@ =~= Seq::new(size as nat, |i: int| air()));
        r
    }

    /// Switches between the two forms without changing any voxel: uniform to
    /// palette, or palette to uniform when every voxel holds one value.
    fn toggle_storage_type(&mut self)
        requires
            old(self).wf(),
            old(self)@.len() >= 1,
            !old(self).is_single() ==> all_same(old(self)@),
        ensures
            final(self).wf(),
            final(self)@ == old(self)@,
            final(self).is_single() != old(self).is_single(),
            match (*old(self), *final(self)) {
                (Storage::Single(s), Storage::Multi(m)) => m.is_promoted(s.size as nat, s.voxel@),
                _ => true,
            },
    {
        let next = match self {
            Storage::Single(storage) => {
                let m = MultiStorage::new(storage.size, storage.voxel.clone());
                assert(m.view() =~= self@);
                Storage::Multi(m)
            },
            Storage::Multi(storage) => {
                let found = find_sole_live(&storage.palette);
                proof {
                    if found is None {
                        storage.lemma_several_live();
                    }
                }
                let k = found.unwrap();
                proof {
                    storage.lemma_sole_live_everywhere(k as int);
                }
                let s = Storage::Single(
                    SingleStorage { size: storage.size, voxel: storage.palette[k].voxel_type.clone() },
                );
                assert(s@ =~= self@);
                s
            },
        };
        *self = next;
    }

    /// Writes `voxel` into voxel `target_idx`. A uniform storage stays uniform
    /// when the value is the one it holds, and otherwise turns into palette
    /// form; a palette storage stays in palette form.
    pub fn set(&mut self, target_idx: usize, voxel: BlockData)
        requires
            old(self).wf(),
            target_idx < old(self)@.len(),
        ensures
            final(self).wf(),
            final(self)@ == old(self)@.update(target_idx as int, voxel@),
            final(self).is_single() == (old(self).is_single() && old(self)@[target_idx as int]
                == voxel@),
            !final(self).is_single() ==> final(self).palette_view() == palette_after_write(
                old(self).is_single(),
                old(self)@,
                old(self).palette_view(),
                target_idx as int,
                voxel@,
            ),
            !final(self).is_single() ==> final(self).index_width() == width_after_write(
                old(self).is_single(),
                old(self)@,
                old(self).palette_view(),
                old(self).index_width(),
                target_idx as int,
                voxel@,
            ),
    {
        let ghost pre = *self;
        let promote = match self {
            Storage::Single(storage) => !storage.voxel.eq(&voxel),
            Storage::Multi(_) => false,
        };
        if promote {
            self.toggle_storage_type();
            let ghost mid = *self;
            proof {
                match (pre, mid) {
                    (Storage::Single(s0), Storage::Multi(m)) => {
                        assert(m.pview() =~= seq![(s0.voxel@, s0.size as nat)]);
                        assert(pre@[target_idx as int] == s0.voxel@);
                    },
                    _ => {},
                }
            }
        }
        match self {
            Storage::Single(_) => {
                assert(self@ =~= old(self)@.update(target_idx as int, voxel@));
            },
            Storage::Multi(storage) => {
                storage.set(target_idx, voxel);
            },
        }
    }

    /// The value of voxel `idx`.
    pub fn get(&self, idx: usize) -> (r: BlockData)
        requires
            self.wf(),
            idx < self@.len(),
        ensures
            r@ == self@[idx as int],
    {
        match self {
            Storage::Single(storage) => storage.voxel.clone(),
            Storage::Multi(storage) => {
                proof {
                    lemma_slot_in_buffer(idx as int, storage.size as int, storage.indices_length as int);
                    lemma_volume_bits(storage.size as int, storage.indices_length as int);
                    assert(0 <= storage.slot(idx as int) < storage.palette@.len());
                }
                let palette_idx = storage.data.get(
                    idx * storage.indices_length,
                    storage.indices_length,
                );
                storage.palette[palette_idx].voxel_type.clone()
            },
        }
    }

    /// Returns to the uniform form when every voxel holds the same value;
    /// otherwise changes nothing. Costs a scan of the palette, not the volume.
    pub fn trim(&mut self)
        requires
            old(self).wf(),
        ensures
            final(self).wf(),
            final(self)@ == old(self)@,
            final(self).is_single() == all_same(old(self)@),
            old(self).is_single() ==> final(self).is_single(),
            !final(self).is_single() ==> final(self).palette_view() == old(self).palette_view()
                && final(self).index_width() == old(self).index_width(),
    {
        let collapse = match self {
            Storage::Single(_) => false,
            Storage::Multi(storage) => match find_sole_live(&storage.palette) {
                Some(k) => {
                    proof {
                        storage.lemma_sole_live_everywhere(k as int);
                    }
                    true
                },
                None => {
                    proof {
                        storage.lemma_several_live();
                    }
                    false
                },
            },
        };
        if collapse {
            self.toggle_storage_type();
        }
    }

    /// The palette entries as (value, reference count) pairs, in palette
    /// order; empty in the uniform form.
    pub fn palette_entries(&self) -> (r: Vec<(BlockData, usize)>)
        ensures
            r@.len() == self.palette_view().len(),
            forall|i: int|
                0 <= i < r@.len() ==> (#[trigger] r@[i].0@, r@[i].1 as nat) == self.palette_view()[i],
    {
        let mut r: Vec<(BlockData, usize)> = Vec::new();
        match self {
            Storage::Single(_) => {},
            Storage::Multi(storage) => {
                let mut k: usize = 0;
                while k < storage.palette.len()
                    invariant
                        k <= storage.palette@.len(),
                        self.palette_view().len() == storage.palette@.len(),
                        self.palette_view() == storage.palette@.map_values(
                            |e: PaletteEntry| (e.voxel_type@, e.ref_count as nat),
                        ),
                        r@.len() == k,
                        forall|i: int|
                            0 <= i < k ==> (#[trigger] r@[i].0@, r@[i].1 as nat)
                                == self.palette_view()[i],
                    decreases storage.palette@.len() - k,
                {
                    r.push((storage.palette[k].voxel_type.clone(), storage.palette[k].ref_count));
                    k = k + 1;
                }
            },
        }
        r
    }
}

/// How many elements of `s` equal `v`.
pub open spec fn occurrences(s: Seq<BlockView>, v: BlockView) -> nat
    decreases s.len(),
{
    if s.len() == 0 {
        0
    } else {
        occurrences(s.drop_last(), v) + if s.last() == v {
            1nat
        } else {
            0nat
        }
    }
}

proof fn lemma_count_occurrences(a: Seq<int>, b: Seq<BlockView>, k: int, v: BlockView)
    requires
        a.len() == b.len(),
        forall|i: int| 0 <= i < a.len() ==> (#[trigger] a[i] == k <==> b[i] == v),
    ensures
        count(a, k) == occurrences(b, v),
    decreases a.len(),
{
    if a.len() > 0 {
        assert(forall|i: int| 0 <= i < a.len() - 1 ==> a.drop_last()[i] == a[i] && b.drop_last()[i] == b[i]);
        lemma_count_occurrences(a.drop_last(), b.drop_last(), k, v);
    }
}

/// The palette invariant, as callers can use it. In palette form the volume
/// is not empty, each entry in use counts exactly the voxels holding its
/// value, no two entries in use hold the same value, and the palette fits
/// the index width. In the uniform form there is no palette.
pub proof fn lemma_palette_invariant(s: &Storage)
    requires
        s.wf(),
    ensures
        s.is_single() ==> s.palette_view().len() == 0,
        !s.is_single() ==> s@.len() >= 1,
        !s.is_single() ==> s.palette_view().len() <= pow2(s.index_width()),
        !s.is_single() ==> forall|k: int|
            0 <= k < s.palette_view().len() && s.palette_view()[k].1 > 0 ==> #[trigger] s.palette_view()[k].1
                == occurrences(s@, s.palette_view()[k].0),
        !s.is_single() ==> forall|j: int, k: int|
            #![trigger s.palette_view()[j], s.palette_view()[k]]
            0 <= j < s.palette_view().len() && 0 <= k < s.palette_view().len() && j != k
                && s.palette_view()[j].1 > 0 && s.palette_view()[k].1 > 0 ==> s.palette_view()[j].0
                != s.palette_view()[k].0,
{
    match s {
        Storage::Single(_) => {},
        Storage::Multi(m) => {
            let p = s.palette_view();
            let a = m.indices();
            let b = m.view();
            assert forall|k: int| 0 <= k < p.len() && p[k].1 > 0 implies #[trigger] p[k].1 == occurrences(
                b,
                p[k].0,
            ) by {
                assert(live(m.palette@, k));
                assert forall|i: int| 0 <= i < a.len() implies (#[trigger] a[i] == k <==> b[i] == p[k].0) by {
                    let j = m.slot(i);
                    assert(a[i] == j);
                    lemma_count_pos(a, i);
                    assert(live(m.palette@, j));
                }
                lemma_count_occurrences(a, b, k, p[k].0);
            }
            assert forall|j: int, k: int|
                #![trigger p[j], p[k]]
                0 <= j < p.len() && 0 <= k < p.len() && j != k && p[j].1 > 0 && p[k].1 > 0
                implies p[j].0 != p[k].0 by {
                assert(live(m.palette@, j) && live(m.palette@, k));
            }

        },
    }
}

/// Demotion on convergence: start from a uniform storage, write a different
/// value `v` into voxel `i` (`s1`, now in palette form), restore the value
/// that voxel held (`s2`) and trim (`s3`): the storage is uniform again. The
/// relations assumed between the states are those that `set` and `trim`
/// promise.
pub proof fn lemma_demotion_on_convergence(
    s0: Storage,
    s1: Storage,
    s2: Storage,
    s3: Storage,
    i: int,
    v: BlockView,
)
    requires
        s0.wf(),
        s0.is_single(),
        0 <= i < s0@.len(),
        s1@ == s0@.update(i, v),
        s1.is_single() == (s0.is_single() && s0@[i] == v),
        s2@ == s1@.update(i, s0@[i]),
        s3@ == s2@,
        s3.is_single() == all_same(s2@),
    ensures
        v != s0@[i] ==> !s1.is_single(),
        s3@ == s0@,
        s3.is_single(),
{
    assert(s2@ =~= s0@);
    match s0 {
        Storage::Single(_) => {},
        Storage::Multi(_) => {},
    }
}

/// In palette form the reference counts of all entries add up to the number
/// of voxels: each voxel is counted once, by the entry it uses.
pub proof fn lemma_ref_count_conservation(s: &Storage)
    requires
        s.wf(),
        !s.is_single(),
    ensures
        s.ref_count_total() == s@.len(),
{
    match s {
        Storage::Multi(m) => {
            let n = m.palette@.len() as int;
            lemma_ref_sum_shifted(m.palette@, m.indices(), n, -1);
            lemma_total(m.indices(), n);
        },
        Storage::Single(_) => {},
    }
}

} // verus!
