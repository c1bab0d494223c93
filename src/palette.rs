use crate::block::BlockData;
use vstd::prelude::*;

verus! {

/// One palette slot: a block value and how many voxels refer to it. A slot
/// whose count is zero is a hole that a new value may take over.
pub struct PaletteEntry {
    pub voxel_type: BlockData,
    pub ref_count: usize,
}

impl Clone for PaletteEntry {
    fn clone(&self) -> (r: Self)
        ensures
            r.voxel_type@ == self.voxel_type@,
            r.ref_count == self.ref_count,
    {
        PaletteEntry { voxel_type: self.voxel_type.clone(), ref_count: self.ref_count }
    }
}

/// How many times `k` occurs in `s`.
pub open spec fn count(s: Seq<int>, k: int) -> nat
    decreases s.len(),
{
    if s.len() == 0 {
        0
    } else {
        count(s.drop_last(), k) + if s.last() == k {
            1nat
        } else {
            0nat
        }
    }
}

/// The number of elements of `s` below `n`, counted value by value.
pub open spec fn total(s: Seq<int>, n: int) -> nat
    decreases n,
{
    if n <= 0 {
        0
    } else {
        total(s, n - 1) + count(s, n - 1)
    }
}

/// The sum of the reference counts of the first `n` entries.
pub open spec fn ref_sum(p: Seq<PaletteEntry>, n: int) -> nat
    decreases n,
{
    if n <= 0 {
        0
    } else {
        ref_sum(p, n - 1) + p[n - 1].ref_count as nat
    }
}

/// Whether entry `k` is in use.
pub open spec fn live(p: Seq<PaletteEntry>, k: int) -> bool {
    0 <= k < p.len() && p[k].ref_count > 0
}

/// Whether `k` is the one entry in use.
pub open spec fn sole_live(p: Seq<PaletteEntry>, k: int) -> bool {
    live(p, k) && forall|j: int| 0 <= j < p.len() && j != k ==> p[j].ref_count == 0
}

pub proof fn lemma_count_update(s: Seq<int>, i: int, v: int, k: int)
    requires
        0 <= i < s.len(),
    ensures
        count(s.update(i, v), k) + (if s[i] == k {
            1nat
        } else {
            0nat
        }) == count(s, k) + (if v == k {
            1nat
        } else {
            0nat
        }),
    decreases s.len(),
{
    let t = s.update(i, v);
    if i == s.len() - 1 {
        assert(t.drop_last() =~= s.drop_last());
    } else {
        assert(t.drop_last() =~= s.drop_last().update(i, v));
        lemma_count_update(s.drop_last(), i, v, k);
    }
}

pub proof fn lemma_count_pos(s: Seq<int>, i: int)
    requires
        0 <= i < s.len(),
    ensures
        count(s, s[i]) >= 1,
    decreases s.len(),
{
    if i < s.len() - 1 {
        lemma_count_pos(s.drop_last(), i);
    }
}

pub proof fn lemma_count_le(s: Seq<int>, k: int)
    ensures
        count(s, k) <= s.len(),
    decreases s.len(),
{
    if s.len() > 0 {
        lemma_count_le(s.drop_last(), k);
    }
}

/// A value at two positions is counted at least twice.
pub proof fn lemma_count_two(s: Seq<int>, i: int, j: int)
    requires
        0 <= i < s.len(),
        0 <= j < s.len(),
        i != j,
        s[i] == s[j],
    ensures
        count(s, s[i]) >= 2,
    decreases s.len(),
{
    let last = s.len() - 1;
    if j == last {
        lemma_count_pos(s.drop_last(), i);
    } else if i == last {
        lemma_count_pos(s.drop_last(), j);
    } else {
        lemma_count_two(s.drop_last(), i, j);
    }
}

/// An index that occurs nowhere has count zero, and one that occurs has a
/// positive count.
pub proof fn lemma_count_zero(s: Seq<int>, k: int)
    requires
        forall|i: int| 0 <= i < s.len() ==> s[i] != k,
    ensures
        count(s, k) == 0,
    decreases s.len(),
{
    if s.len() > 0 {
        lemma_count_zero(s.drop_last(), k);
    }
}

pub proof fn lemma_count_constant(s: Seq<int>, k: int)
    requires
        forall|i: int| 0 <= i < s.len() ==> s[i] == k,
    ensures
        count(s, k) == s.len(),
    decreases s.len(),
{
    if s.len() > 0 {
        lemma_count_constant(s.drop_last(), k);
    }
}

proof fn lemma_total_drop_last(s: Seq<int>, n: int)
    requires
        s.len() > 0,
        n >= 0,
    ensures
        total(s, n) == total(s.drop_last(), n) + if 0 <= s.last() < n {
            1nat
        } else {
            0nat
        },
    decreases n,
{
    if n > 0 {
        lemma_total_drop_last(s, n - 1);
    }
}

/// Counting each value below `n` separately counts every element once.
pub proof fn lemma_total(s: Seq<int>, n: int)
    requires
        n >= 0,
        forall|i: int| 0 <= i < s.len() ==> 0 <= #[trigger] s[i] < n,
    ensures
        total(s, n) == s.len(),
    decreases s.len(),
{
    if s.len() == 0 {
        lemma_total_empty(s, n);
    } else {
        lemma_total_drop_last(s, n);
        lemma_total(s.drop_last(), n);
    }
}

proof fn lemma_total_empty(s: Seq<int>, n: int)
    requires
        s.len() == 0,
    ensures
        total(s, n) == 0,
    decreases n,
{
    if n > 0 {
        lemma_total_empty(s, n - 1);
    }
}

/// Reference counts that differ from the occurrence counts by one at `c`
/// sum to one less than the occurrences.
pub proof fn lemma_ref_sum_shifted(p: Seq<PaletteEntry>, s: Seq<int>, n: int, c: int)
    requires
        0 <= n <= p.len(),
        forall|k: int|
            0 <= k < n ==> #[trigger] p[k].ref_count + (if k == c {
                1nat
            } else {
                0nat
            }) == count(s, k),
    ensures
        ref_sum(p, n) + (if 0 <= c < n {
            1nat
        } else {
            0nat
        }) == total(s, n),
    decreases n,
{
    if n > 0 {
        lemma_ref_sum_shifted(p, s, n - 1, c);
        assert(p[n - 1].ref_count + (if n - 1 == c {
            1nat
        } else {
            0nat
        }) == count(s, n - 1));
    }
}

/// Entries that are all in use have counts summing to at least their number.
pub proof fn lemma_ref_sum_lower(p: Seq<PaletteEntry>, n: int)
    requires
        0 <= n <= p.len(),
        forall|k: int| 0 <= k < n ==> #[trigger] p[k].ref_count >= 1,
    ensures
        ref_sum(p, n) >= n,
    decreases n,
{
    if n > 0 {
        lemma_ref_sum_lower(p, n - 1);
    }
}

/// The first entry in use whose value is `voxel`.
pub fn find_live(palette: &Vec<PaletteEntry>, voxel: &BlockData) -> (r: Option<usize>)
    ensures
        match r {
            Some(k) => live(palette@, k as int) && palette@[k as int].voxel_type@ == voxel@,
            None => forall|k: int|
                live(palette@, k) ==> #[trigger] palette@[k].voxel_type@ != voxel@,
        },
{
    let mut k: usize = 0;
    while k < palette.len()
        invariant
            k <= palette.len(),
            forall|j: int| 0 <= j < k && live(palette@, j) ==> #[trigger] palette@[j].voxel_type@ != voxel@,
        decreases palette.len() - k,
    {
        if palette[k].ref_count > 0 && palette[k].voxel_type.eq(voxel) {
            return Some(k);
        }
        k = k + 1;
    }
    None
}

/// The first entry not in use.
pub fn find_free(palette: &Vec<PaletteEntry>) -> (r: Option<usize>)
    ensures
        match r {
            Some(k) => k < palette@.len() && palette@[k as int].ref_count == 0 && forall|j: int|
                0 <= j < k ==> #[trigger] palette@[j].ref_count > 0,
            None => forall|k: int| 0 <= k < palette@.len() ==> #[trigger] palette@[k].ref_count > 0,
        },
{
    let mut k: usize = 0;
    while k < palette.len()
        invariant
            k <= palette.len(),
            forall|j: int| 0 <= j < k ==> #[trigger] palette@[j].ref_count > 0,
        decreases palette.len() - k,
    {
        if palette[k].ref_count == 0 {
            return Some(k);
        }
        k = k + 1;
    }
    None
}

/// The entry in use, if exactly one is.
pub fn find_sole_live(palette: &Vec<PaletteEntry>) -> (r: Option<usize>)
    ensures
        match r {
            Some(k) => sole_live(palette@, k as int),
            None => forall|k: int| !sole_live(palette@, k),
        },
{
    let mut found: Option<usize> = None;
    let mut k: usize = 0;
    while k < palette.len()
        invariant
            k <= palette.len(),
            match found {
                Some(f) => f < k && live(palette@, f as int) && forall|j: int|
                    0 <= j < k && j != f ==> #[trigger] palette@[j].ref_count == 0,
                None => forall|j: int| 0 <= j < k ==> #[trigger] palette@[j].ref_count == 0,
            },
        decreases palette.len() - k,
    {
        if palette[k].ref_count > 0 {
            match found {
                Some(f) => {
                    assert(live(palette@, f as int) && live(palette@, k as int));
                    return None;
                },
                None => {
                    found = Some(k);
                },
            }
        }
        k = k + 1;
    }
    found
}

} // verus!
