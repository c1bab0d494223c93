use bitvec::order::Lsb0;
use bitvec::vec::BitVec;
use vstd::arithmetic::power2::*;
use vstd::prelude::*;

verus! {

/// A bit-vector of `u8` elements in `Lsb0` order, opaque to the verifier.
#[verifier::external_body]
pub struct PackedBits {
    inner: BitVec<u8, Lsb0>,
}

/// The bits held by a bit-vector, in index order.
pub uninterp spec fn bits_of(b: PackedBits) -> Seq<bool>;

/// The unsigned integer whose binary digits, least significant first, are `s`.
pub open spec fn le_value(s: Seq<bool>) -> nat
    decreases s.len(),
{
    if s.len() == 0 {
        0
    } else {
        (if s[0] { 1nat } else { 0nat }) + 2 * le_value(s.drop_first())
    }
}

/// The lowest `n` binary digits of `v`, least significant first.
pub open spec fn le_bits(v: nat, n: nat) -> Seq<bool>
    decreases n,
{
    if n == 0 {
        Seq::empty()
    } else {
        seq![v % 2 == 1] + le_bits(v / 2, (n - 1) as nat)
    }
}

/// `s` with the `len` bits from `start` on replaced by `with`.
pub open spec fn splice(s: Seq<bool>, start: int, with: Seq<bool>) -> Seq<bool> {
    s.subrange(0, start) + with + s.subrange(start + with.len(), s.len() as int)
}

/// Relies on `BitVec::repeat`: a vector of `len` copies of the given bit.
#[verifier::external_body]
fn bitvec_zeroed(len: usize) -> (r: PackedBits)
    requires
        len <= usize::MAX / 8,
    ensures
        bits_of(r) == Seq::new(len as nat, |i: int| false),
{
    PackedBits { inner: BitVec::repeat(false, len) }
}

/// Relies on `BitVec::len`: the number of bits held.
#[verifier::external_body]
fn bitvec_len(b: &PackedBits) -> (r: usize)
    ensures
        r == bits_of(*b).len(),
{
    b.inner.len()
}

/// Relies on `BitVec::clone`: the copy holds the same bits.
#[verifier::external_body]
fn bitvec_clone(b: &PackedBits) -> (r: PackedBits)
    ensures
        bits_of(r) == bits_of(*b),
{
    PackedBits { inner: b.inner.clone() }
}

/// Relies on `BitField::load_le` of an `Lsb0` bit-slice: the bits of the range,
/// read with the lowest index as the least significant digit.
#[verifier::external_body]
fn bitvec_load_le(b: &PackedBits, start: usize, len: usize) -> (r: usize)
    requires
        1 <= len <= usize::BITS,
        start + len <= bits_of(*b).len(),
    ensures
        r == le_value(bits_of(*b).subrange(start as int, start + len)),
{
    bitvec::field::BitField::load_le::<usize>(&b.inner[start..start + len])
}

/// Relies on `BitField::store_le` of an `Lsb0` bit-slice: the range is
/// overwritten with the binary digits of `value`, lowest index least
/// significant, and no other bit changes.
#[verifier::external_body]
fn bitvec_store_le(b: &mut PackedBits, start: usize, len: usize, value: usize)
    requires
        1 <= len <= usize::BITS,
        start + len <= bits_of(*old(b)).len(),
    ensures
        bits_of(*final(b)) == splice(
            bits_of(*old(b)),
            start as int,
            le_bits(value as nat, len as nat),
        ),
{
    bitvec::field::BitField::store_le::<usize>(&mut b.inner[start..start + len], value)
}

/// A flat, zero-initialised sequence of bits holding small unsigned integers
/// of a chosen width at chosen bit offsets.
pub struct BitBuffer {
    bytes: PackedBits,
}

impl View for BitBuffer {
    type V = Seq<bool>;

    closed spec fn view(&self) -> Seq<bool> {
        bits_of(self.bytes)
    }
}

pub proof fn lemma_le_bits_len(v: nat, n: nat)
    ensures
        le_bits(v, n).len() == n,
    decreases n,
{
    if n > 0 {
        lemma_le_bits_len(v / 2, (n - 1) as nat);
    }
}

pub proof fn lemma_pow2_zero()
    ensures
        pow2(0) == 1,
{
    vstd::arithmetic::power::lemma_pow0(2);
    lemma_pow2(0);
}

/// Reading back the digits of a value that fits gives the value.
pub proof fn lemma_le_round_trip(v: nat, n: nat)
    requires
        v < pow2(n),
    ensures
        le_value(le_bits(v, n)) == v,
    decreases n,
{
    lemma_le_bits_len(v, n);
    if n == 0 {
        lemma_pow2_zero();
    } else {
        lemma_pow2_unfold(n);
        let rest = le_bits(v / 2, (n - 1) as nat);
        assert(le_bits(v, n).drop_first() =~= rest);
        lemma_le_round_trip(v / 2, (n - 1) as nat);
    }
}

/// A value read from `n` bits is below `2^n`.
pub proof fn lemma_le_value_bound(s: Seq<bool>)
    ensures
        le_value(s) < pow2(s.len()),
    decreases s.len(),
{
    if s.len() == 0 {
        lemma_pow2_zero();
    } else {
        lemma_le_value_bound(s.drop_first());
        lemma_pow2_unfold(s.len());
    }
}

/// Bits outside the replaced range keep their values.
pub proof fn lemma_splice_outside(s: Seq<bool>, start: int, with: Seq<bool>, a: int, b: int)
    requires
        0 <= start,
        start + with.len() <= s.len(),
        0 <= a <= b <= s.len(),
        b <= start || start + with.len() <= a,
    ensures
        splice(s, start, with).subrange(a, b) == s.subrange(a, b),
        splice(s, start, with).len() == s.len(),
{
    let t = splice(s, start, with);
    assert(t.len() == s.len());
    assert forall|i: int| 0 <= i < b - a implies t.subrange(a, b)[i] == s.subrange(a, b)[i] by {
        if a + i < start {
        } else {
            assert(a + i >= start + with.len());
        }
    }
    assert(t.subrange(a, b) =~= s.subrange(a, b));
}

/// A run of zero bits reads as zero.
pub proof fn lemma_zeros_value(s: Seq<bool>)
    requires
        forall|i: int| 0 <= i < s.len() ==> !s[i],
    ensures
        le_value(s) == 0,
    decreases s.len(),
{
    if s.len() > 0 {
        lemma_zeros_value(s.drop_first());
    }
}

impl BitBuffer {
    /// A buffer of `size` bits, all zero.
    pub fn new(size: usize) -> (r: Self)
        requires
            size <= usize::MAX / 8,
        ensures
            r@ == Seq::new(size as nat, |i: int| false),
    {
        BitBuffer { bytes: bitvec_zeroed(size) }
    }

    /// Overwrites the `bit_length` bits from `idx` on with the binary digits of
    /// `bits`, least significant first.
    pub fn set(&mut self, idx: usize, bit_length: usize, bits: usize)
        requires
            1 <= bit_length <= usize::BITS,
            idx + bit_length <= old(self)@.len(),
            bits < pow2(bit_length as nat),
        ensures
            final(self)@ == splice(old(self)@, idx as int, le_bits(bits as nat, bit_length as nat)),
            final(self)@.len() == old(self)@.len(),
            le_value(final(self)@.subrange(idx as int, idx + bit_length)) == bits,
    {
        bitvec_store_le(&mut self.bytes, idx, bit_length, bits);
        proof {
            lemma_le_bits_len(bits as nat, bit_length as nat);
            lemma_le_round_trip(bits as nat, bit_length as nat);
            assert(self@.subrange(idx as int, idx + bit_length) =~= le_bits(bits as nat, bit_length as nat));
        }
    }

    /// The unsigned integer held in the `bit_length` bits from `idx` on.
    pub fn get(&self, idx: usize, bit_length: usize) -> (r: usize)
        requires
            1 <= bit_length <= usize::BITS,
            idx + bit_length <= self@.len(),
        ensures
            r == le_value(self@.subrange(idx as int, idx + bit_length)),
            r < pow2(bit_length as nat),
    {
        proof {
            lemma_le_value_bound(self@.subrange(idx as int, idx + bit_length));
        }
        bitvec_load_le(&self.bytes, idx, bit_length)
    }
}

impl BitBuffer {
    /// The bits of the buffer, in order.
    pub fn to_bits(&self) -> (r: Vec<bool>)
        ensures
            r@ == self@,
    {
        let n = bitvec_len(&self.bytes);
        let mut r: Vec<bool> = Vec::new();
        let mut i: usize = 0;
        while i < n
            invariant
                n == self@.len(),
                i <= n,
                r@ == self@.take(i as int),
            decreases n - i,
        {
            let b = self.get(i, 1);
            proof {
                let one = self@.subrange(i as int, i + 1);
                assert(one.drop_first() =~= Seq::<bool>::empty());
                assert(le_value(one.drop_first()) == 0);
                assert(le_value(one) == if self@[i as int] { 1nat } else { 0nat });
            }
            r.push(b == 1);
            assert(r@ =~= self@.take(i + 1));
            i = i + 1;
        }
        assert(r@ =~= self@);
        r
    }

    /// A buffer holding the given bits.
    pub fn from_bits(bits: &Vec<bool>) -> (r: Self)
        requires
            bits@.len() <= usize::MAX / 8,
        ensures
            r@ == bits@,
    {
        let n = bits.len();
        let mut r = BitBuffer::new(n);
        let mut i: usize = 0;
        while i < n
            invariant
                n == bits@.len(),
                n <= usize::MAX / 8,
                i <= n,
                r@.len() == n,
                forall|k: int| 0 <= k < i ==> #[trigger] r@[k] == bits@[k],
            decreases n - i,
        {
            proof {
                lemma_pow2_unfold(1);
                lemma_pow2_zero();
            }
            let ghost before = r@;
            r.set(i, 1, if bits[i] { 1 } else { 0 });
            proof {
                let v: nat = if bits@[i as int] { 1nat } else { 0nat };
                assert(le_bits(v / 2, 0) =~= Seq::<bool>::empty());
                assert(le_bits(v, 1) =~= seq![bits@[i as int]]);
                assert forall|k: int| 0 <= k < i + 1 implies #[trigger] r@[k] == bits@[k] by {
                    if k < i {
                        assert(r@[k] == before[k]);
                    }
                }
            }
            i = i + 1;
        }
        assert(r@ =~= bits@);
        r
    }
}

impl Clone for BitBuffer {
    fn clone(&self) -> (r: Self)
        ensures
            r@ == self@,
    {
        BitBuffer { bytes: bitvec_clone(&self.bytes) }
    }
}

} // verus!
