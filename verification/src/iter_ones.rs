//! The indices of the one bits of an integer, lowest first.
use vstd::prelude::*;
use vstd::std_specs::bits::{axiom_u64_trailing_zeros, u64_trailing_zeros};

verus! {

/// Bit `i` of `x` is one.
pub open spec fn bit_is_one(x: u128, i: int) -> bool {
    0 <= i < 128 && (x >> (i as u128)) & 1u128 == 1u128
}

/// `s` lists, in increasing order, exactly the indices of the one bits of `x`.
pub open spec fn lists_ones(x: u128, s: Seq<u32>) -> bool {
    &&& forall|k: int| 0 <= k < s.len() ==> bit_is_one(x, #[trigger] s[k] as int)
    &&& forall|k: int, l: int| 0 <= k < l < s.len() ==> #[trigger] s[k] < #[trigger] s[l]
    &&& forall|i: int| #[trigger] bit_is_one(x, i) ==> s.contains(i as u32)
}

spec fn bit64(x: u64, i: int) -> bool {
    0 <= i < 64 && (x >> (i as u64)) & 1u64 == 1u64
}

spec fn lists_ones64(x: u64, s: Seq<u32>) -> bool {
    &&& forall|k: int| 0 <= k < s.len() ==> bit64(x, #[trigger] s[k] as int)
    &&& forall|k: int, l: int| 0 <= k < l < s.len() ==> #[trigger] s[k] < #[trigger] s[l]
    &&& forall|i: int| #[trigger] bit64(x, i) ==> s.contains(i as u32)
}

/// Clearing the lowest one bit (`v & (v - 1)`) keeps every other bit.
proof fn lemma_clear_lowest(v: u64, t: u64, i: u64)
    by (bit_vector)
    requires
        v != 0,
        t < 64,
        i < 64,
        (v >> t) & 1u64 == 1u64,
        v << ((64 - t) as u64) == 0,
    ensures
        ((v & ((v - 1) as u64)) >> i) & 1u64 == (if i == t {
            0u64
        } else {
            (v >> i) & 1u64
        }),
        v & ((v - 1) as u64) < v,
{
}

proof fn lemma_low_bits_zero(v: u64, t: u64, i: u64)
    by (bit_vector)
    requires
        t < 64,
        i < t,
        v << ((64 - t) as u64) == 0,
    ensures
        (v >> i) & 1u64 == 0u64,
{
}

/// The indices of the one bits of `x`, lowest first: repeatedly take the
/// lowest one bit's index and clear that bit.
fn ones_u64(x: u64) -> (r: Vec<u32>)
    ensures
        lists_ones64(x, r@),
{
    let mut r: Vec<u32> = Vec::new();
    let mut v: u64 = x;
    let mut lb: u64 = 0;
    while v != 0
        invariant
            lb <= 64,
            forall|i: int| 0 <= i < 64 ==> (bit64(v, i) <==> (bit64(x, i) && i >= lb)),
            forall|k: int| 0 <= k < r@.len() ==> bit64(x, #[trigger] r@[k] as int) && r@[k] < lb,
            forall|k: int, l: int| 0 <= k < l < r@.len() ==> #[trigger] r@[k] < #[trigger] r@[l],
            forall|i: int| 0 <= i < lb && #[trigger] bit64(x, i) ==> r@.contains(i as u32),
        decreases v,
    {
        let t = v.trailing_zeros();
        proof {
            axiom_u64_trailing_zeros(v);
            assert(t < 64);
            assert(bit64(v, t as int));
            assert forall|i: int| 0 <= i < t implies !bit64(v, i) by {
                lemma_low_bits_zero(v, t as u64, i as u64);
            }
        }
        let next = v & (v - 1);
        proof {
            assert forall|i: int| 0 <= i < 64 implies (bit64(next, i) <==> (bit64(x, i) && i >= t + 1)) by {
                lemma_clear_lowest(v, t as u64, i as u64);
                if i < lb {
                    assert(!bit64(v, i));
                }
            }
            lemma_clear_lowest(v, t as u64, 0);
            assert(t >= lb) by {
                if t < lb {
                    assert(bit64(x, t as int) && t >= lb);
                }
            }
        }
        let ghost old_r = r@;
        r.push(t);
        proof {
            assert forall|i: int| 0 <= i < t + 1 && #[trigger] bit64(x, i) implies r@.contains(i as u32) by {
                if i < lb {
                    assert(old_r.contains(i as u32));
                    let k = choose|k: int| 0 <= k < old_r.len() && old_r[k] == i as u32;
                    assert(r@[k] == i as u32);
                } else if i < t {
                    assert(bit64(v, i));
                } else {
                    assert(r@[old_r.len() as int] == t);
                }
            }
        }
        v = next;
        lb = (t + 1) as u64;
    }
    proof {
        assert forall|i: int| #[trigger] bit64(x, i) implies r@.contains(i as u32) by {
            if i >= lb {
                assert(bit64(v, i));
                let j = i as u64;
                assert((0u64 >> j) & 1u64 == 0u64) by (bit_vector);
            }
        }
    }
    r
}

proof fn lemma_widen_bit(x: u64, j: u64)
    by (bit_vector)
    requires
        j < 128,
    ensures
        j < 64 ==> (((x as u128) >> (j as u128)) & 1u128 == 1u128 <==> (x >> j) & 1u64 == 1u64),
        j >= 64 ==> ((x as u128) >> (j as u128)) & 1u128 == 0u128,
{
}

proof fn lemma_split_bit(x: u128, j: u64)
    by (bit_vector)
    requires
        j < 128,
    ensures
        j < 64 ==> ((x >> (j as u128)) & 1u128 == 1u128 <==> ((x as u64) >> j) & 1u64 == 1u64),
        j >= 64 ==> ((x >> (j as u128)) & 1u128 == 1u128 <==> (((x >> 64u128) as u64) >> ((j - 64) as u64)) & 1u64 == 1u64),
{
}

/// The indices of the one bits of `x`.
fn ones_of_u64(x: u64) -> (r: Vec<u32>)
    ensures
        lists_ones(x as u128, r@),
{
    let r = ones_u64(x);
    proof {
        assert forall|i: int| 0 <= i < 128 implies (bit_is_one(x as u128, i) <==> bit64(x, i)) by {
            lemma_widen_bit(x, i as u64);
        }
        assert forall|k: int| 0 <= k < r@.len() implies bit_is_one(x as u128, #[trigger] r@[k] as int) by {
            assert(bit64(x, r@[k] as int));
        }
        assert forall|i: int| #[trigger] bit_is_one(x as u128, i) implies r@.contains(i as u32) by {
            assert(bit64(x, i));
        }
    }
    r
}

/// The indices of the one bits of `x`: those of its low half, then those of
/// its high half shifted up by 64.
fn ones_of_u128(x: u128) -> (r: Vec<u32>)
    ensures
        lists_ones(x, r@),
{
    let lo = #[verifier::truncate] (x as u64);
    let hi = #[verifier::truncate] ((x >> 64u128) as u64);
    let mut r = ones_u64(lo);
    let high = ones_u64(hi);
    let ghost low = r@;
    let mut k: usize = 0;
    while k < high.len()
        invariant
            lists_ones64(hi, high@),
            lists_ones64(lo, low),
            k <= high@.len(),
            r@.len() == low.len() + k,
            forall|j: int| 0 <= j < low.len() ==> #[trigger] r@[j] == low[j],
            forall|j: int| 0 <= j < k ==> #[trigger] r@[low.len() + j] == high@[j] + 64,
        decreases high@.len() - k,
    {
        assert(bit64(hi, high@[k as int] as int));
        r.push(high[k] + 64);
        k = k + 1;
    }
    proof {
        assert forall|i: int| 0 <= i < 128 implies (#[trigger] bit_is_one(x, i) <==> (if i < 64 { bit64(lo, i) } else { bit64(hi, i - 64) })) by {
            lemma_split_bit(x, i as u64);
        }
        assert forall|j: int| 0 <= j < r@.len() implies bit_is_one(x, #[trigger] r@[j] as int) by {
            if j < low.len() {
                assert(bit64(lo, low[j] as int));
                assert(bit_is_one(x, low[j] as int));
            } else {
                let jj = j - low.len();
                assert(r@[low.len() + jj] == high@[jj] + 64);
                assert(bit64(hi, high@[jj] as int));
                assert(bit_is_one(x, high@[jj] + 64));
            }
        }
        assert forall|j: int, l: int| 0 <= j < l < r@.len() implies #[trigger] r@[j] < #[trigger] r@[l] by {
            if l < low.len() {
            } else if j < low.len() {
                assert(bit64(lo, low[j] as int));
                assert(r@[low.len() + (l - low.len())] == high@[l - low.len()] + 64);
            } else {
                assert(r@[low.len() + (l - low.len())] == high@[l - low.len()] + 64);
                assert(r@[low.len() + (j - low.len())] == high@[j - low.len()] + 64);
                assert(high@[j - low.len()] < high@[l - low.len()]);
            }
        }
        assert forall|i: int| #[trigger] bit_is_one(x, i) implies r@.contains(i as u32) by {
            if i < 64 {
                assert(bit64(lo, i));
                assert(low.contains(i as u32));
                let j = choose|j: int| 0 <= j < low.len() && low[j] == i as u32;
                assert(r@[j] == i as u32);
            } else {
                assert(bit64(hi, i - 64));
                assert(high@.contains((i - 64) as u32));
                let j = choose|j: int| 0 <= j < high@.len() && high@[j] == (i - 64) as u32;
                assert(r@[low.len() + j] == i as u32);
            }
        }
    }
    r
}

/// Integers whose one bits can be listed.
pub trait IterOnes: Sized {
    /// The value's bits, zero-extended to 128 bits (two's complement for
    /// signed values).
    spec fn bit_pattern(self) -> u128;

    /// Given an integer, returns the bit indices with ones, lowest first.
    fn iter_ones(self) -> (r: Vec<u32>)
        ensures
            lists_ones(self.bit_pattern(), r@),
    ;
}

impl IterOnes for u8 {
    open spec fn bit_pattern(self) -> u128 {
        self as u128
    }

    fn iter_ones(self) -> (r: Vec<u32>) {
        ones_of_u64(self as u64)
    }
}

impl IterOnes for u16 {
    open spec fn bit_pattern(self) -> u128 {
        self as u128
    }

    fn iter_ones(self) -> (r: Vec<u32>) {
        ones_of_u64(self as u64)
    }
}

impl IterOnes for u32 {
    open spec fn bit_pattern(self) -> u128 {
        self as u128
    }

    fn iter_ones(self) -> (r: Vec<u32>) {
        ones_of_u64(self as u64)
    }
}

impl IterOnes for u64 {
    open spec fn bit_pattern(self) -> u128 {
        self as u128
    }

    fn iter_ones(self) -> (r: Vec<u32>) {
        ones_of_u64(self)
    }
}

impl IterOnes for u128 {
    open spec fn bit_pattern(self) -> u128 {
        self
    }

    fn iter_ones(self) -> (r: Vec<u32>) {
        ones_of_u128(self)
    }
}

impl IterOnes for usize {
    open spec fn bit_pattern(self) -> u128 {
        self as u128
    }

    fn iter_ones(self) -> (r: Vec<u32>) {
        ones_of_u64(self as u64)
    }
}

impl IterOnes for i8 {
    open spec fn bit_pattern(self) -> u128 {
        (self as u8) as u128
    }

    fn iter_ones(self) -> (r: Vec<u32>) {
        ones_of_u64((self as u8) as u64)
    }
}

impl IterOnes for i16 {
    open spec fn bit_pattern(self) -> u128 {
        (self as u16) as u128
    }

    fn iter_ones(self) -> (r: Vec<u32>) {
        ones_of_u64((self as u16) as u64)
    }
}

impl IterOnes for i32 {
    open spec fn bit_pattern(self) -> u128 {
        (self as u32) as u128
    }

    fn iter_ones(self) -> (r: Vec<u32>) {
        ones_of_u64((self as u32) as u64)
    }
}

impl IterOnes for i64 {
    open spec fn bit_pattern(self) -> u128 {
        (self as u64) as u128
    }

    fn iter_ones(self) -> (r: Vec<u32>) {
        ones_of_u64(self as u64)
    }
}

impl IterOnes for i128 {
    open spec fn bit_pattern(self) -> u128 {
        self as u128
    }

    fn iter_ones(self) -> (r: Vec<u32>) {
        ones_of_u128(self as u128)
    }
}

impl IterOnes for isize {
    open spec fn bit_pattern(self) -> u128 {
        (self as usize) as u128
    }

    fn iter_ones(self) -> (r: Vec<u32>) {
        ones_of_u64((self as usize) as u64)
    }
}

proof fn bits_u8(x: u8, j: u32)
    by (bit_vector)
    requires
        j < 128,
    ensures
        j < 8 ==> (((x as u128 >> (j as u128)) & 1u128 == 1u128) <==> (x >> (j as u8)) & 1u8 == 1u8),
        j >= 8 ==> (x as u128 >> (j as u128)) & 1u128 == 0u128,
{
}

/// `iter_ones` of a `u8` lists exactly the positions below 8 at which its
/// bit is one.
pub proof fn lemma_iter_ones_u8(x: u8, r: Seq<u32>)
    requires
        lists_ones(x.bit_pattern(), r),
    ensures
        forall|i: u32| #[trigger] r.contains(i) <==> (i < 8 && (x >> (i as u8)) & 1u8 == 1u8),
{
    assert(x.bit_pattern() == x as u128);
    assert forall|i: u32| #[trigger] r.contains(i) <==> (i < 8 && (x >> (i as u8)) & 1u8 == 1u8) by {
        if r.contains(i) {
            let k = choose|k: int| 0 <= k < r.len() && r[k] == i;
            assert(bit_is_one(x.bit_pattern(), r[k] as int));
            bits_u8(x, i);
        }
        if i < 8 && (x >> (i as u8)) & 1u8 == 1u8 {
            bits_u8(x, i);
            assert(bit_is_one(x.bit_pattern(), i as int));
        }
    }
}

proof fn bits_u16(x: u16, j: u32)
    by (bit_vector)
    requires
        j < 128,
    ensures
        j < 16 ==> (((x as u128 >> (j as u128)) & 1u128 == 1u128) <==> (x >> (j as u16)) & 1u16 == 1u16),
        j >= 16 ==> (x as u128 >> (j as u128)) & 1u128 == 0u128,
{
}

/// `iter_ones` of a `u16` lists exactly the positions below 16 at which its
/// bit is one.
pub proof fn lemma_iter_ones_u16(x: u16, r: Seq<u32>)
    requires
        lists_ones(x.bit_pattern(), r),
    ensures
        forall|i: u32| #[trigger] r.contains(i) <==> (i < 16 && (x >> (i as u16)) & 1u16 == 1u16),
{
    assert(x.bit_pattern() == x as u128);
    assert forall|i: u32| #[trigger] r.contains(i) <==> (i < 16 && (x >> (i as u16)) & 1u16 == 1u16) by {
        if r.contains(i) {
            let k = choose|k: int| 0 <= k < r.len() && r[k] == i;
            assert(bit_is_one(x.bit_pattern(), r[k] as int));
            bits_u16(x, i);
        }
        if i < 16 && (x >> (i as u16)) & 1u16 == 1u16 {
            bits_u16(x, i);
            assert(bit_is_one(x.bit_pattern(), i as int));
        }
    }
}

proof fn bits_u32(x: u32, j: u32)
    by (bit_vector)
    requires
        j < 128,
    ensures
        j < 32 ==> (((x as u128 >> (j as u128)) & 1u128 == 1u128) <==> (x >> (j as u32)) & 1u32 == 1u32),
        j >= 32 ==> (x as u128 >> (j as u128)) & 1u128 == 0u128,
{
}

/// `iter_ones` of a `u32` lists exactly the positions below 32 at which its
/// bit is one.
pub proof fn lemma_iter_ones_u32(x: u32, r: Seq<u32>)
    requires
        lists_ones(x.bit_pattern(), r),
    ensures
        forall|i: u32| #[trigger] r.contains(i) <==> (i < 32 && (x >> (i as u32)) & 1u32 == 1u32),
{
    assert(x.bit_pattern() == x as u128);
    assert forall|i: u32| #[trigger] r.contains(i) <==> (i < 32 && (x >> (i as u32)) & 1u32 == 1u32) by {
        if r.contains(i) {
            let k = choose|k: int| 0 <= k < r.len() && r[k] == i;
            assert(bit_is_one(x.bit_pattern(), r[k] as int));
            bits_u32(x, i);
        }
        if i < 32 && (x >> (i as u32)) & 1u32 == 1u32 {
            bits_u32(x, i);
            assert(bit_is_one(x.bit_pattern(), i as int));
        }
    }
}

proof fn bits_u64(x: u64, j: u32)
    by (bit_vector)
    requires
        j < 128,
    ensures
        j < 64 ==> (((x as u128 >> (j as u128)) & 1u128 == 1u128) <==> (x >> (j as u64)) & 1u64 == 1u64),
        j >= 64 ==> (x as u128 >> (j as u128)) & 1u128 == 0u128,
{
}

/// `iter_ones` of a `u64` lists exactly the positions below 64 at which its
/// bit is one.
pub proof fn lemma_iter_ones_u64(x: u64, r: Seq<u32>)
    requires
        lists_ones(x.bit_pattern(), r),
    ensures
        forall|i: u32| #[trigger] r.contains(i) <==> (i < 64 && (x >> (i as u64)) & 1u64 == 1u64),
{
    assert(x.bit_pattern() == x as u128);
    assert forall|i: u32| #[trigger] r.contains(i) <==> (i < 64 && (x >> (i as u64)) & 1u64 == 1u64) by {
        if r.contains(i) {
            let k = choose|k: int| 0 <= k < r.len() && r[k] == i;
            assert(bit_is_one(x.bit_pattern(), r[k] as int));
            bits_u64(x, i);
        }
        if i < 64 && (x >> (i as u64)) & 1u64 == 1u64 {
            bits_u64(x, i);
            assert(bit_is_one(x.bit_pattern(), i as int));
        }
    }
}

proof fn bits_u128(x: u128, j: u32)
    by (bit_vector)
    requires
        j < 128,
    ensures
        j < 128 ==> (((x >> (j as u128)) & 1u128 == 1u128) <==> (x >> (j as u128)) & 1u128 == 1u128),
{
}

/// `iter_ones` of a `u128` lists exactly the positions below 128 at which its
/// bit is one.
pub proof fn lemma_iter_ones_u128(x: u128, r: Seq<u32>)
    requires
        lists_ones(x.bit_pattern(), r),
    ensures
        forall|i: u32| #[trigger] r.contains(i) <==> (i < 128 && (x >> (i as u128)) & 1u128 == 1u128),
{
    assert(x.bit_pattern() == x);
    assert forall|i: u32| #[trigger] r.contains(i) <==> (i < 128 && (x >> (i as u128)) & 1u128 == 1u128) by {
        if r.contains(i) {
            let k = choose|k: int| 0 <= k < r.len() && r[k] == i;
            assert(bit_is_one(x.bit_pattern(), r[k] as int));
            bits_u128(x, i);
        }
        if i < 128 && (x >> (i as u128)) & 1u128 == 1u128 {
            bits_u128(x, i);
            assert(bit_is_one(x.bit_pattern(), i as int));
        }
    }
}

proof fn bits_usize(x: usize, j: u32)
    by (bit_vector)
    requires
        j < 128,
    ensures
        j < usize::BITS ==> (((x as u128 >> (j as u128)) & 1u128 == 1u128) <==> (x >> (j as usize)) & 1usize == 1usize),
        j >= usize::BITS ==> (x as u128 >> (j as u128)) & 1u128 == 0u128,
{
}

/// `iter_ones` of a `usize` lists exactly the positions below `usize::BITS` at which its
/// bit is one.
pub proof fn lemma_iter_ones_usize(x: usize, r: Seq<u32>)
    requires
        lists_ones(x.bit_pattern(), r),
    ensures
        forall|i: u32| #[trigger] r.contains(i) <==> (i < usize::BITS && (x >> (i as usize)) & 1usize == 1usize),
{
    assert(x.bit_pattern() == x as u128);
    assert forall|i: u32| #[trigger] r.contains(i) <==> (i < usize::BITS && (x >> (i as usize)) & 1usize == 1usize) by {
        if r.contains(i) {
            let k = choose|k: int| 0 <= k < r.len() && r[k] == i;
            assert(bit_is_one(x.bit_pattern(), r[k] as int));
            bits_usize(x, i);
        }
        if i < usize::BITS && (x >> (i as usize)) & 1usize == 1usize {
            bits_usize(x, i);
            assert(bit_is_one(x.bit_pattern(), i as int));
        }
    }
}

proof fn bits_i8(x: i8, j: u32)
    by (bit_vector)
    requires
        j < 128,
    ensures
        j < 8 ==> ((((x as u8) as u128 >> (j as u128)) & 1u128 == 1u128) <==> (x >> (j as u8)) & 1i8 == 1i8),
        j >= 8 ==> ((x as u8) as u128 >> (j as u128)) & 1u128 == 0u128,
{
}

/// `iter_ones` of a `i8` lists exactly the positions below 8 at which its
/// bit is one, the sign bit included.
pub proof fn lemma_iter_ones_i8(x: i8, r: Seq<u32>)
    requires
        lists_ones(x.bit_pattern(), r),
    ensures
        forall|i: u32| #[trigger] r.contains(i) <==> (i < 8 && (x >> (i as u8)) & 1i8 == 1i8),
{
    assert(x.bit_pattern() == (x as u8) as u128);
    assert forall|i: u32| #[trigger] r.contains(i) <==> (i < 8 && (x >> (i as u8)) & 1i8 == 1i8) by {
        if r.contains(i) {
            let k = choose|k: int| 0 <= k < r.len() && r[k] == i;
            assert(bit_is_one(x.bit_pattern(), r[k] as int));
            bits_i8(x, i);
        }
        if i < 8 && (x >> (i as u8)) & 1i8 == 1i8 {
            bits_i8(x, i);
            assert(bit_is_one(x.bit_pattern(), i as int));
        }
    }
}

proof fn bits_i16(x: i16, j: u32)
    by (bit_vector)
    requires
        j < 128,
    ensures
        j < 16 ==> ((((x as u16) as u128 >> (j as u128)) & 1u128 == 1u128) <==> (x >> (j as u16)) & 1i16 == 1i16),
        j >= 16 ==> ((x as u16) as u128 >> (j as u128)) & 1u128 == 0u128,
{
}

/// `iter_ones` of a `i16` lists exactly the positions below 16 at which its
/// bit is one, the sign bit included.
pub proof fn lemma_iter_ones_i16(x: i16, r: Seq<u32>)
    requires
        lists_ones(x.bit_pattern(), r),
    ensures
        forall|i: u32| #[trigger] r.contains(i) <==> (i < 16 && (x >> (i as u16)) & 1i16 == 1i16),
{
    assert(x.bit_pattern() == (x as u16) as u128);
    assert forall|i: u32| #[trigger] r.contains(i) <==> (i < 16 && (x >> (i as u16)) & 1i16 == 1i16) by {
        if r.contains(i) {
            let k = choose|k: int| 0 <= k < r.len() && r[k] == i;
            assert(bit_is_one(x.bit_pattern(), r[k] as int));
            bits_i16(x, i);
        }
        if i < 16 && (x >> (i as u16)) & 1i16 == 1i16 {
            bits_i16(x, i);
            assert(bit_is_one(x.bit_pattern(), i as int));
        }
    }
}

proof fn bits_i32(x: i32, j: u32)
    by (bit_vector)
    requires
        j < 128,
    ensures
        j < 32 ==> ((((x as u32) as u128 >> (j as u128)) & 1u128 == 1u128) <==> (x >> (j as u32)) & 1i32 == 1i32),
        j >= 32 ==> ((x as u32) as u128 >> (j as u128)) & 1u128 == 0u128,
{
}

/// `iter_ones` of a `i32` lists exactly the positions below 32 at which its
/// bit is one, the sign bit included.
pub proof fn lemma_iter_ones_i32(x: i32, r: Seq<u32>)
    requires
        lists_ones(x.bit_pattern(), r),
    ensures
        forall|i: u32| #[trigger] r.contains(i) <==> (i < 32 && (x >> (i as u32)) & 1i32 == 1i32),
{
    assert(x.bit_pattern() == (x as u32) as u128);
    assert forall|i: u32| #[trigger] r.contains(i) <==> (i < 32 && (x >> (i as u32)) & 1i32 == 1i32) by {
        if r.contains(i) {
            let k = choose|k: int| 0 <= k < r.len() && r[k] == i;
            assert(bit_is_one(x.bit_pattern(), r[k] as int));
            bits_i32(x, i);
        }
        if i < 32 && (x >> (i as u32)) & 1i32 == 1i32 {
            bits_i32(x, i);
            assert(bit_is_one(x.bit_pattern(), i as int));
        }
    }
}

proof fn bits_i64(x: i64, j: u32)
    by (bit_vector)
    requires
        j < 128,
    ensures
        j < 64 ==> ((((x as u64) as u128 >> (j as u128)) & 1u128 == 1u128) <==> (x >> (j as u64)) & 1i64 == 1i64),
        j >= 64 ==> ((x as u64) as u128 >> (j as u128)) & 1u128 == 0u128,
{
}

/// `iter_ones` of a `i64` lists exactly the positions below 64 at which its
/// bit is one, the sign bit included.
pub proof fn lemma_iter_ones_i64(x: i64, r: Seq<u32>)
    requires
        lists_ones(x.bit_pattern(), r),
    ensures
        forall|i: u32| #[trigger] r.contains(i) <==> (i < 64 && (x >> (i as u64)) & 1i64 == 1i64),
{
    assert(x.bit_pattern() == (x as u64) as u128);
    assert forall|i: u32| #[trigger] r.contains(i) <==> (i < 64 && (x >> (i as u64)) & 1i64 == 1i64) by {
        if r.contains(i) {
            let k = choose|k: int| 0 <= k < r.len() && r[k] == i;
            assert(bit_is_one(x.bit_pattern(), r[k] as int));
            bits_i64(x, i);
        }
        if i < 64 && (x >> (i as u64)) & 1i64 == 1i64 {
            bits_i64(x, i);
            assert(bit_is_one(x.bit_pattern(), i as int));
        }
    }
}

proof fn bits_i128(x: i128, j: u32)
    by (bit_vector)
    requires
        j < 128,
    ensures
        j < 128 ==> (((x as u128 >> (j as u128)) & 1u128 == 1u128) <==> (x >> (j as u128)) & 1i128 == 1i128),
{
}

/// `iter_ones` of a `i128` lists exactly the positions below 128 at which its
/// bit is one, the sign bit included.
pub proof fn lemma_iter_ones_i128(x: i128, r: Seq<u32>)
    requires
        lists_ones(x.bit_pattern(), r),
    ensures
        forall|i: u32| #[trigger] r.contains(i) <==> (i < 128 && (x >> (i as u128)) & 1i128 == 1i128),
{
    assert(x.bit_pattern() == x as u128);
    assert forall|i: u32| #[trigger] r.contains(i) <==> (i < 128 && (x >> (i as u128)) & 1i128 == 1i128) by {
        if r.contains(i) {
            let k = choose|k: int| 0 <= k < r.len() && r[k] == i;
            assert(bit_is_one(x.bit_pattern(), r[k] as int));
            bits_i128(x, i);
        }
        if i < 128 && (x >> (i as u128)) & 1i128 == 1i128 {
            bits_i128(x, i);
            assert(bit_is_one(x.bit_pattern(), i as int));
        }
    }
}

proof fn bits_isize(x: isize, j: u32)
    by (bit_vector)
    requires
        j < 128,
    ensures
        j < usize::BITS ==> ((((x as usize) as u128 >> (j as u128)) & 1u128 == 1u128) <==> (x >> (j as usize)) & 1isize == 1isize),
        j >= usize::BITS ==> ((x as usize) as u128 >> (j as u128)) & 1u128 == 0u128,
{
}

/// `iter_ones` of a `isize` lists exactly the positions below `usize::BITS` at which its
/// bit is one, the sign bit included.
pub proof fn lemma_iter_ones_isize(x: isize, r: Seq<u32>)
    requires
        lists_ones(x.bit_pattern(), r),
    ensures
        forall|i: u32| #[trigger] r.contains(i) <==> (i < usize::BITS && (x >> (i as usize)) & 1isize == 1isize),
{
    assert(x.bit_pattern() == (x as usize) as u128);
    assert forall|i: u32| #[trigger] r.contains(i) <==> (i < usize::BITS && (x >> (i as usize)) & 1isize == 1isize) by {
        if r.contains(i) {
            let k = choose|k: int| 0 <= k < r.len() && r[k] == i;
            assert(bit_is_one(x.bit_pattern(), r[k] as int));
            bits_isize(x, i);
        }
        if i < usize::BITS && (x >> (i as usize)) & 1isize == 1isize {
            bits_isize(x, i);
            assert(bit_is_one(x.bit_pattern(), i as int));
        }
    }
}

} // verus!
