//! Arbitrary-length bit masks, one per column of a binary plane.
use vstd::prelude::*;

verus! {

/// Bit `i` of one 128-bit block.
pub open spec fn block_bit(block: u128, i: int) -> bool {
    (block >> (i as u128)) & 1u128 == 1u128
}

/// Bit `i` of a little-endian sequence of blocks; bits past the end are clear.
pub open spec fn bit_at(blocks: Seq<u128>, i: int) -> bool {
    0 <= i < blocks.len() * 128 && block_bit(blocks[i / 128], i % 128)
}

/// No block past the first is a trailing zero.
pub open spec fn trimmed(blocks: Seq<u128>) -> bool {
    blocks.len() == 1 || (blocks.len() > 1 && blocks[blocks.len() - 1] != 0)
}

proof fn lemma_zero_block(i: int)
    requires
        0 <= i < 128,
    ensures
        !block_bit(0, i),
{
    let j: u128 = i as u128;
    assert((0u128 >> j) & 1u128 != 1u128) by (bit_vector);
}

proof fn lemma_full_block(i: int)
    requires
        0 <= i < 128,
    ensures
        block_bit(u128::MAX, i),
{
    let j: u128 = i as u128;
    assert(j < 128 ==> (0xffff_ffff_ffff_ffff_ffff_ffff_ffff_ffffu128 >> j) & 1u128 == 1u128)
        by (bit_vector);
}

proof fn lemma_shl_block(c: u128, p: u128, s: u32, i: int)
    requires
        0 < s < 128,
        0 <= i < 128,
    ensures
        block_bit((c << s) | (p >> ((128 - s) as u32)), i) == if i >= s {
            block_bit(c, i - s)
        } else {
            block_bit(p, i + 128 - s)
        },
{
    let t: u32 = (128 - s) as u32;
    let j: u128 = i as u128;
    if i >= s {
        let k: u128 = (i - s) as u128;
        assert((((c << s) | (p >> t)) >> j) & 1u128 == (c >> k) & 1u128) by (bit_vector)
            requires
                0 < s < 128,
                t == 128 - s,
                j < 128,
                j >= s,
                k == j - s,
        ;
    } else {
        let k: u128 = (i + 128 - s) as u128;
        assert((((c << s) | (p >> t)) >> j) & 1u128 == (p >> k) & 1u128) by (bit_vector)
            requires
                0 < s < 128,
                t == 128 - s,
                j < s,
                k == j + 128 - s,
        ;
    }
}

proof fn lemma_shr_block(b: u128, n: u128, s: u32, i: int)
    requires
        0 < s < 128,
        0 <= i < 128,
    ensures
        block_bit((b >> s) | (n << ((128 - s) as u32)), i) == if i + s < 128 {
            block_bit(b, i + s)
        } else {
            block_bit(n, i + s - 128)
        },
{
    let t: u32 = (128 - s) as u32;
    let j: u128 = i as u128;
    if i + s < 128 {
        let k: u128 = (i + s) as u128;
        assert((((b >> s) | (n << t)) >> j) & 1u128 == (b >> k) & 1u128) by (bit_vector)
            requires
                0 < s < 128,
                t == 128 - s,
                j < 128,
                k == j + s,
                k < 128,
        ;
    } else {
        let k: u128 = (i + s - 128) as u128;
        assert((((b >> s) | (n << t)) >> j) & 1u128 == (n >> k) & 1u128) by (bit_vector)
            requires
                0 < s < 128,
                t == 128 - s,
                j < 128,
                j + s >= 128,
                k == j + s - 128,
        ;
    }
}

spec fn block_or_zero(blocks: Seq<u128>, k: int) -> u128 {
    if 0 <= k < blocks.len() {
        blocks[k]
    } else {
        0
    }
}

/// Block `k` of `blocks` shifted up by fewer than 128 bits.
spec fn shl_block(blocks: Seq<u128>, s: u32, k: int) -> u128 {
    (block_or_zero(blocks, k) << s) | (block_or_zero(blocks, k - 1) >> ((128 - s) as u32))
}

/// Block `k` of `blocks` shifted down by fewer than 128 bits.
spec fn shr_block(blocks: Seq<u128>, s: u32, k: int) -> u128 {
    (block_or_zero(blocks, k) >> s) | (block_or_zero(blocks, k + 1) << ((128 - s) as u32))
}

proof fn lemma_low_mask(n: u32, i: int)
    requires
        0 < n < 128,
        0 <= i < 128,
    ensures
        block_bit(((1u128 << n) - 1) as u128, i) == (i < n),
{
    let j: u128 = i as u128;
    let m: u128 = ((1u128 << n) - 1) as u128;
    assert(((m >> j) & 1u128 == 1u128) == (j < n)) by (bit_vector)
        requires
            0 < n < 128,
            j < 128,
            m == ((1u128 << n) - 1) as u128,
    ;
}

proof fn lemma_and_block(a: u128, b: u128, i: int)
    requires
        0 <= i < 128,
    ensures
        block_bit(a & b, i) == (block_bit(a, i) && block_bit(b, i)),
{
    let j: u128 = i as u128;
    assert((((a & b) >> j) & 1u128 == 1u128) == ((a >> j) & 1u128 == 1u128 && (b >> j) & 1u128
        == 1u128)) by (bit_vector);
}

proof fn lemma_xor_block(a: u128, b: u128, i: int)
    requires
        0 <= i < 128,
    ensures
        block_bit(a ^ b, i) == (block_bit(a, i) != block_bit(b, i)),
{
    let j: u128 = i as u128;
    assert((((a ^ b) >> j) & 1u128 == 1u128) == (((a >> j) & 1u128 == 1u128) != ((b >> j) & 1u128
        == 1u128))) by (bit_vector);
}

proof fn lemma_set_block(b: u128, n: u32, i: int)
    requires
        n < 128,
        0 <= i < 128,
    ensures
        block_bit(b | (1u128 << n), i) == (block_bit(b, i) || i == n),
{
    let j: u128 = i as u128;
    assert((((b | (1u128 << n)) >> j) & 1u128 == 1u128) == ((b >> j) & 1u128 == 1u128 || j == n))
        by (bit_vector)
        requires
            n < 128,
            j < 128,
    ;
}

/// The bits of a block from bit `s` on.
proof fn lemma_tail_block(b: u128, s: u32)
    requires
        s < 128,
    ensures
        forall|i: int|
            0 <= i < 128 ==> block_bit(b >> s, i) == (i + s < 128 && block_bit(b, i + s)),
{
    assert forall|i: int| 0 <= i < 128 implies block_bit(b >> s, i) == (i + s < 128 && block_bit(
        b,
        i + s,
    )) by {
        let j: u128 = i as u128;
        if i + s < 128 {
            let k: u128 = (i + s) as u128;
            assert(((b >> s) >> j) & 1u128 == (b >> k) & 1u128) by (bit_vector)
                requires
                    s < 128,
                    j < 128,
                    k == j + s,
            ;
        } else {
            assert(((b >> s) >> j) & 1u128 == 0u128) by (bit_vector)
                requires
                    s < 128,
                    j < 128,
                    j + s >= 128,
            ;
        }
    }
}

/// A block tail that is not all ones has a clear bit inside the tail.
proof fn lemma_tail_not_full(b: u128, s: u32, n: u32)
    requires
        s < 128,
        b >> s != u128::MAX >> s,
        forall|i: int| 0 <= i < n ==> block_bit(b >> s, i),
        n <= 128,
    ensures
        n + s < 128,
{
    if n + s >= 128 {
        lemma_tail_block(b, s);
        lemma_tail_block(u128::MAX, s);
        assert forall|i: int| 0 <= i < 128 implies block_bit(b >> s, i) == block_bit(
            u128::MAX >> s,
            i,
        ) by {
            if i + s < 128 {
                lemma_full_block(i + s);
            }
        }
        lemma_block_extensional(b >> s, u128::MAX >> s);
    }
}

proof fn lemma_not_full(b: u128, n: u32)
    requires
        b != u128::MAX,
        forall|i: int| 0 <= i < n ==> block_bit(b, i),
        n <= 128,
    ensures
        n < 128,
{
    if n == 128 {
        assert forall|i: int| 0 <= i < 128 implies block_bit(b, i) == block_bit(u128::MAX, i) by {
            lemma_full_block(i);
        }
        lemma_block_extensional(b, u128::MAX);
    }
}

/// A non-zero block has a set bit.
proof fn lemma_nonzero_block_has_bit(b: u128) -> (i: int)
    requires
        b != 0,
    ensures
        0 <= i < 128,
        block_bit(b, i),
    decreases b,
{
    if b & 1u128 == 1u128 {
        assert((b >> 0u128) & 1u128 == b & 1u128) by (bit_vector);
        0
    } else {
        let half: u128 = b >> 1u128;
        assert(half < b && half != 0 && half >> 127u128 == 0) by (bit_vector)
            requires
                b != 0,
                b & 1u128 != 1u128,
                half == b >> 1u128,
        ;
        let k: int = lemma_nonzero_block_has_bit(half);
        let j: u128 = k as u128;
        assert(j < 127 && (b >> ((j + 1) as u128)) & 1u128 == 1u128) by (bit_vector)
            requires
                j < 128,
                half == b >> 1u128,
                (half >> j) & 1u128 == 1u128,
        ;
        k + 1
    }
}

proof fn lemma_block_extensional(a: u128, b: u128)
    requires
        forall|i: int| 0 <= i < 128 ==> block_bit(a, i) == block_bit(b, i),
    ensures
        a == b,
{
    if a != b {
        let d: u128 = a ^ b;
        assert(d != 0) by (bit_vector)
            requires
                a != b,
                d == a ^ b,
        ;
        let k: int = lemma_nonzero_block_has_bit(d);
        let j: u128 = k as u128;
        assert((a >> j) & 1u128 != (b >> j) & 1u128) by (bit_vector)
            requires
                (d >> j) & 1u128 == 1u128,
                d == a ^ b,
        ;
        assert((a >> j) & 1u128 == 1u128 || (a >> j) & 1u128 == 0u128) by (bit_vector);
        assert((b >> j) & 1u128 == 1u128 || (b >> j) & 1u128 == 0u128) by (bit_vector);
        assert(block_bit(a, k) != block_bit(b, k));
    }
}

/// Two trimmed block sequences with the same bits are the same sequence.
pub proof fn lemma_trimmed_unique(s: Seq<u128>, t: Seq<u128>)
    requires
        trimmed(s),
        trimmed(t),
        forall|i: int| bit_at(s, i) == bit_at(t, i),
    ensures
        s == t,
{
    lemma_trimmed_len(s, t);
    lemma_trimmed_len(t, s);
    assert forall|k: int| 0 <= k < s.len() implies s[k] == t[k] by {
        assert forall|i: int| 0 <= i < 128 implies block_bit(s[k], i) == block_bit(t[k], i) by {
            let p: int = k * 128 + i;
            assert(p / 128 == k && p % 128 == i);
            assert(bit_at(s, p) == bit_at(t, p));
        }
        lemma_block_extensional(s[k], t[k]);
    }
    assert(s =~= t);
}

/// The last block of a trimmed sequence of several blocks holds a set bit.
pub proof fn lemma_last_block_has_bit(blocks: Seq<u128>) -> (i: int)
    requires
        trimmed(blocks),
        blocks.len() > 1,
    ensures
        i >= (blocks.len() - 1) * 128,
        bit_at(blocks, i),
{
    let last: int = blocks.len() - 1;
    let i: int = lemma_nonzero_block_has_bit(blocks[last]);
    let p: int = last * 128 + i;
    assert(p / 128 == last && p % 128 == i);
    p
}

proof fn lemma_trimmed_len(s: Seq<u128>, t: Seq<u128>)
    requires
        trimmed(s),
        trimmed(t),
        forall|i: int| bit_at(s, i) == bit_at(t, i),
    ensures
        s.len() <= t.len(),
{
    if s.len() > t.len() {
        let p: int = lemma_last_block_has_bit(s);
        assert(!bit_at(t, p));
    }
}

/// Drop zero blocks from the end, keeping at least one block.
fn trim(bits: &mut Vec<u128>)
    requires
        old(bits)@.len() >= 1,
    ensures
        1 <= final(bits)@.len() <= old(bits)@.len(),
        trimmed(final(bits)@),
        forall|i: int| bit_at(final(bits)@, i) == bit_at(old(bits)@, i),
{
    while bits.len() > 1 && bits[bits.len() - 1] == 0
        invariant
            1 <= bits@.len() <= old(bits)@.len(),
            forall|k: int| 0 <= k < bits@.len() ==> bits@[k] == old(bits)@[k],
            forall|k: int| bits@.len() <= k < old(bits)@.len() ==> old(bits)@[k] == 0,
        decreases bits@.len(),
    {
        bits.pop();
    }
    proof {
        assert forall|i: int| bit_at(bits@, i) == bit_at(old(bits)@, i) by {
            if bits@.len() * 128 <= i < old(bits)@.len() * 128 {
                lemma_zero_block(i % 128);
            }
        }
    }
}

/// Number of clear bits below the lowest set bit; 128 when no bit is set.
fn low_zeros(block: u128) -> (n: u32)
    ensures
        n <= 128,
        n == 128 <==> block == 0,
        forall|i: int| 0 <= i < n ==> !block_bit(block, i),
        n < 128 ==> block_bit(block, n as int),
{
    let mut n: u32 = 0;
    while n < 128 && (block >> n) & 1 == 0
        invariant
            n <= 128,
            forall|i: int| 0 <= i < n ==> !block_bit(block, i),
        decreases 128 - n,
    {
        proof {
            let j: u128 = n as u128;
            assert((block >> n) & 1u128 == (block >> j) & 1u128) by (bit_vector)
                requires
                    j == n,
                    n < 128,
            ;
        }
        n = n + 1;
    }
    proof {
        if n == 128 {
            if block != 0 {
                let i: int = lemma_nonzero_block_has_bit(block);
                assert(false);
            }
        } else {
            let j: u128 = n as u128;
            assert((block >> j) & 1u128 == 1u128) by (bit_vector)
                requires
                    j == n,
                    n < 128,
                    (block >> n) & 1u128 != 0u128,
            ;
            if block == 0 {
                lemma_zero_block(n as int);
            }
        }
    }
    n
}

/// Number of set bits below the lowest clear bit; 128 when every bit is set.
fn low_ones(block: u128) -> (n: u32)
    ensures
        n <= 128,
        forall|i: int| 0 <= i < n ==> block_bit(block, i),
        n < 128 ==> !block_bit(block, n as int),
{
    let mut n: u32 = 0;
    while n < 128 && (block >> n) & 1 == 1
        invariant
            n <= 128,
            forall|i: int| 0 <= i < n ==> block_bit(block, i),
        decreases 128 - n,
    {
        proof {
            let j: u128 = n as u128;
            assert((block >> n) & 1u128 == (block >> j) & 1u128) by (bit_vector)
                requires
                    j == n,
                    n < 128,
            ;
        }
        n = n + 1;
    }
    proof {
        if n < 128 {
            let j: u128 = n as u128;
            assert((block >> n) & 1u128 == (block >> j) & 1u128) by (bit_vector)
                requires
                    j == n,
                    n < 128,
            ;
        }
    }
    n
}

/// Bit mask of arbitrary length, stored as 128-bit blocks with bit 0 first.
#[derive(Debug)]
pub struct BitMask {
    bits: Vec<u128>,
}

impl View for BitMask {
    type V = Seq<u128>;

    closed spec fn view(&self) -> Seq<u128> {
        self.bits@
    }
}

impl BitMask {
    /// Whether bit `i` is set.
    pub open spec fn has(&self, i: int) -> bool {
        bit_at(self@, i)
    }

    /// Number of bits the stored blocks span.
    pub open spec fn capacity(&self) -> int {
        (self@.len() * 128) as int
    }

    #[verifier::type_invariant]
    spec fn has_block(self) -> bool {
        self.bits@.len() >= 1
    }

    /// Create a new empty bitmask
    pub fn new() -> (mask: Self)
        ensures
            mask@ == seq![0u128],
            forall|i: int| !mask.has(i),
    {
        let mask: BitMask = BitMask { bits: vec![0] };
        proof {
            assert(mask@ =~= seq![0u128]);
            assert forall|i: int| !mask.has(i) by {
                if 0 <= i < 128 {
                    lemma_zero_block(i);
                }
            }
        }
        mask
    }

    /// Create a bitmask from a single u128 value
    pub fn from_u128(value: u128) -> (mask: Self)
        ensures
            mask@ == seq![value],
    {
        let mask: BitMask = BitMask { bits: vec![value] };
        assert(mask@ =~= seq![value]);
        mask
    }

    /// Create a mask with `count` consecutive ones starting from bit 0
    pub fn ones(count: u32) -> (mask: Self)
        ensures
            forall|i: int| #[trigger] mask.has(i) <==> 0 <= i < count,
            mask@.len() == if count == 0 { 1 } else { (count + 127) / 128 },
            trimmed(mask@),
    {
        if count == 0 {
            return BitMask::new();
        }
        let full_blocks: u32 = count / 128;
        let remaining: u32 = count % 128;
        let mut bits: Vec<u128> = vec![u128::MAX; full_blocks as usize];
        if remaining > 0 {
            assert(1u128 << remaining >= 1) by (bit_vector)
                requires
                    remaining < 128,
            ;
            bits.push((1u128 << remaining) - 1);
        }
        let mask: BitMask = BitMask { bits };
        proof {
            assert forall|i: int| #[trigger] mask.has(i) <==> 0 <= i < count by {
                if 0 <= i < full_blocks * 128 {
                    lemma_full_block(i % 128);
                } else if full_blocks * 128 <= i < full_blocks * 128 + 128 && remaining > 0 {
                    lemma_low_mask(remaining, i % 128);
                }
            }
            assert(mask.has(count - 1));
            if mask@[mask@.len() - 1] == 0 {
                lemma_zero_block((count - 1) % 128);
            }
        }
        mask
    }

    /// Left shift operation
    pub fn shl(&self, shift: u32) -> (mask: Self)
        requires
            self@.len() + shift / 128 + 1 <= usize::MAX,
        ensures
            forall|i: int| #[trigger] mask.has(i) <==> (i >= shift && self.has(i - shift)),
            shift % 128 == 0 ==> mask@.len() == self@.len() + shift / 128,
            shift % 128 != 0 ==> trimmed(mask@),
    {
        proof {
            use_type_invariant(self);
        }
        if shift == 0 {
            return self.clone();
        }
        let block_shift: usize = (shift / 128) as usize;
        let bit_shift: u32 = shift % 128;

        if bit_shift == 0 {
            let mut result: Vec<u128> = vec![0u128; block_shift];
            result.extend_from_slice(&self.bits);
            let mask: BitMask = BitMask { bits: result };
            proof {
                assert forall|i: int| #[trigger] mask.has(i) <==> (i >= shift && self.has(i - shift)) by {
                    if 0 <= i < shift {
                        lemma_zero_block(i % 128);
                    }
                }
            }
            return mask;
        }
        let right_shift: u32 = 128 - bit_shift;
        let mut result: Vec<u128> = vec![0u128; block_shift];
        let len: usize = self.bits.len();
        let mut k: usize = 0;
        while k <= len
            invariant
                len == self.bits@.len(),
                len + block_shift + 1 <= usize::MAX,
                0 < bit_shift < 128,
                right_shift == 128 - bit_shift,
                k <= len + 1,
                result@.len() == block_shift + k,
                forall|j: int| 0 <= j < block_shift ==> result@[j] == 0,
                forall|j: int|
                    0 <= j < k ==> #[trigger] result@[block_shift + j] == shl_block(
                        self.bits@,
                        bit_shift,
                        j,
                    ),
            decreases len + 1 - k,
        {
            let current: u128 = if k < len {
                self.bits[k] << bit_shift
            } else {
                0
            };
            let spill: u128 = if k > 0 {
                self.bits[k - 1] >> right_shift
            } else {
                0
            };
            proof {
                assert(0u128 << bit_shift == 0u128) by (bit_vector);
                assert(0u128 >> right_shift == 0u128) by (bit_vector);
            }
            result.push(current | spill);
            k = k + 1;
        }
        let ghost shifted: Seq<u128> = result@;
        trim(&mut result);
        let mask: BitMask = BitMask { bits: result };
        proof {
            assert forall|i: int| #[trigger] mask.has(i) <==> (i >= shift && self.has(i - shift)) by {
                assert(mask.has(i) == bit_at(shifted, i));
                let b: int = i / 128 - block_shift;
                if 0 <= i < block_shift * 128 {
                    lemma_zero_block(i % 128);
                } else if block_shift * 128 <= i < shifted.len() * 128 {
                    let c: u128 = if b < len { self.bits@[b] } else { 0 };
                    let p: u128 = if b > 0 { self.bits@[b - 1] } else { 0 };
                    assert(shifted[block_shift + b] == shl_block(self.bits@, bit_shift, b));
                    lemma_shl_block(c, p, bit_shift, i % 128);
                    let q: int = i % 128;
                    if q >= bit_shift {
                        assert((i - shift) / 128 == b && (i - shift) % 128 == q - bit_shift);
                        if b >= len {
                            lemma_zero_block(q - bit_shift);
                        }
                    } else {
                        assert(b >= 1 ==> (i - shift) / 128 == b - 1 && (i - shift) % 128 == q + 128
                            - bit_shift);
                        if b == 0 {
                            lemma_zero_block(q + 128 - bit_shift);
                        }
                    }
                }
            }
        }
        mask
    }

    /// Right shift operation
    pub fn shr(&self, shift: u32) -> (mask: Self)
        ensures
            forall|i: int| #[trigger] mask.has(i) <==> (i >= 0 && self.has(i + shift)),
            shift % 128 == 0 && shift < self.capacity() ==> mask@.len() == self@.len() - shift
                / 128,
            shift % 128 != 0 || shift >= self.capacity() ==> trimmed(mask@),
    {
        proof {
            use_type_invariant(self);
        }
        if shift == 0 {
            return self.clone();
        }
        let block_shift: usize = (shift / 128) as usize;
        if block_shift >= self.bits.len() {
            return BitMask::new();
        }
        let bit_shift: u32 = shift % 128;
        let len: usize = self.bits.len();
        let mut result: Vec<u128> = Vec::new();
        if bit_shift == 0 {
            let mut k: usize = block_shift;
            while k < len
                invariant
                    len == self.bits@.len(),
                    block_shift <= k <= len,
                    result@ == self.bits@.subrange(block_shift as int, k as int),
                decreases len - k,
            {
                result.push(self.bits[k]);
                k = k + 1;
                assert(result@ =~= self.bits@.subrange(block_shift as int, k as int));
            }
            let mask: BitMask = BitMask { bits: result };
            proof {
                assert forall|i: int| #[trigger] mask.has(i) <==> (i >= 0 && self.has(i + shift)) by {
                    assert((i + shift) / 128 == i / 128 + block_shift && (i + shift) % 128 == i
                        % 128);
                }
            }
            return mask;
        }
        let left_shift: u32 = 128 - bit_shift;
        let mut k: usize = block_shift;
        while k < len
            invariant
                len == self.bits@.len(),
                0 < bit_shift < 128,
                left_shift == 128 - bit_shift,
                block_shift <= k <= len,
                result@.len() == k - block_shift,
                forall|j: int|
                    0 <= j < k - block_shift ==> #[trigger] result@[j] == shr_block(
                        self.bits@,
                        bit_shift,
                        j + block_shift,
                    ),
            decreases len - k,
        {
            let next: u128 = if k + 1 < len {
                self.bits[k + 1]
            } else {
                0
            };
            result.push((self.bits[k] >> bit_shift) | (next << left_shift));
            k = k + 1;
        }
        let ghost shifted: Seq<u128> = result@;
        trim(&mut result);
        let mask: BitMask = BitMask { bits: result };
        proof {
            assert forall|i: int| #[trigger] mask.has(i) <==> (i >= 0 && self.has(i + shift)) by {
                assert(mask.has(i) == bit_at(shifted, i));
                if 0 <= i < shifted.len() * 128 {
                    let b: int = i / 128 + block_shift;
                    let q: int = i % 128;
                    let n: u128 = if b + 1 < len { self.bits@[b + 1] } else { 0 };
                    assert(shifted[i / 128] == shr_block(self.bits@, bit_shift, b));
                    lemma_shr_block(self.bits@[b], n, bit_shift, q);
                    if q + bit_shift < 128 {
                        assert((i + shift) / 128 == b && (i + shift) % 128 == q + bit_shift);
                    } else {
                        assert((i + shift) / 128 == b + 1 && (i + shift) % 128 == q + bit_shift
                            - 128);
                        if b + 1 >= len {
                            lemma_zero_block(q + bit_shift - 128);
                        }
                    }
                }
            }
        }
        mask
    }

    /// Bitwise AND operation
    pub fn and(&self, other: &BitMask) -> (mask: Self)
        ensures
            forall|i: int| #[trigger] mask.has(i) <==> (self.has(i) && other.has(i)),
            trimmed(mask@),
    {
        proof {
            use_type_invariant(self);
            use_type_invariant(other);
        }
        let len: usize = if self.bits.len() < other.bits.len() {
            self.bits.len()
        } else {
            other.bits.len()
        };
        let mut result: Vec<u128> = Vec::new();
        let mut k: usize = 0;
        while k < len
            invariant
                len <= self.bits@.len(),
                len <= other.bits@.len(),
                k <= len,
                result@.len() == k,
                forall|j: int| 0 <= j < k ==> result@[j] == (self.bits@[j] & other.bits@[j]),
            decreases len - k,
        {
            result.push(self.bits[k] & other.bits[k]);
            k = k + 1;
        }
        let ghost full: Seq<u128> = result@;
        trim(&mut result);
        let mask: BitMask = BitMask { bits: result };
        proof {
            assert forall|i: int| #[trigger] mask.has(i) <==> (self.has(i) && other.has(i)) by {
                assert(mask.has(i) == bit_at(full, i));
                if 0 <= i < len * 128 {
                    lemma_and_block(self.bits@[i / 128], other.bits@[i / 128], i % 128);
                }
            }
        }
        mask
    }

    /// Bitwise XOR operation (mutating)
    pub fn xor_assign(&mut self, other: &BitMask)
        ensures
            forall|i: int| #[trigger] final(self).has(i) <==> (old(self).has(i) != other.has(i)),
            trimmed(final(self)@),
            final(self)@.len() <= old(self)@.len() || final(self)@.len() <= other@.len(),
    {
        proof {
            use_type_invariant(&*self);
            use_type_invariant(other);
        }
        let len: usize = if self.bits.len() < other.bits.len() {
            other.bits.len()
        } else {
            self.bits.len()
        };
        let mut result: Vec<u128> = Vec::new();
        let mut k: usize = 0;
        while k < len
            invariant
                len >= self.bits@.len(),
                len >= other.bits@.len(),
                len == self.bits@.len() || len == other.bits@.len(),
                *self == *old(self),
                k <= len,
                result@.len() == k,
                forall|j: int|
                    0 <= j < k ==> result@[j] == (block_or_zero(self.bits@, j) ^ block_or_zero(
                        other.bits@,
                        j,
                    )),
            decreases len - k,
        {
            let a: u128 = if k < self.bits.len() {
                self.bits[k]
            } else {
                0
            };
            let b: u128 = if k < other.bits.len() {
                other.bits[k]
            } else {
                0
            };
            result.push(a ^ b);
            k = k + 1;
        }
        let ghost full: Seq<u128> = result@;
        trim(&mut result);
        self.bits = result;
        proof {
            assert forall|i: int| #[trigger] self.has(i) <==> (old(self).has(i) != other.has(i)) by {
                assert(self.has(i) == bit_at(full, i));
                if 0 <= i < len * 128 {
                    let a: u128 = block_or_zero(old(self).bits@, i / 128);
                    let b: u128 = block_or_zero(other.bits@, i / 128);
                    lemma_xor_block(a, b, i % 128);
                    lemma_zero_block(i % 128);
                }
            }
        }
    }

    /// Count trailing zeros starting from a specific bit offset (avoids allocating a shifted BitMask)
    pub fn trailing_zeros_from(&self, offset: u32) -> (count: u32)
        requires
            self.capacity() - offset <= u32::MAX || exists|p: int|
                offset <= p <= offset + u32::MAX && self.has(p),
        ensures
            offset >= self.capacity() ==> count == 0,
            offset < self.capacity() ==> {
                &&& offset + count <= self.capacity()
                &&& forall|i: int| offset <= i < offset + count ==> !self.has(i)
                &&& offset + count < self.capacity() ==> self.has(offset + count)
            },
    {
        let block_index: usize = (offset / 128) as usize;
        let bit_offset: u32 = offset % 128;
        if block_index >= self.bits.len() {
            return 0;
        }
        let first_block: u128 = self.bits[block_index] >> bit_offset;
        proof {
            lemma_tail_block(self.bits@[block_index as int], bit_offset);
        }
        if first_block != 0 {
            let n: u32 = low_zeros(first_block);
            proof {
                assert forall|i: int| offset <= i < offset + n implies !self.has(i) by {
                    let q: int = i - offset;
                    assert(!block_bit(first_block, q));
                    assert(q + bit_offset < 128 ==> i / 128 == block_index && i % 128 == q
                        + bit_offset);
                }
                assert(n + bit_offset < 128);
                assert((offset + n) / 128 == block_index && (offset + n) % 128 == n + bit_offset);
            }
            return n;
        }
        let mut count: u32 = 128 - bit_offset;
        let mut k: usize = block_index + 1;
        proof {
            assert forall|i: int| offset <= i < offset + count implies !self.has(i) by {
                lemma_zero_block(i - offset);
                assert(!block_bit(first_block, i - offset));
                assert(i / 128 == block_index && i % 128 == i - offset + bit_offset);
            }
        }
        while k < self.bits.len()
            invariant
                offset < self.capacity(),
                block_index < k <= self.bits@.len(),
                offset + count == k * 128,
                forall|i: int| offset <= i < offset + count ==> !self.has(i),
                self.capacity() - offset <= u32::MAX || exists|p: int|
                    offset <= p <= offset + u32::MAX && self.has(p),
            decreases self.bits@.len() - k,
        {
            if self.bits[k] != 0 {
                let n: u32 = low_zeros(self.bits[k]);
                proof {
                    assert forall|i: int| offset <= i < offset + count + n implies !self.has(
                        i,
                    ) by {
                        if i >= offset + count {
                            assert(i / 128 == k && i % 128 == i - k * 128);
                        }
                    }
                    assert((k * 128 + n) / 128 == k && (k * 128 + n) % 128 == n);
                    assert(self.has(offset + count + n));
                    if self.capacity() - offset > u32::MAX {
                        let p: int = choose|p: int|
                            offset <= p <= offset + u32::MAX && self.has(p);
                        assert(p >= offset + count + n);
                    }
                }
                return count + n;
            }
            proof {
                assert forall|i: int| offset <= i < offset + count + 128 implies !self.has(i) by {
                    if i >= offset + count {
                        assert(i / 128 == k);
                        lemma_zero_block(i % 128);
                    }
                }
                if self.capacity() - offset > u32::MAX {
                    let p: int = choose|p: int| offset <= p <= offset + u32::MAX && self.has(p);
                    assert(p >= offset + count + 128);
                }
            }
            count = count + 128;
            k = k + 1;
        }
        count
    }

    /// Count trailing ones starting from a specific bit offset (avoids allocating a shifted BitMask)
    pub fn trailing_ones_from(&self, offset: u32) -> (count: u32)
        requires
            self.capacity() - offset <= u32::MAX || exists|p: int|
                offset <= p <= offset + u32::MAX && !self.has(p),
        ensures
            forall|i: int| offset <= i < offset + count ==> self.has(i),
            !self.has(offset + count),
    {
        let block_index: usize = (offset / 128) as usize;
        let bit_offset: u32 = offset % 128;
        if block_index >= self.bits.len() {
            return 0;
        }
        let first_block: u128 = self.bits[block_index] >> bit_offset;
        let mask: u128 = u128::MAX >> bit_offset;
        proof {
            lemma_tail_block(self.bits@[block_index as int], bit_offset);
            lemma_tail_block(u128::MAX, bit_offset);
        }
        if first_block != mask {
            let n: u32 = low_ones(first_block);
            proof {
                lemma_tail_not_full(self.bits@[block_index as int], bit_offset, n);
                assert forall|i: int| offset <= i < offset + n implies self.has(i) by {
                    let q: int = i - offset;
                    assert(block_bit(first_block, q));
                    assert(i / 128 == block_index && i % 128 == q + bit_offset);
                }
                assert((offset + n) / 128 == block_index && (offset + n) % 128 == n + bit_offset);
            }
            return n;
        }
        let mut count: u32 = 128 - bit_offset;
        let mut k: usize = block_index + 1;
        proof {
            assert forall|i: int| offset <= i < offset + count implies self.has(i) by {
                lemma_full_block(i - offset + bit_offset);
                assert(block_bit(first_block, i - offset));
                assert(i / 128 == block_index && i % 128 == i - offset + bit_offset);
            }
        }
        while k < self.bits.len()
            invariant
                block_index < k <= self.bits@.len(),
                offset + count == k * 128,
                forall|i: int| offset <= i < offset + count ==> self.has(i),
                self.capacity() - offset <= u32::MAX || exists|p: int|
                    offset <= p <= offset + u32::MAX && !self.has(p),
            decreases self.bits@.len() - k,
        {
            if self.bits[k] != u128::MAX {
                let n: u32 = low_ones(self.bits[k]);
                proof {
                    lemma_not_full(self.bits@[k as int], n);
                    assert forall|i: int| offset <= i < offset + count + n implies self.has(
                        i,
                    ) by {
                        if i >= offset + count {
                            assert(i / 128 == k && i % 128 == i - k * 128);
                        }
                    }
                    assert((k * 128 + n) / 128 == k && (k * 128 + n) % 128 == n);
                    if self.capacity() - offset > u32::MAX {
                        let p: int = choose|p: int|
                            offset <= p <= offset + u32::MAX && !self.has(p);
                        assert(p >= offset + count + n);
                    }
                }
                return count + n;
            }
            proof {
                assert forall|i: int| offset <= i < offset + count + 128 implies self.has(i) by {
                    if i >= offset + count {
                        assert(i / 128 == k);
                        lemma_full_block(i % 128);
                    }
                }
                if self.capacity() - offset > u32::MAX {
                    let p: int = choose|p: int| offset <= p <= offset + u32::MAX && !self.has(p);
                    assert(p >= offset + count + 128);
                }
            }
            count = count + 128;
            k = k + 1;
        }
        count
    }

    /// Set a specific bit to 1 (mutating)
    pub fn set_bit(&mut self, bit_index: u32)
        ensures
            forall|i: int| #[trigger] final(self).has(i) <==> (old(self).has(i) || i == bit_index),
            final(self)@.len() == if bit_index / 128 >= old(self)@.len() {
                bit_index / 128 + 1
            } else {
                old(self)@.len() as int
            },
    {
        proof {
            use_type_invariant(&*self);
        }
        let block_index: usize = (bit_index / 128) as usize;
        let bit_offset: u32 = bit_index % 128;
        let mut bits: Vec<u128> = vec![0];
        core::mem::swap(&mut bits, &mut self.bits);
        if block_index >= bits.len() {
            bits.resize(block_index + 1, 0);
        }
        let ghost grown: Seq<u128> = bits@;
        bits[block_index] = bits[block_index] | (1u128 << bit_offset);
        self.bits = bits;
        proof {
            assert forall|i: int| #[trigger] self.has(i) <==> (old(self).has(i) || i == bit_index) by {
                if 0 <= i < grown.len() * 128 {
                    lemma_zero_block(i % 128);
                    if i / 128 == block_index {
                        lemma_set_block(grown[block_index as int], bit_offset, i % 128);
                    }
                }
            }
        }
    }
}

impl Default for BitMask {
    fn default() -> (mask: Self)
        ensures
            mask@ == seq![0u128],
    {
        Self::new()
    }
}

impl Clone for BitMask {
    fn clone(&self) -> (mask: Self)
        ensures
            mask@ == self@,
    {
        proof {
            use_type_invariant(self);
        }
        BitMask { bits: self.bits.clone() }
    }
}

impl PartialEq for BitMask {
    fn eq(&self, other: &Self) -> (same: bool) {
        if self.bits.len() != other.bits.len() {
            return false;
        }
        let mut k: usize = 0;
        while k < self.bits.len()
            invariant
                self.bits@.len() == other.bits@.len(),
                k <= self.bits@.len(),
                forall|j: int| 0 <= j < k ==> self.bits@[j] == other.bits@[j],
            decreases self.bits@.len() - k,
        {
            if self.bits[k] != other.bits[k] {
                return false;
            }
            k = k + 1;
        }
        assert(self@ =~= other@);
        true
    }
}

impl vstd::std_specs::cmp::PartialEqSpecImpl for BitMask {
    open spec fn obeys_eq_spec() -> bool {
        true
    }

    open spec fn eq_spec(&self, other: &Self) -> bool {
        self@ == other@
    }
}

impl Eq for BitMask {

}

} // verus!
