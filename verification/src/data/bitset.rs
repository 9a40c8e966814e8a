use vstd::prelude::*;

verus! {

/// A growable set of small indices, one bit per index in 64-bit chunks.
#[derive(Debug)]
pub struct IndexBitSet {
    pub chunks: Vec<u64>,
}

/// Whether bit `i % 64` of chunk `i / 64` is set.
pub open spec fn spec_bit_set(chunks: Seq<u64>, i: int) -> bool {
    0 <= i && i / 64 < chunks.len() && (chunks[i / 64] >> (i % 64) as u64) & 1u64 == 1u64
}

impl IndexBitSet {
    /// Room for `count` indices, all absent.
    pub fn with_size(count: usize) -> (r: Self)
        ensures
            r.chunks@.len() == count as int / 64,
            forall|i: int| !spec_bit_set(r.chunks@, i),
    {
        let len = count / 64;
        let mut chunks: Vec<u64> = Vec::new();
        let mut k: usize = 0;
        while k < len
            invariant
                chunks@.len() == k,
                k <= len,
                len == count as int / 64,
                forall|t: int| 0 <= t < k ==> chunks@[t] == 0u64,
            decreases len - k,
        {
            chunks.push(0);
            k = k + 1;
        }
        proof {
            assert(forall|b: u64| (0u64 >> b) & 1u64 == 0u64) by (bit_vector);
            assert forall|i: int| !spec_bit_set(chunks@, i) by {
                if 0 <= i && i / 64 < chunks@.len() {
                    assert(chunks@[i / 64] == 0u64);
                }
            }
        }
        Self { chunks }
    }

    /// Empties the set, keeping its room.
    pub fn clear(&mut self)
        ensures
            final(self).chunks@.len() == old(self).chunks@.len(),
            forall|i: int| !spec_bit_set(final(self).chunks@, i),
    {
        let n = self.chunks.len();
        let mut k: usize = 0;
        while k < n
            invariant
                n == self.chunks@.len(),
                k <= n,
                forall|t: int| 0 <= t < k ==> self.chunks@[t] == 0u64,
            decreases n - k,
        {
            self.chunks.set(k, 0);
            k = k + 1;
        }
        proof {
            assert(forall|b: u64| (0u64 >> b) & 1u64 == 0u64) by (bit_vector);
            assert forall|i: int| !spec_bit_set(self.chunks@, i) by {
                if 0 <= i && i / 64 < self.chunks@.len() {
                    assert(self.chunks@[i / 64] == 0u64);
                }
            }
        }
    }

    /// Adds `index`, growing the chunk list as needed; everything else is
    /// unchanged.
    pub fn insert(&mut self, index: usize)
        requires
            index < 0x1000_0000,
        ensures
            spec_bit_set(final(self).chunks@, index as int),
            forall|i: int|
                0 <= i && i != index ==> spec_bit_set(final(self).chunks@, i) == spec_bit_set(
                    old(self).chunks@,
                    i,
                ),
    {
        let chunk_index = index / 64;
        proof {
            assert(index as int / 64 <= index as int) by {
                vstd::arithmetic::div_mod::lemma_div_is_ordered_by_denominator(index as int, 1, 64);
            }
        }
        if self.chunks.len() <= chunk_index {
            let mut k = self.chunks.len();
            while k <= chunk_index
                invariant
                    k == self.chunks@.len(),
                    forall|t: int|
                        old(self).chunks@.len() <= t < k ==> #[trigger] self.chunks@[t] == 0u64,
                    forall|t: int|
                        0 <= t < old(self).chunks@.len() && t < k ==> #[trigger] self.chunks@[t]
                            == old(self).chunks@[t],
                    k >= old(self).chunks@.len(),
                    k <= chunk_index + 1,
                    chunk_index < 0x1000_0000,
                decreases chunk_index + 1 - k,
            {
                self.chunks.push(0);
                k = k + 1;
            }
        }
        let bit_index = (index % 64) as u64;
        let chunk = self.chunks[chunk_index];
        let mask = crate::math::bits::pow2_u64(bit_index as u32);
        proof {
            lemma_index_split(index as int);
            vstd::arithmetic::power2::lemma2_to64();
            vstd::arithmetic::power2::lemma_pow2_strictly_increases(bit_index as nat, 64);
            vstd::arithmetic::power2::lemma2_to64_rest();
            vstd::bits::lemma_u64_shl_is_mul(1u64, bit_index);
            assert(forall|c: u64, b: u64|
                b < 64 ==> ((c | (1u64 << b)) >> b) & 1u64 == 1u64) by (bit_vector);
            assert(forall|c: u64, b: u64, b2: u64|
                b < 64 && b2 < 64 && b != b2 ==> ((c | (1u64 << b)) >> b2) & 1u64 == (c >> b2)
                    & 1u64) by (bit_vector);
            assert(forall|b: u64| (0u64 >> b) & 1u64 == 0u64) by (bit_vector);
        }
        let ghost pre = self.chunks@;
        self.chunks.set(chunk_index, chunk | mask);
        proof {
            assert(spec_bit_set(self.chunks@, index as int));
            assert forall|i: int|
                0 <= i && i != index implies spec_bit_set(self.chunks@, i) == spec_bit_set(
                old(self).chunks@,
                i,
            ) by {
                lemma_index_split(i);
                if i / 64 == chunk_index {
                    // Same chunk, different bit: the or-mask leaves it.
                    assert(i == 64 * (i / 64) + i % 64 && index == 64 * (index as int / 64) + index
                        as int % 64);
                    assert((i % 64) != (index as int % 64));
                    assert((i % 64) as u64 != bit_index);
                    assert(self.chunks@[i / 64] == chunk | mask);
                    if chunk_index < old(self).chunks@.len() {
                        assert(pre[i / 64] == old(self).chunks@[i / 64]);
                    } else {
                        assert(pre[i / 64] == 0u64);
                        assert(!spec_bit_set(old(self).chunks@, i));
                    }
                } else {
                    assert(i / 64 != chunk_index);
                    if 0 <= i / 64 < self.chunks@.len() {
                        assert(self.chunks@[i / 64] == pre[i / 64]);
                        if i / 64 >= old(self).chunks@.len() {
                            assert(pre[i / 64] == 0u64);
                            assert(!spec_bit_set(old(self).chunks@, i));
                        } else {
                            assert(pre[i / 64] == old(self).chunks@[i / 64]);
                        }
                    }
                }
            }
        }
    }

    /// Whether `index` is present; the index must be within the allocated
    /// room.
    pub fn contains(&self, index: usize) -> (r: bool)
        requires
            index / 64 < self.chunks@.len(),
        ensures
            r == spec_bit_set(self.chunks@, index as int),
    {
        let chunk_index = index / 64;
        let bit_index = (index % 64) as u64;
        let chunk = self.chunks[chunk_index];
        proof {
            lemma_index_split(index as int);
            vstd::arithmetic::power2::lemma2_to64();
            vstd::arithmetic::power2::lemma_pow2_strictly_increases(bit_index as nat, 64);
            vstd::arithmetic::power2::lemma2_to64_rest();
            assert(forall|c: u64, b: u64| b < 64 ==> ((c >> b) & 1u64 == 1u64) == (c & (1u64 << b)
                != 0u64)) by (bit_vector);
            vstd::bits::lemma_u64_shl_is_mul(1u64, bit_index);
        }
        let mask = crate::math::bits::pow2_u64(bit_index as u32);
        chunk & mask != 0
    }

    /// The indices present, in increasing order.
    pub fn indices(&self) -> (r: Vec<usize>)
        requires
            self.chunks@.len() < 0x100_0000,
        ensures
            forall|k: int|
                0 <= k < r@.len() ==> spec_bit_set(self.chunks@, #[trigger] r@[k] as int),
            forall|i: int|
                0 <= i < self.chunks@.len() * 64 && spec_bit_set(self.chunks@, i) ==> r@.contains(
                    i as usize,
                ),
    {
        let mut out: Vec<usize> = Vec::new();
        let n = self.chunks.len();
        proof {
            assert(self.chunks@.len() * 64 >= 0) by (nonlinear_arith);
        }
        let mut c: usize = 0;
        while c < n
            invariant
                c <= n,
                n == self.chunks@.len(),
                n < 0x100_0000,
                forall|k: int|
                    0 <= k < out@.len() ==> spec_bit_set(self.chunks@, #[trigger] out@[k] as int),
                forall|i: int|
                    0 <= i < c * 64 && spec_bit_set(self.chunks@, i) ==> out@.contains(i as usize),
            decreases n - c,
        {
            let mut b: usize = 0;
            while b < 64
                invariant
                    b <= 64,
                    c < n,
                    n == self.chunks@.len(),
                    n < 0x100_0000,
                    forall|k: int|
                        0 <= k < out@.len() ==> spec_bit_set(
                            self.chunks@,
                            #[trigger] out@[k] as int,
                        ),
                    forall|i: int|
                        0 <= i < c * 64 + b && spec_bit_set(self.chunks@, i) ==> out@.contains(
                            i as usize,
                        ),
                decreases 64 - b,
            {
                let idx = c * 64 + b;
                proof {
                    assert((c as int) * 64 + b < ((c as int) + 1) * 64 <= (n as int) * 64)
                        by (nonlinear_arith)
                        requires
                            b < 64 && c < n,
                    ;
                    assert(idx as int / 64 == c as int && idx as int % 64 == b as int) by {
                        vstd::arithmetic::div_mod::lemma_fundamental_div_mod_converse(
                            idx as int,
                            64,
                            c as int,
                            b as int,
                        );
                    }
                }
                if self.contains(idx) {
                    let ghost prev = out@;
                    out.push(idx);
                    proof {
                        assert(out@.last() == idx);
                        assert(out@.contains(idx));
                        assert forall|i: int|
                            0 <= i < c * 64 + b + 1 && spec_bit_set(
                                self.chunks@,
                                i,
                            ) implies out@.contains(i as usize) by {
                            if i < c * 64 + b {
                                assert(prev.contains(i as usize));
                                let w = choose|w: int| 0 <= w < prev.len() && prev[w] == i as usize;
                                assert(out@[w] == i as usize);
                            } else {
                                assert(i == c * 64 + b);
                                assert(i as usize == idx);
                            }
                        }
                    }
                } else {
                    proof {
                        assert(!spec_bit_set(self.chunks@, idx as int));
                        assert forall|i: int|
                            0 <= i < c * 64 + b + 1 && spec_bit_set(
                                self.chunks@,
                                i,
                            ) implies out@.contains(i as usize) by {
                            if i < c * 64 + b {
                            } else {
                                assert(i == idx as int);
                                assert(false);
                            }
                        }
                    }
                }
                b = b + 1;
            }
            proof {
                assert((c as int) * 64 + 64 == ((c as int) + 1) * 64) by (nonlinear_arith);
            }
            c = c + 1;
        }
        out
    }
}

impl Default for IndexBitSet {
    /// Eight empty chunks, as a small default room.
    fn default() -> (r: Self)
        ensures
            r.chunks@.len() == 8,
            forall|i: int| !spec_bit_set(r.chunks@, i),
    {
        Self::with_size(512)
    }
}

/// Splitting an index into its chunk and bit parts.
proof fn lemma_index_split(i: int)
    requires
        0 <= i,
    ensures
        i == 64 * (i / 64) + i % 64,
        0 <= i % 64 < 64,
{
    vstd::arithmetic::div_mod::lemma_fundamental_div_mod(i, 64);
}

} // verus!
