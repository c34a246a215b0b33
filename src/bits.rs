use vstd::arithmetic::div_mod::lemma_div_denominator;
use vstd::arithmetic::power2::{lemma_pow2_pos, lemma_pow2_unfold, pow2};
use vstd::prelude::*;

verus! {

/// Bytes in an input whose bits are flipped.
pub const INPUT_SIZE_BYTES: usize = 16;

/// `bits` with bit `idx` flipped, bit 0 being the top bit of the first byte.
pub open spec fn flip(bits: Seq<u8>, idx: int) -> Seq<u8> {
    bits.update(idx / 8, bits[idx / 8] ^ (0x80u8 >> ((idx % 8) as u8)))
}

/// `bits` with each bit of `idxs` flipped in turn.
pub open spec fn flip_all(bits: Seq<u8>, idxs: Seq<usize>) -> Seq<u8>
    decreases idxs.len(),
{
    if idxs.len() == 0 {
        bits
    } else {
        flip(flip_all(bits, idxs.drop_last()), idxs.last() as int)
    }
}

/// Whether bit `t` of `i` is set.
pub open spec fn bit_set(i: nat, t: nat) -> bool {
    (i / pow2(t)) % 2 == 1
}

/// The elements of the first `m` of `s` whose positions are set bits of `i`, in order.
pub open spec fn subset<T>(s: Seq<T>, i: nat, m: nat) -> Seq<T>
    decreases m,
{
    if m == 0 {
        Seq::empty()
    } else {
        let p = subset(s, i, (m - 1) as nat);
        if bit_set(i, (m - 1) as nat) {
            p.push(s[m - 1])
        } else {
            p
        }
    }
}

/// `0, 1, ..., n - 1`.
pub open spec fn index_range(n: nat) -> Seq<usize> {
    Seq::new(n, |i: int| i as usize)
}

fn flip_bit(bits: &mut [u8; 16], idx: usize)
    requires
        idx < 128,
    ensures
        final(bits)@ == flip(old(bits)@, idx as int),
{
    let i = idx / 8;
    let mask: u8 = 0x80u8 >> ((idx % 8) as u8);
    bits[i] = bits[i] ^ mask;
    assert(bits@ =~= flip(old(bits)@, idx as int));
}

proof fn lemma_subset_within<T>(s: Seq<T>, i: nat, m: nat)
    requires
        m <= s.len(),
    ensures
        forall|k: int|
            0 <= k < subset(s, i, m).len() ==> exists|j: int| 0 <= j < m && #[trigger] subset(s, i, m)[k] == s[j],
    decreases m,
{
    if m > 0 {
        lemma_subset_within(s, i, (m - 1) as nat);
        let p = subset(s, i, (m - 1) as nat);
        assert forall|k: int| 0 <= k < subset(s, i, m).len() implies exists|j: int|
            0 <= j < m && #[trigger] subset(s, i, m)[k] == s[j] by {
            if k < p.len() {
                assert(subset(s, i, m)[k] == p[k]);
            } else {
                assert(subset(s, i, m)[k] == s[m - 1]);
            }
        }
    }
}

/// The elements of `s` at the set bits of `i`.
fn subset_at<T: Copy>(s: &[T], i: usize) -> (r: Vec<T>)
    ensures
        r@ == subset(s@, i as nat, s@.len()),
{
    let mut r: Vec<T> = Vec::new();
    let mut rest: usize = i;
    let mut t: usize = 0;
    proof {
        vstd::arithmetic::power2::lemma2_to64();
    }
    while t < s.len()
        invariant
            t <= s@.len(),
            rest == i as nat / pow2(t as nat),
            r@ == subset(s@, i as nat, t as nat),
        decreases s@.len() - t,
    {
        proof {
            lemma_pow2_pos(t as nat);
        }
        if rest % 2 == 1 {
            r.push(s[t]);
        }
        proof {
            lemma_div_denominator(i as int, pow2(t as nat) as int, 2);
            lemma_pow2_unfold((t + 1) as nat);
        }
        rest = rest / 2;
        t = t + 1;
    }
    r
}

/// Every subset of `s`: entry `i` holds the elements at the set bits of `i`.
pub fn powerset<T: Copy>(s: &[T]) -> (r: Vec<Vec<T>>)
    requires
        pow2(s@.len()) <= usize::MAX,
    ensures
        r@.len() == pow2(s@.len()),
        forall|i: int| 0 <= i < r@.len() ==> #[trigger] r@[i]@ == subset(s@, i as nat, s@.len()),
{
    let mut count: usize = 1;
    let mut t: usize = 0;
    proof {
        assert(pow2(0) == 1) by {
            vstd::arithmetic::power2::lemma2_to64();
        }
    }
    while t < s.len()
        invariant
            t <= s@.len(),
            pow2(s@.len()) <= usize::MAX,
            count == pow2(t as nat),
        decreases s@.len() - t,
    {
        proof {
            lemma_pow2_unfold((t + 1) as nat);
            if t + 1 < s@.len() {
                vstd::arithmetic::power2::lemma_pow2_strictly_increases((t + 1) as nat, s@.len());
            }
        }
        count = count * 2;
        t = t + 1;
    }
    let mut r: Vec<Vec<T>> = Vec::new();
    let mut i: usize = 0;
    while i < count
        invariant
            count == pow2(s@.len()),
            i <= count,
            r@.len() == i,
            forall|k: int| 0 <= k < i ==> #[trigger] r@[k]@ == subset(s@, k as nat, s@.len()),
        decreases count - i,
    {
        r.push(subset_at(s, i));
        i = i + 1;
    }
    r
}

/// The inputs that differ from a base input in one bit, bit 0 first.
pub struct BitsOne {
    bits: [u8; 16],
    n_bit: usize,
}

impl BitsOne {
    /// The base input.
    pub closed spec fn base(&self) -> Seq<u8> {
        self.bits@
    }

    /// The bit that the next input flips.
    pub closed spec fn position(&self) -> nat {
        self.n_bit as nat
    }

    pub fn new(bits: [u8; 16]) -> (r: Self)
        ensures
            r.base() == bits@,
            r.position() == 0,
    {
        BitsOne { bits, n_bit: 0 }
    }

    /// The next input, or `None` once all 128 bits have been flipped.
    pub fn next(&mut self) -> (r: Option<[u8; 16]>)
        ensures
            final(self).base() == old(self).base(),
            match r {
                Some(b) => old(self).position() < 128 && b@ == flip(old(self).base(), old(self).position() as int)
                    && final(self).position() == old(self).position() + 1,
                None => old(self).position() >= 128 && final(self).position() == old(self).position(),
            },
    {
        if self.n_bit < INPUT_SIZE_BYTES * 8 {
            let mut new_bits = self.bits;
            flip_bit(&mut new_bits, self.n_bit);
            self.n_bit = self.n_bit + 1;
            Some(new_bits)
        } else {
            None
        }
    }
}

/// The inputs that differ from a base input in any subset of its first
/// `n_change` bits, in the order of `powerset`.
pub struct BitsAll {
    bits: [u8; 16],
    bits_iter: Vec<Vec<usize>>,
    n_bit: usize,
    n_change: u32,
}

impl BitsAll {
    /// The base input.
    pub closed spec fn base(&self) -> Seq<u8> {
        self.bits@
    }

    /// The number of the next subset.
    pub closed spec fn position(&self) -> nat {
        self.n_bit as nat
    }

    /// How many leading bits the subsets are taken from.
    pub closed spec fn changes(&self) -> nat {
        self.n_change as nat
    }

    pub closed spec fn wf(&self) -> bool {
        &&& self.n_change <= 128
        &&& self.bits_iter@.len() == pow2(self.n_change as nat)
        &&& forall|i: int|
            0 <= i < self.bits_iter@.len() ==> #[trigger] self.bits_iter@[i]@ == subset(
                index_range(self.n_change as nat),
                i as nat,
                self.n_change as nat,
            )
    }

    pub fn new(bits: [u8; 16], n_change: u32) -> (r: Self)
        requires
            n_change <= 128,
            pow2(n_change as nat) <= usize::MAX,
        ensures
            r.wf(),
            r.base() == bits@,
            r.position() == 0,
            r.changes() == n_change,
    {
        let mut idxs: Vec<usize> = Vec::new();
        let mut k: usize = 0;
        while k < n_change as usize
            invariant
                n_change <= 128,
                k <= n_change,
                idxs@ == index_range(k as nat),
            decreases n_change - k,
        {
            idxs.push(k);
            k = k + 1;
            assert(idxs@ =~= index_range(k as nat));
        }
        let bits_iter = powerset(idxs.as_slice());
        BitsAll { bits, bits_iter, n_bit: 0, n_change }
    }

    /// The next input, or `None` once every subset has been used.
    pub fn next(&mut self) -> (r: Option<[u8; 16]>)
        requires
            old(self).wf(),
        ensures
            final(self).wf(),
            final(self).base() == old(self).base(),
            final(self).changes() == old(self).changes(),
            match r {
                Some(b) => old(self).position() < pow2(old(self).changes()) && b@ == flip_all(
                    old(self).base(),
                    subset(index_range(old(self).changes()), old(self).position(), old(self).changes()),
                ) && final(self).position() == old(self).position() + 1,
                None => old(self).position() >= pow2(old(self).changes()) && final(self).position()
                    == old(self).position(),
            },
    {
        if self.n_bit < self.bits_iter.len() {
            let idxs = &self.bits_iter[self.n_bit];
            let ghost range = index_range(self.n_change as nat);
            proof {
                lemma_subset_within(range, self.n_bit as nat, self.n_change as nat);
            }
            let mut new_bits = self.bits;
            let mut t: usize = 0;
            assert(idxs@.subrange(0, 0) =~= Seq::<usize>::empty());
            assert(idxs@ == subset(range, self.n_bit as nat, self.n_change as nat));
            assert forall|k: int| 0 <= k < idxs@.len() implies #[trigger] idxs@[k] < self.n_change by {
                assert(subset(range, self.n_bit as nat, self.n_change as nat)[k] == idxs@[k]);
                let j = choose|j: int| 0 <= j < self.n_change && #[trigger] idxs@[k] == range[j];
                assert(range[j] == j as usize);
            }
            while t < idxs.len()
                invariant
                    t <= idxs@.len(),
                    self.n_change <= 128,
                    idxs@ == subset(range, self.n_bit as nat, self.n_change as nat),
                    range == index_range(self.n_change as nat),
                    forall|k: int| 0 <= k < idxs@.len() ==> #[trigger] idxs@[k] < self.n_change,
                    new_bits@ == flip_all(self.bits@, idxs@.subrange(0, t as int)),
                decreases idxs@.len() - t,
            {
                flip_bit(&mut new_bits, idxs[t]);
                assert(idxs@.subrange(0, t + 1).drop_last() =~= idxs@.subrange(0, t as int));
                t = t + 1;
            }
            assert(idxs@.subrange(0, idxs@.len() as int) =~= idxs@);
            self.n_bit = self.n_bit + 1;
            Some(new_bits)
        } else {
            None
        }
    }
}

/// The inputs that differ from a base input in two bits, pairs in
/// lexicographic order.
pub struct BitsTwo {
    bits: [u8; 16],
    fst_bit: usize,
    snd_bit: usize,
}

impl BitsTwo {
    /// The base input.
    pub closed spec fn base(&self) -> Seq<u8> {
        self.bits@
    }

    /// The first bit of the next pair, before a carry.
    pub closed spec fn first(&self) -> nat {
        self.fst_bit as nat
    }

    /// The second bit of the next pair, before a carry.
    pub closed spec fn second(&self) -> nat {
        self.snd_bit as nat
    }

    pub fn new(bits: [u8; 16]) -> (r: Self)
        ensures
            r.base() == bits@,
            r.first() == 0,
            r.second() == 1,
    {
        BitsTwo { bits, fst_bit: 0, snd_bit: 1 }
    }

    /// The next input: when the second bit has run past the end, the first bit
    /// moves on and the second restarts just after it. `None` once no pair is left.
    pub fn next(&mut self) -> (r: Option<[u8; 16]>)
        ensures
            final(self).base() == old(self).base(),
            ({
                let (f, s) = if old(self).second() >= 128 {
                    (old(self).first() + 1, old(self).first() + 2)
                } else {
                    (old(self).first(), old(self).second())
                };
                if old(self).first() >= 128 {
                    r is None && final(self).first() == old(self).first() && final(self).second()
                        == old(self).second()
                } else if f < 128 && s < 128 {
                    r == Some(flip_pair(old(self).base(), f, s)) && final(self).first() == f
                        && final(self).second() == s + 1
                } else {
                    r is None && final(self).first() == f && final(self).second() == s
                }
            }),
    {
        if self.fst_bit >= INPUT_SIZE_BYTES * 8 {
            return None;
        }
        if self.snd_bit >= INPUT_SIZE_BYTES * 8 {
            self.fst_bit = self.fst_bit + 1;
            self.snd_bit = self.fst_bit + 1;
        }
        if self.fst_bit >= INPUT_SIZE_BYTES * 8 || self.snd_bit >= INPUT_SIZE_BYTES * 8 {
            return None;
        }
        let mut new_bits = self.bits;
        flip_bit(&mut new_bits, self.fst_bit);
        flip_bit(&mut new_bits, self.snd_bit);
        self.snd_bit = self.snd_bit + 1;
        Some(new_bits)
    }
}

/// `bits` with bits `f` and then `s` flipped, as an input array.
pub open spec fn flip_pair(bits: Seq<u8>, f: nat, s: nat) -> [u8; 16] {
    choose|b: [u8; 16]| b@ == flip(flip(bits, f as int), s as int)
}

} // verus!
