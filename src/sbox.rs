use vstd::prelude::*;

use crate::dna::{binary_to_DNA, decode, encode, DNA_to_binary, DNA};

verus! {

/// Multiplication by `x` in GF(2^8) modulo `x^8 + x^4 + x^3 + x + 1`.
pub open spec fn xtime(a: u8) -> u8 {
    if a < 128 {
        (2 * a) as u8
    } else {
        ((2 * (a - 128)) as u8) ^ 0x1bu8
    }
}

/// Product in GF(2^8), by shift and add over the bits of `b`.
pub open spec fn gf_mul(a: u8, b: u8) -> u8
    decreases b,
{
    if b == 0 {
        0
    } else {
        let rest = gf_mul(xtime(a), b / 2);
        if b % 2 == 1 {
            a ^ rest
        } else {
            rest
        }
    }
}

/// `a` to the power `e` in GF(2^8), by squaring.
pub open spec fn gf_pow(a: u8, e: nat) -> u8
    decreases e,
{
    if e == 0 {
        1
    } else if e % 2 == 0 {
        let h = gf_pow(a, e / 2);
        gf_mul(h, h)
    } else {
        gf_mul(a, gf_pow(a, (e - 1) as nat))
    }
}

/// Multiplicative inverse in GF(2^8), as `a^254` (`a^255 = 1` for `a != 0`);
/// zero, which has none, goes to zero.
pub open spec fn gf_inv(a: u8) -> u8 {
    gf_pow(a, 254)
}

/// Rotation of a byte to the left by `k` bits, `0 < k < 8`.
pub open spec fn rotl(b: u8, k: u8) -> u8 {
    (b << k) | (b >> (8 - k) as u8)
}

/// The affine map of the S-box: a byte xored with four of its rotations and `0x63`.
pub open spec fn affine(b: u8) -> u8 {
    b ^ rotl(b, 1) ^ rotl(b, 2) ^ rotl(b, 3) ^ rotl(b, 4) ^ 0x63u8
}

/// The S-box on bytes: the affine map of the field inverse.
pub open spec fn sbox_byte(b: u8) -> u8 {
    affine(gf_inv(b))
}

/// The S-box on 4-symbol words.
pub open spec fn sbox_word(w: Seq<DNA>) -> Seq<DNA> {
    encode(sbox_byte(decode(w)))
}

fn mul_by_x(a: u8) -> (r: u8)
    ensures
        r == xtime(a),
{
    if a < 128 {
        2 * a
    } else {
        (2 * (a - 128)) ^ 0x1b
    }
}

fn field_mul(a: u8, b: u8) -> (r: u8)
    ensures
        r == gf_mul(a, b),
    decreases b,
{
    if b == 0 {
        0
    } else {
        let rest = field_mul(mul_by_x(a), b / 2);
        if b % 2 == 1 {
            a ^ rest
        } else {
            rest
        }
    }
}

fn field_pow(a: u8, e: u8) -> (r: u8)
    ensures
        r == gf_pow(a, e as nat),
    decreases e,
{
    if e == 0 {
        1
    } else if e % 2 == 0 {
        let h = field_pow(a, e / 2);
        field_mul(h, h)
    } else {
        let p = field_pow(a, e - 1);
        field_mul(a, p)
    }
}

fn affine_map(b: u8) -> (r: u8)
    ensures
        r == affine(b),
{
    b ^ ((b << 1u8) | (b >> 7u8)) ^ ((b << 2u8) | (b >> 6u8)) ^ ((b << 3u8) | (b >> 5u8)) ^ ((b
        << 4u8) | (b >> 4u8)) ^ 0x63
}

/// The substitution table: entry `i` is the S-box image of byte `i`, as a word.
pub struct SBox {
    table: Vec<[DNA; 4]>,
}

impl SBox {
    /// The table as a sequence of words.
    pub closed spec fn entries(&self) -> Seq<Seq<DNA>> {
        self.table@.map_values(|w: [DNA; 4]| w@)
    }

    /// Each of the 256 entries holds the S-box image of its index.
    pub open spec fn wf(&self) -> bool {
        &&& self.entries().len() == 256
        &&& forall|i: int| 0 <= i < 256 ==> #[trigger] self.entries()[i] == encode(sbox_byte(i as u8))
    }

    /// Builds the table from the field inverse and the affine map.
    pub fn new() -> (r: SBox)
        ensures
            r.wf(),
    {
        let mut table: Vec<[DNA; 4]> = Vec::new();
        let mut i: usize = 0;
        while i < 256
            invariant
                i <= 256,
                table@.len() == i,
                forall|k: int| 0 <= k < i ==> #[trigger] table@[k]@ == encode(sbox_byte(k as u8)),
            decreases 256 - i,
        {
            let inv = field_pow(i as u8, 254);
            let b = affine_map(inv);
            table.push(binary_to_DNA(&b));
            i = i + 1;
        }
        let r = SBox { table };
        assert forall|k: int| 0 <= k < 256 implies #[trigger] r.entries()[k] == encode(sbox_byte(k as u8)) by {
            assert(r.entries()[k] == r.table@[k]@);
        }
        r
    }

    /// Whether the 256 entries, decoded to bytes, are pairwise distinct, and so
    /// a permutation of the bytes.
    pub fn is_bijective(&self) -> (r: bool)
        requires
            self.wf(),
        ensures
            r == (forall|i: int, j: int|
                0 <= i < j < 256 ==> decode(#[trigger] self.entries()[i]) != decode(
                    #[trigger] self.entries()[j],
                )),
    {
        let mut seen: Vec<bool> = Vec::new();
        let mut v: usize = 0;
        while v < 256
            invariant
                v <= 256,
                seen@.len() == v,
                forall|k: int| 0 <= k < v ==> !#[trigger] seen@[k],
            decreases 256 - v,
        {
            seen.push(false);
            v = v + 1;
        }
        let mut i: usize = 0;
        while i < 256
            invariant
                self.wf(),
                i <= 256,
                seen@.len() == 256,
                forall|b: int|
                    0 <= b < 256 ==> (#[trigger] seen@[b] <==> exists|k: int|
                        0 <= k < i && decode(#[trigger] self.entries()[k]) == b),
                forall|a: int, c: int|
                    0 <= a < c < i ==> decode(#[trigger] self.entries()[a]) != decode(
                        #[trigger] self.entries()[c],
                    ),
            decreases 256 - i,
        {
            let w = self.table[i];
            assert(w@ == self.entries()[i as int]);
            let b = DNA_to_binary(&w) as usize;
            if seen[b] {
                let ghost k = choose|k: int| 0 <= k < i && decode(self.entries()[k]) == b;
                assert(decode(self.entries()[k]) == decode(self.entries()[i as int]));
                return false;
            }
            seen.set(b, true);
            i = i + 1;
        }
        true
    }

    /// The S-box image of a word.
    pub fn get(&self, w: &[DNA; 4]) -> (r: [DNA; 4])
        requires
            self.wf(),
        ensures
            r@ == sbox_word(w@),
    {
        let i = DNA_to_binary(w) as usize;
        let r = self.table[i];
        assert(r@ == self.entries()[i as int]);
        r
    }
}

proof fn lemma_mul_zero(b: u8)
    ensures
        gf_mul(0, b) == 0,
    decreases b,
{
    if b != 0 {
        lemma_mul_zero(b / 2);
        assert(xtime(0) == 0);
        assert(0u8 ^ 0u8 == 0u8) by (bit_vector);
    }
}

proof fn lemma_pow_zero(e: nat)
    requires
        e > 0,
    ensures
        gf_pow(0, e) == 0,
    decreases e,
{
    if e % 2 == 0 {
        lemma_pow_zero(e / 2);
        lemma_mul_zero(0);
    } else if e > 1 {
        lemma_pow_zero((e - 1) as nat);
        lemma_mul_zero(0);
    } else {
        lemma_mul_zero(gf_pow(0, 0));
    }
}

/// Zero has no inverse: its S-box image is the affine map of zero, `0x63`.
pub proof fn lemma_sbox_zero()
    ensures
        sbox_byte(0) == 0x63,
{
    lemma_pow_zero(254);
    assert(affine(0) == 0x63) by (bit_vector);
}

} // verus!
