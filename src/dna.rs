use vstd::prelude::*;

pub mod xors;

verus! {

/// One of the four symbols of the cipher's alphabet.
#[derive(Clone, Copy, PartialEq, Eq, Structural, Debug)]
pub enum DNA {
    A,
    C,
    G,
    T,
}

/// The two bits that a symbol stands for: `A = 00`, `G = 01`, `C = 10`, `T = 11`.
pub open spec fn bits_of(d: DNA) -> u8 {
    match d {
        DNA::A => 0,
        DNA::G => 1,
        DNA::C => 2,
        DNA::T => 3,
    }
}

/// The symbol that stands for the two low bits of `v`.
pub open spec fn symbol_of(v: u8) -> DNA {
    if v & 3 == 0 {
        DNA::A
    } else if v & 3 == 1 {
        DNA::G
    } else if v & 3 == 2 {
        DNA::C
    } else {
        DNA::T
    }
}

/// A byte as four symbols, most significant bit pair first.
pub open spec fn encode(b: u8) -> Seq<DNA> {
    seq![symbol_of(b >> 6u8), symbol_of(b >> 4u8), symbol_of(b >> 2u8), symbol_of(b)]
}

/// The byte that four symbols stand for, first symbol in the top bit pair.
pub open spec fn decode(w: Seq<DNA>) -> u8 {
    (bits_of(w[0]) * 64 + bits_of(w[1]) * 16 + bits_of(w[2]) * 4 + bits_of(w[3])) as u8
}

/// Klein four-group on the symbols, with `A` as identity: each symbol is its own
/// inverse, and two distinct non-identity symbols combine to the third one.
pub open spec fn sym_xor(a: DNA, b: DNA) -> DNA {
    if a == DNA::A {
        b
    } else if b == DNA::A {
        a
    } else if a == b {
        DNA::A
    } else if a != DNA::C && b != DNA::C {
        DNA::C
    } else if a != DNA::G && b != DNA::G {
        DNA::G
    } else {
        DNA::T
    }
}

/// Element-wise group combination of two symbol sequences of equal length.
pub open spec fn seq_xor(a: Seq<DNA>, b: Seq<DNA>) -> Seq<DNA> {
    Seq::new(a.len(), |i: int| sym_xor(a[i], b[i]))
}

/// The `-` of symbols: the plain combination, after swapping `G` and `T` in the
/// right operand when the left one is `A` or `C`.
pub open spec fn sub_spec(a: DNA, b: DNA) -> DNA {
    if a == DNA::A || a == DNA::C {
        xors::combine(xors::XorOp::SwapGT, a, b)
    } else {
        sym_xor(a, b)
    }
}

/// The `+` of symbols, row by row of its table; `C` is a left identity.
pub open spec fn add_spec(a: DNA, b: DNA) -> DNA {
    match a {
        DNA::A => match b {
            DNA::A => DNA::T,
            DNA::C => DNA::A,
            DNA::G => DNA::C,
            DNA::T => DNA::G,
        },
        DNA::C => b,
        DNA::G => match b {
            DNA::A => DNA::C,
            DNA::C => DNA::T,
            DNA::G => DNA::G,
            DNA::T => DNA::A,
        },
        DNA::T => match b {
            DNA::A => DNA::G,
            DNA::C => DNA::T,
            DNA::G => DNA::A,
            DNA::T => DNA::C,
        },
    }
}

impl vstd::std_specs::ops::BitXorSpecImpl for DNA {
    open spec fn obeys_bitxor_spec() -> bool {
        true
    }

    open spec fn bitxor_req(self, rhs: Self) -> bool {
        true
    }

    open spec fn bitxor_spec(self, rhs: Self) -> Self {
        sym_xor(self, rhs)
    }
}

impl core::ops::BitXor for DNA {
    type Output = Self;

    fn bitxor(self, rhs: Self) -> (r: Self)
        ensures
            r == sym_xor(self, rhs),
    {
        xors::dnaxor_1(self, rhs)
    }
}

impl vstd::std_specs::ops::SubSpecImpl for DNA {
    open spec fn obeys_sub_spec() -> bool {
        true
    }

    open spec fn sub_req(self, rhs: Self) -> bool {
        true
    }

    open spec fn sub_spec(self, rhs: Self) -> Self {
        sub_spec(self, rhs)
    }
}

impl core::ops::Sub for DNA {
    type Output = Self;

    fn sub(self, rhs: Self) -> (r: Self)
        ensures
            r == sub_spec(self, rhs),
    {
        match self {
            DNA::A => match rhs {
                DNA::A => DNA::A,
                DNA::C => DNA::C,
                DNA::G => DNA::T,
                DNA::T => DNA::G,
            },
            DNA::C => match rhs {
                DNA::A => DNA::C,
                DNA::C => DNA::A,
                DNA::G => DNA::G,
                DNA::T => DNA::T,
            },
            DNA::G => match rhs {
                DNA::A => DNA::G,
                DNA::C => DNA::T,
                DNA::G => DNA::A,
                DNA::T => DNA::C,
            },
            DNA::T => match rhs {
                DNA::A => DNA::T,
                DNA::C => DNA::G,
                DNA::G => DNA::C,
                DNA::T => DNA::A,
            },
        }
    }
}

impl vstd::std_specs::ops::AddSpecImpl for DNA {
    open spec fn obeys_add_spec() -> bool {
        true
    }

    open spec fn add_req(self, rhs: Self) -> bool {
        true
    }

    open spec fn add_spec(self, rhs: Self) -> Self {
        add_spec(self, rhs)
    }
}

impl core::ops::Add for DNA {
    type Output = Self;

    fn add(self, rhs: Self) -> (r: Self)
        ensures
            r == add_spec(self, rhs),
    {
        match self {
            DNA::A => match rhs {
                DNA::A => DNA::T,
                DNA::C => DNA::A,
                DNA::G => DNA::C,
                DNA::T => DNA::G,
            },
            DNA::C => rhs,
            DNA::G => match rhs {
                DNA::A => DNA::C,
                DNA::C => DNA::T,
                DNA::G => DNA::G,
                DNA::T => DNA::A,
            },
            DNA::T => match rhs {
                DNA::A => DNA::G,
                DNA::C => DNA::T,
                DNA::G => DNA::A,
                DNA::T => DNA::C,
            },
        }
    }
}

/// A 4-symbol word, the symbol form of one byte.
pub struct DNAWord(pub [DNA; 4]);

impl vstd::std_specs::ops::BitXorSpecImpl for DNAWord {
    // The word's own `bitxor` states its result.
    open spec fn obeys_bitxor_spec() -> bool {
        false
    }

    open spec fn bitxor_req(self, rhs: Self) -> bool {
        true
    }

    open spec fn bitxor_spec(self, rhs: Self) -> Self {
        choose|w: DNAWord| w.0@ == seq_xor(self.0@, rhs.0@)
    }
}

impl core::ops::BitXor for DNAWord {
    type Output = Self;

    fn bitxor(self, rhs: Self) -> (r: Self)
        ensures
            r.0@ == seq_xor(self.0@, rhs.0@),
    {
        DNAWord(xors::word_xor(self.0, rhs.0))
    }
}

#[allow(non_snake_case)]
/// Encodes a byte as four symbols, most significant bit pair first.
pub fn binary_to_DNA(b: &u8) -> (r: [DNA; 4])
    ensures
        r@ == encode(*b),
{
    let x: u8 = *b;
    let r = [bits_to_symbol(x >> 6u8), bits_to_symbol(x >> 4u8), bits_to_symbol(x >> 2u8), bits_to_symbol(x)];
    assert(r@ =~= encode(*b));
    r
}

/// The symbol for the two low bits of `v`.
fn bits_to_symbol(v: u8) -> (r: DNA)
    ensures
        r == symbol_of(v),
{
    let low: u8 = v & 3;
    if low == 0 {
        DNA::A
    } else if low == 1 {
        DNA::G
    } else if low == 2 {
        DNA::C
    } else {
        DNA::T
    }
}

/// The two bits that a symbol stands for.
fn symbol_to_bits(d: DNA) -> (r: u8)
    ensures
        r == bits_of(d),
{
    match d {
        DNA::A => 0,
        DNA::G => 1,
        DNA::C => 2,
        DNA::T => 3,
    }
}

#[allow(non_snake_case)]
/// Decodes four symbols to the byte they stand for.
pub fn DNA_to_binary(dna: &[DNA; 4]) -> (r: u8)
    ensures
        r == decode(dna@),
{
    let b0 = symbol_to_bits(dna[0]);
    let b1 = symbol_to_bits(dna[1]);
    let b2 = symbol_to_bits(dna[2]);
    let b3 = symbol_to_bits(dna[3]);
    b0 * 64 + b1 * 16 + b2 * 4 + b3
}

proof fn lemma_bits_symbol(v: u8)
    ensures
        bits_of(symbol_of(v)) == v & 3,
{
    assert(v & 3 < 4) by (bit_vector);
}

/// Decoding an encoded byte gives the byte back.
pub proof fn lemma_decode_encode(b: u8)
    ensures
        decode(encode(b)) == b,
{
    lemma_bits_symbol(b >> 6u8);
    lemma_bits_symbol(b >> 4u8);
    lemma_bits_symbol(b >> 2u8);
    lemma_bits_symbol(b);
    assert(((b >> 6u8) & 3) * 64 + ((b >> 4u8) & 3) * 16 + ((b >> 2u8) & 3) * 4 + (b & 3) == b)
        by (bit_vector);
}

/// Encoding the byte that a 4-symbol word stands for gives the word back.
pub proof fn lemma_encode_decode(w: Seq<DNA>)
    requires
        w.len() == 4,
    ensures
        encode(decode(w)) == w,
{
    let (a, b, c, d) = (bits_of(w[0]), bits_of(w[1]), bits_of(w[2]), bits_of(w[3]));
    let x = decode(w);
    assert(x == a * 64 + b * 16 + c * 4 + d);
    assert((x >> 6u8) & 3 == a && (x >> 4u8) & 3 == b && (x >> 2u8) & 3 == c && x & 3 == d)
        by (bit_vector)
        requires
            a < 4 && b < 4 && c < 4 && d < 4,
            x == a * 64 + b * 16 + c * 4 + d,
    ;
    assert(encode(x) =~= w);
}

/// Bytes as symbols, four per byte in order.
pub open spec fn encode_all(b: Seq<u8>) -> Seq<DNA> {
    Seq::new(4 * b.len(), |i: int| encode(b[i / 4])[i % 4])
}

/// Symbols as bytes, one per whole 4-symbol word; a trailing part word is dropped.
pub open spec fn decode_all(s: Seq<DNA>) -> Seq<u8> {
    Seq::new(s.len() / 4, |i: int| decode(s.subrange(4 * i, 4 * i + 4)))
}

/// Converts bytes to the symbol sequence that the cipher works on.
pub fn encode_bytes_to_symbols(bytes: &Vec<u8>) -> (r: Vec<DNA>)
    requires
        4 * bytes@.len() <= usize::MAX,
    ensures
        r@ == encode_all(bytes@),
{
    let mut r: Vec<DNA> = Vec::new();
    let mut i: usize = 0;
    while i < bytes.len()
        invariant
            i <= bytes@.len(),
            4 * bytes@.len() <= usize::MAX,
            r@.len() == 4 * i,
            forall|k: int| 0 <= k < 4 * i ==> #[trigger] r@[k] == encode(bytes@[k / 4])[k % 4],
        decreases bytes@.len() - i,
    {
        let w = binary_to_DNA(&bytes[i]);
        let mut j: usize = 0;
        while j < 4
            invariant
                i < bytes@.len(),
                j <= 4,
                w@ == encode(bytes@[i as int]),
                r@.len() == 4 * i + j,
                forall|k: int| 0 <= k < 4 * i + j ==> #[trigger] r@[k] == encode(bytes@[k / 4])[k % 4],
            decreases 4 - j,
        {
            assert((4 * i + j) as int / 4 == i as int && (4 * i + j) as int % 4 == j as int);
            r.push(w[j]);
            j = j + 1;
        }
        i = i + 1;
    }
    assert(r@ =~= encode_all(bytes@));
    r
}

/// Converts a symbol sequence back to bytes, four symbols to a byte.
pub fn decode_symbols_to_bytes(symbols: &Vec<DNA>) -> (r: Vec<u8>)
    ensures
        r@ == decode_all(symbols@),
{
    let mut r: Vec<u8> = Vec::new();
    let count = symbols.len() / 4;
    let mut i: usize = 0;
    while i < count
        invariant
            count == symbols@.len() / 4,
            symbols@.len() <= usize::MAX,
            i <= count,
            r@.len() == i,
            forall|k: int| 0 <= k < i ==> #[trigger] r@[k] == decode(symbols@.subrange(4 * k, 4 * k + 4)),
        decreases count - i,
    {
        assert(4 * i + 4 <= symbols@.len());
        let s = 4 * i;
        let w = [symbols[s], symbols[s + 1], symbols[s + 2], symbols[s + 3]];
        assert(w@ =~= symbols@.subrange(4 * i as int, 4 * i + 4));
        r.push(DNA_to_binary(&w));
        i = i + 1;
    }
    assert(r@ =~= decode_all(symbols@));
    r
}

/// Decoding the symbols of a byte sequence gives the bytes back.
pub proof fn lemma_decode_all_encode_all(b: Seq<u8>)
    ensures
        decode_all(encode_all(b)) == b,
{
    let s = encode_all(b);
    assert forall|i: int| 0 <= i < b.len() implies #[trigger] decode_all(s)[i] == b[i] by {
        let w = s.subrange(4 * i, 4 * i + 4);
        assert(w =~= encode(b[i])) by {
            assert forall|j: int| 0 <= j < 4 implies w[j] == encode(b[i])[j] by {
                assert((4 * i + j) / 4 == i && (4 * i + j) % 4 == j);
            }
        }
        lemma_decode_encode(b[i]);
    }
    assert(decode_all(s) =~= b);
}

} // verus!
