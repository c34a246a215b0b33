use vstd::prelude::*;

use crate::dna::xors::{combine, get_xor, selected, word_xor};
use crate::dna::{binary_to_DNA, encode, seq_xor, DNA};
use crate::sbox::{sbox_word, SBox};

verus! {

/// Symbols in a block.
pub const INPUT_SIZE: usize = 64;
/// Symbols in the source half, at the front of a block.
pub const SOURCE_SIZE: usize = 44;
/// Symbols in the target half, at the back of a block.
pub const TARGET_SIZE: usize = 20;
/// Symbols in a round key.
pub const KEY_SIZE: usize = 8;
/// Rounds of an engine built with `DNAC::new_default`.
pub const DEFAULT_ROUNDS: usize = 46;
/// Most symbols that one pattern match copies into the intron.
pub const INTRON_SIZE: usize = 8;
/// Symbols of a round key that hold the three intron patterns.
pub const PATTERNS_SIZE: usize = 6;

/// The smaller of two integers.
pub open spec fn min(a: int, b: int) -> int {
    if a <= b {
        a
    } else {
        b
    }
}

/// The intron scan from source position `si` and pattern position `pi`, with the
/// symbols copied so far in `filled`: where the pattern pair matches the source
/// window, copy up to the end of the source (its last symbol excluded), the room
/// left in the intron, or `INTRON_SIZE` symbols, and move to the next pattern;
/// else move one symbol on.
pub open spec fn scan(src: Seq<DNA>, pats: Seq<DNA>, si: int, pi: int, filled: Seq<DNA>) -> Seq<DNA>
    decreases 6 - pi, 43 - si,
{
    if 0 <= si < 43 && 0 <= pi && pi + 2 <= 6 && filled.len() <= 20 {
        if pats[pi] == src[si] && pats[pi + 1] == src[si + 1] {
            let cp = min(43 - si, min(20 - filled.len(), 8));
            scan(src, pats, si + cp, pi + 2, filled + src.subrange(si, si + cp))
        } else {
            scan(src, pats, si + 1, pi, filled)
        }
    } else {
        filled
    }
}

/// `n` copies of the identity symbol.
pub open spec fn a_fill(n: int) -> Seq<DNA> {
    Seq::new(n as nat, |i: int| DNA::A)
}

/// The intron of a source half under three pattern pairs, padded with `A` to the
/// target's length.
pub open spec fn intron(src: Seq<DNA>, pats: Seq<DNA>) -> Seq<DNA> {
    let f = scan(src, pats, 0, 0, Seq::empty());
    f + a_fill(20 - f.len())
}

/// An intron with each of its five words replaced by its S-box image.
pub open spec fn substituted(intron: Seq<DNA>) -> Seq<DNA> {
    Seq::new(20, |i: int| sbox_word(intron.subrange(i - i % 4, i - i % 4 + 4))[i % 4])
}

/// One round: the source half stays; each target symbol is combined, as left
/// operand, with the substituted intron under the operator the key's last two
/// symbols select.
pub open spec fn round_spec(x: Seq<DNA>, key: Seq<DNA>) -> Seq<DNA> {
    let op = selected(key.subrange(6, 8));
    let s = substituted(intron(x.subrange(0, 44), key.subrange(0, 6)));
    x.subrange(0, 44) + Seq::new(20, |i: int| combine(op, x[44 + i], s[i]))
}

/// The round constants, cycled: `0x01, 0x02, ..., 0x80, 0x1b, 0x36`.
pub open spec fn rcon_byte(c: nat) -> u8 {
    let j = c % 10;
    if j == 0 {
        0x01
    } else if j == 1 {
        0x02
    } else if j == 2 {
        0x04
    } else if j == 3 {
        0x08
    } else if j == 4 {
        0x10
    } else if j == 5 {
        0x20
    } else if j == 6 {
        0x40
    } else if j == 7 {
        0x80
    } else if j == 8 {
        0x1b
    } else {
        0x36
    }
}

/// A key as its whole 4-symbol words; a trailing part word is dropped.
pub open spec fn key_words(key: Seq<DNA>) -> Seq<Seq<DNA>> {
    Seq::new(key.len() / 4, |i: int| key.subrange(4 * i, 4 * i + 4))
}

/// The expansion's period in groups of four words: one group for each 16 symbols
/// of the key, and at least one; `n` is the number of 8-symbol chunks in the key.
pub open spec fn period(n: int) -> int {
    if n / 2 >= 1 {
        n / 2
    } else {
        1
    }
}

/// Whether the word at position `p` takes the S-box, the one-word rotation and a
/// round constant: it lies in the first group of a period.
pub open spec fn takes_rcon(p: int, n: int) -> bool {
    (p / 4) % period(n) == 0
}

/// Whether the word at position `p` takes the S-box alone: it lies in the fifth
/// group of a period, for keys of more than 24 chunks.
pub open spec fn substitutes(p: int, n: int) -> bool {
    (p / 4) % period(n) == 4 && n > 24
}

/// The word at position `k`; a position before the start, which only the first
/// words of a key of fewer than four words reach, is read from the key's `m`
/// words cyclically.
pub open spec fn word_back(w: Seq<Seq<DNA>>, k: int, m: int) -> Seq<DNA> {
    if k >= 0 {
        w[k]
    } else {
        w[(k + 4 * m) % m]
    }
}

/// The next word of the expansion after the words `w`, with `c` round constants
/// used so far, `n` chunks and `m` words in the key. Words come in groups of four
/// aligned on multiples of four. A word combines the word `2n` places back (which
/// may be one of its own group) with, by its position: the word of the previous
/// group one place on (cyclically within that group), substituted, and the round
/// constant; the word four places back, substituted; or the word four places
/// back as it is. Where the key's word count is not a multiple of four the
/// branch goes by each word's own position.
pub open spec fn next_word(w: Seq<Seq<DNA>>, n: int, m: int, c: nat) -> Seq<DNA> {
    let p = w.len() as int;
    let i = p % 4;
    let l = p - i;
    if takes_rcon(p, n) {
        seq_xor(
            seq_xor(w[p - 2 * n], sbox_word(word_back(w, l - 4 + (i + 1) % 4, m))),
            encode(rcon_byte(c)),
        )
    } else if substitutes(p, n) {
        seq_xor(w[p - 2 * n], sbox_word(word_back(w, p - 4, m)))
    } else {
        seq_xor(w[p - 2 * n], word_back(w, p - 4, m))
    }
}

/// The round constants used after one more word at position `p`: the count
/// moves on at the last word of each group that takes one.
pub open spec fn rcon_after(p: int, n: int, c: nat) -> nat {
    if p % 4 == 3 && takes_rcon(p, n) {
        c + 1
    } else {
        c
    }
}

/// The expansion from the words `w` on, a word at a time, until it holds
/// `target` words.
pub open spec fn grow(w: Seq<Seq<DNA>>, n: int, m: int, c: nat, target: nat) -> Seq<Seq<DNA>>
    decreases target - w.len(),
{
    if w.len() >= target {
        w
    } else {
        grow(w.push(next_word(w, n, m, c)), n, m, rcon_after(w.len() as int, n, c), target)
    }
}

/// The round keys that a key gives for `rounds` rounds: the key's own chunks
/// where it has enough of them, else chunks of the expanded words, which start
/// with the key's own words.
pub open spec fn expanded_key(key: Seq<DNA>, rounds: nat) -> Seq<Seq<DNA>> {
    let n = key.len() / 8;
    if n >= rounds {
        Seq::new(rounds, |c: int| key.subrange(8 * c, 8 * c + 8))
    } else {
        let w = grow(key_words(key), n as int, (key.len() / 4) as int, 0, 2 * rounds);
        Seq::new(rounds, |c: int| w[2 * c] + w[2 * c + 1])
    }
}

/// Whether a key can make an engine: it holds at least one round key.
pub open spec fn key_accepted(len: nat) -> bool {
    len >= 8
}

/// A sequence of fixed-size words as sequences.
pub open spec fn words_of(v: Seq<[DNA; 4]>) -> Seq<Seq<DNA>> {
    v.map_values(|w: [DNA; 4]| w@)
}

fn round_constant(c: usize) -> (r: u8)
    ensures
        r == rcon_byte(c as nat),
{
    let j = c % 10;
    if j == 0 {
        0x01
    } else if j == 1 {
        0x02
    } else if j == 2 {
        0x04
    } else if j == 3 {
        0x08
    } else if j == 4 {
        0x10
    } else if j == 5 {
        0x20
    } else if j == 6 {
        0x40
    } else if j == 7 {
        0x80
    } else if j == 8 {
        0x1b
    } else {
        0x36
    }
}

/// The next word of the expansion.
fn make_word(words: &Vec<[DNA; 4]>, sbox: &SBox, n: usize, m: usize, c: usize) -> (r: [DNA; 4])
    requires
        sbox.wf(),
        n >= 1,
        2 * n <= m,
        4 * m <= usize::MAX,
        m <= words@.len(),
    ensures
        r@ == next_word(words_of(words@), n as int, m as int, c as nat),
{
    let ghost w = words_of(words@);
    let p = words.len();
    let i = p % 4;
    let l = p - i;
    let back = words[p - 2 * n];
    assert(back@ == w[p - 2 * n]);
    let period = if n / 2 >= 1 { n / 2 } else { 1 };
    let g = (p / 4) % period;
    if g == 0 {
        let t = l + (i + 1) % 4;
        let k = if t >= 4 { t - 4 } else { (t + 4 * m - 4) % m };
        let prev = words[k];
        assert(prev@ == word_back(w, l - 4 + (i + 1) % 4, m as int));
        let rc = binary_to_DNA(&round_constant(c));
        word_xor(word_xor(back, sbox.get(&prev)), rc)
    } else {
        let k = if p >= 4 { p - 4 } else { (p + 4 * m - 4) % m };
        let prev = words[k];
        assert(prev@ == word_back(w, p - 4, m as int));
        if g == 4 && n > 24 {
            word_xor(back, sbox.get(&prev))
        } else {
            word_xor(back, prev)
        }
    }
}

/// The round keys for `rounds` rounds.
fn expand_key(key: &Vec<DNA>, sbox: &SBox, rounds: usize) -> (r: Vec<[DNA; 8]>)
    requires
        sbox.wf(),
        key_accepted(key@.len()),
        rounds <= usize::MAX / 8,
    ensures
        r@.map_values(|k: [DNA; 8]| k@) == expanded_key(key@, rounds as nat),
{
    let n = key.len() / 8;
    let mut r: Vec<[DNA; 8]> = Vec::new();
    if n >= rounds {
        let mut c: usize = 0;
        while c < rounds
            invariant
                c <= rounds,
                rounds <= n,
                rounds <= usize::MAX / 8,
                n == key@.len() / 8,
                r@.len() == c,
                forall|j: int| 0 <= j < c ==> #[trigger] r@[j]@ == key@.subrange(8 * j, 8 * j + 8),
            decreases rounds - c,
        {
            assert(8 * c + 8 <= key@.len());
            let s = 8 * c;
            let chunk = [key[s], key[s + 1], key[s + 2], key[s + 3], key[s + 4], key[s + 5], key[s + 6], key[s + 7]];
            assert(chunk@ =~= key@.subrange(8 * c as int, 8 * c + 8));
            r.push(chunk);
            c = c + 1;
        }
        assert(r@.map_values(|k: [DNA; 8]| k@) =~= expanded_key(key@, rounds as nat));
        return r;
    }
    let mut words: Vec<[DNA; 4]> = Vec::new();
    let m = key.len() / 4;
    let mut i: usize = 0;
    while i < m
        invariant
            m == key@.len() / 4,
            key@.len() <= usize::MAX,
            i <= m,
            words@.len() == i,
            forall|j: int| 0 <= j < i ==> #[trigger] words@[j]@ == key@.subrange(4 * j, 4 * j + 4),
        decreases m - i,
    {
        let s = 4 * i;
        let w = [key[s], key[s + 1], key[s + 2], key[s + 3]];
        assert(w@ =~= key@.subrange(4 * i as int, 4 * i + 4));
        words.push(w);
        i = i + 1;
    }
    assert(words_of(words@) =~= key_words(key@));
    assert(m < 2 * rounds);
    let target = 2 * rounds;
    let mut c: usize = 0;
    while words.len() < target
        invariant
            sbox.wf(),
            n >= 1,
            n == key@.len() / 8,
            m == key@.len() / 4,
            4 * m <= key@.len(),
            key@.len() <= usize::MAX,
            target == 2 * rounds,
            rounds <= usize::MAX / 8,
            words@.len() >= m,
            words@.len() <= target,
            c <= words@.len(),
            grow(words_of(words@), n as int, m as int, c as nat, target as nat) == grow(
                key_words(key@),
                n as int,
                m as int,
                0,
                target as nat,
            ),
        decreases target - words@.len(),
    {
        let ghost w0 = words_of(words@);
        let p = words.len();
        let x = make_word(&words, sbox, n, m, c);
        let period = if n / 2 >= 1 { n / 2 } else { 1 };
        if p % 4 == 3 && (p / 4) % period == 0 {
            c = c + 1;
        }
        words.push(x);
        assert(words_of(words@) =~= w0.push(x@));
    }
    let ghost w = grow(key_words(key@), n as int, m as int, 0, target as nat);
    assert(words_of(words@) == w);
    let mut k: usize = 0;
    while k < rounds
        invariant
            k <= rounds,
            target == 2 * rounds,
            words@.len() >= target,
            words_of(words@) == w,
            r@.len() == k,
            forall|j: int| 0 <= j < k ==> #[trigger] r@[j]@ == w[2 * j] + w[2 * j + 1],
        decreases rounds - k,
    {
        let a = words[2 * k];
        let b = words[2 * k + 1];
        let chunk = [a[0], a[1], a[2], a[3], b[0], b[1], b[2], b[3]];
        assert(a@ == w[2 * k as int]);
        assert(b@ == w[2 * k + 1]);
        assert(chunk@ =~= a@ + b@);
        r.push(chunk);
        k = k + 1;
    }
    assert(r@.map_values(|k: [DNA; 8]| k@) =~= expanded_key(key@, rounds as nat));
    r
}

/// Errors of the cipher engine.
#[derive(Clone, Copy, PartialEq, Eq, Structural, Debug)]
pub enum CipherError {
    /// The key cannot give the round keys asked for.
    InvalidKeyLength,
    /// The ciphertext is not made of whole blocks.
    InvalidCiphertextLength,
}

impl CipherError {
    /// A description of the error.
    pub fn message(&self) -> (r: String)
        ensures
            *self == CipherError::InvalidKeyLength ==> r@ == "illegal key, it should hold at least 8 symbols"@,
            *self == CipherError::InvalidCiphertextLength ==> r@
                == "illegal input, length should be a multiple of 64"@,
    {
        match self {
            CipherError::InvalidKeyLength => String::from_str("illegal key, it should hold at least 8 symbols"),
            CipherError::InvalidCiphertextLength => String::from_str(
                "illegal input, length should be a multiple of 64",
            ),
        }
    }
}

/// The block after a forward round: the target half moves to the front.
pub open spec fn to_front(r: Seq<DNA>) -> Seq<DNA> {
    r.subrange(44, 64) + r.subrange(0, 44)
}

/// The block after a backward round: the first 20 symbols move to the back.
pub open spec fn to_back(r: Seq<DNA>) -> Seq<DNA> {
    r.subrange(20, 64) + r.subrange(0, 20)
}

/// The block before forward round `k`: each earlier round is followed by the
/// move of the target half to the front.
pub open spec fn before_round(sched: Seq<Seq<DNA>>, k: nat, x: Seq<DNA>) -> Seq<DNA>
    decreases k,
{
    if k == 0 {
        x
    } else {
        to_front(round_spec(before_round(sched, (k - 1) as nat, x), sched[k - 1]))
    }
}

/// A block encrypted: all rounds in order, the last one without the move.
pub open spec fn encrypt_block_spec(sched: Seq<Seq<DNA>>, x: Seq<DNA>) -> Seq<DNA> {
    if sched.len() == 0 {
        x
    } else {
        round_spec(before_round(sched, (sched.len() - 1) as nat, x), sched[sched.len() - 1])
    }
}

/// Rounds `k` down to 0 on block `y`, each but round 0 followed by the move of
/// the first 20 symbols to the back.
pub open spec fn rounds_back(sched: Seq<Seq<DNA>>, k: nat, y: Seq<DNA>) -> Seq<DNA>
    decreases k,
{
    if k == 0 {
        round_spec(y, sched[0])
    } else {
        rounds_back(sched, (k - 1) as nat, to_back(round_spec(y, sched[k as int])))
    }
}

/// A block decrypted: all rounds in reverse order.
pub open spec fn decrypt_block_spec(sched: Seq<Seq<DNA>>, y: Seq<DNA>) -> Seq<DNA> {
    if sched.len() == 0 {
        y
    } else {
        rounds_back(sched, (sched.len() - 1) as nat, y)
    }
}

/// A sequence right-padded with `A` to a whole block.
pub open spec fn pad(s: Seq<DNA>) -> Seq<DNA> {
    s + a_fill(64 - s.len())
}

/// Number of blocks for `len` symbols, the last one possibly partial.
pub open spec fn block_count(len: nat) -> nat {
    (len + 63) / 64
}

/// Block `i` of `p`, padded.
pub open spec fn block_of(p: Seq<DNA>, i: int) -> Seq<DNA> {
    pad(p.subrange(64 * i, min(64 * i + 64, p.len() as int)))
}

/// The first `i` blocks of `p` encrypted, one after the other.
pub open spec fn encrypt_upto(sched: Seq<Seq<DNA>>, p: Seq<DNA>, i: nat) -> Seq<DNA>
    decreases i,
{
    if i == 0 {
        Seq::empty()
    } else {
        encrypt_upto(sched, p, (i - 1) as nat) + encrypt_block_spec(sched, block_of(p, i - 1))
    }
}

/// Encryption of `p` under the round keys `sched`.
pub open spec fn encrypt_spec(sched: Seq<Seq<DNA>>, p: Seq<DNA>) -> Seq<DNA> {
    encrypt_upto(sched, p, block_count(p.len()))
}

/// The first `i` blocks of `c` decrypted, one after the other.
pub open spec fn decrypt_upto(sched: Seq<Seq<DNA>>, c: Seq<DNA>, i: nat) -> Seq<DNA>
    decreases i,
{
    if i == 0 {
        Seq::empty()
    } else {
        decrypt_upto(sched, c, (i - 1) as nat) + decrypt_block_spec(
            sched,
            c.subrange(64 * (i - 1), 64 * i as int),
        )
    }
}

/// Decryption of `c` under the round keys `sched`; only whole blocks decrypt.
pub open spec fn decrypt_spec(sched: Seq<Seq<DNA>>, c: Seq<DNA>) -> Result<Seq<DNA>, CipherError> {
    if c.len() % 64 != 0 {
        Err(CipherError::InvalidCiphertextLength)
    } else {
        Ok(decrypt_upto(sched, c, c.len() / 64))
    }
}

fn move_to_front(r: &[DNA; 64]) -> (b: [DNA; 64])
    ensures
        b@ == to_front(r@),
{
    let mut b = [DNA::A; 64];
    let mut i: usize = 0;
    while i < 64
        invariant
            i <= 64,
            forall|k: int| 0 <= k < i ==> b@[k] == to_front(r@)[k],
        decreases 64 - i,
    {
        if i < 20 {
            b[i] = r[44 + i];
        } else {
            b[i] = r[i - 20];
        }
        i = i + 1;
    }
    assert(b@ =~= to_front(r@));
    b
}

fn move_to_back(r: &[DNA; 64]) -> (b: [DNA; 64])
    ensures
        b@ == to_back(r@),
{
    let mut b = [DNA::A; 64];
    let mut i: usize = 0;
    while i < 64
        invariant
            i <= 64,
            forall|k: int| 0 <= k < i ==> b@[k] == to_back(r@)[k],
        decreases 64 - i,
    {
        if i < 44 {
            b[i] = r[20 + i];
        } else {
            b[i] = r[i - 44];
        }
        i = i + 1;
    }
    assert(b@ =~= to_back(r@));
    b
}

fn append_block(out: &mut Vec<DNA>, b: &[DNA; 64])
    ensures
        final(out)@ == old(out)@ + b@,
{
    let mut i: usize = 0;
    while i < 64
        invariant
            i <= 64,
            out@ == old(out)@ + b@.subrange(0, i as int),
        decreases 64 - i,
    {
        out.push(b[i]);
        i = i + 1;
        assert(out@ =~= old(out)@ + b@.subrange(0, i as int));
    }
    assert(b@.subrange(0, 64) =~= b@);
}

/// The cipher engine: the S-box and the expanded round keys.
pub struct DNAC {
    sbox: SBox,
    key: Vec<[DNA; 8]>,
}

impl DNAC {
    /// The round keys in order.
    pub closed spec fn schedule(&self) -> Seq<Seq<DNA>> {
        self.key@.map_values(|k: [DNA; 8]| k@)
    }

    pub closed spec fn wf(&self) -> bool {
        self.sbox.wf()
    }

    /// The round keys of an engine have eight symbols each.
    pub proof fn lemma_schedule_keys(&self)
        ensures
            forall|i: int| 0 <= i < self.schedule().len() ==> #[trigger] self.schedule()[i].len() == 8,
    {
    }

    /// An engine with `DEFAULT_ROUNDS` rounds.
    pub fn new_default(key: Vec<DNA>) -> (r: Result<DNAC, CipherError>)
        ensures
            match r {
                Ok(e) => key_accepted(key@.len()) && e.wf()
                    && e.schedule() == expanded_key(key@, DEFAULT_ROUNDS as nat),
                Err(e) => !key_accepted(key@.len())
                    && e == CipherError::InvalidKeyLength,
            },
    {
        DNAC::new(key, DEFAULT_ROUNDS)
    }

    /// An engine with `rounds` rounds, keyed by `key`; refused only where the key
    /// does not hold one round key (8 symbols). Any longer key expands to any
    /// number of rounds: a key of 8 to 15 symbols has an expansion period of one
    /// group, and its first words read the key cyclically (see `next_word`). The
    /// bound on `rounds` keeps the schedule's size in range.
    pub fn new(key: Vec<DNA>, rounds: usize) -> (r: Result<DNAC, CipherError>)
        requires
            rounds <= usize::MAX / 8,
        ensures
            match r {
                Ok(e) => key_accepted(key@.len()) && e.wf()
                    && e.schedule() == expanded_key(key@, rounds as nat),
                Err(e) => !key_accepted(key@.len())
                    && e == CipherError::InvalidKeyLength,
            },
    {
        if key.len() < KEY_SIZE {
            return Err(CipherError::InvalidKeyLength);
        }
        let sbox = SBox::new();
        let key = expand_key(&key, &sbox, rounds);
        Ok(DNAC { sbox, key })
    }

    /// The round keys, in the order encryption uses them.
    pub fn round_keys(&self) -> (r: Vec<[DNA; 8]>)
        ensures
            r@.map_values(|k: [DNA; 8]| k@) == self.schedule(),
    {
        self.key.clone()
    }

    /// Encrypts one block with all round keys.
    fn encrypt_block(&self, x: [DNA; 64]) -> (r: [DNA; 64])
        requires
            self.wf(),
        ensures
            r@ == encrypt_block_spec(self.schedule(), x@),
    {
        let ghost sched = self.schedule();
        let n = self.key.len();
        let mut block = x;
        let mut j: usize = 0;
        while j < n
            invariant
                self.wf(),
                sched == self.schedule(),
                n == sched.len(),
                j <= n,
                j < n ==> block@ == before_round(sched, j as nat, x@),
                j == n ==> block@ == encrypt_block_spec(sched, x@),
            decreases n - j,
        {
            let res = self.round(&block, &self.key[j]);
            assert(self.key@[j as int]@ == sched[j as int]);
            if j + 1 < n {
                block = move_to_front(&res);
            } else {
                block = res;
            }
            j = j + 1;
        }
        block
    }

    /// Decrypts one block with all round keys, last one first.
    fn decrypt_block(&self, y: [DNA; 64]) -> (r: [DNA; 64])
        requires
            self.wf(),
        ensures
            r@ == decrypt_block_spec(self.schedule(), y@),
    {
        let ghost sched = self.schedule();
        let n = self.key.len();
        let mut block = y;
        let mut t: usize = 0;
        while t < n
            invariant
                self.wf(),
                sched == self.schedule(),
                n == sched.len(),
                t <= n,
                t < n ==> rounds_back(sched, (n - 1 - t) as nat, block@) == decrypt_block_spec(sched, y@),
                t == n ==> block@ == decrypt_block_spec(sched, y@),
            decreases n - t,
        {
            let k = n - 1 - t;
            let res = self.round(&block, &self.key[k]);
            assert(self.key@[k as int]@ == sched[k as int]);
            if k > 0 {
                block = move_to_back(&res);
            } else {
                block = res;
            }
            t = t + 1;
        }
        block
    }

    /// Encrypts a symbol sequence block by block; a last partial block is padded
    /// with `A`.
    pub fn encrypt(&self, input: Vec<DNA>) -> (r: Vec<DNA>)
        requires
            self.wf(),
        ensures
            r@ == encrypt_spec(self.schedule(), input@),
    {
        let len = input.len();
        let count = if len % 64 == 0 { len / 64 } else { len / 64 + 1 };
        assert(count == block_count(len as nat));
        let mut out: Vec<DNA> = Vec::new();
        let mut i: usize = 0;
        while i < count
            invariant
                self.wf(),
                len == input@.len(),
                count == block_count(len as nat),
                i <= count,
                out@ == encrypt_upto(self.schedule(), input@, i as nat),
            decreases count - i,
        {
            let start = 64 * i;
            let end = if len - start < 64 { len } else { start + 64 };
            let mut block = [DNA::A; 64];
            let mut t: usize = 0;
            while t < end - start
                invariant
                    start < end <= len,
                    end - start <= 64,
                    len == input@.len(),
                    t <= end - start,
                    forall|k: int| 0 <= k < t ==> block@[k] == input@[start + k],
                    forall|k: int| end - start <= k < 64 ==> block@[k] == DNA::A,
                decreases end - start - t,
            {
                block[t] = input[start + t];
                t = t + 1;
            }
            assert(block@ =~= block_of(input@, i as int));
            let e = self.encrypt_block(block);
            append_block(&mut out, &e);
            i = i + 1;
        }
        out
    }

    /// Decrypts a symbol sequence of whole blocks; any other length is refused.
    pub fn decrypt(&self, input: Vec<DNA>) -> (r: Result<Vec<DNA>, CipherError>)
        requires
            self.wf(),
        ensures
            match r {
                Ok(v) => decrypt_spec(self.schedule(), input@) == Ok::<Seq<DNA>, CipherError>(v@),
                Err(e) => decrypt_spec(self.schedule(), input@) == Err::<Seq<DNA>, CipherError>(e),
            },
    {
        let len = input.len();
        if len % INPUT_SIZE != 0 {
            return Err(CipherError::InvalidCiphertextLength);
        }
        let count = len / 64;
        let mut out: Vec<DNA> = Vec::new();
        let mut i: usize = 0;
        while i < count
            invariant
                self.wf(),
                len == input@.len(),
                len % 64 == 0,
                count == len / 64,
                i <= count,
                out@ == decrypt_upto(self.schedule(), input@, i as nat),
            decreases count - i,
        {
            let start = 64 * i;
            let mut block = [DNA::A; 64];
            let mut t: usize = 0;
            while t < 64
                invariant
                    start + 64 <= len,
                    len == input@.len(),
                    t <= 64,
                    forall|k: int| 0 <= k < t ==> block@[k] == input@[start + k],
                decreases 64 - t,
            {
                block[t] = input[start + t];
                t = t + 1;
            }
            assert(block@ =~= input@.subrange(64 * i as int, 64 * (i + 1)));
            let d = self.decrypt_block(block);
            append_block(&mut out, &d);
            i = i + 1;
        }
        Ok(out)
    }

    fn round(&self, input: &[DNA; 64], key: &[DNA; 8]) -> (r: [DNA; 64])
        requires
            self.wf(),
        ensures
            r@ == round_spec(input@, key@),
    {
        let ghost src = input@.subrange(0, 44);
        let ghost pats = key@.subrange(0, 6);
        let mut intron = [DNA::A; 20];
        let mut len: usize = 0;
        let mut si: usize = 0;
        let mut pi: usize = 0;
        assert(intron@.subrange(0, 0) =~= Seq::<DNA>::empty());
        while si < SOURCE_SIZE - 1 && pi < PATTERNS_SIZE
            invariant
                si <= 43,
                pi <= 6,
                pi % 2 == 0,
                len <= 20,
                src == input@.subrange(0, 44),
                pats == key@.subrange(0, 6),
                forall|k: int| len <= k < 20 ==> intron@[k] == DNA::A,
                scan(src, pats, si as int, pi as int, intron@.subrange(0, len as int))
                    == scan(src, pats, 0, 0, Seq::empty()),
            decreases 6 - pi, 43 - si,
        {
            if key[pi] == input[si] && key[pi + 1] == input[si + 1] {
                let mut cp: usize = SOURCE_SIZE - 1 - si;
                if TARGET_SIZE - len < cp {
                    cp = TARGET_SIZE - len;
                }
                if INTRON_SIZE < cp {
                    cp = INTRON_SIZE;
                }
                let ghost before = intron@;
                let mut t: usize = 0;
                while t < cp
                    invariant
                        t <= cp,
                        len + cp <= 20,
                        src == input@.subrange(0, 44),
                        si + cp <= 43,
                        forall|k: int| 0 <= k < len ==> intron@[k] == before[k],
                        forall|k: int| len + cp <= k < 20 ==> intron@[k] == before[k],
                        forall|k: int| len <= k < len + t ==> intron@[k] == input@[si + k - len],
                    decreases cp - t,
                {
                    intron[len + t] = input[si + t];
                    t = t + 1;
                }
                assert forall|k: int| len + cp <= k < 20 implies intron@[k] == DNA::A by {
                    assert(intron@[k] == before[k]);
                    assert(before[k] == DNA::A);
                }
                assert(intron@.subrange(0, (len + cp) as int) =~= before.subrange(0, len as int)
                    + src.subrange(si as int, (si + cp) as int));
                len = len + cp;
                si = si + cp;
                pi = pi + 2;
            } else {
                si = si + 1;
            }
        }
        proof {
            let f = scan(src, pats, 0, 0, Seq::empty());
            assert(f == intron@.subrange(0, len as int));
            assert(intron@ =~= crate::cipher::intron(src, pats));
        }
        let sel = [key[6], key[7]];
        proof {
            assert(sel@ =~= key@.subrange(6, 8));
        }
        let op = get_xor(&sel);
        let ghost s = substituted(intron@);
        let mut r = *input;
        let mut w: usize = 0;
        while w < 5
            invariant
                w <= 5,
                self.wf(),
                s == substituted(intron@),
                op == selected(key@.subrange(6, 8)),
                forall|k: int| 0 <= k < 44 ==> r@[k] == input@[k],
                forall|k: int| 44 + 4 * w <= k < 64 ==> r@[k] == input@[k],
                forall|k: int| 44 <= k < 44 + 4 * w ==> r@[k] == combine(op, input@[k], s[k - 44]),
            decreases 5 - w,
        {
            let word = [intron[4 * w], intron[4 * w + 1], intron[4 * w + 2], intron[4 * w + 3]];
            assert(word@ =~= intron@.subrange(4 * w as int, 4 * w + 4));
            let sub = self.sbox.get(&word);
            let mut j: usize = 0;
            while j < 4
                invariant
                    w < 5,
                    j <= 4,
                    sub@ == sbox_word(intron@.subrange(4 * w as int, 4 * w + 4)),
                    s == substituted(intron@),
                    forall|k: int| 0 <= k < 44 ==> r@[k] == input@[k],
                    forall|k: int| 44 + 4 * w + j <= k < 64 ==> r@[k] == input@[k],
                    forall|k: int| 44 <= k < 44 + 4 * w + j ==> r@[k] == combine(op, input@[k], s[k - 44]),
                decreases 4 - j,
            {
                let k = 44 + 4 * w + j;
                assert((4 * w + j) as int % 4 == j as int);
                assert(s[4 * w + j] == sub@[j as int]);
                r[k] = op.apply(r[k], sub[j]);
                j = j + 1;
            }
            w = w + 1;
        }
        assert(r@ =~= round_spec(input@, key@));
        r
    }
}

} // verus!
