use vstd::prelude::*;

use crate::cipher::{
    before_round, block_count, block_of, decrypt_block_spec, decrypt_spec, decrypt_upto,
    encrypt_block_spec, encrypt_spec, encrypt_upto, expanded_key, grow, intron, key_accepted,
    key_words, next_word, rcon_after, round_spec, rounds_back, substituted, to_back, to_front,
    CipherError, DNAC,
};
use crate::dna::xors::{lemma_combine_self_inverse, selected};
use crate::dna::DNA;

verus! {

/// Every round key has eight symbols.
pub open spec fn keys_wf(sched: Seq<Seq<DNA>>) -> bool {
    forall|i: int| 0 <= i < sched.len() ==> #[trigger] sched[i].len() == 8
}

proof fn lemma_round_len(x: Seq<DNA>, k: Seq<DNA>)
    requires
        x.len() == 64,
        k.len() == 8,
    ensures
        round_spec(x, k).len() == 64,
{
}

/// A round undoes itself: the source half, and so the intron, stays the same,
/// and each operator is its own inverse in its right operand.
pub proof fn lemma_round_involution(x: Seq<DNA>, k: Seq<DNA>)
    requires
        x.len() == 64,
        k.len() == 8,
    ensures
        round_spec(round_spec(x, k), k) == x,
{
    let y = round_spec(x, k);
    assert(y.subrange(0, 44) =~= x.subrange(0, 44));
    let op = selected(k.subrange(6, 8));
    let s = substituted(intron(x.subrange(0, 44), k.subrange(0, 6)));
    let z = round_spec(y, k);
    assert forall|i: int| 0 <= i < 64 implies z[i] == x[i] by {
        if i >= 44 {
            lemma_combine_self_inverse(op, x[i], s[i - 44]);
        }
    }
    assert(z =~= x);
}

proof fn lemma_moves(r: Seq<DNA>)
    requires
        r.len() == 64,
    ensures
        to_back(to_front(r)) == r,
{
    assert(to_back(to_front(r)) =~= r);
}

proof fn lemma_before_round_len(sched: Seq<Seq<DNA>>, k: nat, x: Seq<DNA>)
    requires
        keys_wf(sched),
        k <= sched.len(),
        x.len() == 64,
    ensures
        before_round(sched, k, x).len() == 64,
    decreases k,
{
    if k > 0 {
        lemma_before_round_len(sched, (k - 1) as nat, x);
    }
}

proof fn lemma_rounds_back_undo(sched: Seq<Seq<DNA>>, k: nat, x: Seq<DNA>)
    requires
        keys_wf(sched),
        k < sched.len(),
        x.len() == 64,
    ensures
        rounds_back(sched, k, round_spec(before_round(sched, k, x), sched[k as int])) == x,
    decreases k,
{
    lemma_before_round_len(sched, k, x);
    let b = before_round(sched, k, x);
    lemma_round_involution(b, sched[k as int]);
    if k > 0 {
        let j = (k - 1) as nat;
        let a = before_round(sched, j, x);
        lemma_before_round_len(sched, j, x);
        lemma_round_len(a, sched[j as int]);
        lemma_moves(round_spec(a, sched[j as int]));
        lemma_rounds_back_undo(sched, j, x);
    }
}

/// Decrypting an encrypted block gives the block back.
pub proof fn lemma_block_round_trip(sched: Seq<Seq<DNA>>, x: Seq<DNA>)
    requires
        keys_wf(sched),
        x.len() == 64,
    ensures
        decrypt_block_spec(sched, encrypt_block_spec(sched, x)) == x,
{
    if sched.len() > 0 {
        lemma_rounds_back_undo(sched, (sched.len() - 1) as nat, x);
    }
}

proof fn lemma_encrypt_block_len(sched: Seq<Seq<DNA>>, x: Seq<DNA>)
    requires
        keys_wf(sched),
        x.len() == 64,
    ensures
        encrypt_block_spec(sched, x).len() == 64,
{
    if sched.len() > 0 {
        lemma_before_round_len(sched, (sched.len() - 1) as nat, x);
    }
}

proof fn lemma_encrypt_upto(sched: Seq<Seq<DNA>>, p: Seq<DNA>, i: nat)
    requires
        keys_wf(sched),
        64 * i <= p.len() + 63,
    ensures
        encrypt_upto(sched, p, i).len() == 64 * i,
        forall|j: int|
            0 <= j < i ==> #[trigger] encrypt_upto(sched, p, i).subrange(64 * j, 64 * j + 64)
                == encrypt_block_spec(sched, block_of(p, j)),
    decreases i,
{
    if i > 0 {
        let j0 = i - 1;
        lemma_encrypt_upto(sched, p, (i - 1) as nat);
        let prev = encrypt_upto(sched, p, (i - 1) as nat);
        let blk = block_of(p, j0);
        assert(blk.len() == 64);
        lemma_encrypt_block_len(sched, blk);
        let e = encrypt_block_spec(sched, blk);
        let all = encrypt_upto(sched, p, i);
        assert(all == prev + e);
        assert forall|j: int| 0 <= j < i implies #[trigger] all.subrange(64 * j, 64 * j + 64)
            == encrypt_block_spec(sched, block_of(p, j)) by {
            if j < j0 {
                assert(all.subrange(64 * j, 64 * j + 64) =~= prev.subrange(64 * j, 64 * j + 64));
            } else {
                assert(all.subrange(64 * j, 64 * j + 64) =~= e);
            }
        }
    }
}

proof fn lemma_decrypt_upto(sched: Seq<Seq<DNA>>, p: Seq<DNA>, m: nat, i: nat)
    requires
        keys_wf(sched),
        p.len() == 64 * m,
        i <= m,
    ensures
        decrypt_upto(sched, encrypt_upto(sched, p, m), i) == p.subrange(0, 64 * i as int),
    decreases i,
{
    let c = encrypt_upto(sched, p, m);
    if i == 0 {
        assert(p.subrange(0, 0) =~= Seq::<DNA>::empty());
    } else {
        let j = i - 1;
        lemma_decrypt_upto(sched, p, m, (i - 1) as nat);
        lemma_encrypt_upto(sched, p, m);
        assert(c.subrange(64 * j, 64 * j + 64) == encrypt_block_spec(sched, block_of(p, j)));
        let blk = block_of(p, j);
        assert(blk =~= p.subrange(64 * j, 64 * j + 64));
        lemma_block_round_trip(sched, blk);
        assert(c.subrange(64 * (i - 1), 64 * i as int) == c.subrange(64 * j, 64 * j + 64));
        assert(p.subrange(0, 64 * i as int) =~= p.subrange(0, 64 * j as int) + blk);
    }
}

/// Round trip: under any round keys of eight symbols, decrypting the encryption
/// of a sequence of whole blocks gives the sequence back.
pub proof fn lemma_decrypt_encrypt(sched: Seq<Seq<DNA>>, p: Seq<DNA>)
    requires
        keys_wf(sched),
        p.len() % 64 == 0,
    ensures
        decrypt_spec(sched, encrypt_spec(sched, p)) == Ok::<Seq<DNA>, CipherError>(p),
{
    let m = p.len() / 64;
    assert(block_count(p.len()) == m);
    lemma_encrypt_upto(sched, p, m);
    lemma_decrypt_upto(sched, p, m, m);
    assert(p.subrange(0, 64 * m as int) =~= p);
}

/// All words of a sequence have four symbols.
pub open spec fn words_wf(w: Seq<Seq<DNA>>) -> bool {
    forall|i: int| 0 <= i < w.len() ==> #[trigger] w[i].len() == 4
}

proof fn lemma_grow_words(w: Seq<Seq<DNA>>, n: int, m: int, c: nat, target: nat)
    requires
        words_wf(w),
        n >= 1,
        2 * n <= m,
        m <= w.len(),
    ensures
        words_wf(grow(w, n, m, c, target)),
        grow(w, n, m, c, target).len() >= target,
        forall|k: int| 0 <= k < w.len() ==> #[trigger] grow(w, n, m, c, target)[k] == w[k],
    decreases target - w.len(),
{
    if w.len() < target {
        let p = w.len() as int;
        assert(w[p - 2 * n].len() == 4);
        let w2 = w.push(next_word(w, n, m, c));
        assert(words_wf(w2)) by {
            assert forall|i: int| 0 <= i < w2.len() implies #[trigger] w2[i].len() == 4 by {
                if i < p {
                    assert(w2[i] == w[i]);
                }
            }
        }
        lemma_grow_words(w2, n, m, rcon_after(p, n, c), target);
        assert forall|k: int| 0 <= k < w.len() implies #[trigger] grow(w, n, m, c, target)[k] == w[k] by {
            assert(w2[k] == w[k]);
        }
    }
}

/// The round keys that an accepted key gives number `rounds`, have eight symbols
/// each, and start with the key's own whole chunks.
pub proof fn lemma_expanded_key_wf(key: Seq<DNA>, rounds: nat)
    requires
        key_accepted(key.len()),
    ensures
        expanded_key(key, rounds).len() == rounds,
        keys_wf(expanded_key(key, rounds)),
        forall|c: int|
            0 <= c < rounds && 8 * c + 8 <= key.len() ==> #[trigger] expanded_key(key, rounds)[c]
                == key.subrange(8 * c, 8 * c + 8),
{
    let n = key.len() / 8;
    let m = key.len() / 4;
    let sched = expanded_key(key, rounds);
    if n < rounds {
        let kw = key_words(key);
        assert(words_wf(kw));
        lemma_grow_words(kw, n as int, m as int, 0, 2 * rounds);
        let w = grow(kw, n as int, m as int, 0, 2 * rounds);
        assert forall|c: int| 0 <= c < rounds implies #[trigger] sched[c].len() == 8 by {
            assert(w[2 * c].len() == 4);
            assert(w[2 * c + 1].len() == 4);
        }
        assert forall|c: int| 0 <= c < rounds && 8 * c + 8 <= key.len() implies #[trigger] sched[c]
            == key.subrange(8 * c, 8 * c + 8) by {
            assert(w[2 * c] == kw[2 * c]);
            assert(w[2 * c + 1] == kw[2 * c + 1]);
            assert(sched[c] =~= key.subrange(8 * c, 8 * c + 8));
        }
    }
}

/// Round trip: for every key of at least eight symbols and any number of rounds, decrypting the
/// encryption of a sequence of whole blocks gives the sequence back.
pub proof fn lemma_round_trip(key: Seq<DNA>, rounds: nat, p: Seq<DNA>)
    requires
        key_accepted(key.len()),
        p.len() % 64 == 0,
    ensures
        decrypt_spec(expanded_key(key, rounds), encrypt_spec(expanded_key(key, rounds), p))
            == Ok::<Seq<DNA>, CipherError>(p),
{
    lemma_expanded_key_wf(key, rounds);
    lemma_decrypt_encrypt(expanded_key(key, rounds), p);
}

/// Round trip on an engine: its `decrypt` undoes its `encrypt` on whole blocks.
pub proof fn lemma_engine_round_trip(e: &DNAC, p: Seq<DNA>)
    requires
        p.len() % 64 == 0,
    ensures
        decrypt_spec(e.schedule(), encrypt_spec(e.schedule(), p)) == Ok::<Seq<DNA>, CipherError>(p),
{
    e.lemma_schedule_keys();
    lemma_decrypt_encrypt(e.schedule(), p);
}

/// Determinism: two engines built from the same key for the same number of
/// rounds hold the same round keys and encrypt every input alike.
pub proof fn lemma_same_key_same_cipher(a: &DNAC, b: &DNAC, key: Seq<DNA>, rounds: nat, p: Seq<DNA>)
    requires
        a.schedule() == expanded_key(key, rounds),
        b.schedule() == expanded_key(key, rounds),
    ensures
        a.schedule() == b.schedule(),
        encrypt_spec(a.schedule(), p) == encrypt_spec(b.schedule(), p),
{
}

/// A ciphertext that is not made of whole blocks is refused, with no output.
pub proof fn lemma_decrypt_rejects_partial(sched: Seq<Seq<DNA>>, c: Seq<DNA>)
    requires
        c.len() % 64 != 0,
    ensures
        decrypt_spec(sched, c) == Err::<Seq<DNA>, CipherError>(CipherError::InvalidCiphertextLength),
{
}

} // verus!
