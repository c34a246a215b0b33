use dnac::dna::xors::{
    dnaxor_1, dnaxor_2, dnaxor_3, dnaxor_4, dnaxor_5, dnaxor_6, get_xor, word_xor, XorOp,
};
use dnac::dna::{binary_to_DNA, DNAWord, DNA_to_binary, DNA};

const ALL: [DNA; 4] = [DNA::A, DNA::C, DNA::G, DNA::T];

#[test]
fn encode_decode_round_trip_for_every_byte() {
    for b in 0..=255u8 {
        assert_eq!(DNA_to_binary(&binary_to_DNA(&b)), b);
    }
    for a in ALL {
        for b in ALL {
            for c in ALL {
                for d in ALL {
                    let w = [a, b, c, d];
                    assert_eq!(binary_to_DNA(&DNA_to_binary(&w)), w);
                }
            }
        }
    }
}

#[test]
fn plain_operator_is_commutative_group() {
    for a in ALL {
        assert_eq!(dnaxor_1(DNA::A, a), a);
        assert_eq!(dnaxor_1(a, a), DNA::A);
        for b in ALL {
            assert_eq!(dnaxor_1(a, b), dnaxor_1(b, a));
        }
    }
    assert_eq!(dnaxor_1(DNA::C, DNA::G), DNA::T);
    assert_eq!(dnaxor_1(DNA::G, DNA::T), DNA::C);
}

#[test]
fn other_operators_exact_values() {
    assert_eq!(dnaxor_2(DNA::A, DNA::G), DNA::T);
    assert_eq!(dnaxor_3(DNA::C, DNA::C), DNA::T);
    assert_eq!(dnaxor_4(DNA::T, DNA::T), DNA::G);
    assert_eq!(dnaxor_5(DNA::G, DNA::T), DNA::A);
    assert_eq!(dnaxor_6(DNA::C, DNA::C), DNA::G);
    assert_ne!(dnaxor_2(DNA::A, DNA::G), dnaxor_2(DNA::G, DNA::A));
}

#[test]
fn selector_partitions_the_pairs() {
    let fns: [fn(DNA, DNA) -> DNA; 6] = [dnaxor_1, dnaxor_2, dnaxor_3, dnaxor_4, dnaxor_5, dnaxor_6];
    for x in ALL {
        for y in ALL {
            let op = get_xor(&[x, y]);
            let expected = if x == y {
                XorOp::Plain
            } else {
                match x {
                    DNA::A => XorOp::SwapGT,
                    DNA::C => XorOp::SwapCG,
                    DNA::G => XorOp::CycleCGT,
                    DNA::T => XorOp::CycleCTG,
                }
            };
            assert_eq!(op, expected);
            assert_ne!(op, XorOp::SwapCT);
            let idx = match op {
                XorOp::Plain => 0,
                XorOp::SwapGT => 1,
                XorOp::SwapCG => 2,
                XorOp::CycleCGT => 3,
                XorOp::CycleCTG => 4,
                XorOp::SwapCT => 5,
            };
            for a in ALL {
                for b in ALL {
                    assert_eq!(op.apply(a, b), fns[idx](a, b));
                    assert_eq!(op.apply(op.apply(a, b), b), a);
                }
            }
        }
    }
    assert_eq!(get_xor(&[DNA::A]), XorOp::SwapCT);
    assert_eq!(get_xor(&[DNA::A, DNA::C, DNA::G]), XorOp::SwapCT);
}

#[test]
fn words_combine_symbol_by_symbol() {
    let a = [DNA::A, DNA::C, DNA::G, DNA::T];
    let b = [DNA::C, DNA::C, DNA::T, DNA::G];
    assert_eq!(word_xor(a, b), [DNA::C, DNA::A, DNA::C, DNA::C]);
    let w = DNAWord(a) ^ DNAWord(b);
    assert_eq!(w.0, [DNA::C, DNA::A, DNA::C, DNA::C]);
}

#[test]
fn add_and_sub_tables() {
    for b in ALL {
        assert_eq!(DNA::C + b, b);
    }
    assert_eq!(DNA::G + DNA::T, DNA::A);
    assert_eq!(DNA::T - DNA::C, DNA::G);
    assert_eq!(DNA::C - DNA::G, DNA::G);
}
