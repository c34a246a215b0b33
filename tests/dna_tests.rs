use dnac::dna::{binary_to_DNA, DNA_to_binary, DNA};

#[test]
fn dna_test_xor() {
    assert_eq!(DNA::A ^ DNA::A, DNA::A);
    assert_eq!((DNA::A ^ DNA::G) ^ DNA::G, DNA::A);
}

#[test]
fn dna_test_sub() {
    assert_eq!(DNA::A - DNA::A, DNA::A);
    assert_eq!((DNA::A - DNA::G) - DNA::T, DNA::A);
}

#[test]
fn dna_test_add() {
    assert_eq!(DNA::A + DNA::A, DNA::T);
    assert_eq!((DNA::A + DNA::G) + DNA::G, DNA::G);
}

#[test]
#[allow(non_snake_case)]
fn dna_test_binary_to_DNA() {
    assert_eq!(
        binary_to_DNA(&0b00011011_u8).to_vec(),
        vec![DNA::A, DNA::G, DNA::C, DNA::T]
    );
    assert_eq!(
        binary_to_DNA(&0b00000000_u8).to_vec(),
        vec![DNA::A, DNA::A, DNA::A, DNA::A]
    );
    assert_eq!(
        binary_to_DNA(&0b01010101_u8).to_vec(),
        vec![DNA::G, DNA::G, DNA::G, DNA::G]
    );
    assert_eq!(
        binary_to_DNA(&0b10101010_u8).to_vec(),
        vec![DNA::C, DNA::C, DNA::C, DNA::C]
    );
    assert_eq!(
        binary_to_DNA(&0b11111111_u8).to_vec(),
        vec![DNA::T, DNA::T, DNA::T, DNA::T]
    );
}

#[test]
#[allow(non_snake_case)]
fn dna_test_DNA_to_binary() {
    assert_eq!(
        DNA_to_binary(&[DNA::A, DNA::G, DNA::C, DNA::T]),
        0b00011011_u8
    );
    assert_eq!(
        DNA_to_binary(&[DNA::A, DNA::A, DNA::A, DNA::A]),
        0b00000000_u8
    );
    assert_eq!(
        DNA_to_binary(&[DNA::G, DNA::G, DNA::G, DNA::G]),
        0b01010101_u8
    );
    assert_eq!(
        DNA_to_binary(&[DNA::C, DNA::C, DNA::C, DNA::C]),
        0b10101010_u8
    );
    assert_eq!(
        DNA_to_binary(&[DNA::T, DNA::T, DNA::T, DNA::T]),
        0b11111111_u8
    );
}

#[test]
fn mod_test_xor() {
    assert_eq!(DNA::A ^ DNA::A, DNA::A);
    assert_eq!((DNA::A ^ DNA::G) ^ DNA::G, DNA::A);
}

#[test]
fn mod_test_sub() {
    assert_eq!(DNA::A - DNA::A, DNA::A);
    assert_eq!((DNA::A - DNA::G) - DNA::T, DNA::A);
}

#[test]
fn mod_test_add() {
    assert_eq!(DNA::A + DNA::A, DNA::T);
    assert_eq!((DNA::A + DNA::G) + DNA::G, DNA::G);
}

#[test]
#[allow(non_snake_case)]
fn mod_test_binary_to_DNA() {
    assert_eq!(
        binary_to_DNA(&0b00011011_u8).to_vec(),
        vec![DNA::A, DNA::G, DNA::C, DNA::T]
    );
    assert_eq!(
        binary_to_DNA(&0b00000000_u8).to_vec(),
        vec![DNA::A, DNA::A, DNA::A, DNA::A]
    );
    assert_eq!(
        binary_to_DNA(&0b01010101_u8).to_vec(),
        vec![DNA::G, DNA::G, DNA::G, DNA::G]
    );
    assert_eq!(
        binary_to_DNA(&0b10101010_u8).to_vec(),
        vec![DNA::C, DNA::C, DNA::C, DNA::C]
    );
    assert_eq!(
        binary_to_DNA(&0b11111111_u8).to_vec(),
        vec![DNA::T, DNA::T, DNA::T, DNA::T]
    );
}

#[test]
#[allow(non_snake_case)]
fn mod_test_DNA_to_binary() {
    assert_eq!(
        DNA_to_binary(&[DNA::A, DNA::G, DNA::C, DNA::T]),
        0b00011011_u8
    );
    assert_eq!(
        DNA_to_binary(&[DNA::A, DNA::A, DNA::A, DNA::A]),
        0b00000000_u8
    );
    assert_eq!(
        DNA_to_binary(&[DNA::G, DNA::G, DNA::G, DNA::G]),
        0b01010101_u8
    );
    assert_eq!(
        DNA_to_binary(&[DNA::C, DNA::C, DNA::C, DNA::C]),
        0b10101010_u8
    );
    assert_eq!(
        DNA_to_binary(&[DNA::T, DNA::T, DNA::T, DNA::T]),
        0b11111111_u8
    );
}
