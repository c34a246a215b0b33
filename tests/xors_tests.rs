use dnac::dna::xors::{dnaxor_1, dnaxor_2, dnaxor_3, dnaxor_4, dnaxor_5, dnaxor_6};
use dnac::dna::DNA;

#[test]
fn test_dnaxor_1() {
    for a in [DNA::A, DNA::C, DNA::G, DNA::T] {
        for b in [DNA::A, DNA::C, DNA::G, DNA::T] {
            assert_eq!(dnaxor_1(dnaxor_1(a, b), b), a);
        }
    }
}

#[test]
fn test_dnaxor_2() {
    for a in [DNA::A, DNA::C, DNA::G, DNA::T] {
        for b in [DNA::A, DNA::C, DNA::G, DNA::T] {
            assert_eq!(dnaxor_2(dnaxor_2(a, b), b), a);
        }
    }
}

#[test]
fn test_dnaxor_3() {
    for a in [DNA::A, DNA::C, DNA::G, DNA::T] {
        for b in [DNA::A, DNA::C, DNA::G, DNA::T] {
            assert_eq!(dnaxor_3(dnaxor_3(a, b), b), a);
        }
    }
}

#[test]
fn test_dnaxor_4() {
    for a in [DNA::A, DNA::C, DNA::G, DNA::T] {
        for b in [DNA::A, DNA::C, DNA::G, DNA::T] {
            assert_eq!(dnaxor_4(dnaxor_4(a, b), b), a);
        }
    }
}

#[test]
fn test_dnaxor_5() {
    for a in [DNA::A, DNA::C, DNA::G, DNA::T] {
        for b in [DNA::A, DNA::C, DNA::G, DNA::T] {
            assert_eq!(dnaxor_5(dnaxor_5(a, b), b), a);
        }
    }
}

#[test]
fn test_dnaxor_6() {
    for a in [DNA::A, DNA::C, DNA::G, DNA::T] {
        for b in [DNA::A, DNA::C, DNA::G, DNA::T] {
            assert_eq!(dnaxor_6(dnaxor_6(a, b), b), a);
        }
    }
}
