use dnac::bits::{powerset, BitsAll, BitsOne, BitsTwo};

fn differing_bits(a: &[u8; 16], b: &[u8; 16]) -> u32 {
    a.iter().zip(b.iter()).map(|(x, y)| (x ^ y).count_ones()).sum()
}

#[test]
fn powerset_lists_subsets_by_bit_pattern() {
    let p = powerset(&[10usize, 20, 30]);
    assert_eq!(
        p,
        vec![
            vec![],
            vec![10],
            vec![20],
            vec![10, 20],
            vec![30],
            vec![10, 30],
            vec![20, 30],
            vec![10, 20, 30],
        ]
    );
    assert_eq!(powerset::<u8>(&[]), vec![Vec::<u8>::new()]);
}

#[test]
fn bits_one_flips_each_bit_once() {
    let base = [0x5au8; 16];
    let mut it = BitsOne::new(base);
    let first = it.next().unwrap();
    assert_eq!(first[0], 0xda);
    assert_eq!(first[1..], base[1..]);
    let mut count = 1;
    while let Some(b) = it.next() {
        assert_eq!(differing_bits(&base, &b), 1);
        count += 1;
    }
    assert_eq!(count, 128);
    assert_eq!(it.next(), None);
}

#[test]
fn bits_two_flips_each_pair_once() {
    let base = [0u8; 16];
    let mut it = BitsTwo::new(base);
    let first = it.next().unwrap();
    assert_eq!(first[0], 0b1100_0000);
    let mut count = 1;
    let mut last = first;
    while let Some(b) = it.next() {
        assert_eq!(differing_bits(&base, &b), 2);
        last = b;
        count += 1;
    }
    assert_eq!(count, 128 * 127 / 2);
    assert_eq!(last[15], 0b0000_0011);
    assert_eq!(it.next(), None);
}

#[test]
fn bits_all_flips_every_subset_of_leading_bits() {
    let base = [0u8; 16];
    let mut it = BitsAll::new(base, 3);
    let mut outs = Vec::new();
    while let Some(b) = it.next() {
        outs.push(b[0]);
        assert_eq!(b[1..], base[1..]);
    }
    assert_eq!(outs, vec![0x00, 0x80, 0x40, 0xc0, 0x20, 0xa0, 0x60, 0xe0]);
}
