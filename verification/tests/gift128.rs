use gift::gift128::{packing, precompute_rkeys, unpacking};
use gift::key_schedule::{
    key_double_update_1, key_double_update_2, key_double_update_3, key_double_update_4,
    key_triple_update_0, key_triple_update_1, key_triple_update_2, key_triple_update_3,
    key_triple_update_4, reaarrange_rkey_0, reaarrange_rkey_1, reaarrange_rkey_2,
    reaarrange_rkey_3,
};
use gift::primitives::{key_update, swapmovesingle};

const KEY: [u8; 16] = [
    0x2b, 0x7e, 0x15, 0x16, 0x28, 0xae, 0xd2, 0xa6, 0xab, 0xf7, 0x15, 0x88, 0x09, 0xcf, 0x4f, 0x3c,
];

const FIXSLICED_RKEYS: [u32; 80] = [
    0x2688fe67, 0xe4b43ae0, 0x50bf0ef8, 0x80ee6e78, 0x3e331265,
    0xa4ad705f, 0x6ef13550, 0x39e0b8f6, 0xc273f3c4, 0x8a2b2a6d,
    0xb736721a, 0x3e86323e, 0x6eedd080, 0xc653d663, 0xea9e6246,
    0xeee223a9, 0xa98997b5, 0x02dd86ba, 0x7abf8815, 0xe2b71615,
    0xf95824f0, 0xccb917aa, 0x08bbe6e1, 0x41fd38c7, 0xf8750ea5,
    0x313247b6, 0x9670d2f9, 0x97a89af0, 0xb8a26d2a, 0xcf094f3c,
    0x3d79320e, 0xb135a537, 0x6c4d6d8d, 0xb96f4304, 0xa323ecea,
    0xb6606ee8, 0x08e749da, 0xccdcab2a, 0x7e2b1516, 0xfdea5881,
    0xef550875, 0x28d0f879, 0x14f7831f, 0x20dd9b0f, 0x6716b330,
    0x55ae0fd2, 0xcd52caf0, 0xe3f061dc, 0x9cf03c4f, 0x8ae2a6d2,
    0x523b7939, 0x323d0d79, 0x9bbd3410, 0xb16ab56c, 0x646abce2,
    0x2bceea23, 0x63e35e1a, 0x24eb0cb5, 0xafde8158, 0xadf86151,
    0x34f2e494, 0x2688fe67, 0x0277b93c, 0x50bf0ef8, 0xaf5ad704,
    0x3e331265, 0x7cf034e3, 0x6ef13550, 0x28aed2a6, 0xc273f3c4,
    0x023e3eb5, 0xb736721a, 0x1ba95bb1, 0x6eedd080, 0xcaab236e,
    0xea9e6246, 0x117e03d5, 0xa98997b5, 0x8adf5161, 0x7abf8815,
];

fn rearranged(x: u32, layout: usize) -> u32 {
    let mut y = x;
    match layout {
        0 => reaarrange_rkey_0(&mut y),
        1 => reaarrange_rkey_1(&mut y),
        2 => reaarrange_rkey_2(&mut y),
        3 => reaarrange_rkey_3(&mut y),
        _ => {}
    }
    y
}

fn classical_rkeys(key: &[u8; 16]) -> Vec<u32> {
    let word = |i: usize| u32::from_be_bytes([key[4 * i], key[4 * i + 1], key[4 * i + 2], key[4 * i + 3]]);
    let mut w = vec![word(3), word(1), word(2), word(0)];
    while w.len() < 80 {
        let n = w.len() - 4;
        let a = w[n + 1];
        let b = key_update(&w[n]);
        w.push(a);
        w.push(b);
    }
    w
}

#[test]
fn packing_gathers_bit_i_of_every_nibble_in_word_i() {
    let block = [
        0x00u8, 0x11, 0x22, 0x33, 0x44, 0x55, 0x66, 0x77, 0x88, 0x99, 0xaa, 0xbb, 0xcc, 0xdd, 0xee,
        0xff,
    ];
    let mut state = [0u32; 4];
    packing(&mut state, &block);
    assert_eq!(state, [0x33333333, 0x0f0f0f0f, 0x00ff00ff, 0x0000ffff]);
    // a single set bit: bit g of the block (big-endian) goes to bit g / 4 of word g % 4
    for g in 0..128usize {
        let mut block = [0u8; 16];
        block[15 - g / 8] = 1 << (g % 8);
        let mut state = [0u32; 4];
        packing(&mut state, &block);
        let mut expected = [0u32; 4];
        expected[g % 4] = 1 << (g / 4);
        assert_eq!(state, expected);
    }
}

#[test]
fn packing_leaves_the_rest_of_the_state_alone() {
    let mut state = [7u32; 6];
    let mut input = [0u8; 20];
    input[16] = 0xaa;
    packing(&mut state, &input);
    assert_eq!(state, [0, 0, 0, 0, 7, 7]);
}

#[test]
fn unpacking_undoes_packing() {
    let mut x = 0x9e3779b9u32;
    for _ in 0..50 {
        let mut block = [0u8; 16];
        for b in block.iter_mut() {
            x ^= x << 13;
            x ^= x >> 17;
            x ^= x << 5;
            *b = x as u8;
        }
        let mut state = [0u32; 4];
        packing(&mut state, &block);
        let mut out = [0u8; 16];
        unpacking(&state, &mut out);
        assert_eq!(out, block);
    }
}

#[test]
fn packing_undoes_unpacking() {
    let states = [
        [0u32, 0, 0, 0],
        [0x01234567, 0x89abcdef, 0xfedcba98, 0x76543210],
        [0xffffffff, 0, 0xdeadbeef, 0x80000001],
    ];
    for s in states {
        let mut block = [0u8; 16];
        unpacking(&s, &mut block);
        let mut back = [0u32; 4];
        packing(&mut back, &block);
        assert_eq!(back, s);
    }
}

#[test]
fn unpacking_leaves_the_rest_of_the_output_alone() {
    let mut out = [0x5au8; 18];
    unpacking(&[0x33333333, 0x0f0f0f0f, 0x00ff00ff, 0x0000ffff, 9], &mut out);
    assert_eq!(
        out,
        [
            0x00, 0x11, 0x22, 0x33, 0x44, 0x55, 0x66, 0x77, 0x88, 0x99, 0xaa, 0xbb, 0xcc, 0xdd, 0xee,
            0xff, 0x5a, 0x5a
        ]
    );
}

#[test]
fn rearrangements_values() {
    let x = 0x0123abcd;
    assert_eq!(rearranged(x, 0), 0xc860c86f);
    assert_eq!(rearranged(x, 1), 0x5fa0d888);
    assert_eq!(rearranged(x, 2), 0xe525d111);
    assert_eq!(rearranged(x, 3), 0x553c030f);
    assert_eq!(rearranged(0, 2), 0);
    assert_eq!(rearranged(0xffffffff, 3), 0xffffffff);
}

#[test]
fn fixsliced_updates_values() {
    let x = 0x0123abcd;
    assert_eq!(key_triple_update_0(&x), 0xabef0101);
    assert_eq!(key_double_update_1(&x), 0x108cba37);
    assert_eq!(key_triple_update_1(&x), 0x0419ae6e);
    assert_eq!(key_double_update_2(&x), 0x23ef8901);
    assert_eq!(key_triple_update_2(&x), 0x2ba9c503);
    assert_eq!(key_double_update_3(&x), 0x041c5e67);
    assert_eq!(key_triple_update_3(&x), 0x58690d8e);
    assert_eq!(key_double_update_4(&x), 0x3012cdab);
    assert_eq!(key_triple_update_4(&x), 0x8c04dabc);
}

#[test]
fn fixsliced_updates_agree_with_classical_updates() {
    for y in [0u32, 1, 0x0123abcd, 0xdeadbeef, 0x80000000, 0xffffffff] {
        let u2 = key_update(&key_update(&y));
        let u3 = key_update(&u2);
        let mut t = key_triple_update_0(&rearranged(y, 0));
        swapmovesingle(&mut t, 0x55551100, 1);
        assert_eq!(t, rearranged(u3, 0));
        assert_eq!(key_double_update_1(&rearranged(y, 1)), rearranged(u2, 1));
        assert_eq!(key_triple_update_1(&rearranged(y, 1)), rearranged(u3, 1));
        assert_eq!(key_double_update_2(&rearranged(y, 2)), rearranged(u2, 2));
        assert_eq!(key_triple_update_2(&rearranged(y, 2)), rearranged(u3, 2));
        assert_eq!(key_double_update_3(&rearranged(y, 3)), rearranged(u2, 3));
        assert_eq!(key_triple_update_3(&rearranged(y, 3)), rearranged(u3, 3));
        assert_eq!(key_double_update_4(&y), u2);
        assert_eq!(key_triple_update_4(&y), u3);
    }
}

#[test]
fn precompute_rkeys_values() {
    let mut rkey = [0u32; 80];
    precompute_rkeys(&mut rkey, &KEY);
    assert_eq!(rkey, FIXSLICED_RKEYS);
}

#[test]
fn precompute_rkeys_first_words_are_rearranged_key_words() {
    let mut rkey = [0u32; 80];
    precompute_rkeys(&mut rkey, &KEY);
    let mut w = 0x09cf4f3cu32; // key bytes 12 to 15, big-endian
    reaarrange_rkey_0(&mut w);
    assert_eq!(rkey[0], w);
    let mut w = 0x28aed2a6u32; // key bytes 4 to 7
    reaarrange_rkey_0(&mut w);
    assert_eq!(rkey[1], w);
}

#[test]
fn precompute_rkeys_matches_the_classical_schedule() {
    let keys = [KEY, [0u8; 16], [0xff; 16], [
        0, 1, 2, 3, 4, 5, 6, 7, 8, 9, 10, 11, 12, 13, 14, 15,
    ]];
    for key in keys {
        let mut rkey = [0u32; 80];
        precompute_rkeys(&mut rkey, &key);
        let classical = classical_rkeys(&key);
        for n in 0..80 {
            assert_eq!(rkey[n], rearranged(classical[n], (n / 2) % 5));
        }
    }
}

#[test]
fn precompute_rkeys_leaves_words_past_eighty_alone() {
    let mut rkey = [0xabcdefu32; 83];
    precompute_rkeys(&mut rkey, &KEY);
    assert_eq!(&rkey[..80], &FIXSLICED_RKEYS[..]);
    assert_eq!(&rkey[80..], &[0xabcdef, 0xabcdef, 0xabcdef]);
}

#[test]
fn packing_and_unpacking_move_bits_without_changing_them() {
    let a = [
        0x2bu8, 0x7e, 0x15, 0x16, 0x28, 0xae, 0xd2, 0xa6, 0xab, 0xf7, 0x15, 0x88, 0x09, 0xcf, 0x4f,
        0x3c,
    ];
    let b = [
        0x00u8, 0x11, 0x22, 0x33, 0x44, 0x55, 0x66, 0x77, 0x88, 0x99, 0xaa, 0xbb, 0xcc, 0xdd, 0xee,
        0xff,
    ];
    let mut c = [0u8; 16];
    for j in 0..16 {
        c[j] = a[j] ^ b[j];
    }
    let (mut sa, mut sb, mut sc) = ([0u32; 4], [0u32; 4], [0u32; 4]);
    packing(&mut sa, &a);
    packing(&mut sb, &b);
    packing(&mut sc, &c);
    for k in 0..4 {
        assert_eq!(sc[k], sa[k] ^ sb[k]);
    }
    let words: u32 = sa.iter().map(|w| w.count_ones()).sum();
    let bytes: u32 = a.iter().map(|x| x.count_ones()).sum();
    assert_eq!(words, bytes);

    let (mut oa, mut ob, mut oc) = ([0u8; 16], [0u8; 16], [0u8; 16]);
    let s1 = [0x01234567u32, 0x89abcdef, 0xfedcba98, 0x76543210];
    let s2 = [0xdeadbeefu32, 0, 0xffffffff, 0x80000001];
    let s3 = [s1[0] ^ s2[0], s1[1] ^ s2[1], s1[2] ^ s2[2], s1[3] ^ s2[3]];
    unpacking(&s1, &mut oa);
    unpacking(&s2, &mut ob);
    unpacking(&s3, &mut oc);
    for j in 0..16 {
        assert_eq!(oc[j], oa[j] ^ ob[j]);
    }
    let bytes: u32 = oa.iter().map(|x| x.count_ones()).sum();
    let words: u32 = s1.iter().map(|w| w.count_ones()).sum();
    assert_eq!(bytes, words);
}

#[test]
fn rearrangements_permute_bits() {
    for (x, y) in [(0x0123abcdu32, 0xdeadbeefu32), (1, 0x80000000), (0xffffffff, 0x0f0f0f0f)] {
        for layout in 0..4 {
            assert_eq!(rearranged(x ^ y, layout), rearranged(x, layout) ^ rearranged(y, layout));
            assert_eq!(rearranged(x, layout).count_ones(), x.count_ones());
        }
    }
    // a single bit goes to a single bit
    for p in 0..32 {
        assert_eq!(rearranged(1 << p, 1).count_ones(), 1);
    }
}
