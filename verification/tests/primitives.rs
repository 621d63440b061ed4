use gift::primitives::{
    byte_ror_2, byte_ror_4, byte_ror_6, half_ror_12, half_ror_4, half_ror_8, inv_sbox, key_update,
    nibble_ror_1, nibble_ror_2, nibble_ror_3, quintuple_round, ror, sbox, swapmove,
    swapmovesingle, u32big,
};

const SAMPLES: [u32; 6] = [0, 1, 0x0123abcd, 0x80000000, 0xdeadbeef, 0xffffffff];

const GIFT_S: [u32; 16] = [
    0x1, 0xa, 0x4, 0xc, 0x6, 0xf, 0x3, 0x9, 0x2, 0xd, 0xb, 0x7, 0x5, 0x0, 0x8, 0xe,
];

fn column(w0: u32, w1: u32, w2: u32, w3: u32, p: u32) -> u32 {
    ((w0 >> p) & 1) | (((w1 >> p) & 1) << 1) | (((w2 >> p) & 1) << 2) | (((w3 >> p) & 1) << 3)
}

#[test]
fn key_update_rotates_the_two_halves() {
    assert_eq!(key_update(&0x0123abcd), 0xc048bcda);
    // high half 0x0123 rotated right by 2, low half 0xabcd rotated right by 12
    assert_eq!(key_update(&0x00010000), 0x40000000);
    assert_eq!(key_update(&0x00000001), 0x00000010);
    assert_eq!(key_update(&0xffffffff), 0xffffffff);
}

#[test]
fn u32big_reverses_bytes() {
    assert_eq!(u32big(&0x0123abcd), 0xcdab2301);
    assert_eq!(u32big(&0x11223344), 0x44332211);
    for x in SAMPLES {
        assert_eq!(u32big(&u32big(&x)), x);
    }
}

#[test]
fn ror_rotates_the_word() {
    assert_eq!(ror(&0x0123abcd, &8), 0xcd0123ab);
    assert_eq!(ror(&0x0123abcd, &1), 0x8091d5e6);
    assert_eq!(ror(&0x0123abcd, &31), 0x0247579a);
    assert_eq!(ror(&1, &1), 0x80000000);
    for x in SAMPLES {
        for k in 1..32u32 {
            assert_eq!(ror(&ror(&x, &k), &(32 - k)), x);
        }
    }
}

#[test]
fn lane_rotations_values() {
    let x = 0x0123abcd;
    assert_eq!(byte_ror_2(&x), 0x40c8ea73);
    assert_eq!(byte_ror_4(&x), 0x1032badc);
    assert_eq!(byte_ror_6(&x), 0x048cae37);
    assert_eq!(half_ror_4(&x), 0x3012dabc);
    assert_eq!(half_ror_8(&x), 0x2301cdab);
    assert_eq!(half_ror_12(&x), 0x1230bcda);
    assert_eq!(nibble_ror_1(&x), 0x08195d6e);
    assert_eq!(nibble_ror_2(&x), 0x048cae37);
    assert_eq!(nibble_ror_3(&x), 0x0246579b);
    assert_eq!(nibble_ror_1(&0x11111111), 0x88888888);
    assert_eq!(byte_ror_2(&0x01010101), 0x40404040);
    assert_eq!(half_ror_4(&0x00010001), 0x10001000);
}

#[test]
fn lane_rotations_undo_each_other() {
    for x in SAMPLES {
        assert_eq!(byte_ror_6(&byte_ror_2(&x)), x);
        assert_eq!(byte_ror_2(&byte_ror_6(&x)), x);
        assert_eq!(byte_ror_4(&byte_ror_4(&x)), x);
        assert_eq!(half_ror_12(&half_ror_4(&x)), x);
        assert_eq!(half_ror_4(&half_ror_12(&x)), x);
        assert_eq!(half_ror_8(&half_ror_8(&x)), x);
        assert_eq!(nibble_ror_3(&nibble_ror_1(&x)), x);
        assert_eq!(nibble_ror_1(&nibble_ror_3(&x)), x);
        assert_eq!(nibble_ror_2(&nibble_ror_2(&x)), x);
    }
}

#[test]
fn swapmove_values_and_involution() {
    let mut a = 0x12345678u32;
    let mut b = 0x9abcdef0u32;
    swapmove(&mut a, &mut b, 0x000f000f, 4);
    assert_eq!((a, b), (0x12c45608, 0x9ab3def7));
    swapmove(&mut a, &mut b, 0x000f000f, 4);
    assert_eq!((a, b), (0x12345678, 0x9abcdef0));
    // a zero mask exchanges nothing
    swapmove(&mut a, &mut b, 0, 7);
    assert_eq!((a, b), (0x12345678, 0x9abcdef0));
}

#[test]
fn swapmovesingle_values_and_involution() {
    let mut a = 0x0123abcdu32;
    swapmovesingle(&mut a, 0x0a0a0a0a, 3);
    assert_eq!(a, 0x0131f1cd);
    swapmovesingle(&mut a, 0x0a0a0a0a, 3);
    assert_eq!(a, 0x0123abcd);
    let mut b = 0x00000001u32;
    swapmovesingle(&mut b, 0x00000001, 31);
    assert_eq!(b, 0x80000000);
}

#[test]
fn sbox_values() {
    let (mut s0, mut s1, mut s2, mut s3) = (0x01234567u32, 0x89abcdefu32, 0xfedcba98u32, 0x76543210u32);
    sbox(&mut s0, &mut s1, &mut s2, &mut s3);
    assert_eq!((s0, s1, s2, s3), (0x01234567, 0x88888888, 0x77777777, 0xfedcba98));
    let (mut s0, mut s1, mut s2, mut s3) = (0x01234567u32, 0x89abcdefu32, 0xfedcba98u32, 0x76543210u32);
    inv_sbox(&mut s0, &mut s1, &mut s2, &mut s3);
    assert_eq!((s0, s1, s2, s3), (0x00000000, 0x77777777, 0x89abcdef, 0x76543210));
}

#[test]
fn sbox_applies_the_gift_sbox_to_every_column() {
    // all sixteen columns side by side: column v at bit positions v and v + 16
    let mut w = [0u32; 4];
    for v in 0..16u32 {
        for i in 0..4 {
            if (v >> i) & 1 == 1 {
                w[i] |= (1 << v) | (1 << (v + 16));
            }
        }
    }
    let (a0, a1, a2, a3) = (w[0], w[1], w[2], w[3]);
    let (mut s0, mut s1, mut s2, mut s3) = (a0, a1, a2, a3);
    sbox(&mut s0, &mut s1, &mut s2, &mut s3);
    for p in 0..32u32 {
        assert_eq!(column(s3, s1, s2, s0, p), GIFT_S[column(a0, a1, a2, a3, p) as usize]);
    }
    // the inverse S-box, with the first and last words exchanged, restores them
    inv_sbox(&mut s3, &mut s1, &mut s2, &mut s0);
    assert_eq!((s0, s1, s2, s3), (a0, a1, a2, a3));
}

#[test]
fn inv_sbox_is_undone_by_sbox() {
    let (a0, a1, a2, a3) = (0xdeadbeefu32, 0x01234567u32, 0xcafebabeu32, 0x0badf00du32);
    let (mut s0, mut s1, mut s2, mut s3) = (a0, a1, a2, a3);
    inv_sbox(&mut s0, &mut s1, &mut s2, &mut s3);
    sbox(&mut s3, &mut s1, &mut s2, &mut s0);
    assert_eq!((s0, s1, s2, s3), (a0, a1, a2, a3));
}

#[test]
fn quintuple_round_values() {
    let mut state = [0x01234567u32, 0x89abcdef, 0xfedcba98, 0x76543210];
    quintuple_round(&mut state, [1, 2, 3, 4, 5, 6, 7, 8, 9, 10], [0x11, 0x22, 0x33, 0x44, 0x55]);
    assert_eq!(state, [0xa2b3e691, 0xeb14ea6b, 0x6ed4ccfc, 0xc04891c4]);
}

#[test]
fn quintuple_round_with_zero_keys_only_permutes_within_words() {
    let mut state = [0u32, 0, 0, 0];
    quintuple_round(&mut state, [0; 10], [0; 5]);
    assert_eq!(state, [0, 0, 0, 0]);
    let mut state = [0xffffffffu32, 0, 0, 0];
    quintuple_round(&mut state, [0; 10], [0; 5]);
    assert_eq!(state, [0, 0, 0, 0xffffffff]);
}

#[test]
fn swapmove_exchanges_the_selected_bits() {
    let (a0, b0, mask, n) = (0x12345678u32, 0x9abcdef0u32, 0x000f000fu32, 4u8);
    let (mut a, mut b) = (a0, b0);
    swapmove(&mut a, &mut b, mask, n);
    assert_eq!(a, (a0 & !(mask << n)) | ((b0 & mask) << n));
    assert_eq!(b, (b0 & !mask) | ((a0 >> n) & mask));
    let mut c = a0;
    swapmovesingle(&mut c, 0x0a0a0a0a, 3);
    let m = 0x0a0a0a0au32;
    assert_eq!(c, (a0 & !(m | (m << 3))) | ((a0 >> 3) & m) | ((a0 & m) << 3));
}

#[test]
fn swapmovesingle_keeps_the_number_of_set_bits() {
    for x in SAMPLES {
        for (mask, n) in [(0x0a0a0a0au32, 3u8), (0x00cc00cc, 6), (0x55551100, 1), (0x000000ff, 24)] {
            let mut y = x;
            swapmovesingle(&mut y, mask, n);
            assert_eq!(y.count_ones(), x.count_ones());
        }
    }
}
