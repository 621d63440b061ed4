//! Moving round-key words between the classical and the fixsliced
//! representations, and updating them in the fixsliced representation.
//!
//! In the fixsliced GIFT-128 the round keys of round `r` are laid out to
//! match the bit order of the state in that round, which repeats every five
//! rounds. `rearrange_j` takes a classical round-key word to the layout of the
//! rounds `r` with `r % 5 == j` (the layout for `j == 4` is the classical one),
//! and `restore_j` takes it back.

use vstd::prelude::*;
use crate::primitives::{
    bit_count, key_update_word, lemma_swapmove_single_bit_count, lemma_swapmove_single_xor,
    lemma_swapmovesingle_involution, ror, rotr32, swapmove_single, swapmovesingle,
};

verus! {

/// A classical round-key word in the layout of rounds `r` with `r % 5 == 0`.
pub open spec fn rearrange_0(x: u32) -> u32 {
    let a = swapmove_single(x, 0x00550055, 9);
    let b = swapmove_single(a, 0x000f000f, 12);
    let c = swapmove_single(b, 0x00003333, 18);
    swapmove_single(c, 0x000000ff, 24)
}

/// A classical round-key word in the layout of rounds `r` with `r % 5 == 1`.
pub open spec fn rearrange_1(x: u32) -> u32 {
    let a = swapmove_single(x, 0x11111111, 3);
    let b = swapmove_single(a, 0x03030303, 6);
    let c = swapmove_single(b, 0x000f000f, 12);
    swapmove_single(c, 0x000000ff, 24)
}

/// A classical round-key word in the layout of rounds `r` with `r % 5 == 2`.
pub open spec fn rearrange_2(x: u32) -> u32 {
    let a = swapmove_single(x, 0x0000aaaa, 15);
    let b = swapmove_single(a, 0x00003333, 18);
    let c = swapmove_single(b, 0x0000f0f0, 12);
    swapmove_single(c, 0x000000ff, 24)
}

/// A classical round-key word in the layout of rounds `r` with `r % 5 == 3`.
pub open spec fn rearrange_3(x: u32) -> u32 {
    let a = swapmove_single(x, 0x0a0a0a0a, 3);
    let b = swapmove_single(a, 0x00cc00cc, 6);
    let c = swapmove_single(b, 0x0000f0f0, 12);
    swapmove_single(c, 0x000000ff, 24)
}

/// The classical round-key word whose `rearrange_0` layout is `x`.
pub open spec fn restore_0(x: u32) -> u32 {
    let a = swapmove_single(x, 0x000000ff, 24);
    let b = swapmove_single(a, 0x00003333, 18);
    let c = swapmove_single(b, 0x000f000f, 12);
    swapmove_single(c, 0x00550055, 9)
}

/// The classical round-key word whose `rearrange_1` layout is `x`.
pub open spec fn restore_1(x: u32) -> u32 {
    let a = swapmove_single(x, 0x000000ff, 24);
    let b = swapmove_single(a, 0x000f000f, 12);
    let c = swapmove_single(b, 0x03030303, 6);
    swapmove_single(c, 0x11111111, 3)
}

/// The classical round-key word whose `rearrange_2` layout is `x`.
pub open spec fn restore_2(x: u32) -> u32 {
    let a = swapmove_single(x, 0x000000ff, 24);
    let b = swapmove_single(a, 0x0000f0f0, 12);
    let c = swapmove_single(b, 0x00003333, 18);
    swapmove_single(c, 0x0000aaaa, 15)
}

/// The classical round-key word whose `rearrange_3` layout is `x`.
pub open spec fn restore_3(x: u32) -> u32 {
    let a = swapmove_single(x, 0x000000ff, 24);
    let b = swapmove_single(a, 0x0000f0f0, 12);
    let c = swapmove_single(b, 0x00cc00cc, 6);
    swapmove_single(c, 0x0a0a0a0a, 3)
}

/// The conditions under which `swapmove_single` with these masks undoes
/// itself hold for every mask of the rearrangements.
proof fn lemma_rearrange_masks()
    by (bit_vector)
    ensures
        0x000000ffu32 & (0x000000ffu32 << 24u8) == 0 && (0x000000ffu32 << 24u8) >> 24u8 == 0x000000ffu32,
        0x00003333u32 & (0x00003333u32 << 18u8) == 0 && (0x00003333u32 << 18u8) >> 18u8 == 0x00003333u32,
        0x0000aaaau32 & (0x0000aaaau32 << 15u8) == 0 && (0x0000aaaau32 << 15u8) >> 15u8 == 0x0000aaaau32,
        0x0000f0f0u32 & (0x0000f0f0u32 << 12u8) == 0 && (0x0000f0f0u32 << 12u8) >> 12u8 == 0x0000f0f0u32,
        0x000f000fu32 & (0x000f000fu32 << 12u8) == 0 && (0x000f000fu32 << 12u8) >> 12u8 == 0x000f000fu32,
        0x00550055u32 & (0x00550055u32 << 9u8) == 0 && (0x00550055u32 << 9u8) >> 9u8 == 0x00550055u32,
        0x00cc00ccu32 & (0x00cc00ccu32 << 6u8) == 0 && (0x00cc00ccu32 << 6u8) >> 6u8 == 0x00cc00ccu32,
        0x03030303u32 & (0x03030303u32 << 6u8) == 0 && (0x03030303u32 << 6u8) >> 6u8 == 0x03030303u32,
        0x0a0a0a0au32 & (0x0a0a0a0au32 << 3u8) == 0 && (0x0a0a0a0au32 << 3u8) >> 3u8 == 0x0a0a0a0au32,
        0x11111111u32 & (0x11111111u32 << 3u8) == 0 && (0x11111111u32 << 3u8) >> 3u8 == 0x11111111u32,
{
}

/// Each rearrangement is undone by the matching restoration, and the other
/// way round.
pub proof fn lemma_rearrange_restore(x: u32)
    ensures
        restore_0(rearrange_0(x)) == x,
        restore_1(rearrange_1(x)) == x,
        restore_2(rearrange_2(x)) == x,
        restore_3(rearrange_3(x)) == x,
        rearrange_0(restore_0(x)) == x,
        rearrange_1(restore_1(x)) == x,
        rearrange_2(restore_2(x)) == x,
        rearrange_3(restore_3(x)) == x,
{
    lemma_rearrange_masks();
    undo_four(x, 0x00550055, 9, 0x000f000f, 12, 0x00003333, 18, 0x000000ff, 24);
    undo_four(x, 0x000000ff, 24, 0x00003333, 18, 0x000f000f, 12, 0x00550055, 9);
    undo_four(x, 0x11111111, 3, 0x03030303, 6, 0x000f000f, 12, 0x000000ff, 24);
    undo_four(x, 0x000000ff, 24, 0x000f000f, 12, 0x03030303, 6, 0x11111111, 3);
    undo_four(x, 0x0000aaaa, 15, 0x00003333, 18, 0x0000f0f0, 12, 0x000000ff, 24);
    undo_four(x, 0x000000ff, 24, 0x0000f0f0, 12, 0x00003333, 18, 0x0000aaaa, 15);
    undo_four(x, 0x0a0a0a0a, 3, 0x00cc00cc, 6, 0x0000f0f0, 12, 0x000000ff, 24);
    undo_four(x, 0x000000ff, 24, 0x0000f0f0, 12, 0x00cc00cc, 6, 0x0a0a0a0a, 3);
}

/// Four `swapmove_single` steps, each of which undoes itself, are undone by
/// the same steps in reverse order.
proof fn undo_four(x: u32, m1: u32, n1: u8, m2: u32, n2: u8, m3: u32, n3: u8, m4: u32, n4: u8)
    requires
        n1 < 32 && m1 & (m1 << n1) == 0 && (m1 << n1) >> n1 == m1,
        n2 < 32 && m2 & (m2 << n2) == 0 && (m2 << n2) >> n2 == m2,
        n3 < 32 && m3 & (m3 << n3) == 0 && (m3 << n3) >> n3 == m3,
        n4 < 32 && m4 & (m4 << n4) == 0 && (m4 << n4) >> n4 == m4,
    ensures
        ({
            let a = swapmove_single(x, m1, n1);
            let b = swapmove_single(a, m2, n2);
            let c = swapmove_single(b, m3, n3);
            let d = swapmove_single(c, m4, n4);
            swapmove_single(
                swapmove_single(swapmove_single(swapmove_single(d, m4, n4), m3, n3), m2, n2),
                m1,
                n1,
            ) == x
        }),
{
    let a = swapmove_single(x, m1, n1);
    let b = swapmove_single(a, m2, n2);
    let c = swapmove_single(b, m3, n3);
    lemma_swapmovesingle_involution(c, m4, n4);
    lemma_swapmovesingle_involution(b, m3, n3);
    lemma_swapmovesingle_involution(a, m2, n2);
    lemma_swapmovesingle_involution(x, m1, n1);
}

/// Each rearrangement is a permutation of the 32 bit positions: it
/// distributes over exclusive or and keeps the number of set bits.
pub proof fn lemma_rearrange_permutes_bits(x: u32, y: u32)
    ensures
        rearrange_0(x ^ y) == rearrange_0(x) ^ rearrange_0(y),
        rearrange_1(x ^ y) == rearrange_1(x) ^ rearrange_1(y),
        rearrange_2(x ^ y) == rearrange_2(x) ^ rearrange_2(y),
        rearrange_3(x ^ y) == rearrange_3(x) ^ rearrange_3(y),
        bit_count(rearrange_0(x)) == bit_count(x),
        bit_count(rearrange_1(x)) == bit_count(x),
        bit_count(rearrange_2(x)) == bit_count(x),
        bit_count(rearrange_3(x)) == bit_count(x),
{
    lemma_rearrange_masks();
    four_steps_permute(x, y, 0x00550055, 9, 0x000f000f, 12, 0x00003333, 18, 0x000000ff, 24);
    four_steps_permute(x, y, 0x11111111, 3, 0x03030303, 6, 0x000f000f, 12, 0x000000ff, 24);
    four_steps_permute(x, y, 0x0000aaaa, 15, 0x00003333, 18, 0x0000f0f0, 12, 0x000000ff, 24);
    four_steps_permute(x, y, 0x0a0a0a0a, 3, 0x00cc00cc, 6, 0x0000f0f0, 12, 0x000000ff, 24);
}

/// Four `swapmove_single` steps, each with non-overlapping bits and none
/// shifted out, distribute over exclusive or and keep the number of set bits.
proof fn four_steps_permute(
    x: u32,
    y: u32,
    m1: u32,
    n1: u8,
    m2: u32,
    n2: u8,
    m3: u32,
    n3: u8,
    m4: u32,
    n4: u8,
)
    requires
        n1 < 32 && m1 & (m1 << n1) == 0 && (m1 << n1) >> n1 == m1,
        n2 < 32 && m2 & (m2 << n2) == 0 && (m2 << n2) >> n2 == m2,
        n3 < 32 && m3 & (m3 << n3) == 0 && (m3 << n3) >> n3 == m3,
        n4 < 32 && m4 & (m4 << n4) == 0 && (m4 << n4) >> n4 == m4,
    ensures
        ({
            let f = |v: u32|
                swapmove_single(
                    swapmove_single(swapmove_single(swapmove_single(v, m1, n1), m2, n2), m3, n3),
                    m4,
                    n4,
                );
            &&& f(x ^ y) == f(x) ^ f(y)
            &&& bit_count(f(x)) == bit_count(x)
        }),
{
    let (a1, b1) = (swapmove_single(x, m1, n1), swapmove_single(y, m1, n1));
    let (a2, b2) = (swapmove_single(a1, m2, n2), swapmove_single(b1, m2, n2));
    let (a3, b3) = (swapmove_single(a2, m3, n3), swapmove_single(b2, m3, n3));
    lemma_swapmove_single_xor(x, y, m1, n1);
    lemma_swapmove_single_xor(a1, b1, m2, n2);
    lemma_swapmove_single_xor(a2, b2, m3, n3);
    lemma_swapmove_single_xor(a3, b3, m4, n4);
    lemma_swapmove_single_bit_count(x, m1, n1);
    lemma_swapmove_single_bit_count(a1, m2, n2);
    lemma_swapmove_single_bit_count(a2, m3, n3);
    lemma_swapmove_single_bit_count(a3, m4, n4);
}

/// Moves a classical round-key word into the layout of rounds `r` with
/// `r % 5 == 0`.
pub fn reaarrange_rkey_0(x: &mut u32)
    ensures
        *final(x) == rearrange_0(*old(x)),
{
    swapmovesingle(x, 0x00550055, 9);
    swapmovesingle(x, 0x000f000f, 12);
    swapmovesingle(x, 0x00003333, 18);
    swapmovesingle(x, 0x000000ff, 24);
}

/// Moves a classical round-key word into the layout of rounds `r` with
/// `r % 5 == 1`.
pub fn reaarrange_rkey_1(x: &mut u32)
    ensures
        *final(x) == rearrange_1(*old(x)),
{
    swapmovesingle(x, 0x11111111, 3);
    swapmovesingle(x, 0x03030303, 6);
    swapmovesingle(x, 0x000f000f, 12);
    swapmovesingle(x, 0x000000ff, 24);
}

/// Moves a classical round-key word into the layout of rounds `r` with
/// `r % 5 == 2`.
pub fn reaarrange_rkey_2(x: &mut u32)
    ensures
        *final(x) == rearrange_2(*old(x)),
{
    swapmovesingle(x, 0x0000aaaa, 15);
    swapmovesingle(x, 0x00003333, 18);
    swapmovesingle(x, 0x0000f0f0, 12);
    swapmovesingle(x, 0x000000ff, 24);
}

/// Moves a classical round-key word into the layout of rounds `r` with
/// `r % 5 == 3`.
pub fn reaarrange_rkey_3(x: &mut u32)
    ensures
        *final(x) == rearrange_3(*old(x)),
{
    swapmovesingle(x, 0x0a0a0a0a, 3);
    swapmovesingle(x, 0x00cc00cc, 6);
    swapmovesingle(x, 0x0000f0f0, 12);
    swapmovesingle(x, 0x000000ff, 24);
}

// ---------------------------------------------------------------------------
// Key-state updates carried out directly in the fixsliced layouts: each takes
// a round-key word in the layout of some round and gives the word that the
// same position holds ten rounds later, which is two or three classical
// updates on.
// ---------------------------------------------------------------------------

/// Three classical key-state updates on a round-key word held in the layout
/// of rounds `r` with `r % 5 == 0`.
/// The result is left with its bits under `0x55551100` exchanged with
/// the bits one position above them; `precompute_rkeys` exchanges them back.
pub fn key_triple_update_0(x: &u32) -> (r: u32)
    ensures
        r == swapmove_single(
            rearrange_0(key_update_word(key_update_word(key_update_word(restore_0(*x))))),
            0x55551100,
            1,
        ),
{
    let v = *x;
    let r = ror(&(v & 0x33333333), &24) | ror(&(v & 0xcccccccc), &16);
    proof {
        let y = restore_0(v);
        lemma_rearrange_restore(v);
        let u1 = key_update_word(y);
        let u2 = key_update_word(u1);
        let u3 = key_update_word(u2);
        assert(r == swapmove_single(rearrange_0(u3), 0x55551100, 1)) by (bit_vector)
            requires
                v == rearrange_0(y),
                u1 == key_update_word(y),
                u2 == key_update_word(u1),
                u3 == key_update_word(u2),
                r == (rotr32(v & 0x33333333, 24) | rotr32(v & 0xcccccccc, 16)),
        ;
    }
    r
}

/// Two classical key-state updates on a round-key word held in the layout
/// of rounds `r` with `r % 5 == 1`.
pub fn key_double_update_1(x: &u32) -> (r: u32)
    ensures
        r == rearrange_1(key_update_word(key_update_word(restore_1(*x)))),
{
    let v = *x;
    let r = ((v >> 4) & 0x0f000f00) | ((v & 0x0f000f00) << 4) | ((v >> 6) & 0x00030003)
        | ((v & 0x003f003f) << 2);
    proof {
        let y = restore_1(v);
        lemma_rearrange_restore(v);
        let u1 = key_update_word(y);
        let u2 = key_update_word(u1);
        assert(r == rearrange_1(u2)) by (bit_vector)
            requires
                v == rearrange_1(y),
                u1 == key_update_word(y),
                u2 == key_update_word(u1),
                r == (((v >> 4u32) & 0x0f000f00) | ((v & 0x0f000f00) << 4u32)
                    | ((v >> 6u32) & 0x00030003) | ((v & 0x003f003f) << 2u32)),
        ;
    }
    r
}

/// Three classical key-state updates on a round-key word held in the layout
/// of rounds `r` with `r % 5 == 1`.
pub fn key_triple_update_1(x: &u32) -> (r: u32)
    ensures
        r == rearrange_1(key_update_word(key_update_word(key_update_word(restore_1(*x))))),
{
    let v = *x;
    let r = ((v >> 6) & 0x03000300) | ((v & 0x3f003f00) << 2) | ((v >> 5) & 0x00070007)
        | ((v & 0x001f001f) << 3);
    proof {
        let y = restore_1(v);
        lemma_rearrange_restore(v);
        let u1 = key_update_word(y);
        let u2 = key_update_word(u1);
        let u3 = key_update_word(u2);
        assert(r == rearrange_1(u3)) by (bit_vector)
            requires
                v == rearrange_1(y),
                u1 == key_update_word(y),
                u2 == key_update_word(u1),
                u3 == key_update_word(u2),
                r == (((v >> 6u32) & 0x03000300) | ((v & 0x3f003f00) << 2u32)
                    | ((v >> 5u32) & 0x00070007) | ((v & 0x001f001f) << 3u32)),
        ;
    }
    r
}

/// Two classical key-state updates on a round-key word held in the layout
/// of rounds `r` with `r % 5 == 2`.
pub fn key_double_update_2(x: &u32) -> (r: u32)
    ensures
        r == rearrange_2(key_update_word(key_update_word(restore_2(*x)))),
{
    let v = *x;
    let r = ror(&(v & 0xaaaaaaaa), &24) | ror(&(v & 0x55555555), &16);
    proof {
        let y = restore_2(v);
        lemma_rearrange_restore(v);
        let u1 = key_update_word(y);
        let u2 = key_update_word(u1);
        assert(r == rearrange_2(u2)) by (bit_vector)
            requires
                v == rearrange_2(y),
                u1 == key_update_word(y),
                u2 == key_update_word(u1),
                r == (rotr32(v & 0xaaaaaaaa, 24) | rotr32(v & 0x55555555, 16)),
        ;
    }
    r
}

/// Three classical key-state updates on a round-key word held in the layout
/// of rounds `r` with `r % 5 == 2`.
pub fn key_triple_update_2(x: &u32) -> (r: u32)
    ensures
        r == rearrange_2(key_update_word(key_update_word(key_update_word(restore_2(*x))))),
{
    let v = *x;
    let r = ror(&(v & 0x55555555), &24) | ror(&(v & 0xaaaaaaaa), &20);
    proof {
        let y = restore_2(v);
        lemma_rearrange_restore(v);
        let u1 = key_update_word(y);
        let u2 = key_update_word(u1);
        let u3 = key_update_word(u2);
        assert(r == rearrange_2(u3)) by (bit_vector)
            requires
                v == rearrange_2(y),
                u1 == key_update_word(y),
                u2 == key_update_word(u1),
                u3 == key_update_word(u2),
                r == (rotr32(v & 0x55555555, 24) | rotr32(v & 0xaaaaaaaa, 20)),
        ;
    }
    r
}

/// Two classical key-state updates on a round-key word held in the layout
/// of rounds `r` with `r % 5 == 3`.
pub fn key_double_update_3(x: &u32) -> (r: u32)
    ensures
        r == rearrange_3(key_update_word(key_update_word(restore_3(*x)))),
{
    let v = *x;
    let r = ((v >> 2) & 0x03030303) | ((v & 0x03030303) << 2) | ((v >> 1) & 0x70707070)
        | ((v & 0x10101010) << 3);
    proof {
        let y = restore_3(v);
        lemma_rearrange_restore(v);
        let u1 = key_update_word(y);
        let u2 = key_update_word(u1);
        assert(r == rearrange_3(u2)) by (bit_vector)
            requires
                v == rearrange_3(y),
                u1 == key_update_word(y),
                u2 == key_update_word(u1),
                r == (((v >> 2u32) & 0x03030303) | ((v & 0x03030303) << 2u32)
                    | ((v >> 1u32) & 0x70707070) | ((v & 0x10101010) << 3u32)),
        ;
    }
    r
}

/// Three classical key-state updates on a round-key word held in the layout
/// of rounds `r` with `r % 5 == 3`.
pub fn key_triple_update_3(x: &u32) -> (r: u32)
    ensures
        r == rearrange_3(key_update_word(key_update_word(key_update_word(restore_3(*x))))),
{
    let v = *x;
    let r = ((v >> 18) & 0x00003030) | ((v & 0x01010101) << 3) | ((v >> 14) & 0x0000c0c0)
        | ((v & 0x0000e0e0) << 15) | ((v >> 1) & 0x07070707) | ((v & 0x00001010) << 19);
    proof {
        let y = restore_3(v);
        lemma_rearrange_restore(v);
        let u1 = key_update_word(y);
        let u2 = key_update_word(u1);
        let u3 = key_update_word(u2);
        assert(r == rearrange_3(u3)) by (bit_vector)
            requires
                v == rearrange_3(y),
                u1 == key_update_word(y),
                u2 == key_update_word(u1),
                u3 == key_update_word(u2),
                r == (((v >> 18u32) & 0x00003030) | ((v & 0x01010101) << 3u32)
                    | ((v >> 14u32) & 0x0000c0c0) | ((v & 0x0000e0e0) << 15u32)
                    | ((v >> 1u32) & 0x07070707) | ((v & 0x00001010) << 19u32)),
        ;
    }
    r
}

/// Two classical key-state updates on a round-key word in the layout
/// of rounds `r` with `r % 5 == 4`, which is the classical layout.
pub fn key_double_update_4(x: &u32) -> (r: u32)
    ensures
        r == key_update_word(key_update_word(*x)),
{
    let v = *x;
    let r = ((v >> 4) & 0x0fff0000) | ((v & 0x000f0000) << 12) | ((v >> 8) & 0x000000ff)
        | ((v & 0x000000ff) << 8);
    proof {
        let u1 = key_update_word(v);
        let u2 = key_update_word(u1);
        assert(r == u2) by (bit_vector)
            requires
                u1 == key_update_word(v),
                u2 == key_update_word(u1),
                r == (((v >> 4u32) & 0x0fff0000) | ((v & 0x000f0000) << 12u32)
                    | ((v >> 8u32) & 0x000000ff) | ((v & 0x000000ff) << 8u32)),
        ;
    }
    r
}

/// Three classical key-state updates on a round-key word in the layout
/// of rounds `r` with `r % 5 == 4`, which is the classical layout.
pub fn key_triple_update_4(x: &u32) -> (r: u32)
    ensures
        r == key_update_word(key_update_word(key_update_word(*x))),
{
    let v = *x;
    let r = ((v >> 6) & 0x03ff0000) | ((v & 0x003f0000) << 10) | ((v >> 4) & 0x00000fff)
        | ((v & 0x0000000f) << 12);
    proof {
        let u1 = key_update_word(v);
        let u2 = key_update_word(u1);
        let u3 = key_update_word(u2);
        assert(r == u3) by (bit_vector)
            requires
                u1 == key_update_word(v),
                u2 == key_update_word(u1),
                u3 == key_update_word(u2),
                r == (((v >> 6u32) & 0x03ff0000) | ((v & 0x003f0000) << 10u32)
                    | ((v >> 4u32) & 0x00000fff) | ((v & 0x0000000f) << 12u32)),
        ;
    }
    r
}

} // verus!
