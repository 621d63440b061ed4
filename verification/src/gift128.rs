//! Moving 16-byte blocks in and out of the four-word fixsliced state, and
//! the key schedule that produces the eighty fixsliced round-key words.

use vstd::prelude::*;
use crate::key_schedule::{
    key_double_update_1, key_double_update_2, key_double_update_3, key_double_update_4,
    key_triple_update_0, key_triple_update_1, key_triple_update_2, key_triple_update_3,
    key_triple_update_4, lemma_rearrange_restore, reaarrange_rkey_0, reaarrange_rkey_1,
    reaarrange_rkey_2, reaarrange_rkey_3, rearrange_0, rearrange_1, rearrange_2, rearrange_3,
    restore_0, restore_1, restore_2, restore_3,
};
use crate::primitives::{
    bit_count, byte_bit_count, byte_swap, column, key_update_word, swapmove, swapmove_first, swapmove_second, swapmove_single,
    swapmovesingle, u32big, key_update,
};

verus! {

// ---------------------------------------------------------------------------
// The bitsliced layout of a block.
// ---------------------------------------------------------------------------

/// Bits `i` and `i + 4` of the byte `b` as a two-bit value, bit `i` low.
pub open spec fn bit_pair(b: u8, i: u32) -> u32 {
    (((b as u32) >> i) & 1) | ((((b as u32) >> (i + 4) as u32) & 1) << 1u32)
}

/// Word `i` of the bitsliced form of the block `b0, ..., b15`: bit `j` of it
/// is bit `4 * j + i` of the block read as a 128-bit big-endian number, so it
/// gathers bit `i` of every nibble, the last byte in the lowest bits.
pub open spec fn sliced_word_of(
    b0: u8, b1: u8, b2: u8, b3: u8, b4: u8, b5: u8, b6: u8, b7: u8,
    b8: u8, b9: u8, b10: u8, b11: u8, b12: u8, b13: u8, b14: u8, b15: u8,
    i: u32,
) -> u32 {
    bit_pair(b15, i)
        | (bit_pair(b14, i) << 2u32)
        | (bit_pair(b13, i) << 4u32)
        | (bit_pair(b12, i) << 6u32)
        | (bit_pair(b11, i) << 8u32)
        | (bit_pair(b10, i) << 10u32)
        | (bit_pair(b9, i) << 12u32)
        | (bit_pair(b8, i) << 14u32)
        | (bit_pair(b7, i) << 16u32)
        | (bit_pair(b6, i) << 18u32)
        | (bit_pair(b5, i) << 20u32)
        | (bit_pair(b4, i) << 22u32)
        | (bit_pair(b3, i) << 24u32)
        | (bit_pair(b2, i) << 26u32)
        | (bit_pair(b1, i) << 28u32)
        | (bit_pair(b0, i) << 30u32)
}

/// Word `i` of the bitsliced form of the 16-byte `block`.
pub open spec fn sliced_word(block: Seq<u8>, i: u32) -> u32 {
    sliced_word_of(
        block[0], block[1], block[2], block[3], block[4], block[5], block[6], block[7],
        block[8], block[9], block[10], block[11], block[12], block[13], block[14], block[15],
        i,
    )
}

/// Byte `k` of the block whose bitsliced form is (`s0`, `s1`, `s2`, `s3`):
/// its low nibble is the column of bit `2 * (15 - k)` of the four words and
/// its high nibble the column of the bit above.
pub open spec fn unsliced_byte(s0: u32, s1: u32, s2: u32, s3: u32, k: int) -> u8 {
    let p = (2 * (15 - k)) as u32;
    (column(s0, s1, s2, s3, p) | (column(s0, s1, s2, s3, (p + 1) as u32) << 4u32)) as u8
}

/// Loads the 16-byte block `input` into the fixsliced state: word `i` of
/// `state` receives bit `i` of every nibble of the block.
pub fn packing(state: &mut [u32], input: &[u8])
    requires
        old(state)@.len() >= 4,
        input@.len() >= 16,
    ensures
        final(state)@.len() == old(state)@.len(),
        forall|i: int| 0 <= i < 4 ==> final(state)@[i] == sliced_word(input@, i as u32),
        forall|n: int| 4 <= n < old(state)@.len() ==> final(state)@[n] == old(state)@[n],
{
    let mut s0 = ((input[6] as u32) << 24) | ((input[7] as u32) << 16) | ((input[14] as u32) << 8)
        | input[15] as u32;
    let mut s1 = ((input[4] as u32) << 24) | ((input[5] as u32) << 16) | ((input[12] as u32) << 8)
        | input[13] as u32;
    let mut s2 = ((input[2] as u32) << 24) | ((input[3] as u32) << 16) | ((input[10] as u32) << 8)
        | input[11] as u32;
    let mut s3 = ((input[0] as u32) << 24) | ((input[1] as u32) << 16) | ((input[8] as u32) << 8)
        | input[9] as u32;
    let ghost (a0, a1, a2, a3) = (s0, s1, s2, s3);
    swapmovesingle(&mut s0, 0x0a0a0a0a, 3);
    swapmovesingle(&mut s0, 0x00cc00cc, 6);
    swapmovesingle(&mut s1, 0x0a0a0a0a, 3);
    swapmovesingle(&mut s1, 0x00cc00cc, 6);
    swapmovesingle(&mut s2, 0x0a0a0a0a, 3);
    swapmovesingle(&mut s2, 0x00cc00cc, 6);
    swapmovesingle(&mut s3, 0x0a0a0a0a, 3);
    swapmovesingle(&mut s3, 0x00cc00cc, 6);
    let ghost (c0, c1, c2, c3) = (s0, s1, s2, s3);
    swapmove(&mut s0, &mut s1, 0x000f000f, 4);
    let ghost (d0, d1) = (s0, s1);
    swapmove(&mut s0, &mut s2, 0x000f000f, 8);
    let ghost (e0, e2) = (s0, s2);
    swapmove(&mut s0, &mut s3, 0x000f000f, 12);
    let ghost (f0, f3) = (s0, s3);
    swapmove(&mut s1, &mut s2, 0x00f000f0, 4);
    let ghost (g1, g2) = (s1, s2);
    swapmove(&mut s1, &mut s3, 0x00f000f0, 8);
    let ghost (h1, h3) = (s1, s3);
    swapmove(&mut s2, &mut s3, 0x0f000f00, 4);
    proof {
        let b = input@;
        let (b0, b1, b2, b3, b4, b5, b6, b7) = (b[0], b[1], b[2], b[3], b[4], b[5], b[6], b[7]);
        let (b8, b9, b10, b11, b12, b13, b14, b15) = (
            b[8], b[9], b[10], b[11], b[12], b[13], b[14], b[15],
        );
        assert(f0 == sliced_word_of(b0, b1, b2, b3, b4, b5, b6, b7, b8, b9, b10, b11, b12, b13, b14, b15, 0)
            && h1 == sliced_word_of(b0, b1, b2, b3, b4, b5, b6, b7, b8, b9, b10, b11, b12, b13, b14, b15, 1)
            && s2 == sliced_word_of(b0, b1, b2, b3, b4, b5, b6, b7, b8, b9, b10, b11, b12, b13, b14, b15, 2)
            && s3 == sliced_word_of(b0, b1, b2, b3, b4, b5, b6, b7, b8, b9, b10, b11, b12, b13, b14, b15, 3))
            by (bit_vector)
            requires
                a0 == ((b6 as u32) << 24u32) | ((b7 as u32) << 16u32) | ((b14 as u32) << 8u32)
                    | (b15 as u32),
                a1 == ((b4 as u32) << 24u32) | ((b5 as u32) << 16u32) | ((b12 as u32) << 8u32)
                    | (b13 as u32),
                a2 == ((b2 as u32) << 24u32) | ((b3 as u32) << 16u32) | ((b10 as u32) << 8u32)
                    | (b11 as u32),
                a3 == ((b0 as u32) << 24u32) | ((b1 as u32) << 16u32) | ((b8 as u32) << 8u32)
                    | (b9 as u32),
                c0 == swapmove_single(swapmove_single(a0, 0x0a0a0a0a, 3), 0x00cc00cc, 6),
                c1 == swapmove_single(swapmove_single(a1, 0x0a0a0a0a, 3), 0x00cc00cc, 6),
                c2 == swapmove_single(swapmove_single(a2, 0x0a0a0a0a, 3), 0x00cc00cc, 6),
                c3 == swapmove_single(swapmove_single(a3, 0x0a0a0a0a, 3), 0x00cc00cc, 6),
                d0 == swapmove_first(c0, c1, 0x000f000f, 4),
                d1 == swapmove_second(c0, c1, 0x000f000f, 4),
                e0 == swapmove_first(d0, c2, 0x000f000f, 8),
                e2 == swapmove_second(d0, c2, 0x000f000f, 8),
                f0 == swapmove_first(e0, c3, 0x000f000f, 12),
                f3 == swapmove_second(e0, c3, 0x000f000f, 12),
                g1 == swapmove_first(d1, e2, 0x00f000f0, 4),
                g2 == swapmove_second(d1, e2, 0x00f000f0, 4),
                h1 == swapmove_first(g1, f3, 0x00f000f0, 8),
                h3 == swapmove_second(g1, f3, 0x00f000f0, 8),
                s2 == swapmove_first(g2, h3, 0x0f000f00, 4),
                s3 == swapmove_second(g2, h3, 0x0f000f00, 4),
        ;
    }
    state[0] = s0;
    state[1] = s1;
    state[2] = s2;
    state[3] = s3;
}

/// Stores the fixsliced state `state` as a 16-byte block in `output`: the
/// inverse of `packing`.
pub fn unpacking(state: &[u32], output: &mut [u8])
    requires
        state@.len() >= 4,
        old(output)@.len() >= 16,
    ensures
        final(output)@.len() == old(output)@.len(),
        forall|k: int|
            0 <= k < 16 ==> final(output)@[k] == unsliced_byte(
                state@[0],
                state@[1],
                state@[2],
                state@[3],
                k,
            ),
        forall|n: int| 16 <= n < old(output)@.len() ==> final(output)@[n] == old(output)@[n],
{
    let (mut s0, mut s1, mut s2, mut s3) = (state[0], state[1], state[2], state[3]);
    let ghost (a0, a1, a2, a3) = (s0, s1, s2, s3);
    swapmove(&mut s2, &mut s3, 0x0f000f00, 4);
    let ghost (c2, c3) = (s2, s3);
    swapmove(&mut s1, &mut s3, 0x00f000f0, 8);
    let ghost (d1, d3) = (s1, s3);
    swapmove(&mut s1, &mut s2, 0x00f000f0, 4);
    let ghost (e1, e2) = (s1, s2);
    swapmove(&mut s0, &mut s3, 0x000f000f, 12);
    let ghost (f0, f3) = (s0, s3);
    swapmove(&mut s0, &mut s2, 0x000f000f, 8);
    let ghost (g0, g2) = (s0, s2);
    swapmove(&mut s0, &mut s1, 0x000f000f, 4);
    let ghost (h0, h1) = (s0, s1);
    swapmovesingle(&mut s3, 0x00cc00cc, 6);
    swapmovesingle(&mut s3, 0x0a0a0a0a, 3);
    swapmovesingle(&mut s2, 0x00cc00cc, 6);
    swapmovesingle(&mut s2, 0x0a0a0a0a, 3);
    swapmovesingle(&mut s1, 0x00cc00cc, 6);
    swapmovesingle(&mut s1, 0x0a0a0a0a, 3);
    swapmovesingle(&mut s0, 0x00cc00cc, 6);
    swapmovesingle(&mut s0, 0x0a0a0a0a, 3);
    output[0] = (s3 >> 24) as u8;
    output[1] = ((s3 >> 16) & 0xff) as u8;
    output[2] = (s2 >> 24) as u8;
    output[3] = ((s2 >> 16) & 0xff) as u8;
    output[4] = (s1 >> 24) as u8;
    output[5] = ((s1 >> 16) & 0xff) as u8;
    output[6] = (s0 >> 24) as u8;
    output[7] = ((s0 >> 16) & 0xff) as u8;
    output[8] = ((s3 >> 8) & 0xff) as u8;
    output[9] = (s3 & 0xff) as u8;
    output[10] = ((s2 >> 8) & 0xff) as u8;
    output[11] = (s2 & 0xff) as u8;
    output[12] = ((s1 >> 8) & 0xff) as u8;
    output[13] = (s1 & 0xff) as u8;
    output[14] = ((s0 >> 8) & 0xff) as u8;
    output[15] = (s0 & 0xff) as u8;
    proof {
        let o = output@;
        let (o0, o1, o2, o3, o4, o5, o6, o7) = (o[0], o[1], o[2], o[3], o[4], o[5], o[6], o[7]);
        let (o8, o9, o10, o11, o12, o13, o14, o15) = (
            o[8], o[9], o[10], o[11], o[12], o[13], o[14], o[15],
        );
        assert(o0 == unsliced_byte(a0, a1, a2, a3, 0)
            && o1 == unsliced_byte(a0, a1, a2, a3, 1)
            && o2 == unsliced_byte(a0, a1, a2, a3, 2)
            && o3 == unsliced_byte(a0, a1, a2, a3, 3)
            && o4 == unsliced_byte(a0, a1, a2, a3, 4)
            && o5 == unsliced_byte(a0, a1, a2, a3, 5)
            && o6 == unsliced_byte(a0, a1, a2, a3, 6)
            && o7 == unsliced_byte(a0, a1, a2, a3, 7)
            && o8 == unsliced_byte(a0, a1, a2, a3, 8)
            && o9 == unsliced_byte(a0, a1, a2, a3, 9)
            && o10 == unsliced_byte(a0, a1, a2, a3, 10)
            && o11 == unsliced_byte(a0, a1, a2, a3, 11)
            && o12 == unsliced_byte(a0, a1, a2, a3, 12)
            && o13 == unsliced_byte(a0, a1, a2, a3, 13)
            && o14 == unsliced_byte(a0, a1, a2, a3, 14)
            && o15 == unsliced_byte(a0, a1, a2, a3, 15))
            by (bit_vector)
            requires
                c2 == swapmove_first(a2, a3, 0x0f000f00, 4),
                c3 == swapmove_second(a2, a3, 0x0f000f00, 4),
                d1 == swapmove_first(a1, c3, 0x00f000f0, 8),
                d3 == swapmove_second(a1, c3, 0x00f000f0, 8),
                e1 == swapmove_first(d1, c2, 0x00f000f0, 4),
                e2 == swapmove_second(d1, c2, 0x00f000f0, 4),
                f0 == swapmove_first(a0, d3, 0x000f000f, 12),
                f3 == swapmove_second(a0, d3, 0x000f000f, 12),
                g0 == swapmove_first(f0, e2, 0x000f000f, 8),
                g2 == swapmove_second(f0, e2, 0x000f000f, 8),
                h0 == swapmove_first(g0, e1, 0x000f000f, 4),
                h1 == swapmove_second(g0, e1, 0x000f000f, 4),
                s3 == swapmove_single(swapmove_single(f3, 0x00cc00cc, 6), 0x0a0a0a0a, 3),
                s2 == swapmove_single(swapmove_single(g2, 0x00cc00cc, 6), 0x0a0a0a0a, 3),
                s1 == swapmove_single(swapmove_single(h1, 0x00cc00cc, 6), 0x0a0a0a0a, 3),
                s0 == swapmove_single(swapmove_single(h0, 0x00cc00cc, 6), 0x0a0a0a0a, 3),
                o0 == (s3 >> 24u32) as u8,
                o1 == ((s3 >> 16u32) & 0xff) as u8,
                o2 == (s2 >> 24u32) as u8,
                o3 == ((s2 >> 16u32) & 0xff) as u8,
                o4 == (s1 >> 24u32) as u8,
                o5 == ((s1 >> 16u32) & 0xff) as u8,
                o6 == (s0 >> 24u32) as u8,
                o7 == ((s0 >> 16u32) & 0xff) as u8,
                o8 == ((s3 >> 8u32) & 0xff) as u8,
                o9 == (s3 & 0xff) as u8,
                o10 == ((s2 >> 8u32) & 0xff) as u8,
                o11 == (s2 & 0xff) as u8,
                o12 == ((s1 >> 8u32) & 0xff) as u8,
                o13 == (s1 & 0xff) as u8,
                o14 == ((s0 >> 8u32) & 0xff) as u8,
                o15 == (s0 & 0xff) as u8,
        ;
    }
}

/// Unloading the bitsliced form of a 16-byte block gives back the block:
/// `unpacking` undoes `packing`.
pub proof fn lemma_unsliced_sliced(block: Seq<u8>)
    requires
        block.len() == 16,
    ensures
        forall|k: int|
            0 <= k < 16 ==> unsliced_byte(
                sliced_word(block, 0),
                sliced_word(block, 1),
                sliced_word(block, 2),
                sliced_word(block, 3),
                k,
            ) == block[k],
{
    let (b0, b1, b2, b3, b4, b5, b6, b7) = (
        block[0], block[1], block[2], block[3], block[4], block[5], block[6], block[7],
    );
    let (b8, b9, b10, b11, b12, b13, b14, b15) = (
        block[8], block[9], block[10], block[11], block[12], block[13], block[14], block[15],
    );
    let (s0, s1, s2, s3) = (
        sliced_word(block, 0),
        sliced_word(block, 1),
        sliced_word(block, 2),
        sliced_word(block, 3),
    );
    assert(unsliced_byte(s0, s1, s2, s3, 0) == b0
        && unsliced_byte(s0, s1, s2, s3, 1) == b1
        && unsliced_byte(s0, s1, s2, s3, 2) == b2
        && unsliced_byte(s0, s1, s2, s3, 3) == b3
        && unsliced_byte(s0, s1, s2, s3, 4) == b4
        && unsliced_byte(s0, s1, s2, s3, 5) == b5
        && unsliced_byte(s0, s1, s2, s3, 6) == b6
        && unsliced_byte(s0, s1, s2, s3, 7) == b7
        && unsliced_byte(s0, s1, s2, s3, 8) == b8
        && unsliced_byte(s0, s1, s2, s3, 9) == b9
        && unsliced_byte(s0, s1, s2, s3, 10) == b10
        && unsliced_byte(s0, s1, s2, s3, 11) == b11
        && unsliced_byte(s0, s1, s2, s3, 12) == b12
        && unsliced_byte(s0, s1, s2, s3, 13) == b13
        && unsliced_byte(s0, s1, s2, s3, 14) == b14
        && unsliced_byte(s0, s1, s2, s3, 15) == b15) by (bit_vector)
        requires
            s0 == sliced_word_of(b0, b1, b2, b3, b4, b5, b6, b7, b8, b9, b10, b11, b12, b13, b14, b15, 0),
            s1 == sliced_word_of(b0, b1, b2, b3, b4, b5, b6, b7, b8, b9, b10, b11, b12, b13, b14, b15, 1),
            s2 == sliced_word_of(b0, b1, b2, b3, b4, b5, b6, b7, b8, b9, b10, b11, b12, b13, b14, b15, 2),
            s3 == sliced_word_of(b0, b1, b2, b3, b4, b5, b6, b7, b8, b9, b10, b11, b12, b13, b14, b15, 3),
    ;
}

/// The number of set bits of the 16-byte `block`.
pub open spec fn block_bit_count(block: Seq<u8>) -> int {
    byte_bit_count(block[0])
        + byte_bit_count(block[1])
        + byte_bit_count(block[2])
        + byte_bit_count(block[3])
        + byte_bit_count(block[4])
        + byte_bit_count(block[5])
        + byte_bit_count(block[6])
        + byte_bit_count(block[7])
        + byte_bit_count(block[8])
        + byte_bit_count(block[9])
        + byte_bit_count(block[10])
        + byte_bit_count(block[11])
        + byte_bit_count(block[12])
        + byte_bit_count(block[13])
        + byte_bit_count(block[14])
        + byte_bit_count(block[15])
}

/// Loading into the bitsliced form moves bits without changing them: it
/// distributes over exclusive or, and the four words hold as many set bits
/// as the block.
pub proof fn lemma_sliced_permutes_bits(a: Seq<u8>, b: Seq<u8>, c: Seq<u8>)
    requires
        a.len() == 16,
        b.len() == 16,
        c.len() == 16,
        forall|k: int| 0 <= k < 16 ==> c[k] == a[k] ^ b[k],
    ensures
        forall|i: u32| i < 4 ==> sliced_word(c, i) == sliced_word(a, i) ^ sliced_word(b, i),
        bit_count(sliced_word(a, 0)) + bit_count(sliced_word(a, 1)) + bit_count(sliced_word(a, 2))
            + bit_count(sliced_word(a, 3)) == block_bit_count(a),
{
    assert forall|i: u32| i < 4 implies sliced_word(c, i) == sliced_word(a, i) ^ sliced_word(
        b,
        i,
    ) by {
        lemma_sliced_word_xor(a, b, c, i);
    }
    lemma_sliced_word_bit_count(a, 0);
    lemma_sliced_word_bit_count(a, 1);
    lemma_sliced_word_bit_count(a, 2);
    lemma_sliced_word_bit_count(a, 3);
}

proof fn lemma_sliced_word_xor(a: Seq<u8>, b: Seq<u8>, c: Seq<u8>, i: u32)
    requires
        i < 4,
        a.len() == 16,
        b.len() == 16,
        c.len() == 16,
        forall|k: int| 0 <= k < 16 ==> c[k] == a[k] ^ b[k],
    ensures
        sliced_word(c, i) == sliced_word(a, i) ^ sliced_word(b, i),
{
    let (a0, a1, a2, a3, a4, a5, a6, a7) = (
        a[0], a[1], a[2], a[3], a[4], a[5], a[6], a[7],
    );
    let (a8, a9, a10, a11, a12, a13, a14, a15) = (
        a[8], a[9], a[10], a[11], a[12], a[13], a[14], a[15],
    );
    let (b0, b1, b2, b3, b4, b5, b6, b7) = (
        b[0], b[1], b[2], b[3], b[4], b[5], b[6], b[7],
    );
    let (b8, b9, b10, b11, b12, b13, b14, b15) = (
        b[8], b[9], b[10], b[11], b[12], b[13], b[14], b[15],
    );
    let (c0, c1, c2, c3, c4, c5, c6, c7) = (
        c[0], c[1], c[2], c[3], c[4], c[5], c[6], c[7],
    );
    let (c8, c9, c10, c11, c12, c13, c14, c15) = (
        c[8], c[9], c[10], c[11], c[12], c[13], c[14], c[15],
    );
    assert(sliced_word_of(c0, c1, c2, c3, c4, c5, c6, c7, c8, c9, c10, c11, c12, c13, c14, c15, i) == sliced_word_of(a0, a1, a2, a3, a4, a5, a6, a7, a8, a9, a10, a11, a12, a13, a14, a15, i)
        ^ sliced_word_of(b0, b1, b2, b3, b4, b5, b6, b7, b8, b9, b10, b11, b12, b13, b14, b15, i)) by (bit_vector)
        requires
            i < 4,
            c0 == a0 ^ b0,
            c1 == a1 ^ b1,
            c2 == a2 ^ b2,
            c3 == a3 ^ b3,
            c4 == a4 ^ b4,
            c5 == a5 ^ b5,
            c6 == a6 ^ b6,
            c7 == a7 ^ b7,
            c8 == a8 ^ b8,
            c9 == a9 ^ b9,
            c10 == a10 ^ b10,
            c11 == a11 ^ b11,
            c12 == a12 ^ b12,
            c13 == a13 ^ b13,
            c14 == a14 ^ b14,
            c15 == a15 ^ b15,
    ;
}

proof fn lemma_sliced_word_bit_count(a: Seq<u8>, i: u32)
    requires
        i < 4,
        a.len() == 16,
    ensures
        bit_count(sliced_word(a, i)) == ((a[15] >> i) & 1) + ((a[15] >> (i + 4) as u32) & 1)
            + ((a[14] >> i) & 1) + ((a[14] >> (i + 4) as u32) & 1)
            + ((a[13] >> i) & 1) + ((a[13] >> (i + 4) as u32) & 1)
            + ((a[12] >> i) & 1) + ((a[12] >> (i + 4) as u32) & 1)
            + ((a[11] >> i) & 1) + ((a[11] >> (i + 4) as u32) & 1)
            + ((a[10] >> i) & 1) + ((a[10] >> (i + 4) as u32) & 1)
            + ((a[9] >> i) & 1) + ((a[9] >> (i + 4) as u32) & 1)
            + ((a[8] >> i) & 1) + ((a[8] >> (i + 4) as u32) & 1)
            + ((a[7] >> i) & 1) + ((a[7] >> (i + 4) as u32) & 1)
            + ((a[6] >> i) & 1) + ((a[6] >> (i + 4) as u32) & 1)
            + ((a[5] >> i) & 1) + ((a[5] >> (i + 4) as u32) & 1)
            + ((a[4] >> i) & 1) + ((a[4] >> (i + 4) as u32) & 1)
            + ((a[3] >> i) & 1) + ((a[3] >> (i + 4) as u32) & 1)
            + ((a[2] >> i) & 1) + ((a[2] >> (i + 4) as u32) & 1)
            + ((a[1] >> i) & 1) + ((a[1] >> (i + 4) as u32) & 1)
            + ((a[0] >> i) & 1) + ((a[0] >> (i + 4) as u32) & 1),
{
    let (a0, a1, a2, a3, a4, a5, a6, a7) = (
        a[0], a[1], a[2], a[3], a[4], a[5], a[6], a[7],
    );
    let (a8, a9, a10, a11, a12, a13, a14, a15) = (
        a[8], a[9], a[10], a[11], a[12], a[13], a[14], a[15],
    );
    assert(bit_count(sliced_word_of(a0, a1, a2, a3, a4, a5, a6, a7, a8, a9, a10, a11, a12, a13, a14, a15, i)) == ((a15 >> i) & 1) + ((a15 >> (i + 4) as u32) & 1)
        + ((a14 >> i) & 1) + ((a14 >> (i + 4) as u32) & 1)
        + ((a13 >> i) & 1) + ((a13 >> (i + 4) as u32) & 1)
        + ((a12 >> i) & 1) + ((a12 >> (i + 4) as u32) & 1)
        + ((a11 >> i) & 1) + ((a11 >> (i + 4) as u32) & 1)
        + ((a10 >> i) & 1) + ((a10 >> (i + 4) as u32) & 1)
        + ((a9 >> i) & 1) + ((a9 >> (i + 4) as u32) & 1)
        + ((a8 >> i) & 1) + ((a8 >> (i + 4) as u32) & 1)
        + ((a7 >> i) & 1) + ((a7 >> (i + 4) as u32) & 1)
        + ((a6 >> i) & 1) + ((a6 >> (i + 4) as u32) & 1)
        + ((a5 >> i) & 1) + ((a5 >> (i + 4) as u32) & 1)
        + ((a4 >> i) & 1) + ((a4 >> (i + 4) as u32) & 1)
        + ((a3 >> i) & 1) + ((a3 >> (i + 4) as u32) & 1)
        + ((a2 >> i) & 1) + ((a2 >> (i + 4) as u32) & 1)
        + ((a1 >> i) & 1) + ((a1 >> (i + 4) as u32) & 1)
        + ((a0 >> i) & 1) + ((a0 >> (i + 4) as u32) & 1)) by (bit_vector)
        requires
            i < 4,
    ;
}

/// Unloading a bitsliced state moves bits without changing them: it
/// distributes over exclusive or, and the block holds as many set bits as
/// the four words.
pub proof fn lemma_unsliced_permutes_bits(
    a0: u32,
    a1: u32,
    a2: u32,
    a3: u32,
    b0: u32,
    b1: u32,
    b2: u32,
    b3: u32,
)
    ensures
        forall|k: int|
            0 <= k < 16 ==> unsliced_byte(a0 ^ b0, a1 ^ b1, a2 ^ b2, a3 ^ b3, k) == unsliced_byte(
                a0,
                a1,
                a2,
                a3,
                k,
            ) ^ unsliced_byte(b0, b1, b2, b3, k),
        block_bit_count(Seq::new(16, |k: int| unsliced_byte(a0, a1, a2, a3, k))) == bit_count(a0)
            + bit_count(a1) + bit_count(a2) + bit_count(a3),
{
    lemma_unsliced_xor(a0, a1, a2, a3, b0, b1, b2, b3);
    lemma_unsliced_bit_count(a0, a1, a2, a3);
}

proof fn lemma_unsliced_xor(a0: u32, a1: u32, a2: u32, a3: u32, b0: u32, b1: u32, b2: u32, b3: u32)
    ensures
        forall|k: int|
            0 <= k < 16 ==> unsliced_byte(a0 ^ b0, a1 ^ b1, a2 ^ b2, a3 ^ b3, k) == unsliced_byte(
                a0,
                a1,
                a2,
                a3,
                k,
            ) ^ unsliced_byte(b0, b1, b2, b3, k),
{
    assert forall|k: int| 0 <= k < 16 implies unsliced_byte(
        a0 ^ b0,
        a1 ^ b1,
        a2 ^ b2,
        a3 ^ b3,
        k,
    ) == unsliced_byte(a0, a1, a2, a3, k) ^ unsliced_byte(b0, b1, b2, b3, k) by {
        lemma_column_byte(a0, a1, a2, a3, b0, b1, b2, b3, (2 * (15 - k)) as u32);
    }
}

proof fn lemma_unsliced_bit_count(a0: u32, a1: u32, a2: u32, a3: u32)
    ensures
        block_bit_count(Seq::new(16, |k: int| unsliced_byte(a0, a1, a2, a3, k))) == bit_count(a0)
            + bit_count(a1) + bit_count(a2) + bit_count(a3),
{
    let blk = Seq::new(16, |k: int| unsliced_byte(a0, a1, a2, a3, k));
    lemma_column_byte(a0, a1, a2, a3, a0, a1, a2, a3, 30);
    assert(blk[0] == (column(a0, a1, a2, a3, 30) | (column(a0, a1, a2, a3, 31) << 4u32)) as u8);
    lemma_column_byte(a0, a1, a2, a3, a0, a1, a2, a3, 28);
    assert(blk[1] == (column(a0, a1, a2, a3, 28) | (column(a0, a1, a2, a3, 29) << 4u32)) as u8);
    lemma_column_byte(a0, a1, a2, a3, a0, a1, a2, a3, 26);
    assert(blk[2] == (column(a0, a1, a2, a3, 26) | (column(a0, a1, a2, a3, 27) << 4u32)) as u8);
    lemma_column_byte(a0, a1, a2, a3, a0, a1, a2, a3, 24);
    assert(blk[3] == (column(a0, a1, a2, a3, 24) | (column(a0, a1, a2, a3, 25) << 4u32)) as u8);
    lemma_column_byte(a0, a1, a2, a3, a0, a1, a2, a3, 22);
    assert(blk[4] == (column(a0, a1, a2, a3, 22) | (column(a0, a1, a2, a3, 23) << 4u32)) as u8);
    lemma_column_byte(a0, a1, a2, a3, a0, a1, a2, a3, 20);
    assert(blk[5] == (column(a0, a1, a2, a3, 20) | (column(a0, a1, a2, a3, 21) << 4u32)) as u8);
    lemma_column_byte(a0, a1, a2, a3, a0, a1, a2, a3, 18);
    assert(blk[6] == (column(a0, a1, a2, a3, 18) | (column(a0, a1, a2, a3, 19) << 4u32)) as u8);
    lemma_column_byte(a0, a1, a2, a3, a0, a1, a2, a3, 16);
    assert(blk[7] == (column(a0, a1, a2, a3, 16) | (column(a0, a1, a2, a3, 17) << 4u32)) as u8);
    lemma_column_byte(a0, a1, a2, a3, a0, a1, a2, a3, 14);
    assert(blk[8] == (column(a0, a1, a2, a3, 14) | (column(a0, a1, a2, a3, 15) << 4u32)) as u8);
    lemma_column_byte(a0, a1, a2, a3, a0, a1, a2, a3, 12);
    assert(blk[9] == (column(a0, a1, a2, a3, 12) | (column(a0, a1, a2, a3, 13) << 4u32)) as u8);
    lemma_column_byte(a0, a1, a2, a3, a0, a1, a2, a3, 10);
    assert(blk[10] == (column(a0, a1, a2, a3, 10) | (column(a0, a1, a2, a3, 11) << 4u32)) as u8);
    lemma_column_byte(a0, a1, a2, a3, a0, a1, a2, a3, 8);
    assert(blk[11] == (column(a0, a1, a2, a3, 8) | (column(a0, a1, a2, a3, 9) << 4u32)) as u8);
    lemma_column_byte(a0, a1, a2, a3, a0, a1, a2, a3, 6);
    assert(blk[12] == (column(a0, a1, a2, a3, 6) | (column(a0, a1, a2, a3, 7) << 4u32)) as u8);
    lemma_column_byte(a0, a1, a2, a3, a0, a1, a2, a3, 4);
    assert(blk[13] == (column(a0, a1, a2, a3, 4) | (column(a0, a1, a2, a3, 5) << 4u32)) as u8);
    lemma_column_byte(a0, a1, a2, a3, a0, a1, a2, a3, 2);
    assert(blk[14] == (column(a0, a1, a2, a3, 2) | (column(a0, a1, a2, a3, 3) << 4u32)) as u8);
    lemma_column_byte(a0, a1, a2, a3, a0, a1, a2, a3, 0);
    assert(blk[15] == (column(a0, a1, a2, a3, 0) | (column(a0, a1, a2, a3, 1) << 4u32)) as u8);
}

/// The byte made of the columns at bits `p` and `p + 1` distributes over
/// exclusive or, and has as many set bits as those eight bits.
proof fn lemma_column_byte(
    a0: u32,
    a1: u32,
    a2: u32,
    a3: u32,
    b0: u32,
    b1: u32,
    b2: u32,
    b3: u32,
    p: u32,
)
    by (bit_vector)
    requires
        p < 31,
    ensures
        ((column(a0 ^ b0, a1 ^ b1, a2 ^ b2, a3 ^ b3, p) | (column(
            a0 ^ b0,
            a1 ^ b1,
            a2 ^ b2,
            a3 ^ b3,
            (p + 1) as u32,
        ) << 4u32)) as u8) == ((column(a0, a1, a2, a3, p) | (column(a0, a1, a2, a3, (p + 1) as u32)
            << 4u32)) as u8) ^ ((column(b0, b1, b2, b3, p) | (column(b0, b1, b2, b3, (p + 1) as u32)
            << 4u32)) as u8),
        byte_bit_count(
            (column(a0, a1, a2, a3, p) | (column(a0, a1, a2, a3, (p + 1) as u32) << 4u32)) as u8,
        ) == ((a0 >> p) & 1) + ((a1 >> p) & 1) + ((a2 >> p) & 1) + ((a3 >> p) & 1) + ((a0 >> (p
            + 1) as u32) & 1) + ((a1 >> (p + 1) as u32) & 1) + ((a2 >> (p + 1) as u32) & 1) + ((a3
            >> (p + 1) as u32) & 1),
{
}

/// Loading the block held by a bitsliced state gives back the state:
/// `packing` undoes `unpacking`.
pub proof fn lemma_sliced_unsliced(s0: u32, s1: u32, s2: u32, s3: u32)
    ensures
        ({
            let block = Seq::new(16, |k: int| unsliced_byte(s0, s1, s2, s3, k));
            &&& sliced_word(block, 0) == s0
            &&& sliced_word(block, 1) == s1
            &&& sliced_word(block, 2) == s2
            &&& sliced_word(block, 3) == s3
        }),
{
    let o0 = unsliced_byte(s0, s1, s2, s3, 0);
    let o1 = unsliced_byte(s0, s1, s2, s3, 1);
    let o2 = unsliced_byte(s0, s1, s2, s3, 2);
    let o3 = unsliced_byte(s0, s1, s2, s3, 3);
    let o4 = unsliced_byte(s0, s1, s2, s3, 4);
    let o5 = unsliced_byte(s0, s1, s2, s3, 5);
    let o6 = unsliced_byte(s0, s1, s2, s3, 6);
    let o7 = unsliced_byte(s0, s1, s2, s3, 7);
    let o8 = unsliced_byte(s0, s1, s2, s3, 8);
    let o9 = unsliced_byte(s0, s1, s2, s3, 9);
    let o10 = unsliced_byte(s0, s1, s2, s3, 10);
    let o11 = unsliced_byte(s0, s1, s2, s3, 11);
    let o12 = unsliced_byte(s0, s1, s2, s3, 12);
    let o13 = unsliced_byte(s0, s1, s2, s3, 13);
    let o14 = unsliced_byte(s0, s1, s2, s3, 14);
    let o15 = unsliced_byte(s0, s1, s2, s3, 15);
    assert(sliced_word_of(o0, o1, o2, o3, o4, o5, o6, o7, o8, o9, o10, o11, o12, o13, o14, o15, 0) == s0
        && sliced_word_of(o0, o1, o2, o3, o4, o5, o6, o7, o8, o9, o10, o11, o12, o13, o14, o15, 1) == s1
        && sliced_word_of(o0, o1, o2, o3, o4, o5, o6, o7, o8, o9, o10, o11, o12, o13, o14, o15, 2) == s2
        && sliced_word_of(o0, o1, o2, o3, o4, o5, o6, o7, o8, o9, o10, o11, o12, o13, o14, o15, 3) == s3) by (bit_vector)
        requires
            o0 == unsliced_byte(s0, s1, s2, s3, 0),
            o1 == unsliced_byte(s0, s1, s2, s3, 1),
            o2 == unsliced_byte(s0, s1, s2, s3, 2),
            o3 == unsliced_byte(s0, s1, s2, s3, 3),
            o4 == unsliced_byte(s0, s1, s2, s3, 4),
            o5 == unsliced_byte(s0, s1, s2, s3, 5),
            o6 == unsliced_byte(s0, s1, s2, s3, 6),
            o7 == unsliced_byte(s0, s1, s2, s3, 7),
            o8 == unsliced_byte(s0, s1, s2, s3, 8),
            o9 == unsliced_byte(s0, s1, s2, s3, 9),
            o10 == unsliced_byte(s0, s1, s2, s3, 10),
            o11 == unsliced_byte(s0, s1, s2, s3, 11),
            o12 == unsliced_byte(s0, s1, s2, s3, 12),
            o13 == unsliced_byte(s0, s1, s2, s3, 13),
            o14 == unsliced_byte(s0, s1, s2, s3, 14),
            o15 == unsliced_byte(s0, s1, s2, s3, 15),
    ;
}

// ---------------------------------------------------------------------------
// The key schedule.
// ---------------------------------------------------------------------------

/// Big-endian word `i` of the 16-byte key: bytes `4 * i` to `4 * i + 3`, the
/// first of them most significant.
pub open spec fn key_word(key: Seq<u8>, i: int) -> u32 {
    ((key[4 * i] as u32) << 24u32) | ((key[4 * i + 1] as u32) << 16u32) | ((key[4 * i + 2] as u32)
        << 8u32) | (key[4 * i + 3] as u32)
}

/// Round-key word `n` of the classical GIFT-128 key schedule, round `r`
/// using words `2 * r` and `2 * r + 1`. The first four words are the key
/// words 3, 1, 2 and 0; after that, a word at an even position repeats the
/// word three places before it, and a word at an odd position is the word
/// five places before it after one key-state update.
pub open spec fn classical_rkey(key: Seq<u8>, n: nat) -> u32
    decreases n,
{
    if n == 0 {
        key_word(key, 3)
    } else if n == 1 {
        key_word(key, 1)
    } else if n == 2 {
        key_word(key, 2)
    } else if n == 3 {
        key_word(key, 0)
    } else if n % 2 == 0 {
        classical_rkey(key, (n - 3) as nat)
    } else {
        key_update_word(classical_rkey(key, (n - 5) as nat))
    }
}

/// The classical round-key word `w` moved into the layout of round `r`,
/// which depends on `r % 5`.
pub open spec fn round_layout(r: int, w: u32) -> u32 {
    let j = r % 5;
    if j == 0 {
        rearrange_0(w)
    } else if j == 1 {
        rearrange_1(w)
    } else if j == 2 {
        rearrange_2(w)
    } else if j == 3 {
        rearrange_3(w)
    } else {
        w
    }
}

/// Round-key word `n` of the fixsliced key schedule: classical word `n` in
/// the layout of the round that uses it.
pub open spec fn fixsliced_rkey(key: Seq<u8>, n: nat) -> u32 {
    round_layout((n / 2) as int, classical_rkey(key, n))
}

/// Ten rounds on, the first round-key word is the second one after two
/// key-state updates, and the second is the first after three.
proof fn lemma_classical_ten_rounds(key: Seq<u8>, m: nat)
    requires
        m % 2 == 0,
    ensures
        classical_rkey(key, m + 20) == key_update_word(
            key_update_word(classical_rkey(key, m + 1)),
        ),
        classical_rkey(key, m + 21) == key_update_word(
            key_update_word(key_update_word(classical_rkey(key, m))),
        ),
{
    assert(classical_rkey(key, m + 20) == classical_rkey(key, (m + 17) as nat));
    assert(classical_rkey(key, m + 17) == key_update_word(classical_rkey(key, (m + 12) as nat)));
    assert(classical_rkey(key, m + 12) == classical_rkey(key, (m + 9) as nat));
    assert(classical_rkey(key, m + 9) == key_update_word(classical_rkey(key, (m + 4) as nat)));
    assert(classical_rkey(key, m + 4) == classical_rkey(key, (m + 1) as nat));
    assert(classical_rkey(key, m + 21) == key_update_word(classical_rkey(key, (m + 16) as nat)));
    assert(classical_rkey(key, m + 16) == classical_rkey(key, (m + 13) as nat));
    assert(classical_rkey(key, m + 13) == key_update_word(classical_rkey(key, (m + 8) as nat)));
    assert(classical_rkey(key, m + 8) == classical_rkey(key, (m + 5) as nat));
    assert(classical_rkey(key, m + 5) == key_update_word(classical_rkey(key, m)));
}

/// The two corrections that `precompute_rkeys` applies to the words of the
/// rounds `r` with `r % 5 == 0`.
proof fn lemma_round0_corrections(c: u32, w: u32)
    ensures
        swapmove_single(swapmove_single(rearrange_0(c), 0x00003333, 16), 0x55554444, 1)
            == rearrange_0(key_update_word(key_update_word(c))),
        swapmove_single(swapmove_single(w, 0x55551100, 1), 0x55551100, 1) == w,
{
    let r = rearrange_0(c);
    let u1 = key_update_word(c);
    let u2 = key_update_word(u1);
    let t = rearrange_0(u2);
    assert(swapmove_single(swapmove_single(r, 0x00003333, 16), 0x55554444, 1) == t
        && swapmove_single(swapmove_single(w, 0x55551100, 1), 0x55551100, 1) == w)
        by (bit_vector)
        requires
            r == rearrange_0(c),
            u1 == key_update_word(c),
            u2 == key_update_word(u1),
            t == rearrange_0(u2),
    ;
}

/// How the fixsliced round-key words of rounds `i / 2` to `i / 2 + 4` follow
/// from those ten rounds earlier, as `precompute_rkeys` computes them.
proof fn lemma_fixsliced_block(key: Seq<u8>, i: nat)
    requires
        20 <= i,
        i % 10 == 0,
    ensures
        fixsliced_rkey(key, i) == swapmove_single(
            swapmove_single(fixsliced_rkey(key, (i - 19) as nat), 0x00003333, 16),
            0x55554444,
            1,
        ),
        fixsliced_rkey(key, i + 1) == swapmove_single(
            swapmove_single(
                rearrange_0(
                    key_update_word(
                        key_update_word(
                            key_update_word(restore_0(fixsliced_rkey(key, (i - 20) as nat))),
                        ),
                    ),
                ),
                0x55551100,
                1,
            ),
            0x55551100,
            1,
        ),
        fixsliced_rkey(key, i + 2) == rearrange_1(
            key_update_word(key_update_word(restore_1(fixsliced_rkey(key, (i - 17) as nat)))),
        ),
        fixsliced_rkey(key, i + 3) == rearrange_1(
            key_update_word(
                key_update_word(key_update_word(restore_1(fixsliced_rkey(key, (i - 18) as nat)))),
            ),
        ),
        fixsliced_rkey(key, i + 4) == rearrange_2(
            key_update_word(key_update_word(restore_2(fixsliced_rkey(key, (i - 15) as nat)))),
        ),
        fixsliced_rkey(key, i + 5) == rearrange_2(
            key_update_word(
                key_update_word(key_update_word(restore_2(fixsliced_rkey(key, (i - 16) as nat)))),
            ),
        ),
        fixsliced_rkey(key, i + 6) == rearrange_3(
            key_update_word(key_update_word(restore_3(fixsliced_rkey(key, (i - 13) as nat)))),
        ),
        fixsliced_rkey(key, i + 7) == rearrange_3(
            key_update_word(
                key_update_word(key_update_word(restore_3(fixsliced_rkey(key, (i - 14) as nat)))),
            ),
        ),
        fixsliced_rkey(key, i + 8) == key_update_word(
            key_update_word(fixsliced_rkey(key, (i - 11) as nat)),
        ),
        fixsliced_rkey(key, i + 9) == key_update_word(
            key_update_word(key_update_word(fixsliced_rkey(key, (i - 12) as nat))),
        ),
{
    let m = (i - 20) as nat;
    let r = i / 2;
    assert(r % 5 == 0);
    assert(((i - 19) as nat) / 2 == r - 10 && ((i - 20) as nat) / 2 == r - 10);
    assert(((i - 17) as nat) / 2 == r - 9 && ((i - 18) as nat) / 2 == r - 9);
    assert(((i - 15) as nat) / 2 == r - 8 && ((i - 16) as nat) / 2 == r - 8);
    assert(((i - 13) as nat) / 2 == r - 7 && ((i - 14) as nat) / 2 == r - 7);
    assert(((i - 11) as nat) / 2 == r - 6 && ((i - 12) as nat) / 2 == r - 6);
    assert((i + 1) / 2 == r && (i + 2) / 2 == r + 1 && (i + 3) / 2 == r + 1);
    assert((i + 4) / 2 == r + 2 && (i + 5) / 2 == r + 2 && (i + 6) / 2 == r + 3);
    assert((i + 7) / 2 == r + 3 && (i + 8) / 2 == r + 4 && (i + 9) / 2 == r + 4);
    lemma_classical_ten_rounds(key, m);
    lemma_classical_ten_rounds(key, m + 2);
    lemma_classical_ten_rounds(key, m + 4);
    lemma_classical_ten_rounds(key, m + 6);
    lemma_classical_ten_rounds(key, m + 8);
    lemma_rearrange_restore(classical_rkey(key, m));
    lemma_rearrange_restore(classical_rkey(key, m + 2));
    lemma_rearrange_restore(classical_rkey(key, m + 3));
    lemma_rearrange_restore(classical_rkey(key, m + 4));
    lemma_rearrange_restore(classical_rkey(key, m + 5));
    lemma_rearrange_restore(classical_rkey(key, m + 6));
    lemma_rearrange_restore(classical_rkey(key, m + 7));
    lemma_round0_corrections(
        classical_rkey(key, m + 1),
        rearrange_0(key_update_word(key_update_word(key_update_word(classical_rkey(key, m))))),
    );
}

/// The byte swap of a little-endian load of four bytes is their
/// big-endian load.
proof fn lemma_load_word(b0: u8, b1: u8, b2: u8, b3: u8)
    by (bit_vector)
    ensures
        byte_swap(
            (b0 as u32) | ((b1 as u32) << 8u32) | ((b2 as u32) << 16u32) | ((b3 as u32) << 24u32),
        ) == ((b0 as u32) << 24u32) | ((b1 as u32) << 16u32) | ((b2 as u32) << 8u32) | (b3 as u32),
{
}

/// Fills the first eighty words of `rkey` with the fixsliced round keys of
/// the 16-byte `key`: word `n` is classical round-key word `n` in the layout
/// of round `n / 2`. The first twenty words are computed classically and then
/// rearranged; the others are computed ten rounds at a time directly in the
/// fixsliced layouts.
#[verifier::rlimit(60)]
pub fn precompute_rkeys(rkey: &mut [u32], key: &[u8; 16])
    requires
        old(rkey)@.len() >= 80,
    ensures
        final(rkey)@.len() == old(rkey)@.len(),
        forall|n: int| 0 <= n < 80 ==> final(rkey)@[n] == fixsliced_rkey(key@, n as nat),
        forall|n: int| 80 <= n < old(rkey)@.len() ==> final(rkey)@[n] == old(rkey)@[n],
{
    let w3 = (key[12] as u32) | ((key[13] as u32) << 8) | ((key[14] as u32) << 16) | ((
    key[15] as u32) << 24);
    let w1 = (key[4] as u32) | ((key[5] as u32) << 8) | ((key[6] as u32) << 16) | ((key[7] as u32)
        << 24);
    let w2 = (key[8] as u32) | ((key[9] as u32) << 8) | ((key[10] as u32) << 16) | ((
    key[11] as u32) << 24);
    let w0 = (key[0] as u32) | ((key[1] as u32) << 8) | ((key[2] as u32) << 16) | ((key[3] as u32)
        << 24);
    proof {
        lemma_load_word(key[12], key[13], key[14], key[15]);
        lemma_load_word(key[4], key[5], key[6], key[7]);
        lemma_load_word(key[8], key[9], key[10], key[11]);
        lemma_load_word(key[0], key[1], key[2], key[3]);
    }
    rkey[0] = u32big(&w3);
    rkey[1] = u32big(&w1);
    rkey[2] = u32big(&w2);
    rkey[3] = u32big(&w0);

    let mut i: usize = 0;
    while i < 16
        invariant
            i % 2 == 0,
            i <= 16,
            rkey@.len() == old(rkey)@.len(),
            rkey@.len() >= 80,
            forall|n: int| 0 <= n < i + 4 ==> rkey@[n] == classical_rkey(key@, n as nat),
            forall|n: int| 80 <= n < rkey@.len() ==> rkey@[n] == old(rkey)@[n],
        decreases 16 - i,
    {
        rkey[i + 4] = rkey[i + 1];
        rkey[i + 5] = key_update(&rkey[i]);
        i += 2;
    }

    let mut i: usize = 0;
    while i < 20
        invariant
            i == 0 || i == 10 || i == 20,
            rkey@.len() == old(rkey)@.len(),
            rkey@.len() >= 80,
            forall|n: int|
                0 <= n < 20 ==> rkey@[n] == (if n < i {
                    fixsliced_rkey(key@, n as nat)
                } else {
                    classical_rkey(key@, n as nat)
                }),
            forall|n: int| 80 <= n < rkey@.len() ==> rkey@[n] == old(rkey)@[n],
        decreases 20 - i,
    {
        let mut t = rkey[i];
        reaarrange_rkey_0(&mut t);
        rkey[i] = t;
        let mut t = rkey[i + 1];
        reaarrange_rkey_0(&mut t);
        rkey[i + 1] = t;
        let mut t = rkey[i + 2];
        reaarrange_rkey_1(&mut t);
        rkey[i + 2] = t;
        let mut t = rkey[i + 3];
        reaarrange_rkey_1(&mut t);
        rkey[i + 3] = t;
        let mut t = rkey[i + 4];
        reaarrange_rkey_2(&mut t);
        rkey[i + 4] = t;
        let mut t = rkey[i + 5];
        reaarrange_rkey_2(&mut t);
        rkey[i + 5] = t;
        let mut t = rkey[i + 6];
        reaarrange_rkey_3(&mut t);
        rkey[i + 6] = t;
        let mut t = rkey[i + 7];
        reaarrange_rkey_3(&mut t);
        rkey[i + 7] = t;
        i += 10;
    }

    let mut i: usize = 20;
    while i < 80
        invariant
            20 <= i <= 80,
            i % 10 == 0,
            rkey@.len() == old(rkey)@.len(),
            rkey@.len() >= 80,
            forall|n: int| 0 <= n < i ==> rkey@[n] == fixsliced_rkey(key@, n as nat),
            forall|n: int| 80 <= n < rkey@.len() ==> rkey@[n] == old(rkey)@[n],
        decreases 80 - i,
    {
        proof {
            lemma_fixsliced_block(key@, i as nat);
        }
        let ghost before = rkey@;
        rkey[i] = rkey[i - 19];
        rkey[i + 1] = key_triple_update_0(&rkey[i - 20]);
        rkey[i + 2] = key_double_update_1(&rkey[i - 17]);
        rkey[i + 3] = key_triple_update_1(&rkey[i - 18]);
        rkey[i + 4] = key_double_update_2(&rkey[i - 15]);
        rkey[i + 5] = key_triple_update_2(&rkey[i - 16]);
        rkey[i + 6] = key_double_update_3(&rkey[i - 13]);
        rkey[i + 7] = key_triple_update_3(&rkey[i - 14]);
        rkey[i + 8] = key_double_update_4(&rkey[i - 11]);
        rkey[i + 9] = key_triple_update_4(&rkey[i - 12]);
        let mut t = rkey[i];
        swapmovesingle(&mut t, 0x00003333, 16);
        swapmovesingle(&mut t, 0x55554444, 1);
        rkey[i] = t;
        let mut t = rkey[i + 1];
        swapmovesingle(&mut t, 0x55551100, 1);
        rkey[i + 1] = t;
        proof {
            assert forall|n: int| 0 <= n < i + 10 implies rkey@[n] == fixsliced_rkey(
                key@,
                n as nat,
            ) by {
                if n < i {
                    assert(rkey@[n] == before[n]);
                }
            }
        }
        i += 10;
    }
}

} // verus!
