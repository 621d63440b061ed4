use vstd::prelude::*;

verus! {

// ---------------------------------------------------------------------------
// Vocabulary: rotations of a word, and of the lanes a word is cut into.
// ---------------------------------------------------------------------------

/// `x` rotated right by `k` bits.
pub open spec fn rotr32(x: u32, k: u32) -> u32 {
    (x >> k) | (x << ((32 - k) as u32))
}

/// The `w`-bit value `v` rotated right by `k` bits inside its `w` bits.
pub open spec fn rotr_lane(v: u32, w: u32, k: u32) -> u32 {
    ((v >> k) | (v << ((w - k) as u32))) & (((1u64 << w) - 1) as u32)
}

/// Each of the four bytes of `x` rotated right by `k` bits on its own.
pub open spec fn bytes_rotr(x: u32, k: u32) -> u32 {
    rotr_lane(x & 0xff, 8, k)
        | (rotr_lane((x >> 8u32) & 0xff, 8, k) << 8u32)
        | (rotr_lane((x >> 16u32) & 0xff, 8, k) << 16u32)
        | (rotr_lane(x >> 24u32, 8, k) << 24u32)
}

/// Each of the two 16-bit halves of `x` rotated right by `k` bits on its own.
pub open spec fn halves_rotr(x: u32, k: u32) -> u32 {
    rotr_lane(x & 0xffff, 16, k) | (rotr_lane(x >> 16u32, 16, k) << 16u32)
}

/// Each of the eight nibbles of `x` rotated right by `k` bits on its own.
pub open spec fn nibbles_rotr(x: u32, k: u32) -> u32 {
    rotr_lane(x & 0xf, 4, k)
        | (rotr_lane((x >> 4u32) & 0xf, 4, k) << 4u32)
        | (rotr_lane((x >> 8u32) & 0xf, 4, k) << 8u32)
        | (rotr_lane((x >> 12u32) & 0xf, 4, k) << 12u32)
        | (rotr_lane((x >> 16u32) & 0xf, 4, k) << 16u32)
        | (rotr_lane((x >> 20u32) & 0xf, 4, k) << 20u32)
        | (rotr_lane((x >> 24u32) & 0xf, 4, k) << 24u32)
        | (rotr_lane(x >> 28u32, 4, k) << 28u32)
}

/// `x` with the order of its four bytes reversed.
pub open spec fn byte_swap(x: u32) -> u32 {
    ((x & 0xff) << 24u32) | (((x >> 8u32) & 0xff) << 16u32) | (((x >> 16u32) & 0xff) << 8u32) | (x
        >> 24u32)
}

/// The number of set bits of `x`.
pub open spec fn bit_count(x: u32) -> int {
    ((x >> 0u32) & 1)
        + ((x >> 1u32) & 1)
        + ((x >> 2u32) & 1)
        + ((x >> 3u32) & 1)
        + ((x >> 4u32) & 1)
        + ((x >> 5u32) & 1)
        + ((x >> 6u32) & 1)
        + ((x >> 7u32) & 1)
        + ((x >> 8u32) & 1)
        + ((x >> 9u32) & 1)
        + ((x >> 10u32) & 1)
        + ((x >> 11u32) & 1)
        + ((x >> 12u32) & 1)
        + ((x >> 13u32) & 1)
        + ((x >> 14u32) & 1)
        + ((x >> 15u32) & 1)
        + ((x >> 16u32) & 1)
        + ((x >> 17u32) & 1)
        + ((x >> 18u32) & 1)
        + ((x >> 19u32) & 1)
        + ((x >> 20u32) & 1)
        + ((x >> 21u32) & 1)
        + ((x >> 22u32) & 1)
        + ((x >> 23u32) & 1)
        + ((x >> 24u32) & 1)
        + ((x >> 25u32) & 1)
        + ((x >> 26u32) & 1)
        + ((x >> 27u32) & 1)
        + ((x >> 28u32) & 1)
        + ((x >> 29u32) & 1)
        + ((x >> 30u32) & 1)
        + ((x >> 31u32) & 1)
}

/// The number of set bits of the byte `b`.
pub open spec fn byte_bit_count(b: u8) -> int {
    ((b >> 0u32) & 1)
        + ((b >> 1u32) & 1)
        + ((b >> 2u32) & 1)
        + ((b >> 3u32) & 1)
        + ((b >> 4u32) & 1)
        + ((b >> 5u32) & 1)
        + ((b >> 6u32) & 1)
        + ((b >> 7u32) & 1)
}

/// One step of the classical GIFT-128 key-state update on a round-key word:
/// the high half is rotated right by 2 bits, the low half by 12 bits.
pub open spec fn key_update_word(x: u32) -> u32 {
    rotr_lane(x & 0xffff, 16, 12) | (rotr_lane(x >> 16u32, 16, 2) << 16u32)
}

// ---------------------------------------------------------------------------
// Word and lane rotations.
// ---------------------------------------------------------------------------

/// One step of the classical key-state update on a round-key word.
pub fn key_update(x: &u32) -> (r: u32)
    ensures
        r == key_update_word(*x),
{
    let r = (((*x) >> 12) & 0x0000000f) | (((*x) & 0x00000fff) << 4) | (((*x) >> 2) & 0x3fff0000)
        | (((*x) & 0x00030000) << 14);
    let v = *x;
    assert(r == key_update_word(v)) by (bit_vector)
        requires
            r == (((v >> 12u32) & 0x0000000f) | ((v & 0x00000fff) << 4u32) | ((v >> 2u32)
                & 0x3fff0000) | ((v & 0x00030000) << 14u32)),
    ;
    r
}

/// Reverses the byte order of a word.
pub fn u32big(x: &u32) -> (r: u32)
    ensures
        r == byte_swap(*x),
{
    let r = (((*x) & 0x000000FF) << 24) | (((*x) & 0x0000FF00) << 8) | (((*x) & 0x00FF0000) >> 8)
        | (((*x) & 0xFF000000) >> 24);
    let v = *x;
    assert(r == byte_swap(v)) by (bit_vector)
        requires
            r == (((v & 0x000000FF) << 24u32) | ((v & 0x0000FF00) << 8u32) | ((v & 0x00FF0000)
                >> 8u32) | ((v & 0xFF000000) >> 24u32)),
    ;
    r
}

/// Rotates a word right by `y` bits.
pub fn ror(x: &u32, y: &u32) -> (r: u32)
    requires
        0 < *y < 32,
    ensures
        r == rotr32(*x, *y),
{
    ((*x) >> (*y)) | (*x << (32 - (*y)))
}

/// Rotates every byte of a word right by 2 bits.
pub fn byte_ror_2(x: &u32) -> (r: u32)
    ensures
        r == bytes_rotr(*x, 2),
{
    let v = *x;
    let r = ((v >> 2) & 0x3f3f3f3f) | ((v & 0x03030303) << 6);
    assert(r == bytes_rotr(v, 2)) by (bit_vector)
        requires
            r == (((v >> 2u32) & 0x3f3f3f3f) | ((v & 0x03030303) << 6u32)),
    ;
    r
}

/// Rotates every byte of a word right by 4 bits.
pub fn byte_ror_4(x: &u32) -> (r: u32)
    ensures
        r == bytes_rotr(*x, 4),
{
    let v = *x;
    let r = ((v >> 4) & 0x0f0f0f0f) | ((v & 0x0f0f0f0f) << 4);
    assert(r == bytes_rotr(v, 4)) by (bit_vector)
        requires
            r == (((v >> 4u32) & 0x0f0f0f0f) | ((v & 0x0f0f0f0f) << 4u32)),
    ;
    r
}

/// Rotates every byte of a word right by 6 bits.
pub fn byte_ror_6(x: &u32) -> (r: u32)
    ensures
        r == bytes_rotr(*x, 6),
{
    let v = *x;
    let r = ((v >> 6) & 0x03030303) | ((v & 0x3f3f3f3f) << 2);
    assert(r == bytes_rotr(v, 6)) by (bit_vector)
        requires
            r == (((v >> 6u32) & 0x03030303) | ((v & 0x3f3f3f3f) << 2u32)),
    ;
    r
}

/// Rotates both 16-bit halves of a word right by 4 bits.
pub fn half_ror_4(x: &u32) -> (r: u32)
    ensures
        r == halves_rotr(*x, 4),
{
    let v = *x;
    let r = ((v >> 4) & 0x0fff0fff) | ((v & 0x000f000f) << 12);
    assert(r == halves_rotr(v, 4)) by (bit_vector)
        requires
            r == (((v >> 4u32) & 0x0fff0fff) | ((v & 0x000f000f) << 12u32)),
    ;
    r
}

/// Rotates both 16-bit halves of a word right by 8 bits.
pub fn half_ror_8(x: &u32) -> (r: u32)
    ensures
        r == halves_rotr(*x, 8),
{
    let v = *x;
    let r = ((v >> 8) & 0x00ff00ff) | ((v & 0x00ff00ff) << 8);
    assert(r == halves_rotr(v, 8)) by (bit_vector)
        requires
            r == (((v >> 8u32) & 0x00ff00ff) | ((v & 0x00ff00ff) << 8u32)),
    ;
    r
}

/// Rotates both 16-bit halves of a word right by 12 bits.
pub fn half_ror_12(x: &u32) -> (r: u32)
    ensures
        r == halves_rotr(*x, 12),
{
    let v = *x;
    let r = ((v >> 12) & 0x000f000f) | ((v & 0x0fff0fff) << 4);
    assert(r == halves_rotr(v, 12)) by (bit_vector)
        requires
            r == (((v >> 12u32) & 0x000f000f) | ((v & 0x0fff0fff) << 4u32)),
    ;
    r
}

/// Rotates every nibble of a word right by 1 bit.
pub fn nibble_ror_1(x: &u32) -> (r: u32)
    ensures
        r == nibbles_rotr(*x, 1),
{
    let v = *x;
    let r = ((v >> 1) & 0x77777777) | ((v & 0x11111111) << 3);
    assert(r == nibbles_rotr(v, 1)) by (bit_vector)
        requires
            r == (((v >> 1u32) & 0x77777777) | ((v & 0x11111111) << 3u32)),
    ;
    r
}

/// Rotates every nibble of a word right by 2 bits.
pub fn nibble_ror_2(x: &u32) -> (r: u32)
    ensures
        r == nibbles_rotr(*x, 2),
{
    let v = *x;
    let r = ((v >> 2) & 0x33333333) | ((v & 0x33333333) << 2);
    assert(r == nibbles_rotr(v, 2)) by (bit_vector)
        requires
            r == (((v >> 2u32) & 0x33333333) | ((v & 0x33333333) << 2u32)),
    ;
    r
}

/// Rotates every nibble of a word right by 3 bits.
pub fn nibble_ror_3(x: &u32) -> (r: u32)
    ensures
        r == nibbles_rotr(*x, 3),
{
    let v = *x;
    let r = ((v >> 3) & 0x11111111) | ((v & 0x77777777) << 1);
    assert(r == nibbles_rotr(v, 3)) by (bit_vector)
        requires
            r == (((v >> 3u32) & 0x11111111) | ((v & 0x77777777) << 1u32)),
    ;
    r
}

// ---------------------------------------------------------------------------
// Rotations undo each other.
// ---------------------------------------------------------------------------

/// Rotating a word right by `k` and then by `32 - k` gives it back.
pub proof fn lemma_rotr32_inverse(x: u32, k: u32)
    requires
        0 < k < 32,
    ensures
        rotr32(rotr32(x, k), (32 - k) as u32) == x,
{
    lemma_rotations_undone(x, k);
}

/// Rotating every byte right by `k` and then by `8 - k` gives the word back.
pub proof fn lemma_bytes_rotr_inverse(x: u32, k: u32)
    requires
        0 < k < 8,
    ensures
        bytes_rotr(bytes_rotr(x, k), (8 - k) as u32) == x,
{
    lemma_rotations_undone(x, k);
}

/// Rotating both halves right by `k` and then by `16 - k` gives the word
/// back.
pub proof fn lemma_halves_rotr_inverse(x: u32, k: u32)
    requires
        0 < k < 16,
    ensures
        halves_rotr(halves_rotr(x, k), (16 - k) as u32) == x,
{
    lemma_rotations_undone(x, k);
}

/// Rotating every nibble right by `k` and then by `4 - k` gives the word
/// back.
pub proof fn lemma_nibbles_rotr_inverse(x: u32, k: u32)
    requires
        0 < k < 4,
    ensures
        nibbles_rotr(nibbles_rotr(x, k), (4 - k) as u32) == x,
{
    lemma_rotations_undone(x, k);
}

proof fn lemma_rotations_undone(x: u32, k: u32)
    ensures
        0 < k < 32 ==> rotr32(rotr32(x, k), (32 - k) as u32) == x,
        0 < k < 8 ==> bytes_rotr(bytes_rotr(x, k), (8 - k) as u32) == x,
        0 < k < 16 ==> halves_rotr(halves_rotr(x, k), (16 - k) as u32) == x,
        0 < k < 4 ==> nibbles_rotr(nibbles_rotr(x, k), (4 - k) as u32) == x,
{
    let (w, b, h, n) = (rotr32(x, k), bytes_rotr(x, k), halves_rotr(x, k), nibbles_rotr(x, k));
    assert({
        &&& 0 < k < 32 ==> rotr32(w, (32 - k) as u32) == x
        &&& 0 < k < 8 ==> bytes_rotr(b, (8 - k) as u32) == x
        &&& 0 < k < 16 ==> halves_rotr(h, (16 - k) as u32) == x
        &&& 0 < k < 4 ==> nibbles_rotr(n, (4 - k) as u32) == x
    }) by (bit_vector)
        requires
            w == rotr32(x, k),
            b == bytes_rotr(x, k),
            h == halves_rotr(x, k),
            n == nibbles_rotr(x, k),
    ;
}

/// Reversing the byte order twice gives the word back.
pub proof fn lemma_byte_swap_involution(x: u32)
    ensures
        byte_swap(byte_swap(x)) == x,
{
    let y = byte_swap(x);
    assert(byte_swap(y) == x) by (bit_vector)
        requires
            y == byte_swap(x),
    ;
}

// ---------------------------------------------------------------------------
// SWAPMOVE: exchanging selected bits between or within words.
// ---------------------------------------------------------------------------

/// The bits that `swapmove` exchanges, marked at their position in `b`:
/// where `b` and `a >> n` differ under `mask`.
pub open spec fn swapmove_diff(a: u32, b: u32, mask: u32, n: u8) -> u32 {
    (b ^ (a >> n)) & mask
}

/// `a` after `swapmove(a, b, mask, n)`: its bits under `mask << n` now hold
/// the bits of `b` under `mask`.
pub open spec fn swapmove_first(a: u32, b: u32, mask: u32, n: u8) -> u32 {
    a ^ (swapmove_diff(a, b, mask, n) << n)
}

/// `b` after `swapmove(a, b, mask, n)`: its bits under `mask` now hold the
/// bits of `a` under `mask << n`.
pub open spec fn swapmove_second(a: u32, b: u32, mask: u32, n: u8) -> u32 {
    b ^ swapmove_diff(a, b, mask, n)
}

/// `a` after `swapmovesingle(a, mask, n)`: the bits of `a` under `mask` are
/// exchanged with the bits `n` positions above them.
pub open spec fn swapmove_single(a: u32, mask: u32, n: u8) -> u32 {
    let t = (a ^ (a >> n)) & mask;
    a ^ t ^ (t << n)
}

/// Exchanges the bits of `b` under `mask` with the bits of `a` under
/// `mask << n`.
pub fn swapmove(a: &mut u32, b: &mut u32, mask: u32, n: u8)
    requires
        n < 32,
    ensures
        *final(a) == swapmove_first(*old(a), *old(b), mask, n),
        *final(b) == swapmove_second(*old(a), *old(b), mask, n),
        (mask << n) >> n == mask ==> *final(a) == (*old(a) & !(mask << n)) | ((*old(b) & mask)
            << n),
        (mask << n) >> n == mask ==> *final(b) == (*old(b) & !mask) | ((*old(a) >> n) & mask),
{
    proof {
        lemma_swapmove_exchange(*a, *b, mask, n);
    }
    let tmp = (*b ^ (*a >> n)) & mask;
    *b ^= tmp;
    *a ^= tmp << n;
}

/// Exchanges the bits of `a` under `mask` with the bits `n` positions above
/// them.
pub fn swapmovesingle(a: &mut u32, mask: u32, n: u8)
    requires
        n < 32,
    ensures
        *final(a) == swapmove_single(*old(a), mask, n),
        (mask << n) >> n == mask && mask & (mask << n) == 0 ==> *final(a) == (*old(a) & !(mask | (
        mask << n))) | ((*old(a) >> n) & mask) | ((*old(a) & mask) << n),
{
    proof {
        lemma_swapmove_exchange(*a, *a, mask, n);
    }
    let tmp = (*a ^ (*a >> n)) & mask;
    *a ^= tmp;
    *a ^= tmp << n;
}

/// What `swapmove_single` does to each bit, when the bits under `mask` and
/// the bits `n` positions above them do not overlap and no bit of `mask` is
/// shifted out: a bit under `mask` and the bit `n` positions above it change
/// places, and every other bit stays.
pub proof fn lemma_swapmove_single_bits(a: u32, mask: u32, n: u8, p: u32)
    requires
        n < 32,
        p < 32,
        mask & (mask << n) == 0,
        (mask << n) >> n == mask,
    ensures
        ({
            let r = swapmove_single(a, mask, n);
            &&& (mask >> p) & 1 == 1 ==> p + n < 32 && (r >> p) & 1 == (a >> ((p + n) as u32)) & 1
                && (r >> ((p + n) as u32)) & 1 == (a >> p) & 1
            &&& (mask >> p) & 1 == 0 && (p < n || (mask >> ((p - n) as u32)) & 1 == 0) ==> (r >> p)
                & 1 == (a >> p) & 1
        }),
{
    let r = swapmove_single(a, mask, n);
    assert({
        &&& (mask >> p) & 1 == 1 ==> p + n < 32 && (r >> p) & 1 == (a >> ((p + n) as u32)) & 1 && (r
            >> ((p + n) as u32)) & 1 == (a >> p) & 1
        &&& (mask >> p) & 1 == 0 && (p < n || (mask >> ((p - n) as u32)) & 1 == 0) ==> (r >> p) & 1
            == (a >> p) & 1
    }) by (bit_vector)
        requires
            n < 32,
            p < 32,
            mask & (mask << n) == 0,
            (mask << n) >> n == mask,
            r == swapmove_single(a, mask, n),
    ;
}

/// What `swapmove` does to each bit, when no bit of `mask` is shifted out:
/// a bit of `b` under `mask` and the bit `n` positions above it in `a` change
/// places, and every other bit stays.
pub proof fn lemma_swapmove_bits(a: u32, b: u32, mask: u32, n: u8, p: u32)
    requires
        n < 32,
        p < 32,
        (mask << n) >> n == mask,
    ensures
        ({
            let c = swapmove_first(a, b, mask, n);
            let d = swapmove_second(a, b, mask, n);
            &&& (mask >> p) & 1 == 1 ==> p + n < 32 && (d >> p) & 1 == (a >> ((p + n) as u32)) & 1
                && (c >> ((p + n) as u32)) & 1 == (b >> p) & 1
            &&& (mask >> p) & 1 == 0 ==> (d >> p) & 1 == (b >> p) & 1
            &&& (p < n || (mask >> ((p - n) as u32)) & 1 == 0) ==> (c >> p) & 1 == (a >> p) & 1
        }),
{
    let c = swapmove_first(a, b, mask, n);
    let d = swapmove_second(a, b, mask, n);
    assert({
        &&& (mask >> p) & 1 == 1 ==> p + n < 32 && (d >> p) & 1 == (a >> ((p + n) as u32)) & 1 && (c
            >> ((p + n) as u32)) & 1 == (b >> p) & 1
        &&& (mask >> p) & 1 == 0 ==> (d >> p) & 1 == (b >> p) & 1
        &&& (p < n || (mask >> ((p - n) as u32)) & 1 == 0) ==> (c >> p) & 1 == (a >> p) & 1
    }) by (bit_vector)
        requires
            n < 32,
            p < 32,
            (mask << n) >> n == mask,
            c == swapmove_first(a, b, mask, n),
            d == swapmove_second(a, b, mask, n),
    ;
}

/// SWAPMOVE written as the exchange it performs, when no bit of `mask` is
/// shifted out: the bits of `b` under `mask` and the bits of `a` under
/// `mask << n` change places; within one word, when the two sets of bits do
/// not overlap, the bits under `mask` and those `n` positions above them
/// change places.
pub proof fn lemma_swapmove_exchange(a: u32, b: u32, mask: u32, n: u8)
    requires
        n < 32,
    ensures
        (mask << n) >> n == mask ==> swapmove_first(a, b, mask, n) == (a & !(mask << n)) | ((b
            & mask) << n),
        (mask << n) >> n == mask ==> swapmove_second(a, b, mask, n) == (b & !mask) | ((a >> n)
            & mask),
        (mask << n) >> n == mask && mask & (mask << n) == 0 ==> swapmove_single(a, mask, n) == (a
            & !(mask | (mask << n))) | ((a >> n) & mask) | ((a & mask) << n),
{
    let c = swapmove_first(a, b, mask, n);
    let d = swapmove_second(a, b, mask, n);
    let e = swapmove_single(a, mask, n);
    assert({
        &&& (mask << n) >> n == mask ==> c == (a & !(mask << n)) | ((b & mask) << n)
        &&& (mask << n) >> n == mask ==> d == (b & !mask) | ((a >> n) & mask)
        &&& (mask << n) >> n == mask && mask & (mask << n) == 0 ==> e == (a & !(mask | (mask
            << n))) | ((a >> n) & mask) | ((a & mask) << n)
    }) by (bit_vector)
        requires
            n < 32,
            c == swapmove_first(a, b, mask, n),
            d == swapmove_second(a, b, mask, n),
            e == swapmove_single(a, mask, n),
    ;
}

/// SWAPMOVE within one word distributes over exclusive or.
pub proof fn lemma_swapmove_single_xor(a: u32, b: u32, mask: u32, n: u8)
    requires
        n < 32,
    ensures
        swapmove_single(a ^ b, mask, n) == swapmove_single(a, mask, n) ^ swapmove_single(
            b,
            mask,
            n,
        ),
{
    let c = a ^ b;
    let x = swapmove_single(c, mask, n);
    let y = swapmove_single(a, mask, n);
    let z = swapmove_single(b, mask, n);
    assert(x == y ^ z) by (bit_vector)
        requires
            n < 32,
            c == a ^ b,
            x == swapmove_single(c, mask, n),
            y == swapmove_single(a, mask, n),
            z == swapmove_single(b, mask, n),
    ;
}

/// SWAPMOVE within one word keeps the number of set bits, when the bits
/// under `mask` and those `n` positions above them do not overlap and no bit
/// of `mask` is shifted out.
pub proof fn lemma_swapmove_single_bit_count(a: u32, mask: u32, n: u8)
    requires
        n < 32,
        mask & (mask << n) == 0,
        (mask << n) >> n == mask,
    ensures
        bit_count(swapmove_single(a, mask, n)) == bit_count(a),
{
    let r = swapmove_single(a, mask, n);
    let d = (a ^ (a >> n)) & mask;
    let e = d << n;
    let w = a >> n;
    assert(r == a ^ d ^ e && d & e == 0 && (d << n) >> n == d && ((w & d) << n) >> n == (w & d)
        && a & e == (w & d) << n) by (bit_vector)
        requires
            n < 32,
            mask & (mask << n) == 0,
            (mask << n) >> n == mask,
            r == swapmove_single(a, mask, n),
            d == (a ^ (a >> n)) & mask,
            e == d << n,
            w == a >> n,
    ;
    lemma_bit_identities(a, w, mask, e, 0);
    lemma_bit_identities(a, w, mask, e, 1);
    lemma_bit_identities(a, w, mask, e, 2);
    lemma_bit_identities(a, w, mask, e, 3);
    lemma_bit_identities(a, w, mask, e, 4);
    lemma_bit_identities(a, w, mask, e, 5);
    lemma_bit_identities(a, w, mask, e, 6);
    lemma_bit_identities(a, w, mask, e, 7);
    lemma_bit_identities(a, w, mask, e, 8);
    lemma_bit_identities(a, w, mask, e, 9);
    lemma_bit_identities(a, w, mask, e, 10);
    lemma_bit_identities(a, w, mask, e, 11);
    lemma_bit_identities(a, w, mask, e, 12);
    lemma_bit_identities(a, w, mask, e, 13);
    lemma_bit_identities(a, w, mask, e, 14);
    lemma_bit_identities(a, w, mask, e, 15);
    lemma_bit_identities(a, w, mask, e, 16);
    lemma_bit_identities(a, w, mask, e, 17);
    lemma_bit_identities(a, w, mask, e, 18);
    lemma_bit_identities(a, w, mask, e, 19);
    lemma_bit_identities(a, w, mask, e, 20);
    lemma_bit_identities(a, w, mask, e, 21);
    lemma_bit_identities(a, w, mask, e, 22);
    lemma_bit_identities(a, w, mask, e, 23);
    lemma_bit_identities(a, w, mask, e, 24);
    lemma_bit_identities(a, w, mask, e, 25);
    lemma_bit_identities(a, w, mask, e, 26);
    lemma_bit_identities(a, w, mask, e, 27);
    lemma_bit_identities(a, w, mask, e, 28);
    lemma_bit_identities(a, w, mask, e, 29);
    lemma_bit_identities(a, w, mask, e, 30);
    lemma_bit_identities(a, w, mask, e, 31);
    lemma_shl_bit_count(d, n);
    lemma_shl_bit_count(w & d, n);
}

/// Per-bit facts behind `lemma_swapmove_single_bit_count`: at bit `p`, the
/// count of `a ^ x ^ y` plus twice that of `a & x` and `a & y` is the count
/// of `a`, `x` and `y` when `x` and `y` share no bit; and where `x` marks the
/// bits under `m` in which `a` and `w` differ, exactly one of `a & x` and
/// `w & x` has the bit of `x`.
proof fn lemma_bit_identities(a: u32, w: u32, m: u32, y: u32, p: u32)
    by (bit_vector)
    requires
        p < 32,
    ensures
        ({
            let x = (a ^ w) & m;
            &&& x & y == 0 ==> (((a ^ x ^ y) >> p) & 1) + 2 * (((a & x) >> p) & 1) + 2 * (((a
                & y) >> p) & 1) == ((a >> p) & 1) + ((x >> p) & 1) + ((y >> p) & 1)
            &&& (((a & x) >> p) & 1) + (((w & x) >> p) & 1) == (x >> p) & 1
        }),
{
}

/// Shifting left by `n` keeps the number of set bits when no bit is
/// shifted out.
pub proof fn lemma_shl_bit_count(y: u32, n: u8)
    requires
        n < 32,
        (y << n) >> n == y,
    ensures
        bit_count(y << n) == bit_count(y),
    decreases n,
{
    lemma_shl_steps(y, n);
    if n > 0 {
        let z = y << ((n - 1) as u8);
        lemma_shl_bit_count(y, (n - 1) as u8);
        lemma_shl_one_bits(z);
    }
}

proof fn lemma_shl_steps(y: u32, n: u8)
    by (bit_vector)
    requires
        n < 32,
    ensures
        y << 0u8 == y,
        n > 0 && (y << n) >> n == y ==> (y << n) == ((y << ((n - 1) as u8)) << 1u8) && ((y << ((n
            - 1) as u8)) << 1u8) >> 1u8 == (y << ((n - 1) as u8)) && (y << ((n - 1) as u8)) >> ((n
            - 1) as u8) == y,
{
}

proof fn lemma_shl_one_bits(z: u32)
    by (bit_vector)
    ensures
        ((z << 1u8) >> 0u32) & 1 == 0,
        ((z << 1u8) >> 1u32) & 1 == (z >> 0u32) & 1,
        ((z << 1u8) >> 2u32) & 1 == (z >> 1u32) & 1,
        ((z << 1u8) >> 3u32) & 1 == (z >> 2u32) & 1,
        ((z << 1u8) >> 4u32) & 1 == (z >> 3u32) & 1,
        ((z << 1u8) >> 5u32) & 1 == (z >> 4u32) & 1,
        ((z << 1u8) >> 6u32) & 1 == (z >> 5u32) & 1,
        ((z << 1u8) >> 7u32) & 1 == (z >> 6u32) & 1,
        ((z << 1u8) >> 8u32) & 1 == (z >> 7u32) & 1,
        ((z << 1u8) >> 9u32) & 1 == (z >> 8u32) & 1,
        ((z << 1u8) >> 10u32) & 1 == (z >> 9u32) & 1,
        ((z << 1u8) >> 11u32) & 1 == (z >> 10u32) & 1,
        ((z << 1u8) >> 12u32) & 1 == (z >> 11u32) & 1,
        ((z << 1u8) >> 13u32) & 1 == (z >> 12u32) & 1,
        ((z << 1u8) >> 14u32) & 1 == (z >> 13u32) & 1,
        ((z << 1u8) >> 15u32) & 1 == (z >> 14u32) & 1,
        ((z << 1u8) >> 16u32) & 1 == (z >> 15u32) & 1,
        ((z << 1u8) >> 17u32) & 1 == (z >> 16u32) & 1,
        ((z << 1u8) >> 18u32) & 1 == (z >> 17u32) & 1,
        ((z << 1u8) >> 19u32) & 1 == (z >> 18u32) & 1,
        ((z << 1u8) >> 20u32) & 1 == (z >> 19u32) & 1,
        ((z << 1u8) >> 21u32) & 1 == (z >> 20u32) & 1,
        ((z << 1u8) >> 22u32) & 1 == (z >> 21u32) & 1,
        ((z << 1u8) >> 23u32) & 1 == (z >> 22u32) & 1,
        ((z << 1u8) >> 24u32) & 1 == (z >> 23u32) & 1,
        ((z << 1u8) >> 25u32) & 1 == (z >> 24u32) & 1,
        ((z << 1u8) >> 26u32) & 1 == (z >> 25u32) & 1,
        ((z << 1u8) >> 27u32) & 1 == (z >> 26u32) & 1,
        ((z << 1u8) >> 28u32) & 1 == (z >> 27u32) & 1,
        ((z << 1u8) >> 29u32) & 1 == (z >> 28u32) & 1,
        ((z << 1u8) >> 30u32) & 1 == (z >> 29u32) & 1,
        ((z << 1u8) >> 31u32) & 1 == (z >> 30u32) & 1,
        (z << 1u8) >> 1u8 == z ==> (z >> 31u32) & 1 == 0,
{
}

/// SWAPMOVE between two words undoes itself, when no bit of `mask` is
/// shifted out by `n`.
pub proof fn lemma_swapmove_involution(a: u32, b: u32, mask: u32, n: u8)
    requires
        n < 32,
        (mask << n) >> n == mask,
    ensures
        swapmove_first(
            swapmove_first(a, b, mask, n),
            swapmove_second(a, b, mask, n),
            mask,
            n,
        ) == a,
        swapmove_second(
            swapmove_first(a, b, mask, n),
            swapmove_second(a, b, mask, n),
            mask,
            n,
        ) == b,
{
    let c = swapmove_first(a, b, mask, n);
    let d = swapmove_second(a, b, mask, n);
    assert(swapmove_first(c, d, mask, n) == a && swapmove_second(c, d, mask, n) == b)
        by (bit_vector)
        requires
            n < 32,
            (mask << n) >> n == mask,
            c == swapmove_first(a, b, mask, n),
            d == swapmove_second(a, b, mask, n),
    ;
}

/// SWAPMOVE within one word undoes itself, when the bits under `mask` and the
/// bits `n` positions above them do not overlap and no bit of `mask` is
/// shifted out.
pub proof fn lemma_swapmovesingle_involution(a: u32, mask: u32, n: u8)
    requires
        n < 32,
        mask & (mask << n) == 0,
        (mask << n) >> n == mask,
    ensures
        swapmove_single(swapmove_single(a, mask, n), mask, n) == a,
{
    let b = swapmove_single(a, mask, n);
    assert(swapmove_single(b, mask, n) == a) by (bit_vector)
        requires
            n < 32,
            mask & (mask << n) == 0,
            (mask << n) >> n == mask,
            b == swapmove_single(a, mask, n),
    ;
}

// ---------------------------------------------------------------------------
// The bitsliced S-box.
// ---------------------------------------------------------------------------

/// The 4-bit S-box of GIFT.
pub open spec fn gift_sbox(v: u32) -> u32 {
    if v == 0 { 0x1 }
    else if v == 1 { 0xa }
    else if v == 2 { 0x4 }
    else if v == 3 { 0xc }
    else if v == 4 { 0x6 }
    else if v == 5 { 0xf }
    else if v == 6 { 0x3 }
    else if v == 7 { 0x9 }
    else if v == 8 { 0x2 }
    else if v == 9 { 0xd }
    else if v == 10 { 0xb }
    else if v == 11 { 0x7 }
    else if v == 12 { 0x5 }
    else if v == 13 { 0x0 }
    else if v == 14 { 0x8 }
    else { 0xe }
}

/// The inverse of GIFT's 4-bit S-box.
pub open spec fn gift_sbox_inv(v: u32) -> u32 {
    if v == 0 { 0xd }
    else if v == 1 { 0x0 }
    else if v == 2 { 0x8 }
    else if v == 3 { 0x6 }
    else if v == 4 { 0x2 }
    else if v == 5 { 0xc }
    else if v == 6 { 0x4 }
    else if v == 7 { 0xb }
    else if v == 8 { 0xe }
    else if v == 9 { 0x7 }
    else if v == 10 { 0x1 }
    else if v == 11 { 0xa }
    else if v == 12 { 0x3 }
    else if v == 13 { 0x9 }
    else if v == 14 { 0xf }
    else { 0x5 }
}

/// The 4-bit value formed by bit `p` of `w0`, `w1`, `w2` and `w3`, with the
/// bit of `w0` least significant.
pub open spec fn column(w0: u32, w1: u32, w2: u32, w3: u32, p: u32) -> u32 {
    ((w0 >> p) & 1) | (((w1 >> p) & 1) << 1u32) | (((w2 >> p) & 1) << 2u32) | (((w3 >> p) & 1)
        << 3u32)
}

/// (`b0`, `b1`, `b2`, `b3`) is what the bitsliced S-box leaves of
/// (`a0`, `a1`, `a2`, `a3`): at every bit position, the column of
/// (`b3`, `b1`, `b2`, `b0`) is the S-box image of the column of
/// (`a0`, `a1`, `a2`, `a3`).
pub open spec fn sbox_output(
    a0: u32,
    a1: u32,
    a2: u32,
    a3: u32,
    b0: u32,
    b1: u32,
    b2: u32,
    b3: u32,
) -> bool {
    forall|p: u32| p < 32 ==> column(b3, b1, b2, b0, p) == gift_sbox(column(a0, a1, a2, a3, p))
}

/// (`b0`, `b1`, `b2`, `b3`) is what the inverse bitsliced S-box leaves of
/// (`a0`, `a1`, `a2`, `a3`): at every bit position, the column of
/// (`b3`, `b1`, `b2`, `b0`) is the inverse S-box image of the column of
/// (`a0`, `a1`, `a2`, `a3`).
pub open spec fn inv_sbox_output(
    a0: u32,
    a1: u32,
    a2: u32,
    a3: u32,
    b0: u32,
    b1: u32,
    b2: u32,
    b3: u32,
) -> bool {
    forall|p: u32|
        p < 32 ==> column(b3, b1, b2, b0, p) == gift_sbox_inv(column(a0, a1, a2, a3, p))
}

/// Two words whose bits agree at every position are equal.
pub proof fn lemma_bits_determine_word(a: u32, b: u32)
    requires
        forall|p: u32| p < 32 ==> (a >> p) & 1 == (b >> p) & 1,
    ensures
        a == b,
{
    assert((a >> 0u32) & 1 == (b >> 0u32) & 1);
    assert((a >> 1u32) & 1 == (b >> 1u32) & 1);
    assert((a >> 2u32) & 1 == (b >> 2u32) & 1);
    assert((a >> 3u32) & 1 == (b >> 3u32) & 1);
    assert((a >> 4u32) & 1 == (b >> 4u32) & 1);
    assert((a >> 5u32) & 1 == (b >> 5u32) & 1);
    assert((a >> 6u32) & 1 == (b >> 6u32) & 1);
    assert((a >> 7u32) & 1 == (b >> 7u32) & 1);
    assert((a >> 8u32) & 1 == (b >> 8u32) & 1);
    assert((a >> 9u32) & 1 == (b >> 9u32) & 1);
    assert((a >> 10u32) & 1 == (b >> 10u32) & 1);
    assert((a >> 11u32) & 1 == (b >> 11u32) & 1);
    assert((a >> 12u32) & 1 == (b >> 12u32) & 1);
    assert((a >> 13u32) & 1 == (b >> 13u32) & 1);
    assert((a >> 14u32) & 1 == (b >> 14u32) & 1);
    assert((a >> 15u32) & 1 == (b >> 15u32) & 1);
    assert((a >> 16u32) & 1 == (b >> 16u32) & 1);
    assert((a >> 17u32) & 1 == (b >> 17u32) & 1);
    assert((a >> 18u32) & 1 == (b >> 18u32) & 1);
    assert((a >> 19u32) & 1 == (b >> 19u32) & 1);
    assert((a >> 20u32) & 1 == (b >> 20u32) & 1);
    assert((a >> 21u32) & 1 == (b >> 21u32) & 1);
    assert((a >> 22u32) & 1 == (b >> 22u32) & 1);
    assert((a >> 23u32) & 1 == (b >> 23u32) & 1);
    assert((a >> 24u32) & 1 == (b >> 24u32) & 1);
    assert((a >> 25u32) & 1 == (b >> 25u32) & 1);
    assert((a >> 26u32) & 1 == (b >> 26u32) & 1);
    assert((a >> 27u32) & 1 == (b >> 27u32) & 1);
    assert((a >> 28u32) & 1 == (b >> 28u32) & 1);
    assert((a >> 29u32) & 1 == (b >> 29u32) & 1);
    assert((a >> 30u32) & 1 == (b >> 30u32) & 1);
    assert((a >> 31u32) & 1 == (b >> 31u32) & 1);
    assert(a == b) by (bit_vector)
        requires
            (a >> 0u32) & 1 == (b >> 0u32) & 1,
            (a >> 1u32) & 1 == (b >> 1u32) & 1,
            (a >> 2u32) & 1 == (b >> 2u32) & 1,
            (a >> 3u32) & 1 == (b >> 3u32) & 1,
            (a >> 4u32) & 1 == (b >> 4u32) & 1,
            (a >> 5u32) & 1 == (b >> 5u32) & 1,
            (a >> 6u32) & 1 == (b >> 6u32) & 1,
            (a >> 7u32) & 1 == (b >> 7u32) & 1,
            (a >> 8u32) & 1 == (b >> 8u32) & 1,
            (a >> 9u32) & 1 == (b >> 9u32) & 1,
            (a >> 10u32) & 1 == (b >> 10u32) & 1,
            (a >> 11u32) & 1 == (b >> 11u32) & 1,
            (a >> 12u32) & 1 == (b >> 12u32) & 1,
            (a >> 13u32) & 1 == (b >> 13u32) & 1,
            (a >> 14u32) & 1 == (b >> 14u32) & 1,
            (a >> 15u32) & 1 == (b >> 15u32) & 1,
            (a >> 16u32) & 1 == (b >> 16u32) & 1,
            (a >> 17u32) & 1 == (b >> 17u32) & 1,
            (a >> 18u32) & 1 == (b >> 18u32) & 1,
            (a >> 19u32) & 1 == (b >> 19u32) & 1,
            (a >> 20u32) & 1 == (b >> 20u32) & 1,
            (a >> 21u32) & 1 == (b >> 21u32) & 1,
            (a >> 22u32) & 1 == (b >> 22u32) & 1,
            (a >> 23u32) & 1 == (b >> 23u32) & 1,
            (a >> 24u32) & 1 == (b >> 24u32) & 1,
            (a >> 25u32) & 1 == (b >> 25u32) & 1,
            (a >> 26u32) & 1 == (b >> 26u32) & 1,
            (a >> 27u32) & 1 == (b >> 27u32) & 1,
            (a >> 28u32) & 1 == (b >> 28u32) & 1,
            (a >> 29u32) & 1 == (b >> 29u32) & 1,
            (a >> 30u32) & 1 == (b >> 30u32) & 1,
            (a >> 31u32) & 1 == (b >> 31u32) & 1,
    ;
}

/// Equal columns have equal bits, and a column is a 4-bit value.
proof fn lemma_column_bits(
    x0: u32,
    x1: u32,
    x2: u32,
    x3: u32,
    y0: u32,
    y1: u32,
    y2: u32,
    y3: u32,
    p: u32,
)
    by (bit_vector)
    requires
        p < 32,
    ensures
        column(x0, x1, x2, x3, p) < 16,
        column(x0, x1, x2, x3, p) == column(y0, y1, y2, y3, p) ==> (x0 >> p) & 1 == (y0 >> p) & 1
            && (x1 >> p) & 1 == (y1 >> p) & 1 && (x2 >> p) & 1 == (y2 >> p) & 1 && (x3 >> p) & 1
            == (y3 >> p) & 1,
{
}

/// The two S-box tables are inverse to each other.
pub proof fn lemma_gift_sbox_tables(v: u32)
    requires
        v < 16,
    ensures
        gift_sbox_inv(gift_sbox(v)) == v,
        gift_sbox(gift_sbox_inv(v)) == v,
{
}

/// The inverse S-box, applied to the S-box output with the first and last
/// words given in exchanged order, gives back the S-box input, each word in
/// the variable it started in.
pub proof fn lemma_inv_sbox_undoes_sbox(
    a0: u32,
    a1: u32,
    a2: u32,
    a3: u32,
    b0: u32,
    b1: u32,
    b2: u32,
    b3: u32,
    c0: u32,
    c1: u32,
    c2: u32,
    c3: u32,
)
    requires
        sbox_output(a0, a1, a2, a3, b0, b1, b2, b3),
        inv_sbox_output(b3, b1, b2, b0, c3, c1, c2, c0),
    ensures
        c0 == a0,
        c1 == a1,
        c2 == a2,
        c3 == a3,
{
    assert forall|p: u32| p < 32 implies (c0 >> p) & 1 == (a0 >> p) & 1 && (c1 >> p) & 1 == (a1
        >> p) & 1 && (c2 >> p) & 1 == (a2 >> p) & 1 && (c3 >> p) & 1 == (a3 >> p) & 1 by {
        lemma_column_bits(a0, a1, a2, a3, c0, c1, c2, c3, p);
        lemma_gift_sbox_tables(column(a0, a1, a2, a3, p));
        assert(column(c0, c1, c2, c3, p) == gift_sbox_inv(column(b3, b1, b2, b0, p)));
        lemma_column_bits(c0, c1, c2, c3, a0, a1, a2, a3, p);
    }
    lemma_bits_determine_word(c0, a0);
    lemma_bits_determine_word(c1, a1);
    lemma_bits_determine_word(c2, a2);
    lemma_bits_determine_word(c3, a3);
}

/// The S-box, applied to the inverse S-box output with the first and last
/// words given in exchanged order, gives back the inverse S-box input, each
/// word in the variable it started in.
pub proof fn lemma_sbox_undoes_inv_sbox(
    a0: u32,
    a1: u32,
    a2: u32,
    a3: u32,
    b0: u32,
    b1: u32,
    b2: u32,
    b3: u32,
    c0: u32,
    c1: u32,
    c2: u32,
    c3: u32,
)
    requires
        inv_sbox_output(a0, a1, a2, a3, b0, b1, b2, b3),
        sbox_output(b3, b1, b2, b0, c3, c1, c2, c0),
    ensures
        c0 == a0,
        c1 == a1,
        c2 == a2,
        c3 == a3,
{
    assert forall|p: u32| p < 32 implies (c0 >> p) & 1 == (a0 >> p) & 1 && (c1 >> p) & 1 == (a1
        >> p) & 1 && (c2 >> p) & 1 == (a2 >> p) & 1 && (c3 >> p) & 1 == (a3 >> p) & 1 by {
        lemma_column_bits(a0, a1, a2, a3, c0, c1, c2, c3, p);
        lemma_gift_sbox_tables(column(a0, a1, a2, a3, p));
        assert(column(c0, c1, c2, c3, p) == gift_sbox(column(b3, b1, b2, b0, p)));
        lemma_column_bits(c0, c1, c2, c3, a0, a1, a2, a3, p);
    }
    lemma_bits_determine_word(c0, a0);
    lemma_bits_determine_word(c1, a1);
    lemma_bits_determine_word(c2, a2);
    lemma_bits_determine_word(c3, a3);
}

proof fn lemma_sbox_column(a0: u32, a1: u32, a2: u32, a3: u32, p: u32)
    by (bit_vector)
    requires
        p < 32,
    ensures
        ({
            let b1 = a1 ^ (a0 & a2);
            let b0 = a0 ^ (b1 & a3);
            let b2 = a2 ^ (b0 | b1);
            let b3 = a3 ^ b2;
            let c1 = b1 ^ b3;
            let c3 = b3 ^ 0xffffffffu32;
            let c2 = b2 ^ (b0 & c1);
            column(c3, c1, c2, b0, p) == gift_sbox(column(a0, a1, a2, a3, p))
        }),
{
}

proof fn lemma_inv_sbox_column(a0: u32, a1: u32, a2: u32, a3: u32, p: u32)
    by (bit_vector)
    requires
        p < 32,
    ensures
        ({
            let b2 = a2 ^ (a3 & a1);
            let b0 = a0 ^ 0xffffffffu32;
            let b1 = a1 ^ b0;
            let c0 = b0 ^ b2;
            let c2 = b2 ^ (a3 | b1);
            let b3 = a3 ^ (b1 & c0);
            let c1 = b1 ^ (b3 & c2);
            column(b3, c1, c2, c0, p) == gift_sbox_inv(column(a0, a1, a2, a3, p))
        }),
{
}

/// The bitsliced GIFT S-box: for every bit position, the column of bits of
/// (`s0`, `s1`, `s2`, `s3`) goes through the S-box, and the result is left in
/// (`s3`, `s1`, `s2`, `s0`), that is with the roles of `s0` and `s3` exchanged.
pub fn sbox(s0: &mut u32, s1: &mut u32, s2: &mut u32, s3: &mut u32)
    ensures
        sbox_output(
            *old(s0),
            *old(s1),
            *old(s2),
            *old(s3),
            *final(s0),
            *final(s1),
            *final(s2),
            *final(s3),
        ),
{
    let ghost (a0, a1, a2, a3) = (*s0, *s1, *s2, *s3);
    *s1 ^= *s0 & *s2;
    *s0 ^= *s1 & *s3;
    *s2 ^= *s0 | *s1;
    *s3 ^= *s2;
    *s1 ^= *s3;
    *s3 ^= 0xffffffff;
    *s2 ^= *s0 & *s1;
    assert forall|p: u32| p < 32 implies column(*s3, *s1, *s2, *s0, p) == gift_sbox(
        column(a0, a1, a2, a3, p),
    ) by {
        lemma_sbox_column(a0, a1, a2, a3, p);
    }
}

/// The inverse bitsliced GIFT S-box: for every bit position, the column of
/// bits of (`s0`, `s1`, `s2`, `s3`) goes through the inverse S-box, and the
/// result is left in (`s3`, `s1`, `s2`, `s0`).
pub fn inv_sbox(s0: &mut u32, s1: &mut u32, s2: &mut u32, s3: &mut u32)
    ensures
        inv_sbox_output(
            *old(s0),
            *old(s1),
            *old(s2),
            *old(s3),
            *final(s0),
            *final(s1),
            *final(s2),
            *final(s3),
        ),
{
    let ghost (a0, a1, a2, a3) = (*s0, *s1, *s2, *s3);
    *s2 ^= *s3 & *s1;
    *s0 ^= 0xffffffff;
    *s1 ^= *s0;
    *s0 ^= *s2;
    *s2 ^= *s3 | *s1;
    *s3 ^= *s1 & *s0;
    *s1 ^= *s3 & *s2;
    assert forall|p: u32| p < 32 implies column(*s3, *s1, *s2, *s0, p) == gift_sbox_inv(
        column(a0, a1, a2, a3, p),
    ) by {
        lemma_inv_sbox_column(a0, a1, a2, a3, p);
    }
}

// ---------------------------------------------------------------------------
// Where each bit goes.
// ---------------------------------------------------------------------------

/// Bit `p` of `x`, as 0 or 1.
pub open spec fn bit(x: u32, p: u32) -> u32 {
    (x >> p) & 1
}

/// The position that bit `p` of a word comes from when the word's lanes of
/// `w` bits are each rotated right by `k`: the bit `k` places higher in the
/// same lane, wrapping round within the lane.
pub open spec fn lane_rotr_source(p: u32, w: u32, k: u32) -> u32 {
    (p - p % w + ((p % w + k) as u32) % w) as u32
}

/// Bit by bit: exclusive or acts on each bit alone, each rotation takes bit
/// `p` from `lane_rotr_source(p, w, k)`, and widening a byte commutes with
/// exclusive or.
pub proof fn lemma_bit_moves(x: u32, y: u32, k: u32, p: u32, a: u8, b: u8)
    by (bit_vector)
    requires
        p < 32,
    ensures
        bit(x ^ y, p) == bit(x, p) ^ bit(y, p),
        ((a ^ b) as u32) == (a as u32) ^ (b as u32),
        0 < k < 32 ==> lane_rotr_source(p, 32, k) < 32 && bit(rotr32(x, k), p) == bit(
            x,
            lane_rotr_source(p, 32, k),
        ),
        0 < k < 16 ==> lane_rotr_source(p, 16, k) < 32 && bit(halves_rotr(x, k), p) == bit(
            x,
            lane_rotr_source(p, 16, k),
        ),
        0 < k < 8 ==> lane_rotr_source(p, 8, k) < 32 && bit(bytes_rotr(x, k), p) == bit(
            x,
            lane_rotr_source(p, 8, k),
        ),
        0 < k < 4 ==> lane_rotr_source(p, 4, k) < 32 && bit(nibbles_rotr(x, k), p) == bit(
            x,
            lane_rotr_source(p, 4, k),
        ),
{
}

// ---------------------------------------------------------------------------
// Five rounds of the fixsliced linear layer.
// ---------------------------------------------------------------------------

/// Word 0 of the state after `quintuple_round`, computed from word 3 before
/// it: nibbles rotated by 1, then the word rotated by 16 and by 24, with the
/// round constants 1 and 3 added in between.
pub open spec fn quintuple_word0(s3: u32, rconst: [u8; 5]) -> u32 {
    rotr32(rotr32(nibbles_rotr(s3, 1) ^ (rconst[1] as u32), 16) ^ (rconst[3] as u32), 24)
}

/// Word 1 of the state after `quintuple_round`, computed from word 1 before
/// it: nibbles rotated by 2, halves by 8, bytes by 4 and the word by 16, with
/// round-key bytes 0, 2, 4, 6 and 8 added along the way.
pub open spec fn quintuple_word1(s1: u32, rkey: [u8; 10]) -> u32 {
    rotr32(
        bytes_rotr(
            halves_rotr(nibbles_rotr(s1, 2) ^ (rkey[0] as u32), 8) ^ (rkey[2] as u32) ^ (
            rkey[4] as u32),
            4,
        ) ^ (rkey[6] as u32),
        16,
    ) ^ (rkey[8] as u32)
}

/// Word 2 of the state after `quintuple_round`, computed from word 2 before
/// it: nibbles rotated by 3, halves by 12, the word by 16, bytes by 2 and the
/// word by 8, with round-key bytes 1, 3, 5, 7 and 9 added along the way.
pub open spec fn quintuple_word2(s2: u32, rkey: [u8; 10]) -> u32 {
    rotr32(
        bytes_rotr(
            rotr32(halves_rotr(nibbles_rotr(s2, 3) ^ (rkey[1] as u32), 12) ^ (rkey[3] as u32), 16)
                ^ (rkey[5] as u32),
            2,
        ) ^ (rkey[7] as u32),
        8,
    ) ^ (rkey[9] as u32)
}

/// Word 3 of the state after `quintuple_round`, computed from word 0 before
/// it: halves rotated by 4 and bytes by 6, with round constants 0, 2 and 4
/// added along the way.
pub open spec fn quintuple_word3(s0: u32, rconst: [u8; 5]) -> u32 {
    bytes_rotr(halves_rotr(s0 ^ (rconst[0] as u32), 4) ^ (rconst[2] as u32), 6) ^ (
    rconst[4] as u32)
}

/// Where each bit of word `0` after `quintuple_round` comes from: with
/// `q1`, `q2`, ... the positions that the successive lane rotations read,
/// it is the exclusive or of one bit of the input word and one bit of each
/// key or constant byte added along the way.
pub open spec fn quintuple_bit0(s3: u32, rconst: [u8; 5], out: u32, p: u32) -> bool {
    let q1 = lane_rotr_source(p, 32, 24);
    let q2 = lane_rotr_source(q1, 32, 16);
    let q3 = lane_rotr_source(q2, 4, 1);
    bit(out, p) == bit(s3, q3) ^ bit(rconst[1] as u32, q2) ^ bit(rconst[3] as u32, q1)
}

/// Where each bit of word `1` after `quintuple_round` comes from: with
/// `q1`, `q2`, ... the positions that the successive lane rotations read,
/// it is the exclusive or of one bit of the input word and one bit of each
/// key or constant byte added along the way.
pub open spec fn quintuple_bit1(s1: u32, rkey: [u8; 10], out: u32, p: u32) -> bool {
    let q1 = lane_rotr_source(p, 32, 16);
    let q2 = lane_rotr_source(q1, 8, 4);
    let q3 = lane_rotr_source(q2, 16, 8);
    let q4 = lane_rotr_source(q3, 4, 2);
    bit(out, p) == bit(s1, q4)
        ^ bit(rkey[0] as u32, q3)
        ^ bit(rkey[2] as u32, q2)
        ^ bit(rkey[4] as u32, q2)
        ^ bit(rkey[6] as u32, q1)
        ^ bit(rkey[8] as u32, p)
}

/// Where each bit of word `2` after `quintuple_round` comes from: with
/// `q1`, `q2`, ... the positions that the successive lane rotations read,
/// it is the exclusive or of one bit of the input word and one bit of each
/// key or constant byte added along the way.
pub open spec fn quintuple_bit2(s2: u32, rkey: [u8; 10], out: u32, p: u32) -> bool {
    let q1 = lane_rotr_source(p, 32, 8);
    let q2 = lane_rotr_source(q1, 8, 2);
    let q3 = lane_rotr_source(q2, 32, 16);
    let q4 = lane_rotr_source(q3, 16, 12);
    let q5 = lane_rotr_source(q4, 4, 3);
    bit(out, p) == bit(s2, q5)
        ^ bit(rkey[1] as u32, q4)
        ^ bit(rkey[3] as u32, q3)
        ^ bit(rkey[5] as u32, q2)
        ^ bit(rkey[7] as u32, q1)
        ^ bit(rkey[9] as u32, p)
}

/// Where each bit of word `3` after `quintuple_round` comes from: with
/// `q1`, `q2`, ... the positions that the successive lane rotations read,
/// it is the exclusive or of one bit of the input word and one bit of each
/// key or constant byte added along the way.
pub open spec fn quintuple_bit3(s0: u32, rconst: [u8; 5], out: u32, p: u32) -> bool {
    let q1 = lane_rotr_source(p, 8, 6);
    let q2 = lane_rotr_source(q1, 16, 4);
    bit(out, p) == bit(s0, q2)
        ^ bit(rconst[0] as u32, q2)
        ^ bit(rconst[2] as u32, q1)
        ^ bit(rconst[4] as u32, p)
}

/// Bit by bit, `quintuple_word0` takes each bit from the input word and the added
/// bytes as `quintuple_bit0` says.
pub proof fn lemma_quintuple_word0_bits(s3: u32, rconst: [u8; 5], p: u32)
    requires
        p < 32,
    ensures
        quintuple_bit0(s3, rconst, quintuple_word0(s3, rconst), p),
{
    let v0 = nibbles_rotr(s3, 1);
    let v1 = v0 ^ (rconst[1] as u32);
    let v2 = rotr32(v1, 16);
    let v3 = v2 ^ (rconst[3] as u32);
    let v4 = rotr32(v3, 24);
    let q1 = lane_rotr_source(p, 32, 24);
    let q2 = lane_rotr_source(q1, 32, 16);
    let q3 = lane_rotr_source(q2, 4, 1);
    lemma_bit_moves(v3, 0, 24, p, 0, 0);
    lemma_bit_moves(v2, rconst[3] as u32, 0, q1, 0, 0);
    lemma_bit_moves(v1, 0, 16, q1, 0, 0);
    lemma_bit_moves(v0, rconst[1] as u32, 0, q2, 0, 0);
    lemma_bit_moves(s3, 0, 1, q2, 0, 0);
    assert(quintuple_word0(s3, rconst) == v4);
}

/// Bit by bit, `quintuple_word1` takes each bit from the input word and the added
/// bytes as `quintuple_bit1` says.
pub proof fn lemma_quintuple_word1_bits(s1: u32, rkey: [u8; 10], p: u32)
    requires
        p < 32,
    ensures
        quintuple_bit1(s1, rkey, quintuple_word1(s1, rkey), p),
{
    let v0 = nibbles_rotr(s1, 2);
    let v1 = v0 ^ (rkey[0] as u32);
    let v2 = halves_rotr(v1, 8);
    let v3 = v2 ^ (rkey[2] as u32);
    let v4 = v3 ^ (rkey[4] as u32);
    let v5 = bytes_rotr(v4, 4);
    let v6 = v5 ^ (rkey[6] as u32);
    let v7 = rotr32(v6, 16);
    let v8 = v7 ^ (rkey[8] as u32);
    let q1 = lane_rotr_source(p, 32, 16);
    let q2 = lane_rotr_source(q1, 8, 4);
    let q3 = lane_rotr_source(q2, 16, 8);
    let q4 = lane_rotr_source(q3, 4, 2);
    lemma_bit_moves(v7, rkey[8] as u32, 0, p, 0, 0);
    lemma_bit_moves(v6, 0, 16, p, 0, 0);
    lemma_bit_moves(v5, rkey[6] as u32, 0, q1, 0, 0);
    lemma_bit_moves(v4, 0, 4, q1, 0, 0);
    lemma_bit_moves(v3, rkey[4] as u32, 0, q2, 0, 0);
    lemma_bit_moves(v2, rkey[2] as u32, 0, q2, 0, 0);
    lemma_bit_moves(v1, 0, 8, q2, 0, 0);
    lemma_bit_moves(v0, rkey[0] as u32, 0, q3, 0, 0);
    lemma_bit_moves(s1, 0, 2, q3, 0, 0);
    assert(quintuple_word1(s1, rkey) == v8);
}

/// Bit by bit, `quintuple_word2` takes each bit from the input word and the added
/// bytes as `quintuple_bit2` says.
pub proof fn lemma_quintuple_word2_bits(s2: u32, rkey: [u8; 10], p: u32)
    requires
        p < 32,
    ensures
        quintuple_bit2(s2, rkey, quintuple_word2(s2, rkey), p),
{
    let v0 = nibbles_rotr(s2, 3);
    let v1 = v0 ^ (rkey[1] as u32);
    let v2 = halves_rotr(v1, 12);
    let v3 = v2 ^ (rkey[3] as u32);
    let v4 = rotr32(v3, 16);
    let v5 = v4 ^ (rkey[5] as u32);
    let v6 = bytes_rotr(v5, 2);
    let v7 = v6 ^ (rkey[7] as u32);
    let v8 = rotr32(v7, 8);
    let v9 = v8 ^ (rkey[9] as u32);
    let q1 = lane_rotr_source(p, 32, 8);
    let q2 = lane_rotr_source(q1, 8, 2);
    let q3 = lane_rotr_source(q2, 32, 16);
    let q4 = lane_rotr_source(q3, 16, 12);
    let q5 = lane_rotr_source(q4, 4, 3);
    lemma_bit_moves(v8, rkey[9] as u32, 0, p, 0, 0);
    lemma_bit_moves(v7, 0, 8, p, 0, 0);
    lemma_bit_moves(v6, rkey[7] as u32, 0, q1, 0, 0);
    lemma_bit_moves(v5, 0, 2, q1, 0, 0);
    lemma_bit_moves(v4, rkey[5] as u32, 0, q2, 0, 0);
    lemma_bit_moves(v3, 0, 16, q2, 0, 0);
    lemma_bit_moves(v2, rkey[3] as u32, 0, q3, 0, 0);
    lemma_bit_moves(v1, 0, 12, q3, 0, 0);
    lemma_bit_moves(v0, rkey[1] as u32, 0, q4, 0, 0);
    lemma_bit_moves(s2, 0, 3, q4, 0, 0);
    assert(quintuple_word2(s2, rkey) == v9);
}

/// Bit by bit, `quintuple_word3` takes each bit from the input word and the added
/// bytes as `quintuple_bit3` says.
pub proof fn lemma_quintuple_word3_bits(s0: u32, rconst: [u8; 5], p: u32)
    requires
        p < 32,
    ensures
        quintuple_bit3(s0, rconst, quintuple_word3(s0, rconst), p),
{
    let v0 = s0 ^ (rconst[0] as u32);
    let v1 = halves_rotr(v0, 4);
    let v2 = v1 ^ (rconst[2] as u32);
    let v3 = bytes_rotr(v2, 6);
    let v4 = v3 ^ (rconst[4] as u32);
    let q1 = lane_rotr_source(p, 8, 6);
    let q2 = lane_rotr_source(q1, 16, 4);
    lemma_bit_moves(v3, rconst[4] as u32, 0, p, 0, 0);
    lemma_bit_moves(v2, 0, 6, p, 0, 0);
    lemma_bit_moves(v1, rconst[2] as u32, 0, q1, 0, 0);
    lemma_bit_moves(v0, 0, 4, q1, 0, 0);
    lemma_bit_moves(s0, rconst[0] as u32, 0, q2, 0, 0);
    assert(quintuple_word3(s0, rconst) == v4);
}

/// Bit by bit, the four words that `quintuple_round` leaves come from its
/// inputs as `quintuple_bit0` to `quintuple_bit3` say.
pub proof fn lemma_quintuple_round_bits(s: [u32; 4], rkey: [u8; 10], rconst: [u8; 5])
    ensures
        forall|p: u32| p < 32 ==> quintuple_bit0(s[3], rconst, quintuple_word0(s[3], rconst), p),
        forall|p: u32| p < 32 ==> quintuple_bit1(s[1], rkey, quintuple_word1(s[1], rkey), p),
        forall|p: u32| p < 32 ==> quintuple_bit2(s[2], rkey, quintuple_word2(s[2], rkey), p),
        forall|p: u32| p < 32 ==> quintuple_bit3(s[0], rconst, quintuple_word3(s[0], rconst), p),
{
    assert forall|p: u32| p < 32 implies quintuple_bit0(
        s[3],
        rconst,
        quintuple_word0(s[3], rconst),
        p,
    ) by {
        lemma_quintuple_word0_bits(s[3], rconst, p);
    }
    assert forall|p: u32| p < 32 implies quintuple_bit1(
        s[1],
        rkey,
        quintuple_word1(s[1], rkey),
        p,
    ) by {
        lemma_quintuple_word1_bits(s[1], rkey, p);
    }
    assert forall|p: u32| p < 32 implies quintuple_bit2(
        s[2],
        rkey,
        quintuple_word2(s[2], rkey),
        p,
    ) by {
        lemma_quintuple_word2_bits(s[2], rkey, p);
    }
    assert forall|p: u32| p < 32 implies quintuple_bit3(
        s[0],
        rconst,
        quintuple_word3(s[0], rconst),
        p,
    ) by {
        lemma_quintuple_word3_bits(s[0], rconst, p);
    }
}

/// Exclusive or of bits regroups freely.
proof fn lemma_xor_regroup(
    a0: u32, a1: u32, a2: u32, a3: u32, a4: u32, a5: u32,
    b0: u32, b1: u32, b2: u32, b3: u32, b4: u32, b5: u32,
)
    by (bit_vector)
    ensures
        (a0 ^ a1 ^ a2) ^ (b0 ^ b1 ^ b2) == (a0 ^ b0) ^ (a1 ^ b1) ^ (a2 ^ b2),
        (a0 ^ a1 ^ a2 ^ a3) ^ (b0 ^ b1 ^ b2 ^ b3) == (a0 ^ b0) ^ (a1 ^ b1) ^ (a2 ^ b2) ^ (a3 ^ b3),
        (a0 ^ a1 ^ a2 ^ a3 ^ a4 ^ a5) ^ (b0 ^ b1 ^ b2 ^ b3 ^ b4 ^ b5) == (a0 ^ b0) ^ (a1 ^ b1) ^ (a2
            ^ b2) ^ (a3 ^ b3) ^ (a4 ^ b4) ^ (a5 ^ b5),
{
}

/// `quintuple_round` distributes over exclusive or: run on the exclusive or
/// of two states, two round-key arrays and two round-constant arrays, it
/// gives the exclusive or of the two runs. Key and constant bytes are thus
/// added, never combined in any other way.
pub proof fn lemma_quintuple_round_xor(
    s: [u32; 4],
    t: [u32; 4],
    u: [u32; 4],
    k1: [u8; 10],
    k2: [u8; 10],
    k3: [u8; 10],
    c1: [u8; 5],
    c2: [u8; 5],
    c3: [u8; 5],
)
    requires
        forall|i: int| 0 <= i < 4 ==> u[i] == s[i] ^ t[i],
        forall|i: int| 0 <= i < 10 ==> k3[i] == k1[i] ^ k2[i],
        forall|i: int| 0 <= i < 5 ==> c3[i] == c1[i] ^ c2[i],
    ensures
        quintuple_word0(u[3], c3) == quintuple_word0(s[3], c1) ^ quintuple_word0(t[3], c2),
        quintuple_word1(u[1], k3) == quintuple_word1(s[1], k1) ^ quintuple_word1(t[1], k2),
        quintuple_word2(u[2], k3) == quintuple_word2(s[2], k1) ^ quintuple_word2(t[2], k2),
        quintuple_word3(u[0], c3) == quintuple_word3(s[0], c1) ^ quintuple_word3(t[0], c2),
{
    lemma_quintuple_word0_xor(s, t, u, k1, k2, k3, c1, c2, c3);
    lemma_quintuple_word1_xor(s, t, u, k1, k2, k3, c1, c2, c3);
    lemma_quintuple_word2_xor(s, t, u, k1, k2, k3, c1, c2, c3);
    lemma_quintuple_word3_xor(s, t, u, k1, k2, k3, c1, c2, c3);
}

#[verifier::rlimit(40)]
proof fn lemma_quintuple_word0_xor(
    s: [u32; 4],
    t: [u32; 4],
    u: [u32; 4],
    k1: [u8; 10],
    k2: [u8; 10],
    k3: [u8; 10],
    c1: [u8; 5],
    c2: [u8; 5],
    c3: [u8; 5],
)
    requires
        forall|i: int| 0 <= i < 4 ==> u[i] == s[i] ^ t[i],
        forall|i: int| 0 <= i < 10 ==> k3[i] == k1[i] ^ k2[i],
        forall|i: int| 0 <= i < 5 ==> c3[i] == c1[i] ^ c2[i],
    ensures
        quintuple_word0(u[3], c3) == quintuple_word0(s[3], c1) ^ quintuple_word0(t[3], c2),
{
    assert forall|p: u32| p < 32 implies (quintuple_word0(u[3], c3) >> p) & 1 == ((quintuple_word0(
        s[3],
        c1,
    ) ^ quintuple_word0(t[3], c2)) >> p) & 1 by {
            let q1 = lane_rotr_source(p, 32, 24);
        let q2 = lane_rotr_source(q1, 32, 16);
        let q3 = lane_rotr_source(q2, 4, 1);
        lemma_quintuple_word0_bits(u[3], c3, p);
        lemma_quintuple_word0_bits(s[3], c1, p);
        lemma_quintuple_word0_bits(t[3], c2, p);
        lemma_bit_moves(quintuple_word0(s[3], c1), quintuple_word0(t[3], c2), 0, p, 0, 0);
        lemma_bit_moves(s[3], t[3], 0, q3, 0, 0);
        lemma_bit_moves(c1[1] as u32, c2[1] as u32, 0, q2, c1[1], c2[1]);
        lemma_bit_moves(c1[3] as u32, c2[3] as u32, 0, q1, c1[3], c2[3]);
        lemma_xor_regroup(
            bit(s[3], q3),
            bit(c1[1] as u32, q2),
            bit(c1[3] as u32, q1),
            0u32,
            0u32,
            0u32,
            bit(t[3], q3),
            bit(c2[1] as u32, q2),
            bit(c2[3] as u32, q1),
            0u32,
            0u32,
            0u32,
        );
    }
    lemma_bits_determine_word(
        quintuple_word0(u[3], c3),
        quintuple_word0(s[3], c1) ^ quintuple_word0(t[3], c2),
    );
}

#[verifier::rlimit(40)]
proof fn lemma_quintuple_word1_xor(
    s: [u32; 4],
    t: [u32; 4],
    u: [u32; 4],
    k1: [u8; 10],
    k2: [u8; 10],
    k3: [u8; 10],
    c1: [u8; 5],
    c2: [u8; 5],
    c3: [u8; 5],
)
    requires
        forall|i: int| 0 <= i < 4 ==> u[i] == s[i] ^ t[i],
        forall|i: int| 0 <= i < 10 ==> k3[i] == k1[i] ^ k2[i],
        forall|i: int| 0 <= i < 5 ==> c3[i] == c1[i] ^ c2[i],
    ensures
        quintuple_word1(u[1], k3) == quintuple_word1(s[1], k1) ^ quintuple_word1(t[1], k2),
{
    assert forall|p: u32| p < 32 implies (quintuple_word1(u[1], k3) >> p) & 1 == ((quintuple_word1(
        s[1],
        k1,
    ) ^ quintuple_word1(t[1], k2)) >> p) & 1 by {
            let q1 = lane_rotr_source(p, 32, 16);
        let q2 = lane_rotr_source(q1, 8, 4);
        let q3 = lane_rotr_source(q2, 16, 8);
        let q4 = lane_rotr_source(q3, 4, 2);
        lemma_quintuple_word1_bits(u[1], k3, p);
        lemma_quintuple_word1_bits(s[1], k1, p);
        lemma_quintuple_word1_bits(t[1], k2, p);
        lemma_bit_moves(quintuple_word1(s[1], k1), quintuple_word1(t[1], k2), 0, p, 0, 0);
        lemma_bit_moves(s[1], t[1], 0, q4, 0, 0);
        lemma_bit_moves(k1[0] as u32, k2[0] as u32, 0, q3, k1[0], k2[0]);
        lemma_bit_moves(k1[2] as u32, k2[2] as u32, 0, q2, k1[2], k2[2]);
        lemma_bit_moves(k1[4] as u32, k2[4] as u32, 0, q2, k1[4], k2[4]);
        lemma_bit_moves(k1[6] as u32, k2[6] as u32, 0, q1, k1[6], k2[6]);
        lemma_bit_moves(k1[8] as u32, k2[8] as u32, 0, p, k1[8], k2[8]);
        lemma_xor_regroup(
            bit(s[1], q4),
            bit(k1[0] as u32, q3),
            bit(k1[2] as u32, q2),
            bit(k1[4] as u32, q2),
            bit(k1[6] as u32, q1),
            bit(k1[8] as u32, p),
            bit(t[1], q4),
            bit(k2[0] as u32, q3),
            bit(k2[2] as u32, q2),
            bit(k2[4] as u32, q2),
            bit(k2[6] as u32, q1),
            bit(k2[8] as u32, p),
        );
    }
    lemma_bits_determine_word(
        quintuple_word1(u[1], k3),
        quintuple_word1(s[1], k1) ^ quintuple_word1(t[1], k2),
    );
}

#[verifier::rlimit(40)]
proof fn lemma_quintuple_word2_xor(
    s: [u32; 4],
    t: [u32; 4],
    u: [u32; 4],
    k1: [u8; 10],
    k2: [u8; 10],
    k3: [u8; 10],
    c1: [u8; 5],
    c2: [u8; 5],
    c3: [u8; 5],
)
    requires
        forall|i: int| 0 <= i < 4 ==> u[i] == s[i] ^ t[i],
        forall|i: int| 0 <= i < 10 ==> k3[i] == k1[i] ^ k2[i],
        forall|i: int| 0 <= i < 5 ==> c3[i] == c1[i] ^ c2[i],
    ensures
        quintuple_word2(u[2], k3) == quintuple_word2(s[2], k1) ^ quintuple_word2(t[2], k2),
{
    assert forall|p: u32| p < 32 implies (quintuple_word2(u[2], k3) >> p) & 1 == ((quintuple_word2(
        s[2],
        k1,
    ) ^ quintuple_word2(t[2], k2)) >> p) & 1 by {
            let q1 = lane_rotr_source(p, 32, 8);
        let q2 = lane_rotr_source(q1, 8, 2);
        let q3 = lane_rotr_source(q2, 32, 16);
        let q4 = lane_rotr_source(q3, 16, 12);
        let q5 = lane_rotr_source(q4, 4, 3);
        lemma_quintuple_word2_bits(u[2], k3, p);
        lemma_quintuple_word2_bits(s[2], k1, p);
        lemma_quintuple_word2_bits(t[2], k2, p);
        lemma_bit_moves(quintuple_word2(s[2], k1), quintuple_word2(t[2], k2), 0, p, 0, 0);
        lemma_bit_moves(s[2], t[2], 0, q5, 0, 0);
        lemma_bit_moves(k1[1] as u32, k2[1] as u32, 0, q4, k1[1], k2[1]);
        lemma_bit_moves(k1[3] as u32, k2[3] as u32, 0, q3, k1[3], k2[3]);
        lemma_bit_moves(k1[5] as u32, k2[5] as u32, 0, q2, k1[5], k2[5]);
        lemma_bit_moves(k1[7] as u32, k2[7] as u32, 0, q1, k1[7], k2[7]);
        lemma_bit_moves(k1[9] as u32, k2[9] as u32, 0, p, k1[9], k2[9]);
        lemma_xor_regroup(
            bit(s[2], q5),
            bit(k1[1] as u32, q4),
            bit(k1[3] as u32, q3),
            bit(k1[5] as u32, q2),
            bit(k1[7] as u32, q1),
            bit(k1[9] as u32, p),
            bit(t[2], q5),
            bit(k2[1] as u32, q4),
            bit(k2[3] as u32, q3),
            bit(k2[5] as u32, q2),
            bit(k2[7] as u32, q1),
            bit(k2[9] as u32, p),
        );
    }
    lemma_bits_determine_word(
        quintuple_word2(u[2], k3),
        quintuple_word2(s[2], k1) ^ quintuple_word2(t[2], k2),
    );
}

#[verifier::rlimit(40)]
proof fn lemma_quintuple_word3_xor(
    s: [u32; 4],
    t: [u32; 4],
    u: [u32; 4],
    k1: [u8; 10],
    k2: [u8; 10],
    k3: [u8; 10],
    c1: [u8; 5],
    c2: [u8; 5],
    c3: [u8; 5],
)
    requires
        forall|i: int| 0 <= i < 4 ==> u[i] == s[i] ^ t[i],
        forall|i: int| 0 <= i < 10 ==> k3[i] == k1[i] ^ k2[i],
        forall|i: int| 0 <= i < 5 ==> c3[i] == c1[i] ^ c2[i],
    ensures
        quintuple_word3(u[0], c3) == quintuple_word3(s[0], c1) ^ quintuple_word3(t[0], c2),
{
    assert forall|p: u32| p < 32 implies (quintuple_word3(u[0], c3) >> p) & 1 == ((quintuple_word3(
        s[0],
        c1,
    ) ^ quintuple_word3(t[0], c2)) >> p) & 1 by {
            let q1 = lane_rotr_source(p, 8, 6);
        let q2 = lane_rotr_source(q1, 16, 4);
        lemma_quintuple_word3_bits(u[0], c3, p);
        lemma_quintuple_word3_bits(s[0], c1, p);
        lemma_quintuple_word3_bits(t[0], c2, p);
        lemma_bit_moves(quintuple_word3(s[0], c1), quintuple_word3(t[0], c2), 0, p, 0, 0);
        lemma_bit_moves(s[0], t[0], 0, q2, 0, 0);
        lemma_bit_moves(c1[0] as u32, c2[0] as u32, 0, q2, c1[0], c2[0]);
        lemma_bit_moves(c1[2] as u32, c2[2] as u32, 0, q1, c1[2], c2[2]);
        lemma_bit_moves(c1[4] as u32, c2[4] as u32, 0, p, c1[4], c2[4]);
        lemma_xor_regroup(
            bit(s[0], q2),
            bit(c1[0] as u32, q2),
            bit(c1[2] as u32, q1),
            bit(c1[4] as u32, p),
            0u32,
            0u32,
            bit(t[0], q2),
            bit(c2[0] as u32, q2),
            bit(c2[2] as u32, q1),
            bit(c2[4] as u32, p),
            0u32,
            0u32,
        );
    }
    lemma_bits_determine_word(
        quintuple_word3(u[0], c3),
        quintuple_word3(s[0], c1) ^ quintuple_word3(t[0], c2),
    );
}

/// Five rounds on the fixsliced state. The S-box layers work on copies of the
/// state words that are not written back, so the state only goes through the
/// lane rotations and the additions of round-key and round-constant bytes,
/// and words 0 and 3 change places at the end.
pub fn quintuple_round(state: &mut [u32; 4], rkey: [u8; 10], rconst: [u8; 5])
    ensures
        final(state)[0] == quintuple_word0(old(state)[3], rconst),
        final(state)[1] == quintuple_word1(old(state)[1], rkey),
        final(state)[2] == quintuple_word2(old(state)[2], rkey),
        final(state)[3] == quintuple_word3(old(state)[0], rconst),
        forall|p: u32| p < 32 ==> quintuple_bit0(old(state)[3], rconst, final(state)[0], p),
        forall|p: u32| p < 32 ==> quintuple_bit1(old(state)[1], rkey, final(state)[1], p),
        forall|p: u32| p < 32 ==> quintuple_bit2(old(state)[2], rkey, final(state)[2], p),
        forall|p: u32| p < 32 ==> quintuple_bit3(old(state)[0], rconst, final(state)[3], p),
{
    let ghost start = *state;
    let mut s0 = state[0];
    let mut s1 = state[1];
    let mut s2 = state[2];
    let mut s3 = state[3];
    sbox(&mut s0, &mut s1, &mut s2, &mut s3);
    state[3] = nibble_ror_1(&state[3]);
    state[1] = nibble_ror_2(&state[1]);
    state[2] = nibble_ror_3(&state[2]);
    state[1] ^= rkey[0] as u32;
    state[2] ^= rkey[1] as u32;
    state[0] ^= rconst[0] as u32;
    sbox(&mut s3, &mut s1, &mut s2, &mut s0);
    state[0] = half_ror_4(&state[0]);
    state[1] = half_ror_8(&state[1]);
    state[2] = half_ror_12(&state[2]);
    state[1] ^= rkey[2] as u32;
    state[2] ^= rkey[3] as u32;
    state[3] ^= rconst[1] as u32;
    sbox(&mut s0, &mut s1, &mut s2, &mut s3);
    state[3] = ror(&state[3], &16);
    state[2] = ror(&state[2], &16);
    swapmovesingle(&mut s1, 0x55555555, 1);
    swapmovesingle(&mut s2, 0x00005555, 1);
    swapmovesingle(&mut s3, 0x55550000, 1);
    state[1] ^= rkey[4] as u32;
    state[2] ^= rkey[5] as u32;
    state[0] ^= rconst[2] as u32;
    sbox(&mut s3, &mut s1, &mut s2, &mut s0);
    state[0] = byte_ror_6(&state[0]);
    state[1] = byte_ror_4(&state[1]);
    state[2] = byte_ror_2(&state[2]);
    state[1] ^= rkey[6] as u32;
    state[2] ^= rkey[7] as u32;
    state[3] ^= rconst[3] as u32;
    sbox(&mut s0, &mut s1, &mut s2, &mut s3);
    state[3] = ror(&state[3], &24);
    state[1] = ror(&state[1], &16);
    state[2] = ror(&state[2], &8);
    state[1] ^= rkey[8] as u32;
    state[2] ^= rkey[9] as u32;
    state[0] ^= rconst[4] as u32;
    let t = state[0];
    state[0] = state[3];
    state[3] = t;
    proof {
        assert(state[0] == quintuple_word0(start[3], rconst));
        assert(state[1] == quintuple_word1(start[1], rkey));
        assert(state[2] == quintuple_word2(start[2], rkey));
        assert(state[3] == quintuple_word3(start[0], rconst));
        lemma_quintuple_round_bits(start, rkey, rconst);
        assert forall|p: u32| p < 32 implies quintuple_bit0(start[3], rconst, state[0], p)
            && quintuple_bit1(start[1], rkey, state[1], p) && quintuple_bit2(
            start[2],
            rkey,
            state[2],
            p,
        ) && quintuple_bit3(start[0], rconst, state[3], p) by {
            assert(quintuple_bit0(start[3], rconst, quintuple_word0(start[3], rconst), p));
            assert(quintuple_bit1(start[1], rkey, quintuple_word1(start[1], rkey), p));
            assert(quintuple_bit2(start[2], rkey, quintuple_word2(start[2], rkey), p));
            assert(quintuple_bit3(start[0], rconst, quintuple_word3(start[0], rconst), p));
        }
    }
}

} // verus!
