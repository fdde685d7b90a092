//! That decryption undoes encryption. The encryption is written down here on its own, step by
//! step as the standard defines it, and shares nothing with the decryption.

use crate::aes::{
    added, block_at, block_of, byte_of, decrypted, decrypted_block, doubled, inverse, is_padded,
    mixed_back, next_key_byte, power, product, round_constant, round_key, shifted_back, substituted,
    times, unchained, undone, unsubstituted, BLOCK,
};
use vstd::arithmetic::power::pow;
use vstd::prelude::*;

verus! {

/// A byte times x in the field, modulo x^8 + x^4 + x^3 + x + 1.
pub open spec fn x_times(a: u8) -> u8 {
    (a << 1) ^ (if a >= 0x80 {
        0x1bu8
    } else {
        0u8
    })
}

/// The product of two bytes in the field: the multiples of the one by the powers of x that the
/// other is the sum of.
pub open spec fn field_product(a: u8, b: u8) -> u8 {
    let a1 = x_times(a);
    let a2 = x_times(a1);
    let a3 = x_times(a2);
    let a4 = x_times(a3);
    let a5 = x_times(a4);
    let a6 = x_times(a5);
    let a7 = x_times(a6);
    (if b & 1 != 0 { a } else { 0u8 }) ^ (if b & 2 != 0 { a1 } else { 0u8 }) ^ (if b & 4 != 0 { a2 } else { 0u8 })
        ^ (if b & 8 != 0 { a3 } else { 0u8 }) ^ (if b & 16 != 0 { a4 } else { 0u8 }) ^ (if b & 32 != 0 { a5 } else { 0u8 })
        ^ (if b & 64 != 0 { a6 } else { 0u8 }) ^ (if b & 128 != 0 { a7 } else { 0u8 })
}

proof fn lemma_product_closed(a: u8, b: u8)
    ensures
        product(a, b) == field_product(a, b),
{
    reveal_with_fuel(times, 9);
    let a1 = doubled(a);
    let a2 = doubled(a1);
    let a3 = doubled(a2);
    let a4 = doubled(a3);
    let a5 = doubled(a4);
    let a6 = doubled(a5);
    let a7 = doubled(a6);
    lemma_doubled(a);
    lemma_doubled(a1);
    lemma_doubled(a2);
    lemma_doubled(a3);
    lemma_doubled(a4);
    lemma_doubled(a5);
    lemma_doubled(a6);
    let b1 = b >> 1;
    let b2 = b1 >> 1;
    let b3 = b2 >> 1;
    let b4 = b3 >> 1;
    let b5 = b4 >> 1;
    let b6 = b5 >> 1;
    let b7 = b6 >> 1;
    let t7 = if b7 & 1 == 1 { a7 ^ 0 } else { 0 };
    let t6 = if b6 & 1 == 1 { a6 ^ t7 } else { t7 };
    let t5 = if b5 & 1 == 1 { a5 ^ t6 } else { t6 };
    let t4 = if b4 & 1 == 1 { a4 ^ t5 } else { t5 };
    let t3 = if b3 & 1 == 1 { a3 ^ t4 } else { t4 };
    let t2 = if b2 & 1 == 1 { a2 ^ t3 } else { t3 };
    let t1 = if b1 & 1 == 1 { a1 ^ t2 } else { t2 };
    let t0 = if b & 1 == 1 { a ^ t1 } else { t1 };
    assert(product(a, b) == t0);
    assert(t0 == (if b & 1 != 0 { a } else { 0u8 }) ^ (if b & 2 != 0 { a1 } else { 0u8 }) ^ (if b & 4 != 0 { a2 } else { 0u8 })
        ^ (if b & 8 != 0 { a3 } else { 0u8 }) ^ (if b & 16 != 0 { a4 } else { 0u8 }) ^ (if b & 32 != 0 { a5 } else { 0u8 })
        ^ (if b & 64 != 0 { a6 } else { 0u8 }) ^ (if b & 128 != 0 { a7 } else { 0u8 })) by (bit_vector)
        requires
            b1 == b >> 1,
            b2 == b1 >> 1,
            b3 == b2 >> 1,
            b4 == b3 >> 1,
            b5 == b4 >> 1,
            b6 == b5 >> 1,
            b7 == b6 >> 1,
            t7 == (if b7 & 1 == 1 { a7 ^ 0 } else { 0 }),
            t6 == (if b6 & 1 == 1 { a6 ^ t7 } else { t7 }),
            t5 == (if b5 & 1 == 1 { a5 ^ t6 } else { t6 }),
            t4 == (if b4 & 1 == 1 { a4 ^ t5 } else { t5 }),
            t3 == (if b3 & 1 == 1 { a3 ^ t4 } else { t4 }),
            t2 == (if b2 & 1 == 1 { a2 ^ t3 } else { t3 }),
            t1 == (if b1 & 1 == 1 { a1 ^ t2 } else { t2 }),
            t0 == (if b & 1 == 1 { a ^ t1 } else { t1 }),
    ;
}

proof fn lemma_doubled(a: u8)
    ensures
        doubled(a) == x_times(a),
{
    assert((if a & 0x80 == 0 { a << 1 } else { (a << 1) ^ 0x1b }) == (a << 1) ^ (if a >= 0x80 {
        0x1bu8
    } else {
        0u8
    })) by (bit_vector);
}

#[verifier::rlimit(100)]
proof fn lemma_distributes(a: u8, b: u8, c: u8)
    ensures
        field_product(a, b ^ c) == field_product(a, b) ^ field_product(a, c),
{
    let d = b ^ c;
    let a1 = x_times(a);
    let a2 = x_times(a1);
    let a3 = x_times(a2);
    let a4 = x_times(a3);
    let a5 = x_times(a4);
    let a6 = x_times(a5);
    let a7 = x_times(a6);
    let p = field_product(a, b);
    let q = field_product(a, c);
    let r = field_product(a, d);
    assert(r == p ^ q) by (bit_vector)
        requires
            d == b ^ c,
            p == (if b & 1 != 0 { a } else { 0u8 }) ^ (if b & 2 != 0 { a1 } else { 0u8 }) ^ (if b & 4 != 0 { a2 } else { 0u8 })
                ^ (if b & 8 != 0 { a3 } else { 0u8 }) ^ (if b & 16 != 0 { a4 } else { 0u8 }) ^ (if b & 32 != 0 { a5 } else { 0u8 })
                ^ (if b & 64 != 0 { a6 } else { 0u8 }) ^ (if b & 128 != 0 { a7 } else { 0u8 }),
            q == (if c & 1 != 0 { a } else { 0u8 }) ^ (if c & 2 != 0 { a1 } else { 0u8 }) ^ (if c & 4 != 0 { a2 } else { 0u8 })
                ^ (if c & 8 != 0 { a3 } else { 0u8 }) ^ (if c & 16 != 0 { a4 } else { 0u8 }) ^ (if c & 32 != 0 { a5 } else { 0u8 })
                ^ (if c & 64 != 0 { a6 } else { 0u8 }) ^ (if c & 128 != 0 { a7 } else { 0u8 }),
            r == (if d & 1 != 0 { a } else { 0u8 }) ^ (if d & 2 != 0 { a1 } else { 0u8 }) ^ (if d & 4 != 0 { a2 } else { 0u8 })
                ^ (if d & 8 != 0 { a3 } else { 0u8 }) ^ (if d & 16 != 0 { a4 } else { 0u8 }) ^ (if d & 32 != 0 { a5 } else { 0u8 })
                ^ (if d & 64 != 0 { a6 } else { 0u8 }) ^ (if d & 128 != 0 { a7 } else { 0u8 }),
    ;
}

#[verifier::rlimit(100)]
proof fn lemma_x_moves(a: u8, b: u8)
    ensures
        x_times(field_product(a, b)) == field_product(a, x_times(b)),
{
    assert(x_times(field_product(a, b)) == field_product(a, x_times(b))) by (bit_vector);
}

proof fn lemma_units(a: u8)
    ensures
        field_product(a, 0) == 0,
        field_product(a, 1) == a,
        field_product(1, a) == a,
{
    assert(field_product(a, 0) == 0) by (bit_vector);
    assert(field_product(a, 1) == a) by (bit_vector);
    assert(field_product(1, a) == a) by (bit_vector);
}

proof fn lemma_times_associates(a: u8, b: u8, c: u8, bits: nat)
    ensures
        times(field_product(a, b), c, bits) == field_product(a, times(b, c, bits)),
    decreases bits,
{
    let p = field_product(a, b);
    if bits == 0 {
        lemma_units(a);
    } else {
        lemma_doubled(p);
        lemma_doubled(b);
        lemma_x_moves(a, b);
        lemma_times_associates(a, doubled(b), c >> 1, (bits - 1) as nat);
        lemma_distributes(a, b, times(doubled(b), c >> 1, (bits - 1) as nat));
    }
}

proof fn lemma_associates(a: u8, b: u8, c: u8)
    ensures
        field_product(field_product(a, b), c) == field_product(a, field_product(b, c)),
{
    lemma_times_associates(a, b, c, 8);
    lemma_product_closed(field_product(a, b), c);
    lemma_product_closed(b, c);
}

proof fn lemma_power_adds(a: u8, m: nat, n: nat)
    ensures
        power(a, m + n) == field_product(power(a, m), power(a, n)),
    decreases n,
{
    if n == 0 {
        lemma_units(power(a, m));
    } else {
        let fewer = (n - 1) as nat;
        lemma_power_adds(a, m, fewer);
        assert((m + n - 1) as nat == m + fewer);
        lemma_product_closed(power(a, m + fewer), a);
        lemma_product_closed(power(a, fewer), a);
        lemma_associates(power(a, m), power(a, fewer), a);
    }
}

#[verifier::rlimit(100)]
proof fn lemma_fixed(a: u8, a2: u8, a4: u8, a8: u8, a16: u8)
    requires
        a2 == field_product(a, a),
        a4 == field_product(a2, a2),
        a8 == field_product(a4, a4),
        a16 == field_product(a8, a8),
    ensures
        ({
            let b2 = field_product(a16, a16);
            let b4 = field_product(b2, b2);
            let b8 = field_product(b4, b4);
            field_product(b8, b8) == a
        }),
{
    let b2 = field_product(a16, a16);
    let b4 = field_product(b2, b2);
    let b8 = field_product(b4, b4);
    let b16 = field_product(b8, b8);
    assert(b16 == a) by (bit_vector)
        requires
            a2 == field_product(a, a),
            a4 == field_product(a2, a2),
            a8 == field_product(a4, a4),
            a16 == field_product(a8, a8),
            b2 == field_product(a16, a16),
            b4 == field_product(b2, b2),
            b8 == field_product(b4, b4),
            b16 == field_product(b8, b8),
    ;
}

#[verifier::rlimit(100)]
proof fn lemma_no_zero_divisors(a: u8, b: u8)
    ensures
        field_product(a, b) == 0 ==> a == 0 || b == 0,
{
    assert(field_product(a, b) == 0 ==> a == 0 || b == 0) by (bit_vector);
}

proof fn lemma_inverse(a: u8)
    ensures
        a != 0 ==> field_product(a, inverse(a)) == 1 && field_product(inverse(a), a) == 1,
        a == 0 ==> inverse(a) == 0,
{
    lemma_product_closed(1, a);
    lemma_units(a);
    reveal_with_fuel(power, 2);
    assert(power(a, 1) == a);
    lemma_power_adds(a, 1, 1);
    lemma_power_adds(a, 2, 2);
    lemma_power_adds(a, 4, 4);
    lemma_power_adds(a, 8, 8);
    lemma_power_adds(a, 16, 16);
    lemma_power_adds(a, 32, 32);
    lemma_power_adds(a, 64, 64);
    lemma_power_adds(a, 128, 128);
    lemma_fixed(a, power(a, 2), power(a, 4), power(a, 8), power(a, 16));
    // The power with the exponent 256 is the element itself, so that with 255 is one.
    let p = power(a, 255);
    lemma_power_adds(a, 1, 255);
    lemma_power_adds(a, 1, 254);
    lemma_power_adds(a, 254, 1);
    assert(field_product(a, p) == a);
    lemma_distributes(a, p, 1);
    assert(a ^ a == 0) by (bit_vector);
    lemma_no_zero_divisors(a, p ^ 1);
    assert(p ^ 1 == 0 ==> p == 1) by (bit_vector);
    if a == 0 {
        lemma_power_adds(a, 253, 1);
        lemma_units(power(a, 253));
    }
}

proof fn lemma_one_inverse(a: u8, b: u8)
    requires
        field_product(a, b) == 1,
    ensures
        b == inverse(a),
{
    lemma_inverse(a);
    if a == 0 {
        assert(field_product(0, b) == 0) by (bit_vector);
    }
    lemma_associates(inverse(a), a, b);
    lemma_units(inverse(a));
    lemma_units(b);
}

/// The multiplicative inverse of a byte in the field; 0 for 0.
pub open spec fn field_inverse(a: u8) -> u8 {
    if a == 0 {
        0
    } else {
        choose|b: u8| field_product(a, b) == 1
    }
}

proof fn lemma_field_inverse(a: u8)
    ensures
        inverse(a) == field_inverse(a),
        inverse(inverse(a)) == a,
{
    lemma_inverse(a);
    if a != 0 {
        let b = inverse(a);
        assert(field_product(a, b) == 1);
        lemma_one_inverse(a, field_inverse(a));
        lemma_one_inverse(b, a);
    }
}

/// The bit at `i` of a byte.
pub open spec fn bit(b: u8, i: u8) -> u8 {
    (b >> i) & 1
}

/// The affine transformation of the substitution: each bit is the sum of five bits and of one
/// of the constant.
pub open spec fn affine(b: u8) -> u8 {
    ((bit(b, 0) ^ bit(b, 4) ^ bit(b, 5) ^ bit(b, 6) ^ bit(b, 7) ^ 1) << 0) | ((bit(b, 1) ^ bit(b, 5)
        ^ bit(b, 6) ^ bit(b, 7) ^ bit(b, 0) ^ 1) << 1) | ((bit(b, 2) ^ bit(b, 6) ^ bit(b, 7) ^ bit(
        b,
        0,
    ) ^ bit(b, 1) ^ 0) << 2) | ((bit(b, 3) ^ bit(b, 7) ^ bit(b, 0) ^ bit(b, 1) ^ bit(b, 2) ^ 0) << 3)
        | ((bit(b, 4) ^ bit(b, 0) ^ bit(b, 1) ^ bit(b, 2) ^ bit(b, 3) ^ 0) << 4) | ((bit(b, 5) ^ bit(
        b,
        1,
    ) ^ bit(b, 2) ^ bit(b, 3) ^ bit(b, 4) ^ 1) << 5) | ((bit(b, 6) ^ bit(b, 2) ^ bit(b, 3) ^ bit(b, 4)
        ^ bit(b, 5) ^ 1) << 6) | ((bit(b, 7) ^ bit(b, 3) ^ bit(b, 4) ^ bit(b, 5) ^ bit(b, 6) ^ 0) << 7)
}

/// The substitution of a byte: its inverse in the field, then the affine transformation.
#[verifier::opaque]
pub open spec fn sub_byte(a: u8) -> u8 {
    affine(field_inverse(a))
}

proof fn lemma_substitution(a: u8)
    ensures
        substituted(a) == sub_byte(a),
        unsubstituted(sub_byte(a)) == a,
        sub_byte(unsubstituted(a)) == a,
{
    reveal(sub_byte);
    lemma_field_inverse(a);
    let b = inverse(a);
    assert(b ^ ((b << 1) | (b >> 7)) ^ ((b << 2) | (b >> 6)) ^ ((b << 3) | (b >> 5)) ^ ((b << 4) | (b
        >> 4)) ^ 0x63 == affine(b)) by (bit_vector);
    let c = affine(b);
    assert(((c << 1) | (c >> 7)) ^ ((c << 3) | (c >> 5)) ^ ((c << 6) | (c >> 2)) ^ 0x05 == b)
        by (bit_vector)
        requires
            c == affine(b),
    ;
    let d = ((a << 1) | (a >> 7)) ^ ((a << 3) | (a >> 5)) ^ ((a << 6) | (a >> 2)) ^ 0x05;
    assert(affine(d) == a) by (bit_vector)
        requires
            d == ((a << 1) | (a >> 7)) ^ ((a << 3) | (a >> 5)) ^ ((a << 6) | (a >> 2)) ^ 0x05,
    ;
    lemma_field_inverse(d);
    lemma_field_inverse(inverse(d));
}

/// The byte of a mixed column, given the byte in its row and those in the rows below.
pub open spec fn mixed_byte(a: u8, b: u8, c: u8, d: u8) -> u8 {
    x_times(a) ^ (x_times(b) ^ b) ^ c ^ d
}

spec fn unmixed_byte(a: u8, b: u8, c: u8, d: u8) -> u8 {
    field_product(a, 14) ^ field_product(b, 11) ^ field_product(c, 13) ^ field_product(d, 9)
}

#[verifier::rlimit(100)]
proof fn lemma_unmixed(a: u8, b: u8, c: u8, d: u8)
    ensures
        unmixed_byte(
            mixed_byte(a, b, c, d),
            mixed_byte(b, c, d, a),
            mixed_byte(c, d, a, b),
            mixed_byte(d, a, b, c),
        ) == a,
        mixed_byte(
            unmixed_byte(a, b, c, d),
            unmixed_byte(b, c, d, a),
            unmixed_byte(c, d, a, b),
            unmixed_byte(d, a, b, c),
        ) == a,
{
    let m0 = mixed_byte(a, b, c, d);
    let m1 = mixed_byte(b, c, d, a);
    let m2 = mixed_byte(c, d, a, b);
    let m3 = mixed_byte(d, a, b, c);
    assert(unmixed_byte(m0, m1, m2, m3) == a) by (bit_vector)
        requires
            m0 == mixed_byte(a, b, c, d),
            m1 == mixed_byte(b, c, d, a),
            m2 == mixed_byte(c, d, a, b),
            m3 == mixed_byte(d, a, b, c),
    ;
    let n0 = unmixed_byte(a, b, c, d);
    let n1 = unmixed_byte(b, c, d, a);
    let n2 = unmixed_byte(c, d, a, b);
    let n3 = unmixed_byte(d, a, b, c);
    assert(mixed_byte(n0, n1, n2, n3) == a) by (bit_vector)
        requires
            n0 == unmixed_byte(a, b, c, d),
            n1 == unmixed_byte(b, c, d, a),
            n2 == unmixed_byte(c, d, a, b),
            n3 == unmixed_byte(d, a, b, c),
    ;
}

/// A block with every byte substituted.
pub open spec fn sub_bytes(state: Seq<u8>) -> Seq<u8> {
    Seq::new(16, |i: int| sub_byte(state[i]))
}

/// A block with its rows shifted: row `r` of the square, whose columns stand one after the
/// other, moves left by `r`.
pub open spec fn shift_rows(state: Seq<u8>) -> Seq<u8> {
    Seq::new(16, |i: int| state[i % 4 + 4 * ((i / 4 + i % 4) % 4)])
}

/// A block with its columns mixed.
pub open spec fn mix_columns(state: Seq<u8>) -> Seq<u8> {
    Seq::new(
        16,
        |i: int|
            mixed_byte(
                state[i],
                state[4 * (i / 4) + (i + 1) % 4],
                state[4 * (i / 4) + (i + 2) % 4],
                state[4 * (i / 4) + (i + 3) % 4],
            ),
    )
}

/// Two sequences of bytes of one length, added bit by bit.
pub open spec fn xor_bytes(a: Seq<u8>, b: Seq<u8>) -> Seq<u8> {
    Seq::new(a.len(), |i: int| a[i] ^ b[i])
}

/// The constants of the key schedule.
pub open spec fn schedule_constant(n: int) -> u8 {
    seq![1u8, 2u8, 4u8, 8u8, 0x10u8, 0x20u8, 0x40u8, 0x80u8, 0x1bu8, 0x36u8][n - 1]
}

/// The word at `i` of the key schedule: the key itself, then each word the sum of the one four
/// before it and the one before it, which is turned, substituted and added to a constant where
/// a round key begins.
pub open spec fn schedule_word(key: Seq<u8>, i: int) -> Seq<u8>
    decreases i,
{
    if i < 4 {
        key.subrange(4 * i, 4 * i + 4)
    } else {
        let last = schedule_word(key, i - 1);
        let changed = if i % 4 == 0 {
            seq![
                sub_byte(last[1]) ^ schedule_constant(i / 4),
                sub_byte(last[2]),
                sub_byte(last[3]),
                sub_byte(last[0]),
            ]
        } else {
            last
        };
        xor_bytes(schedule_word(key, i - 4), changed)
    }
}

/// The key of a round: four words of the schedule.
pub open spec fn schedule_key(key: Seq<u8>, round: int) -> Seq<u8> {
    Seq::new(16, |i: int| schedule_word(key, 4 * round + i / 4)[i % 4])
}

/// A block after the given round of its encryption; before the first its key is added.
pub open spec fn cipher_state(key: Seq<u8>, block: Seq<u8>, round: int) -> Seq<u8>
    decreases round,
{
    if round <= 0 {
        xor_bytes(block, schedule_key(key, 0))
    } else {
        xor_bytes(
            mix_columns(shift_rows(sub_bytes(cipher_state(key, block, round - 1)))),
            schedule_key(key, round),
        )
    }
}

/// The encryption of a block: nine rounds, and a tenth without mixing.
pub open spec fn encrypted_block(key: Seq<u8>, block: Seq<u8>) -> Seq<u8> {
    xor_bytes(shift_rows(sub_bytes(cipher_state(key, block, 9))), schedule_key(key, 10))
}

/// A text with its padding: one to sixteen bytes up to a full block, each saying how many
/// they are.
pub open spec fn padded(text: Seq<u8>) -> Seq<u8> {
    let count = 16 - text.len() % 16;
    text + Seq::new(count as nat, |i: int| count as u8)
}

/// The bytes of a number of 128 bits, those of most weight first.
pub open spec fn number_bytes(n: u128) -> Seq<u8> {
    Seq::new(16, |i: int| (n as int / pow(256, (15 - i) as nat) % 256) as u8)
}

/// The first blocks of a text in their chain: each block is added to the encrypted block before
/// it, the first one to the initial block, and then encrypted.
pub open spec fn chained(key: Seq<u8>, initial: Seq<u8>, text: Seq<u8>, count: nat) -> Seq<u8>
    decreases count,
{
    if count == 0 {
        Seq::empty()
    } else {
        let done = chained(key, initial, text, (count - 1) as nat);
        let link = if count == 1 {
            initial
        } else {
            done.subrange(done.len() - 16, done.len() as int)
        };
        let block = text.subrange(16 * (count - 1), 16 * count as int);
        done + encrypted_block(key, xor_bytes(block, link))
    }
}

/// The encryption of a text under a key and an initial number.
pub open spec fn encrypted(key: Seq<u8>, iv: u128, text: Seq<u8>) -> Seq<u8> {
    let whole = padded(text);
    chained(key, number_bytes(iv), whole, whole.len() / 16)
}

proof fn lemma_xor(a: u8, b: u8)
    ensures
        (a ^ b) ^ b == a,
        a ^ b == b ^ a,
        a ^ 0 == a,
{
    assert((a ^ b) ^ b == a && a ^ b == b ^ a && a ^ 0 == a) by (bit_vector);
}

proof fn lemma_xor_order(a: u8, b: u8, c: u8)
    ensures
        (a ^ b) ^ c == a ^ (b ^ c),
{
    assert((a ^ b) ^ c == a ^ (b ^ c)) by (bit_vector);
}

proof fn lemma_add_twice(a: Seq<u8>, b: Seq<u8>)
    requires
        a.len() == 16,
        b.len() == 16,
    ensures
        added(xor_bytes(a, b), b) == a,
        xor_bytes(added(a, b), b) == a,
        added(a, b) == xor_bytes(a, b),
{
    assert forall|i: int| 0 <= i < 16 implies (#[trigger] a[i] ^ b[i]) ^ b[i] == a[i] by {
        lemma_xor(a[i], b[i]);
    }
    assert(added(xor_bytes(a, b), b) =~= a);
    assert(xor_bytes(added(a, b), b) =~= a);
    assert(added(a, b) =~= xor_bytes(a, b));
}

proof fn lemma_constants(round: nat)
    requires
        1 <= round <= 10,
    ensures
        round_constant(round) == schedule_constant(round as int),
    decreases round,
{
    assert(x_times(1) == 2 && x_times(2) == 4 && x_times(4) == 8 && x_times(8) == 0x10 && x_times(0x10)
        == 0x20 && x_times(0x20) == 0x40 && x_times(0x40) == 0x80 && x_times(0x80) == 0x1b && x_times(
        0x1b,
    ) == 0x36) by (bit_vector);
    if round > 1 {
        lemma_constants((round - 1) as nat);
        lemma_doubled(round_constant((round - 1) as nat));
    }
}

proof fn lemma_word_len(key: Seq<u8>, i: int)
    requires
        key.len() == 16,
        0 <= i,
    ensures
        schedule_word(key, i).len() == 4,
    decreases i,
{
    if i >= 4 {
        lemma_word_len(key, i - 4);
    }
}

proof fn lemma_schedule(key: Seq<u8>, round: nat)
    requires
        key.len() == 16,
        round <= 10,
    ensures
        round_key(key, round) == schedule_key(key, round as int),
    decreases round,
{
    if round == 0 {
        assert forall|i: int| 0 <= i < 16 implies #[trigger] key[i] == schedule_key(key, 0)[i] by {
            assert(key.subrange(4 * (i / 4), 4 * (i / 4) + 4)[i % 4] == key[i]);
        }
        assert(round_key(key, 0) =~= schedule_key(key, 0));
    } else {
        let before = (round - 1) as nat;
        lemma_schedule(key, before);
        lemma_constants(round);
        let last = round_key(key, before);
        let constant = round_constant(round);
        assert forall|i: int| 0 <= i < 16 implies #[trigger] next_key_byte(last, constant, i)
            == schedule_key(key, round as int)[i] by {
            lemma_next_byte(key, round, i / 4, i % 4);
            assert(i == 4 * (i / 4) + i % 4);
        }
        assert(round_key(key, round) =~= schedule_key(key, round as int));
    }
}

proof fn lemma_key_byte(key: Seq<u8>, round: int, column: int, row: int)
    requires
        0 <= column < 4,
        0 <= row < 4,
    ensures
        schedule_key(key, round)[4 * column + row] == schedule_word(key, 4 * round + column)[row],
{
    assert((4 * column + row) / 4 == column && (4 * column + row) % 4 == row);
}

proof fn lemma_first_byte(key: Seq<u8>, round: nat, row: int)
    requires
        key.len() == 16,
        1 <= round <= 10,
        0 <= row < 4,
    ensures
        next_key_byte(schedule_key(key, round - 1), schedule_constant(round as int), row)
            == schedule_word(key, 4 * round as int)[row],
{
    let last = schedule_key(key, round - 1);
    let at = 4 * round as int;
    let constant = schedule_constant(round as int);
    let from = (row + 1) % 4;
    lemma_word_len(key, at - 4);
    lemma_key_byte(key, round - 1, 0, row);
    lemma_key_byte(key, round - 1, 3, from);
    let x = last[row];
    let y = sub_byte(last[12 + from]);
    lemma_substitution(last[12 + from]);
    let first = schedule_word(key, at - 4);
    let word = schedule_word(key, at - 1);
    assert(x == first[row] && y == sub_byte(word[from]));
    let changed = seq![
        sub_byte(word[1]) ^ constant,
        sub_byte(word[2]),
        sub_byte(word[3]),
        sub_byte(word[0]),
    ];
    assert(schedule_word(key, at) == xor_bytes(first, changed));
    lemma_xor_order(x, y, constant);
    lemma_xor_order(x, y, 0);
    lemma_xor(y, 0);
    if row == 0 {
    } else if row == 1 {
    } else if row == 2 {
    } else {
    }
}

proof fn lemma_next_byte(key: Seq<u8>, round: nat, column: int, row: int)
    requires
        key.len() == 16,
        1 <= round <= 10,
        0 <= column < 4,
        0 <= row < 4,
    ensures
        next_key_byte(
            schedule_key(key, round - 1),
            schedule_constant(round as int),
            4 * column + row,
        ) == schedule_word(key, 4 * round + column)[row],
    decreases column,
{
    let last = schedule_key(key, round - 1);
    let at = 4 * round + column;
    lemma_word_len(key, at);
    lemma_word_len(key, at - 4);
    lemma_word_len(key, at - 1);
    lemma_key_byte(key, round - 1, column, row);
    let x = last[4 * column + row];
    assert(x == schedule_word(key, at - 4)[row]);
    if column == 0 {
        lemma_first_byte(key, round, row);
    } else {
        assert(at % 4 == column);
        lemma_next_byte(key, round, column - 1, row);
        assert(4 * (column - 1) + row == 4 * column + row - 4);
    }
}

spec fn place_after(i: int) -> int {
    i % 4 + 4 * ((i / 4 + i % 4) % 4)
}

spec fn place_before(i: int) -> int {
    (i + 16 - 4 * (i % 4)) % 16
}

proof fn lemma_places(i: int)
    requires
        0 <= i < 16,
    ensures
        0 <= place_after(i) < 16,
        0 <= place_before(i) < 16,
        place_after(place_before(i)) == i,
        place_before(place_after(i)) == i,
{
    let c = i / 4;
    let r = i % 4;
    assert(i == 4 * c + r);
    if r == 0 {
    } else if r == 1 {
    } else if r == 2 {
    } else {
    }
}

proof fn lemma_shift_back(state: Seq<u8>)
    requires
        state.len() == 16,
    ensures
        shifted_back(shift_rows(sub_bytes(state))) == state,
        shift_rows(sub_bytes(shifted_back(state))) == state,
{
    let there = shift_rows(sub_bytes(state));
    let back = shifted_back(state);
    assert forall|i: int| 0 <= i < 16 implies #[trigger] shifted_back(there)[i] == state[i]
        && shift_rows(sub_bytes(back))[i] == state[i] by {
        lemma_shift_byte(state, i);
    }
    assert(shifted_back(there) =~= state);
    assert(shift_rows(sub_bytes(back)) =~= state);
}

proof fn lemma_shift_byte(state: Seq<u8>, i: int)
    requires
        state.len() == 16,
        0 <= i < 16,
    ensures
        shifted_back(shift_rows(sub_bytes(state)))[i] == state[i],
        shift_rows(sub_bytes(shifted_back(state)))[i] == state[i],
{
    lemma_places(i);
    lemma_substitution(state[i]);
    let from = place_before(i);
    let substitutes = sub_bytes(state);
    let there = shift_rows(substitutes);
    assert(there[from] == substitutes[place_after(from)]);
    assert(shifted_back(there)[i] == unsubstituted(there[from]));
    let to = place_after(i);
    let back = shifted_back(state);
    assert(back[to] == unsubstituted(state[place_before(to)]));
    assert(shift_rows(sub_bytes(back))[i] == sub_bytes(back)[to]);
}

proof fn lemma_mix_back(state: Seq<u8>)
    requires
        state.len() == 16,
    ensures
        mixed_back(mix_columns(state)) == state,
        mix_columns(mixed_back(state)) == state,
{
    let there = mix_columns(state);
    assert forall|i: int| 0 <= i < 16 implies #[trigger] mixed_back(there)[i] == state[i] by {
        lemma_mix_byte(state, i);
    }
    assert(mixed_back(there) =~= state);
    let back = mixed_back(state);
    assert forall|i: int| 0 <= i < 16 implies #[trigger] mix_columns(back)[i] == state[i] by {
        lemma_mix_byte(state, i);
    }
    assert(mix_columns(back) =~= state);
}

spec fn below(i: int, by: int) -> int {
    4 * (i / 4) + (i + by) % 4
}

proof fn lemma_below(i: int, by: int)
    requires
        0 <= i < 16,
        1 <= by <= 3,
    ensures
        0 <= below(i, by) < 16,
        below(below(i, by), 1) == (if by == 3 {
            i
        } else {
            below(i, by + 1)
        }),
        below(below(i, by), 2) == (if by == 2 {
            i
        } else if by == 3 {
            below(i, 1)
        } else {
            below(i, 3)
        }),
        below(below(i, by), 3) == (if by == 1 {
            i
        } else {
            below(i, by - 1)
        }),
{
    let c = i / 4;
    let r = i % 4;
    assert(i == 4 * c + r);
    let j = below(i, by);
    let q = (r + by) % 4;
    assert((i + by) % 4 == q);
    assert(j == 4 * c + q);
    assert(j / 4 == c && j % 4 == q);
    assert((j + 1) % 4 == (r + by + 1) % 4);
    assert((j + 2) % 4 == (r + by + 2) % 4);
    assert((j + 3) % 4 == (r + by + 3) % 4);
}

proof fn lemma_mix_byte(state: Seq<u8>, i: int)
    requires
        state.len() == 16,
        0 <= i < 16,
    ensures
        mixed_back(mix_columns(state))[i] == state[i],
        mix_columns(mixed_back(state))[i] == state[i],
{
    let i1 = below(i, 1);
    let i2 = below(i, 2);
    let i3 = below(i, 3);
    lemma_below(i, 1);
    lemma_below(i, 2);
    lemma_below(i, 3);
    let a = state[i];
    let b = state[i1];
    let c = state[i2];
    let d = state[i3];
    lemma_unmixed(a, b, c, d);
    let there = mix_columns(state);
    lemma_there_byte(state, i);
    lemma_there_byte(state, i1);
    lemma_there_byte(state, i2);
    lemma_there_byte(state, i3);
    lemma_back_byte(there, i);
    let back = mixed_back(state);
    lemma_back_byte(state, i);
    lemma_back_byte(state, i1);
    lemma_back_byte(state, i2);
    lemma_back_byte(state, i3);
    lemma_there_byte(back, i);
}

proof fn lemma_there_byte(state: Seq<u8>, i: int)
    requires
        0 <= i < 16,
    ensures
        mix_columns(state)[i] == mixed_byte(
            state[i],
            state[below(i, 1)],
            state[below(i, 2)],
            state[below(i, 3)],
        ),
{
}

proof fn lemma_back_byte(state: Seq<u8>, i: int)
    requires
        state.len() == 16,
        0 <= i < 16,
    ensures
        mixed_back(state)[i] == unmixed_byte(
            state[i],
            state[below(i, 1)],
            state[below(i, 2)],
            state[below(i, 3)],
        ),
{
    lemma_product_closed(state[i], 14);
    lemma_product_closed(state[below(i, 1)], 11);
    lemma_product_closed(state[below(i, 2)], 13);
    lemma_product_closed(state[below(i, 3)], 9);
    assert(i / 4 * 4 == 4 * (i / 4));
}

proof fn lemma_cipher_len(key: Seq<u8>, block: Seq<u8>, round: int)
    requires
        block.len() == 16,
    ensures
        cipher_state(key, block, round).len() == 16,
    decreases round,
{
}

proof fn lemma_undone(key: Seq<u8>, block: Seq<u8>, round: int)
    requires
        key.len() == 16,
        block.len() == 16,
        1 <= round <= 10,
    ensures
        undone(key, encrypted_block(key, block), round) == shift_rows(
            sub_bytes(cipher_state(key, block, round - 1)),
        ),
    decreases 10 - round,
{
    let code = encrypted_block(key, block);
    lemma_schedule(key, round as nat);
    lemma_cipher_len(key, block, round - 1);
    let state = shift_rows(sub_bytes(cipher_state(key, block, round - 1)));
    if round == 10 {
        lemma_add_twice(state, schedule_key(key, 10));
    } else {
        lemma_undone(key, block, round + 1);
        lemma_cipher_len(key, block, round);
        lemma_shift_back(cipher_state(key, block, round));
        lemma_add_twice(mix_columns(state), schedule_key(key, round));
        lemma_mix_back(state);
    }
}

proof fn lemma_block_reads_back(key: Seq<u8>, block: Seq<u8>)
    requires
        key.len() == 16,
        block.len() == 16,
    ensures
        decrypted_block(key, encrypted_block(key, block)) == block,
{
    lemma_undone(key, block, 1);
    lemma_schedule(key, 0);
    lemma_cipher_len(key, block, 0);
    lemma_shift_back(cipher_state(key, block, 0));
    lemma_add_twice(block, schedule_key(key, 0));
}

proof fn lemma_undone_len(key: Seq<u8>, code: Seq<u8>, round: int)
    ensures
        undone(key, code, round).len() == 16,
    decreases 10 - round,
{
}

proof fn lemma_redone(key: Seq<u8>, code: Seq<u8>, round: int)
    requires
        key.len() == 16,
        code.len() == 16,
        1 <= round <= 10,
    ensures
        shift_rows(sub_bytes(cipher_state(key, decrypted_block(key, code), round - 1))) == undone(
            key,
            code,
            round,
        ),
    decreases round,
{
    let block = decrypted_block(key, code);
    lemma_undone_len(key, code, round);
    let back = shifted_back(undone(key, code, round));
    lemma_shift_back(undone(key, code, round));
    lemma_schedule(key, (round - 1) as nat);
    if round == 1 {
        lemma_add_twice(back, schedule_key(key, 0));
    } else {
        lemma_redone(key, code, round - 1);
        let sum = added(back, schedule_key(key, round - 1));
        lemma_mix_back(sum);
        lemma_add_twice(back, schedule_key(key, round - 1));
    }
}

proof fn lemma_block_is_written_back(key: Seq<u8>, code: Seq<u8>)
    requires
        key.len() == 16,
        code.len() == 16,
    ensures
        encrypted_block(key, decrypted_block(key, code)) == code,
{
    lemma_redone(key, code, 10);
    lemma_schedule(key, 10);
    lemma_add_twice(code, schedule_key(key, 10));
}

proof fn lemma_chained_len(key: Seq<u8>, initial: Seq<u8>, text: Seq<u8>, count: nat)
    ensures
        chained(key, initial, text, count).len() == 16 * count,
    decreases count,
{
    if count > 0 {
        lemma_chained_len(key, initial, text, (count - 1) as nat);
    }
}

proof fn lemma_unchained(key: Seq<u8>, initial: Seq<u8>, text: Seq<u8>, count: nat)
    requires
        key.len() == 16,
        initial.len() == 16,
        16 * count <= text.len(),
    ensures
        unchained(key, initial, chained(key, initial, text, count), count) == text.take(
            16 * count as int,
        ),
    decreases count,
{
    if count == 0 {
        assert(text.take(0) =~= Seq::<u8>::empty());
    } else {
        let fewer = (count - 1) as nat;
        let done = chained(key, initial, text, fewer);
        lemma_chained_len(key, initial, text, fewer);
        lemma_unchained(key, initial, text, fewer);
        let link = if count == 1 {
            initial
        } else {
            done.subrange(done.len() - 16, done.len() as int)
        };
        let block = text.subrange(16 * (count - 1), 16 * count as int);
        let next = encrypted_block(key, xor_bytes(block, link));
        crate::aes::law_blocks_are_decrypted_in_order(key, initial, done, next, fewer);
        assert(block_at(done + next, count - 1) =~= next);
        if count > 1 {
            assert(block_at(done + next, count - 2) =~= link);
        }
        lemma_block_reads_back(key, xor_bytes(block, link));
        lemma_add_twice(block, link);
        assert(text.take(16 * fewer as int) + block =~= text.take(16 * count as int));
    }
}

proof fn lemma_plain(key: Seq<u8>, initial: Seq<u8>, bytes: Seq<u8>, count: nat, upto: nat)
    requires
        count <= upto,
    ensures
        unchained(key, initial, bytes, upto).len() == 16 * upto,
        unchained(key, initial, bytes, upto).take(16 * count as int) == unchained(
            key,
            initial,
            bytes,
            count,
        ),
    decreases upto,
{
    let all = unchained(key, initial, bytes, upto);
    if upto > 0 {
        let fewer = (upto - 1) as nat;
        if count < upto {
            lemma_plain(key, initial, bytes, count, fewer);
            let less = unchained(key, initial, bytes, fewer);
            assert(all.take(16 * count as int) =~= less.take(16 * count as int));
        } else {
            lemma_plain(key, initial, bytes, fewer, fewer);
            assert(all.take(16 * count as int) =~= all);
        }
    } else {
        assert(all.take(0) =~= all);
    }
}

spec fn link_of(initial: Seq<u8>, bytes: Seq<u8>, at: int) -> Seq<u8> {
    if at == 0 {
        initial
    } else {
        block_at(bytes, at - 1)
    }
}

proof fn lemma_plain_block(key: Seq<u8>, initial: Seq<u8>, bytes: Seq<u8>, total: nat, at: int)
    requires
        0 <= at < total,
    ensures
        unchained(key, initial, bytes, total).subrange(16 * at, 16 * at + 16) == added(
            decrypted_block(key, block_at(bytes, at)),
            link_of(initial, bytes, at),
        ),
{
    let count = (at + 1) as nat;
    let plain = unchained(key, initial, bytes, total);
    let some = unchained(key, initial, bytes, count);
    let less = unchained(key, initial, bytes, at as nat);
    lemma_plain(key, initial, bytes, count, total);
    lemma_plain(key, initial, bytes, at as nat, at as nat);
    assert(plain.subrange(16 * at, 16 * at + 16) =~= some.subrange(16 * at, 16 * at + 16));
    let block = added(decrypted_block(key, block_at(bytes, at)), link_of(initial, bytes, at));
    assert(some == less + block);
    assert((less + block).subrange(16 * at, 16 * at + 16) =~= block);
}

proof fn lemma_chained_again(
    key: Seq<u8>,
    initial: Seq<u8>,
    bytes: Seq<u8>,
    total: nat,
    count: nat,
)
    requires
        key.len() == 16,
        initial.len() == 16,
        count <= total,
        16 * total <= bytes.len(),
    ensures
        chained(key, initial, unchained(key, initial, bytes, total), count) == bytes.take(
            16 * count as int,
        ),
    decreases count,
{
    let plain = unchained(key, initial, bytes, total);
    if count == 0 {
        assert(bytes.take(0) =~= Seq::<u8>::empty());
    } else {
        let fewer = (count - 1) as nat;
        let at = count - 1;
        lemma_chained_again(key, initial, bytes, total, fewer);
        lemma_plain_block(key, initial, bytes, total, at);
        let code = block_at(bytes, at);
        let link = link_of(initial, bytes, at);
        let state = decrypted_block(key, code);
        lemma_undone_len(key, code, 0);
        lemma_add_twice(state, link);
        lemma_block_is_written_back(key, code);
        let done = chained(key, initial, plain, fewer);
        lemma_whole_block(bytes, at);
        assert(done == bytes.take(16 * at));
        if count > 1 {
            assert(done.subrange(done.len() - 16, done.len() as int) =~= link);
        }
        assert(16 * at + 16 == 16 * count as int);
    }
}

proof fn lemma_whole_block(bytes: Seq<u8>, at: int)
    requires
        0 <= at,
        16 * at + 16 <= bytes.len(),
    ensures
        bytes.take(16 * at) + block_at(bytes, at) == bytes.take(16 * at + 16),
        block_at(bytes, at).len() == 16,
{
    assert(bytes.take(16 * at) + block_at(bytes, at) =~= bytes.take(16 * at + 16));
}

proof fn lemma_number_byte(n: u128, i: int)
    requires
        0 <= i <= 15,
    ensures
        byte_of(n, i) == n as int / pow(256, (15 - i) as nat) % 256,
    decreases 15 - i,
{
    if i == 15 {
        vstd::arithmetic::power::lemma_pow0(256);
    } else {
        let m = n / 256;
        let left = (14 - i) as nat;
        lemma_number_byte(m, i + 1);
        vstd::arithmetic::power::lemma_pow1(256);
        vstd::arithmetic::power::lemma_pow_adds(256, 1, left);
        vstd::arithmetic::power::lemma_pow_positive(256, left);
        vstd::arithmetic::div_mod::lemma_div_denominator(n as int, 256, pow(256, left));
        assert((15 - i) as nat == 1 + left);
    }
}

proof fn lemma_number_bytes(n: u128)
    ensures
        block_of(n) == number_bytes(n),
{
    assert forall|i: int| 0 <= i < 16 implies #[trigger] block_of(n)[i] == number_bytes(n)[i] by {
        lemma_number_byte(n, i);
    }
    assert(block_of(n) =~= number_bytes(n));
}

proof fn lemma_padding(text: Seq<u8>)
    ensures
        padded(text).len() % 16 == 0,
        is_padded(padded(text)),
        padded(text).take(padded(text).len() - padded(text).last()) == text,
{
    let whole = padded(text);
    assert(whole.take(whole.len() - whole.last()) =~= text);
}

proof fn lemma_padding_is_one(whole: Seq<u8>)
    requires
        whole.len() % 16 == 0,
        is_padded(whole),
    ensures
        padded(whole.take(whole.len() - whole.last())) == whole,
{
    let text = whole.take(whole.len() - whole.last());
    assert(16 - text.len() % 16 == whole.last());
    assert forall|i: int| 0 <= i < whole.len() implies #[trigger] padded(text)[i] == whole[i] by {
        if i >= text.len() {
            assert(whole[i] == whole.last());
        }
    }
    assert(padded(text) =~= whole);
}

/// Decryption undoes encryption, whatever the key, the initial number and the text are.
pub proof fn law_decryption_undoes_encryption(key: Seq<u8>, iv: u128, text: Seq<u8>)
    requires
        key.len() == BLOCK,
    ensures
        decrypted(key, iv, encrypted(key, iv, text)) == Some(text),
{
    let whole = padded(text);
    let count = whole.len() / 16;
    lemma_padding(text);
    lemma_number_bytes(iv);
    lemma_chained_len(key, number_bytes(iv), whole, count);
    lemma_unchained(key, number_bytes(iv), whole, count);
    assert(whole.take(16 * count as int) =~= whole);
}

/// Nothing is decrypted but what was encrypted: bytes that give a text are its encryption.
pub proof fn law_what_is_decrypted_was_encrypted(key: Seq<u8>, iv: u128, bytes: Seq<u8>)
    requires
        key.len() == BLOCK,
    ensures
        decrypted(key, iv, bytes) matches Some(text) ==> bytes == encrypted(key, iv, text),
{
    let count = bytes.len() / 16;
    if decrypted(key, iv, bytes) is Some {
        let plain = unchained(key, block_of(iv), bytes, count);
        lemma_number_bytes(iv);
        lemma_plain(key, block_of(iv), bytes, count, count);
        lemma_padding_is_one(plain);
        lemma_chained_again(key, block_of(iv), bytes, count, count);
        assert(bytes.take(16 * count as int) =~= bytes);
    }
}

} // verus!
