//! The decryption of AES-128 in cipher block chaining, as HLS segments are encrypted.
//! Bytes are elements of the field with 256 elements, and every table is computed.

use vstd::prelude::*;

verus! {

/// The number of bytes in a block, and in a key.
pub const BLOCK: usize = 16;

/// A field element times two: a shift, reduced by the field's polynomial.
pub open spec fn doubled(a: u8) -> u8 {
    if a & 0x80 == 0 {
        a << 1
    } else {
        (a << 1) ^ 0x1b
    }
}

/// The product of a field element and the lowest `bits` bits of another.
pub open spec fn times(a: u8, b: u8, bits: nat) -> u8
    decreases bits,
{
    if bits == 0 {
        0
    } else {
        let rest = times(doubled(a), b >> 1, (bits - 1) as nat);
        if b & 1 == 1 {
            a ^ rest
        } else {
            rest
        }
    }
}

/// The product of two field elements.
pub open spec fn product(a: u8, b: u8) -> u8 {
    times(a, b, 8)
}

/// A field element to the power `n`.
pub open spec fn power(a: u8, n: nat) -> u8
    decreases n,
{
    if n == 0 {
        1
    } else {
        product(power(a, (n - 1) as nat), a)
    }
}

/// The inverse of a field element, 0 for 0: its power with the exponent 254.
pub open spec fn inverse(a: u8) -> u8 {
    power(a, 254)
}

/// A byte turned left by one to seven bits.
pub open spec fn turned(a: u8, by: u8) -> u8 {
    (a << by) | (a >> ((8 - by) as u8))
}

/// The substitution of a byte.
pub open spec fn substituted(a: u8) -> u8 {
    let b = inverse(a);
    b ^ turned(b, 1) ^ turned(b, 2) ^ turned(b, 3) ^ turned(b, 4) ^ 0x63
}

/// The inverse substitution of a byte.
pub open spec fn unsubstituted(a: u8) -> u8 {
    inverse(turned(a, 1) ^ turned(a, 3) ^ turned(a, 6) ^ 0x05)
}

/// The constant of a round key: two to the power of the round before.
pub open spec fn round_constant(round: nat) -> u8
    decreases round,
{
    if round <= 1 {
        1
    } else {
        doubled(round_constant((round - 1) as nat))
    }
}

/// The byte at `i` of the round key that follows another.
pub open spec fn next_key_byte(key: Seq<u8>, constant: u8, i: int) -> u8
    decreases i,
{
    if i < 4 {
        key[i] ^ substituted(key[12 + (i + 1) % 4]) ^ (if i == 0 {
            constant
        } else {
            0
        })
    } else {
        key[i] ^ next_key_byte(key, constant, i - 4)
    }
}

/// The round key that follows another.
pub open spec fn next_key(key: Seq<u8>, constant: u8) -> Seq<u8> {
    Seq::new(16, |i: int| next_key_byte(key, constant, i))
}

/// The key of a round: the key itself for round 0.
pub open spec fn round_key(key: Seq<u8>, round: nat) -> Seq<u8>
    decreases round,
{
    if round == 0 {
        key
    } else {
        next_key(round_key(key, (round - 1) as nat), round_constant(round))
    }
}

/// Two blocks added, byte by byte.
pub open spec fn added(a: Seq<u8>, b: Seq<u8>) -> Seq<u8> {
    Seq::new(16, |i: int| a[i] ^ b[i])
}

/// A block with its rows shifted back and its bytes substituted back. The block is a
/// square of four columns; row `r` is shifted right by `r`.
pub open spec fn shifted_back(state: Seq<u8>) -> Seq<u8> {
    Seq::new(16, |i: int| unsubstituted(state[(i + 16 - 4 * (i % 4)) % 16]))
}

/// A block with its columns mixed back.
pub open spec fn mixed_back(state: Seq<u8>) -> Seq<u8> {
    Seq::new(
        16,
        |i: int|
            product(state[i], 14) ^ product(state[i / 4 * 4 + (i + 1) % 4], 11) ^ product(
                state[i / 4 * 4 + (i + 2) % 4],
                13,
            ) ^ product(state[i / 4 * 4 + (i + 3) % 4], 9),
    )
}

/// A block after the rounds from the last down to `round` were undone.
pub open spec fn undone(key: Seq<u8>, block: Seq<u8>, round: int) -> Seq<u8>
    decreases 10 - round,
{
    if round >= 10 {
        added(block, round_key(key, 10))
    } else {
        let state = added(
            shifted_back(undone(key, block, round + 1)),
            round_key(key, round as nat),
        );
        if round > 0 {
            mixed_back(state)
        } else {
            state
        }
    }
}

/// The block that a block is the encryption of.
pub open spec fn decrypted_block(key: Seq<u8>, block: Seq<u8>) -> Seq<u8> {
    undone(key, block, 0)
}

/// A number of 128 bits as a block, highest byte first.
pub open spec fn block_of(n: u128) -> Seq<u8> {
    Seq::new(16, |i: int| byte_of(n, i))
}

/// The byte at `i` of a number of 128 bits, highest byte first.
pub open spec fn byte_of(n: u128, i: int) -> u8
    decreases 15 - i,
{
    if i >= 15 {
        (n % 256) as u8
    } else {
        byte_of(n / 256, i + 1)
    }
}

/// The block at `at` of some bytes.
pub open spec fn block_at(bytes: Seq<u8>, at: int) -> Seq<u8> {
    bytes.subrange(16 * at, 16 * at + 16)
}

/// The first `count` blocks of some bytes, decrypted: each is added to the encrypted block
/// before it, the first one to the initial block.
pub open spec fn unchained(key: Seq<u8>, initial: Seq<u8>, bytes: Seq<u8>, count: nat) -> Seq<u8>
    decreases count,
{
    if count == 0 {
        Seq::empty()
    } else {
        let at = count - 1;
        let before = if at == 0 {
            initial
        } else {
            block_at(bytes, at - 1)
        };
        unchained(key, initial, bytes, at as nat) + added(
            decrypted_block(key, block_at(bytes, at)),
            before,
        )
    }
}

/// Whether the last bytes are padding: as many as each of them says, one to sixteen.
pub open spec fn is_padded(bytes: Seq<u8>) -> bool {
    &&& bytes.len() > 0
    &&& 1 <= bytes.last() <= 16
    &&& bytes.last() <= bytes.len()
    &&& forall|i: int|
        bytes.len() - bytes.last() <= i < bytes.len() ==> #[trigger] bytes[i] == bytes.last()
}

/// What some bytes are the encryption of, under a key and an initial number; nothing if
/// they are none: no blocks, or padded wrongly.
pub open spec fn decrypted(key: Seq<u8>, iv: u128, bytes: Seq<u8>) -> Option<Seq<u8>> {
    let plain = unchained(key, block_of(iv), bytes, bytes.len() / 16);
    if bytes.len() % 16 == 0 && is_padded(plain) {
        Some(plain.take(plain.len() - plain.last()))
    } else {
        None
    }
}

fn double(a: u8) -> (r: u8)
    ensures
        r == doubled(a),
{
    if a & 0x80 == 0 {
        a << 1
    } else {
        (a << 1) ^ 0x1b
    }
}

fn multiply_bits(a: u8, b: u8, bits: u8) -> (r: u8)
    ensures
        r == times(a, b, bits as nat),
    decreases bits,
{
    if bits == 0 {
        0
    } else {
        let rest = multiply_bits(double(a), b >> 1, bits - 1);
        if b & 1 == 1 {
            a ^ rest
        } else {
            rest
        }
    }
}

fn multiply(a: u8, b: u8) -> (r: u8)
    ensures
        r == product(a, b),
{
    multiply_bits(a, b, 8)
}

fn invert(a: u8) -> (r: u8)
    ensures
        r == inverse(a),
{
    let mut r: u8 = 1;
    let mut n: u8 = 0;
    while n < 254
        invariant
            n <= 254,
            r == power(a, n as nat),
        decreases 254 - n,
    {
        r = multiply(r, a);
        n = n + 1;
    }
    r
}

fn turn(a: u8, by: u8) -> (r: u8)
    requires
        1 <= by <= 7,
    ensures
        r == turned(a, by),
{
    (a << by) | (a >> (8 - by))
}

fn substitute(a: u8) -> (r: u8)
    ensures
        r == substituted(a),
{
    let b = invert(a);
    b ^ turn(b, 1) ^ turn(b, 2) ^ turn(b, 3) ^ turn(b, 4) ^ 0x63
}

fn unsubstitute(a: u8) -> (r: u8)
    ensures
        r == unsubstituted(a),
{
    invert(turn(a, 1) ^ turn(a, 3) ^ turn(a, 6) ^ 0x05)
}

/// What decryption looks up in place of computing it for every byte.
struct Tables {
    back: Vec<u8>,
    by_9: Vec<u8>,
    by_11: Vec<u8>,
    by_13: Vec<u8>,
    by_14: Vec<u8>,
}

impl Tables {
    spec fn wf(self) -> bool {
        &&& self.back@ == Seq::new(256, |a: int| unsubstituted(a as u8))
        &&& self.by_9@ == Seq::new(256, |a: int| product(a as u8, 9))
        &&& self.by_11@ == Seq::new(256, |a: int| product(a as u8, 11))
        &&& self.by_13@ == Seq::new(256, |a: int| product(a as u8, 13))
        &&& self.by_14@ == Seq::new(256, |a: int| product(a as u8, 14))
    }

    fn new() -> (r: Tables)
        ensures
            r.wf(),
    {
        let mut back: Vec<u8> = Vec::new();
        let mut i: usize = 0;
        while i < 256
            invariant
                i <= 256,
                back@ == Seq::new(i as nat, |a: int| unsubstituted(a as u8)),
            decreases 256 - i,
        {
            back.push(unsubstitute(i as u8));
            i = i + 1;
            proof {
                assert(back@ =~= Seq::new(i as nat, |a: int| unsubstituted(a as u8)));
            }
        }
        Tables {
            back,
            by_9: products(9),
            by_11: products(11),
            by_13: products(13),
            by_14: products(14),
        }
    }
}

fn products(b: u8) -> (r: Vec<u8>)
    ensures
        r@ == Seq::new(256, |a: int| product(a as u8, b)),
{
    let mut list: Vec<u8> = Vec::new();
    let mut i: usize = 0;
    while i < 256
        invariant
            i <= 256,
            list@ == Seq::new(i as nat, |a: int| product(a as u8, b)),
        decreases 256 - i,
    {
        list.push(multiply(i as u8, b));
        i = i + 1;
        proof {
            assert(list@ =~= Seq::new(i as nat, |a: int| product(a as u8, b)));
        }
    }
    list
}

fn follow_key(key: &Vec<u8>, constant: u8) -> (r: Vec<u8>)
    requires
        key@.len() == 16,
    ensures
        r@ == next_key(key@, constant),
{
    let mut next: Vec<u8> = Vec::new();
    let mut i: usize = 0;
    while i < 16
        invariant
            i <= 16,
            key@.len() == 16,
            next@.len() == i,
            forall|k: int| 0 <= k < i ==> #[trigger] next@[k] == next_key_byte(key@, constant, k),
        decreases 16 - i,
    {
        let byte: u8 = if i < 4 {
            key[i] ^ substitute(key[12 + (i + 1) % 4]) ^ (if i == 0 {
                constant
            } else {
                0
            })
        } else {
            key[i] ^ next[i - 4]
        };
        next.push(byte);
        i = i + 1;
    }
    proof {
        assert(next@ =~= next_key(key@, constant));
    }
    next
}

proof fn lemma_round_key_len(key: Seq<u8>, round: nat)
    requires
        key.len() == 16,
    ensures
        round_key(key, round).len() == 16,
{
}

fn expand_key(key: &Vec<u8>) -> (r: Vec<Vec<u8>>)
    requires
        key@.len() == 16,
    ensures
        r@.len() == 11,
        forall|n: int| 0 <= n < 11 ==> (#[trigger] r@[n])@ == round_key(key@, n as nat),
{
    let mut first: Vec<u8> = Vec::new();
    let mut i: usize = 0;
    while i < 16
        invariant
            i <= 16,
            key@.len() == 16,
            first@ == key@.take(i as int),
        decreases 16 - i,
    {
        first.push(key[i]);
        i = i + 1;
        proof {
            assert(first@ =~= key@.take(i as int));
        }
    }
    proof {
        assert(first@ =~= key@);
    }
    let mut keys: Vec<Vec<u8>> = Vec::new();
    keys.push(first);
    let mut constant: u8 = 1;
    let mut round: usize = 1;
    while round < 11
        invariant
            1 <= round <= 11,
            key@.len() == 16,
            keys@.len() == round,
            constant == round_constant(round as nat),
            forall|n: int|
                0 <= n < round ==> (#[trigger] keys@[n])@ == round_key(key@, n as nat),
        decreases 11 - round,
    {
        proof {
            lemma_round_key_len(key@, (round - 1) as nat);
        }
        let next = follow_key(&keys[round - 1], constant);
        keys.push(next);
        constant = double(constant);
        round = round + 1;
    }
    keys
}

fn combine(a: &Vec<u8>, b: &Vec<u8>) -> (r: Vec<u8>)
    requires
        a@.len() == 16,
        b@.len() == 16,
    ensures
        r@ == added(a@, b@),
{
    let mut out: Vec<u8> = Vec::with_capacity(16);
    let mut i: usize = 0;
    while i < 16
        invariant
            i <= 16,
            a@.len() == 16,
            b@.len() == 16,
            out@ == added(a@, b@).take(i as int),
        decreases 16 - i,
    {
        out.push(a[i] ^ b[i]);
        i = i + 1;
        proof {
            assert(out@ =~= added(a@, b@).take(i as int));
        }
    }
    proof {
        assert(out@ =~= added(a@, b@));
    }
    out
}

fn shift_back(tables: &Tables, state: &Vec<u8>) -> (r: Vec<u8>)
    requires
        tables.wf(),
        state@.len() == 16,
    ensures
        r@ == shifted_back(state@),
{
    let mut out: Vec<u8> = Vec::with_capacity(16);
    let mut i: usize = 0;
    while i < 16
        invariant
            i <= 16,
            tables.wf(),
            state@.len() == 16,
            out@ == shifted_back(state@).take(i as int),
        decreases 16 - i,
    {
        let from: usize = (i + 16 - 4 * (i % 4)) % 16;
        out.push(tables.back[state[from] as usize]);
        i = i + 1;
        proof {
            assert(out@ =~= shifted_back(state@).take(i as int));
        }
    }
    proof {
        assert(out@ =~= shifted_back(state@));
    }
    out
}

fn mix_back(tables: &Tables, state: &Vec<u8>) -> (r: Vec<u8>)
    requires
        tables.wf(),
        state@.len() == 16,
    ensures
        r@ == mixed_back(state@),
{
    let mut out: Vec<u8> = Vec::with_capacity(16);
    let mut i: usize = 0;
    while i < 16
        invariant
            i <= 16,
            tables.wf(),
            state@.len() == 16,
            out@ == mixed_back(state@).take(i as int),
        decreases 16 - i,
    {
        let column: usize = i / 4 * 4;
        let byte: u8 = tables.by_14[state[i] as usize] ^ tables.by_11[state[column + (i + 1) % 4] as usize]
            ^ tables.by_13[state[column + (i + 2) % 4] as usize] ^ tables.by_9[state[column + (i + 3)
            % 4] as usize];
        out.push(byte);
        i = i + 1;
        proof {
            assert(out@ =~= mixed_back(state@).take(i as int));
        }
    }
    proof {
        assert(out@ =~= mixed_back(state@));
    }
    out
}

fn decrypt_block(tables: &Tables, keys: &Vec<Vec<u8>>, block: &Vec<u8>, Ghost(key): Ghost<Seq<u8>>) -> (r:
    Vec<u8>)
    requires
        tables.wf(),
        key.len() == 16,
        block@.len() == 16,
        keys@.len() == 11,
        forall|n: int| 0 <= n < 11 ==> (#[trigger] keys@[n])@ == round_key(key, n as nat),
    ensures
        r@ == decrypted_block(key, block@),
        r@.len() == 16,
{
    proof {
        lemma_round_key_len(key, 10);
        assert(keys@[10]@ == round_key(key, 10));
    }
    let mut state = combine(block, &keys[10]);
    let mut round: usize = 10;
    while round > 0
        invariant
            round <= 10,
            tables.wf(),
            key.len() == 16,
            keys@.len() == 11,
            forall|n: int| 0 <= n < 11 ==> (#[trigger] keys@[n])@ == round_key(key, n as nat),
            state@.len() == 16,
            state@ == undone(key, block@, round as int),
        decreases round,
    {
        round = round - 1;
        proof {
            lemma_round_key_len(key, round as nat);
            assert(keys@[round as int]@ == round_key(key, round as nat));
        }
        let back = shift_back(tables, &state);
        state = combine(&back, &keys[round]);
        if round > 0 {
            state = mix_back(tables, &state);
        }
    }
    state
}

fn bytes_of(n: u128) -> (r: Vec<u8>)
    ensures
        r@ == block_of(n),
{
    let mut out: Vec<u8> = Vec::new();
    let mut rest: u128 = n;
    let mut have: usize = 0;
    while have < 16
        invariant
            have <= 16,
            out@.len() == have,
            forall|k: int|
                0 <= k < have ==> #[trigger] out@[k] == byte_of(n, 16 - have + k),
            forall|i: int| i <= 15 - have ==> #[trigger] byte_of(n, i) == byte_of(rest, i + have),
        decreases 16 - have,
    {
        let low: u8 = (rest % 256) as u8;
        proof {
            assert(byte_of(n, 15 - have) == byte_of(rest, 15));
            assert forall|i: int| i <= 14 - have implies #[trigger] byte_of(n, i) == byte_of(
                rest / 256,
                i + have + 1,
            ) by {
                assert(byte_of(n, i) == byte_of(rest, i + have));
            }
        }
        out.insert(0, low);
        rest = rest / 256;
        have = have + 1;
    }
    proof {
        assert(out@ =~= block_of(n));
    }
    out
}

fn cut_block(bytes: &Vec<u8>, at: usize) -> (r: Vec<u8>)
    requires
        16 * at + 16 <= bytes.len(),
    ensures
        r@ == block_at(bytes@, at as int),
{
    let mut out: Vec<u8> = Vec::with_capacity(16);
    let mut i: usize = 0;
    while i < 16
        invariant
            i <= 16,
            16 * at + 16 <= bytes.len(),
            out@ == block_at(bytes@, at as int).take(i as int),
        decreases 16 - i,
    {
        out.push(bytes[16 * at + i]);
        i = i + 1;
        proof {
            assert(out@ =~= block_at(bytes@, at as int).take(i as int));
        }
    }
    proof {
        assert(out@ =~= block_at(bytes@, at as int));
    }
    out
}

fn unchain(key: &Vec<u8>, iv: u128, bytes: &Vec<u8>) -> (r: Vec<u8>)
    requires
        key@.len() == 16,
    ensures
        r@ == unchained(key@, block_of(iv), bytes@, bytes@.len() / 16),
        r@.len() == bytes@.len() / 16 * 16,
{
    let tables = Tables::new();
    let keys = expand_key(key);
    let count: usize = bytes.len() / 16;
    let mut before = bytes_of(iv);
    let mut plain: Vec<u8> = Vec::with_capacity(bytes.len());
    let mut at: usize = 0;
    while at < count
        invariant
            at <= count,
            count == bytes@.len() / 16,
            tables.wf(),
            key@.len() == 16,
            keys@.len() == 11,
            forall|n: int| 0 <= n < 11 ==> (#[trigger] keys@[n])@ == round_key(key@, n as nat),
            before@.len() == 16,
            before@ == (if at == 0 {
                block_of(iv)
            } else {
                block_at(bytes@, at - 1)
            }),
            plain@.len() == 16 * at,
            plain@ == unchained(key@, block_of(iv), bytes@, at as nat),
        decreases count - at,
    {
        let block = cut_block(bytes, at);
        let state = decrypt_block(&tables, &keys, &block, Ghost(key@));
        let mut clear = combine(&state, &before);
        plain.append(&mut clear);
        before = block;
        at = at + 1;
    }
    plain
}

fn padding_of(plain: &Vec<u8>) -> (r: Option<usize>)
    ensures
        r is Some <==> is_padded(plain@),
        r matches Some(count) ==> count == plain@.last(),
{
    let len: usize = plain.len();
    if len == 0 {
        return None;
    }
    let last: u8 = plain[len - 1];
    if last < 1 || last > 16 || last as usize > len {
        return None;
    }
    let mut i: usize = len - last as usize;
    while i < len
        invariant
            len == plain@.len(),
            last == plain@.last(),
            1 <= last <= 16,
            last <= len,
            len - last <= i <= len,
            forall|k: int| len - last <= k < i ==> #[trigger] plain@[k] == last,
        decreases len - i,
    {
        if plain[i] != last {
            proof {
                assert(plain@[i as int] != last);
            }
            return None;
        }
        i = i + 1;
    }
    Some(last as usize)
}

/// What some bytes are the encryption of, under a key and an initial number.
pub fn decrypt(key: &Vec<u8>, iv: u128, bytes: &Vec<u8>) -> (r: Option<Vec<u8>>)
    requires
        key@.len() == BLOCK,
    ensures
        decrypted(key@, iv, bytes@) == (match r {
            Some(plain) => Some(plain@),
            None => None,
        }),
{
    if bytes.len() % 16 != 0 {
        return None;
    }
    let mut plain = unchain(key, iv, bytes);
    match padding_of(&plain) {
        Some(count) => {
            let keep: usize = plain.len() - count;
            plain.truncate(keep);
            Some(plain)
        },
        None => None,
    }
}

/// Decryption takes away at least one byte and at most a block.
pub proof fn law_padding_is_taken_away(key: Seq<u8>, iv: u128, bytes: Seq<u8>)
    requires
        key.len() == BLOCK,
        decrypted(key, iv, bytes) is Some,
    ensures
        bytes.len() - BLOCK <= decrypted(key, iv, bytes)->0.len() < bytes.len(),
{
    lemma_unchained_len(key, block_of(iv), bytes, bytes.len() / 16);
}

proof fn lemma_unchained_len(key: Seq<u8>, initial: Seq<u8>, bytes: Seq<u8>, count: nat)
    ensures
        unchained(key, initial, bytes, count).len() == 16 * count,
    decreases count,
{
    if count > 0 {
        lemma_unchained_len(key, initial, bytes, (count - 1) as nat);
    }
}

/// A block is decrypted by itself and the block before it: what comes later changes nothing.
pub proof fn law_blocks_are_decrypted_in_order(
    key: Seq<u8>,
    initial: Seq<u8>,
    bytes: Seq<u8>,
    more: Seq<u8>,
    count: nat,
)
    requires
        16 * count <= bytes.len(),
    ensures
        unchained(key, initial, bytes + more, count) == unchained(key, initial, bytes, count),
    decreases count,
{
    if count > 0 {
        let at = count - 1;
        law_blocks_are_decrypted_in_order(key, initial, bytes, more, at as nat);
        assert(block_at(bytes + more, at) =~= block_at(bytes, at));
        if at > 0 {
            assert(block_at(bytes + more, at - 1) =~= block_at(bytes, at - 1));
        }
    }
}

} // verus!
