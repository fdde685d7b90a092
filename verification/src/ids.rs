//! The identities of downloads as texts.

use crate::hls::{hex_digit_value, hex_value, lemma_sixteen_grows, sixteen_to};
use crate::outside::{hex_digit, uuid_text, write_uuid};
use crate::text::{chars_of, same_text};
use vstd::arithmetic::div_mod::{
    lemma_basic_div, lemma_div_denominator, lemma_fundamental_div_mod,
};
use vstd::arithmetic::power::{lemma_pow0, lemma_pow1, lemma_pow_adds, lemma_pow_positive, pow};
use vstd::prelude::*;

verus! {

/// An identity as a text.
pub fn id_text(id: u128) -> (r: String)
    ensures
        r@ == uuid_text(id),
{
    write_uuid(id)
}

/// Where the digit of the given rank stands in the text of an identity.
spec fn digit_place(rank: int) -> int {
    if rank < 8 {
        rank
    } else if rank < 12 {
        rank + 1
    } else if rank < 16 {
        rank + 2
    } else if rank < 20 {
        rank + 3
    } else {
        rank + 4
    }
}

/// The number that a character stands for as a digit, or zero.
spec fn value_at(text: Seq<char>, place: int) -> nat {
    match hex_value(text[place]) {
        Some(n) => n as nat,
        None => 0,
    }
}

/// The number that the first digits of a text stand for.
spec fn number_read(text: Seq<char>, count: nat) -> nat
    decreases count,
{
    if count == 0 {
        0
    } else {
        number_read(text, (count - 1) as nat) * 16 + value_at(text, digit_place(count - 1))
    }
}

proof fn lemma_digit_value(n: int)
    requires
        0 <= n < 16,
    ensures
        hex_value(hex_digit(n)) == Some(n as u128),
{
}

proof fn lemma_number_read(id: u128, count: nat)
    requires
        count <= 32,
    ensures
        number_read(uuid_text(id), count) == id as int / pow(16, (32 - count) as nat),
    decreases count,
{
    let x = id as int;
    if count == 0 {
        assert(x / pow(16, 32) == 0) by {
            lemma_pow_is_sixteen_to(32);
            lemma_all_digits();
            lemma_basic_div(x, pow(16, 32));
        }
    } else {
        let fewer = (count - 1) as nat;
        let low = (32 - count) as nat;
        lemma_number_read(id, fewer);
        lemma_pow_positive(16, low);
        lemma_pow1(16);
        lemma_pow_adds(16, low, 1);
        lemma_div_denominator(x, pow(16, low), 16);
        let rest = x / pow(16, low);
        lemma_fundamental_div_mod(rest, 16);
        assert(uuid_text(id)[digit_place(count - 1)] == hex_digit(rest % 16));
        lemma_digit_value(rest % 16);
    }
}

proof fn lemma_pow_is_sixteen_to(n: nat)
    ensures
        pow(16, n) == sixteen_to(n),
    decreases n,
{
    lemma_pow0(16);
    if n > 0 {
        lemma_pow_is_sixteen_to((n - 1) as nat);
        lemma_pow1(16);
        lemma_pow_adds(16, 1, (n - 1) as nat);
    }
}

proof fn lemma_all_digits()
    ensures
        sixteen_to(32) == 0x1_0000_0000_0000_0000_0000_0000_0000_0000nat,
{
    reveal_with_fuel(sixteen_to, 33);
}

/// The identity that a text is.
pub fn id_of(text: &str) -> (r: Option<u128>)
    ensures
        match r {
            Some(id) => text@ == uuid_text(id),
            None => forall|id: u128| text@ != #[trigger] uuid_text(id),
        },
{
    let chars = chars_of(text);
    if chars.len() != 36 {
        proof {
            assert forall|id: u128| text@ != #[trigger] uuid_text(id) by {
                assert(uuid_text(id).len() == 36);
            }
        }
        return None;
    }
    let mut value: u128 = 0;
    let mut place: usize = 0;
    let mut count: u64 = 0;
    while count < 32
        invariant
            chars@ == text@,
            chars@.len() == 36,
            count <= 32,
            count < 32 ==> place == digit_place(count as int),
            value == number_read(text@, count as nat),
            value < sixteen_to(count as nat),
        decreases 32 - count,
    {
        let digit: u128 = match hex_digit_value(chars[place]) {
            Some(n) => n,
            None => 0,
        };
        proof {
            lemma_sixteen_grows((count + 1) as nat, 32);
            lemma_all_digits();
        }
        value = value * 16 + digit;
        count = count + 1;
        place = if count == 8 || count == 12 || count == 16 || count == 20 {
            place + 2
        } else {
            place + 1
        };
    }
    if same_text(write_uuid(value).as_str(), text) {
        Some(value)
    } else {
        proof {
            assert forall|id: u128| text@ != #[trigger] uuid_text(id) by {
                if text@ == uuid_text(id) {
                    lemma_number_read(id, 32);
                    lemma_pow0(16);
                }
            }
        }
        None
    }
}

/// Two identities have one text only if they are one.
pub proof fn law_texts_tell_identities_apart(left: u128, right: u128)
    ensures
        uuid_text(left) == uuid_text(right) ==> left == right,
{
    lemma_number_read(left, 32);
    lemma_number_read(right, 32);
    lemma_pow0(16);
}

} // verus!
