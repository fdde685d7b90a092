//! Sizes and bit rates as short texts. The figures are those of IEEE double precision
//! arithmetic, printed with a fixed number of decimals; the arithmetic here is done on
//! whole numbers.

use crate::text::{decimal, digit, number};
use vstd::prelude::*;

verus! {

/// The whole number nearest to `n / d`, the even one of two equally near.
pub open spec fn nearest(n: nat, d: nat) -> nat {
    let q = n / d;
    let r = n % d;
    if 2 * r > d || (2 * r == d && q % 2 == 1) {
        q + 1
    } else {
        q
    }
}

/// Two to the power `e`.
pub open spec fn two_to(e: nat) -> nat
    decreases e,
{
    if e == 0 {
        1
    } else {
        2 * two_to((e - 1) as nat)
    }
}

/// Two to the number of significant bits of a double precision number.
pub const PRECISION: u128 = 0x20_0000_0000_0000;

/// The least number of bits, `k` or more, to drop from a number of 64 bits so that it
/// fits the precision.
pub open spec fn excess_bits(n: nat, k: nat) -> nat
    decreases 64 - k,
{
    if n < PRECISION * two_to(k) || k >= 64 {
        k
    } else {
        excess_bits(n, k + 1)
    }
}

/// The double precision number nearest to a whole number.
pub open spec fn as_double(n: nat) -> nat {
    let unit = two_to(excess_bits(n, 0));
    nearest(n, unit) * unit
}

/// The least number of binary places, `e` or more and at most 52, with which `n / d`
/// fills the precision.
pub open spec fn binary_places(n: nat, d: nat, e: nat) -> nat
    decreases 52 - e,
{
    if 2 * n * two_to(e) >= PRECISION * d || e >= 52 {
        e
    } else {
        binary_places(n, d, e + 1)
    }
}

/// The double precision quotient of `n` by `d`, of at least one, as a numerator and a
/// power of two to divide it by.
pub open spec fn double_quotient(n: nat, d: nat) -> (nat, nat) {
    let unit = two_to(binary_places(n, d, 0));
    (nearest(n * unit, d), unit)
}

/// `n / d` in decimal with no, one or two decimals, nearest value, ties to even.
pub open spec fn fixed(n: nat, d: nat, decimals: nat) -> Seq<char> {
    if decimals == 0 {
        decimal(nearest(n, d))
    } else if decimals == 1 {
        let tenths = nearest(n * 10, d);
        decimal(tenths / 10) + seq!['.', digit(tenths % 10)]
    } else {
        let hundredths = nearest(n * 100, d);
        decimal(hundredths / 100) + seq![
            '.',
            digit(hundredths / 10 % 10),
            digit(hundredths % 10),
        ]
    }
}

/// A bit rate: in Mbps with one decimal from a million on, in whole Kbps from a thousand
/// on, in bps below.
pub open spec fn bitrate_text(bits_per_second: u64) -> Seq<char> {
    let value = as_double(bits_per_second as nat);
    if bits_per_second >= 1_000_000 {
        let (n, d) = double_quotient(value, 1_000_000);
        fixed(n, d, 1) + " Mbps"@
    } else if bits_per_second >= 1_000 {
        let (n, d) = double_quotient(value, 1_000);
        fixed(n, d, 0) + " Kbps"@
    } else {
        decimal(bits_per_second as nat) + " bps"@
    }
}

/// A size: in GB or MB with two decimals, in KB with one, in whole bytes below, each unit
/// being 1024 of the next.
pub open spec fn size_text(bytes: u64) -> Seq<char> {
    let value = as_double(bytes as nat);
    if value >= 0x4000_0000 {
        fixed(value, 0x4000_0000, 2) + " GB"@
    } else if value >= 0x10_0000 {
        fixed(value, 0x10_0000, 2) + " MB"@
    } else if value >= 0x400 {
        fixed(value, 0x400, 1) + " KB"@
    } else {
        fixed(value, 1, 0) + " B"@
    }
}

fn round(n: u128, d: u128) -> (r: u128)
    requires
        0 < d,
        2 * d <= u128::MAX,
    ensures
        r == nearest(n as nat, d as nat),
{
    let q: u128 = n / d;
    let rest: u128 = n % d;
    if 2 * rest > d || (2 * rest == d && q % 2 == 1) {
        proof {
            if d == 1 {
                assert(rest == 0);
            }
            assert(q <= n / 2) by (nonlinear_arith)
                requires
                    d >= 2,
                    q == n / d,
            ;
        }
        q + 1
    } else {
        q
    }
}

/// The double precision number nearest to a whole number.
fn to_double(n: u64) -> (r: u128)
    ensures
        r == as_double(n as nat),
        r <= 0x1_0000_0000_0000_0000,
        r + 2048 >= n,
        n < PRECISION ==> r == n,
{
    let wide: u128 = n as u128;
    let mut k: u32 = 0;
    let mut unit: u128 = 1;
    while wide >= PRECISION * unit
        invariant
            wide == n,
            k <= 11,
            unit == two_to(k as nat),
            k == 11 ==> unit == 2048,
            k < 11 ==> unit <= 1024,
            1 <= unit <= 2048,
            n < PRECISION ==> k == 0,
            excess_bits(n as nat, 0) == excess_bits(n as nat, k as nat),
        decreases 12 - k,
    {
        proof {
            reveal_with_fuel(two_to, 13);
            assert(k < 11);
        }
        k = k + 1;
        unit = unit * 2;
    }
    let m = round(wide, unit);
    proof {
        reveal_with_fuel(two_to, 13);
        lemma_double_bound(n, unit as nat, m as nat);
    }
    m * unit
}

proof fn lemma_double_bound(n: u64, unit: nat, m: nat)
    requires
        unit == 1 || unit == 2 || unit == 4 || unit == 8 || unit == 16 || unit == 32 || unit == 64
            || unit == 128 || unit == 256 || unit == 512 || unit == 1024 || unit == 2048,
        m == nearest(n as nat, unit),
    ensures
        m * unit <= 0x1_0000_0000_0000_0000,
        m * unit + 2048 >= n,
        unit == 1 ==> m == n,
{
    if unit == 1 {
        assert(n as nat / 1 == n);
        assert(n as nat % 1 == 0);
    }
    assert((n as nat / unit) * unit + unit > n) by (nonlinear_arith)
        requires
            unit > 0,
    ;
    assert((n as nat / unit) * unit <= m * unit) by (nonlinear_arith)
        requires
            n as nat / unit <= m,
    ;
    let top: nat = 0x1_0000_0000_0000_0000nat / unit;
    assert(top * unit == 0x1_0000_0000_0000_0000) by {
        lemma_top(unit, top);
    }
    assert(n as nat / unit < top) by (nonlinear_arith)
        requires
            top * unit == 0x1_0000_0000_0000_0000,
            unit > 0,
            n < 0x1_0000_0000_0000_0000,
    ;
    assert(m * unit <= top * unit) by (nonlinear_arith)
        requires
            m <= top,
    ;
}

proof fn lemma_top(unit: nat, top: nat)
    requires
        unit == 1 || unit == 2 || unit == 4 || unit == 8 || unit == 16 || unit == 32 || unit == 64
            || unit == 128 || unit == 256 || unit == 512 || unit == 1024 || unit == 2048,
        top == 0x1_0000_0000_0000_0000nat / unit,
    ensures
        top * unit == 0x1_0000_0000_0000_0000,
{
    if unit == 1 {
        assert(top == 0x10000000000000000);
    } else if unit == 2 {
        assert(top == 0x8000000000000000);
    } else if unit == 4 {
        assert(top == 0x4000000000000000);
    } else if unit == 8 {
        assert(top == 0x2000000000000000);
    } else if unit == 16 {
        assert(top == 0x1000000000000000);
    } else if unit == 32 {
        assert(top == 0x800000000000000);
    } else if unit == 64 {
        assert(top == 0x400000000000000);
    } else if unit == 128 {
        assert(top == 0x200000000000000);
    } else if unit == 256 {
        assert(top == 0x100000000000000);
    } else if unit == 512 {
        assert(top == 0x80000000000000);
    } else if unit == 1024 {
        assert(top == 0x40000000000000);
    } else if unit == 2048 {
        assert(top == 0x20000000000000);
    }
}

/// The double precision quotient of `n` by `d`.
fn divide(n: u128, d: u128) -> (r: (u128, u128))
    requires
        1 <= d <= n,
        d <= 1_000_000,
        n <= 0x1_0000_0000_0000_0000,
        n < d * 0x2_0000_0000_0000,
    ensures
        (r.0 as nat, r.1 as nat) == double_quotient(n as nat, d as nat),
        1 <= r.1 <= 0x10_0000_0000_0000,
        r.0 < r.1 * 0x4_0000_0000_0000,
{
    let mut e: u32 = 0;
    let mut unit: u128 = 1;
    let mut scaled: u128 = n;
    assert(n * 1 == n);
    while e < 52 && 2 * scaled < PRECISION * d
        invariant
            1 <= d <= n,
            d <= 1_000_000,
            n <= 0x1_0000_0000_0000_0000,
            e <= 52,
            unit == two_to(e as nat),
            1 <= unit,
            scaled == n * unit,
            scaled <= 0x1_0000_0000_0000_0000 || scaled < PRECISION * d,
            unit * d <= scaled,
            binary_places(n as nat, d as nat, 0) == binary_places(n as nat, d as nat, e as nat),
        decreases 52 - e,
    {
        proof {
            assert(2 * n * unit == 2 * (n * unit)) by (nonlinear_arith);
            assert(n * (2 * unit) == 2 * (n * unit)) by (nonlinear_arith);
            assert(2 * unit * d == 2 * (unit * d)) by (nonlinear_arith);
            assert(unit <= unit * d) by (nonlinear_arith)
                requires
                    1 <= d,
                    1 <= unit,
            ;
        }
        e = e + 1;
        unit = unit * 2;
        scaled = scaled * 2;
    }
    proof {
        assert(2 * n * unit == 2 * (n * unit)) by (nonlinear_arith);
        lemma_two_to_grows(e as nat, 52);
        reveal_with_fuel(two_to, 54);
        lemma_quotient_bound(n as nat, d as nat, unit as nat);
    }
    (round(scaled, d), unit)
}

/// Powers of two grow with their exponents.
pub proof fn lemma_two_to_grows(a: nat, b: nat)
    requires
        a <= b,
    ensures
        two_to(a) <= two_to(b),
    decreases b,
{
    if a < b {
        lemma_two_to_grows(a, (b - 1) as nat);
    }
}

proof fn lemma_quotient_bound(n: nat, d: nat, unit: nat)
    requires
        1 <= d,
        1 <= unit,
        n < d * 0x2_0000_0000_0000,
    ensures
        nearest(n * unit, d) < unit * 0x4_0000_0000_0000,
{
    assert(n * unit < (unit * 0x2_0000_0000_0000) * d) by (nonlinear_arith)
        requires
            n < d * 0x2_0000_0000_0000,
            1 <= unit,
    ;
    assert(n * unit / d < unit * 0x2_0000_0000_0000) by (nonlinear_arith)
        requires
            n * unit < (unit * 0x2_0000_0000_0000) * d,
            1 <= d,
    ;
}

fn push_digit(out: &mut String, n: u128)
    requires
        n < 10,
    ensures
        final(out)@ == old(out)@.push(digit(n as nat)),
{
    out.push((48 + n as u8) as char);
}

proof fn lemma_nearest_below(n: nat, d: nat, c: nat)
    requires
        1 <= d,
        1 <= c,
        n < d * 0x4_0000_0000_0000,
    ensures
        nearest(n * c, d) <= c * 0x4_0000_0000_0000,
{
    assert(n * c < (c * 0x4_0000_0000_0000) * d) by (nonlinear_arith)
        requires
            n < d * 0x4_0000_0000_0000,
            1 <= c,
    ;
    assert(n * c / d < c * 0x4_0000_0000_0000) by (nonlinear_arith)
        requires
            n * c < (c * 0x4_0000_0000_0000) * d,
            1 <= d,
    ;
}

/// `n / d` in decimal with no, one or two decimals.
fn write_fixed(n: u128, d: u128, decimals: u8) -> (r: String)
    requires
        1 <= d <= 0x10_0000_0000_0000,
        n < d * 0x4_0000_0000_0000,
        decimals <= 2,
    ensures
        r@ == fixed(n as nat, d as nat, decimals as nat),
{
    proof {
        lemma_nearest_below(n as nat, d as nat, 1);
        lemma_nearest_below(n as nat, d as nat, 10);
        lemma_nearest_below(n as nat, d as nat, 100);
    }
    if decimals == 0 {
        number(round(n, d) as u64)
    } else if decimals == 1 {
        let tenths = round(n * 10, d);
        let mut out = number((tenths / 10) as u64);
        out.push('.');
        push_digit(&mut out, tenths % 10);
        out
    } else {
        let hundredths = round(n * 100, d);
        let mut out = number((hundredths / 100) as u64);
        out.push('.');
        push_digit(&mut out, hundredths / 10 % 10);
        push_digit(&mut out, hundredths % 10);
        out
    }
}

/// A bit rate as a short text.
pub fn bitrate_label(bits_per_second: u64) -> (r: String)
    ensures
        r@ == bitrate_text(bits_per_second),
{
    let value = to_double(bits_per_second);
    if bits_per_second >= 1_000_000 {
        let (n, d) = divide(value, 1_000_000);
        write_fixed(n, d, 1).concat(" Mbps")
    } else if bits_per_second >= 1_000 {
        let (n, d) = divide(value, 1_000);
        write_fixed(n, d, 0).concat(" Kbps")
    } else {
        number(bits_per_second).concat(" bps")
    }
}

/// A size as a short text.
pub fn format_bytes(bytes: u64) -> (r: String)
    ensures
        r@ == size_text(bytes),
{
    let value = to_double(bytes);
    if value >= 0x4000_0000 {
        write_fixed(value, 0x4000_0000, 2).concat(" GB")
    } else if value >= 0x10_0000 {
        write_fixed(value, 0x10_0000, 2).concat(" MB")
    } else if value >= 0x400 {
        write_fixed(value, 0x400, 1).concat(" KB")
    } else {
        write_fixed(value, 1, 0).concat(" B")
    }
}

/// A size as a short text.
pub fn human_bytes(bytes: u64) -> (r: String)
    ensures
        r@ == size_text(bytes),
{
    format_bytes(bytes)
}

} // verus!
