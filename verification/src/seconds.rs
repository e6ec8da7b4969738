//! Elapsed seconds as a one-decimal figure, worked out the way a 64-bit
//! binary float renders them: the span becomes the double nearest to
//! `secs + nanos / 10^9` (computed as the nanoseconds' double, then added to
//! the seconds' double, each step rounded to 53 significant bits with ties to
//! even), and that double's exact value is rounded to tenths, ties to even.
//! Everything is done on integers at fixed binary scales.
use vstd::prelude::*;
use vstd::arithmetic::div_mod::{lemma_fundamental_div_mod, lemma_fundamental_div_mod_converse,
    lemma_mod_multiples_basic};

verus! {

/// Nanoseconds in a second.
pub const BILLION: u128 = 1_000_000_000;

/// 2^83: the scale the fraction of a second is held at.
pub const FRACTION_SCALE: u128 = 9671406556917033397649408;

/// 2^64: the scale a sum of seconds and fraction is held at.
pub const SUM_SCALE: u128 = 18446744073709551616;

/// 2^19: the ratio of the two scales.
pub const SCALE_GAP: u128 = 524288;

/// 2^53: one past the largest 53-bit significand.
pub const SIGNIFICAND_LIMIT: u128 = 9007199254740992;

/// The weight of the last kept bit when `x` is cut to 53 significant bits:
/// 1 below 2^53, doubling with each further bit.
pub open spec fn precision_unit(x: nat) -> nat
    decreases x,
{
    if x < SIGNIFICAND_LIMIT {
        1
    } else {
        2 * precision_unit(x / 2)
    }
}

/// `x` (plus a fraction below one when `sticky`) rounded to a multiple of
/// `u`, to the nearest, ties to an even multiple.
pub open spec fn round_to_unit(x: nat, sticky: bool, u: nat) -> nat {
    let t = x / u;
    let d = x % u;
    let h = u / 2;
    if d > h || (d == h && (sticky || t % 2 == 1)) {
        (t + 1) * u
    } else {
        t * u
    }
}

/// `x` (plus a fraction below one when `sticky`) rounded to 53 significant
/// bits.
pub open spec fn round_significand(x: nat, sticky: bool) -> nat {
    round_to_unit(x, sticky, precision_unit(x))
}

/// `a / b` rounded to the nearest integer, ties to even.
pub open spec fn nearest_even_quotient(a: nat, b: nat) -> nat {
    let t = a / b;
    let r = a % b;
    if r > b - r || (r == b - r && t % 2 == 1) {
        t + 1
    } else {
        t
    }
}

/// The double nearest to `nanos / 10^9`, times 2^83.
pub open spec fn fraction_double(nanos: nat) -> nat {
    let p: nat = nanos * (FRACTION_SCALE as nat);
    round_significand(p / (BILLION as nat), p % (BILLION as nat) != 0)
}

/// The span's double rounded to tenths: the figure before and after the
/// decimal point, as a count of tenths.
pub open spec fn double_tenths(secs: nat, nanos: nat) -> nat {
    let q: nat = fraction_double(nanos);
    if secs == 0 {
        nearest_even_quotient(10 * q, FRACTION_SCALE as nat)
    } else if secs < SIGNIFICAND_LIMIT {
        let a: nat = secs * (SUM_SCALE as nat) + q / (SCALE_GAP as nat);
        nearest_even_quotient(
            10 * round_significand(a, q % (SCALE_GAP as nat) != 0),
            SUM_SCALE as nat,
        )
    } else {
        10 * round_significand(secs, false)
    }
}

fn precision_unit_of(x: u128) -> (u: u128)
    ensures
        u == precision_unit(x as nat),
        x >= 1 ==> u <= x,
        x >= SIGNIFICAND_LIMIT ==> u >= 2 && u % 2 == 0,
{
    let mut cur = x;
    let mut u: u128 = 1;
    while cur >= SIGNIFICAND_LIMIT
        invariant
            u >= 1,
            precision_unit(x as nat) == u * precision_unit(cur as nat),
            u * cur <= x,
            cur <= x,
            x >= 1 ==> cur >= 1,
            u > 1 ==> u % 2 == 0,
            x >= SIGNIFICAND_LIMIT ==> (u >= 2 || cur == x),
        decreases cur,
    {
        let ghost old_u = u;
        let ghost old_cur = cur;
        assert(precision_unit(cur as nat) == 2 * precision_unit((cur / 2) as nat));
        assert(2 * u * (cur / 2) <= u * cur) by (nonlinear_arith)
            requires
                u >= 1,
        ;
        assert(2 * u <= u * cur) by (nonlinear_arith)
            requires
                u >= 1,
                cur >= 2,
        ;
        cur = cur / 2;
        u = 2 * u;
        assert(old_u * precision_unit(old_cur as nat) == u * precision_unit(cur as nat))
            by (nonlinear_arith)
            requires
                precision_unit(old_cur as nat) == 2 * precision_unit(cur as nat),
                u == 2 * old_u,
        ;
    }
    proof {
        assert(precision_unit(cur as nat) == 1);
        assert(precision_unit(x as nat) == u) by (nonlinear_arith)
            requires
                precision_unit(x as nat) == u * precision_unit(cur as nat),
                precision_unit(cur as nat) == 1,
        ;
        if x >= 1 {
            assert(u <= u * cur) by (nonlinear_arith)
                requires
                    cur >= 1,
                    u >= 1,
            ;
        }
    }
    u
}

fn round_to_unit_of(x: u128, sticky: bool, u: u128) -> (r: u128)
    requires
        u >= 2,
        u % 2 == 0,
        u <= x,
        x <= 0x2000_0000_0000_0000_0000_0000_0000_0000,
    ensures
        r == round_to_unit(x as nat, sticky, u as nat),
        r <= 2 * x,
{
    let t = x / u;
    let d = x % u;
    let h = u / 2;
    assert(t * u <= x) by (nonlinear_arith)
        requires
            t == x / u,
            u > 0,
    ;
    assert((t + 1) * u == t * u + u) by (nonlinear_arith);
    if d > h || (d == h && (sticky || t % 2 == 1)) {
        (t + 1) * u
    } else {
        t * u
    }
}

fn nearest_even_quotient_of(a: u128, b: u128) -> (r: u128)
    requires
        b >= 2,
    ensures
        r == nearest_even_quotient(a as nat, b as nat),
{
    let t = a / b;
    let r = a % b;
    assert(t <= a / 2) by (nonlinear_arith)
        requires
            t == a / b,
            b >= 2,
    ;
    if r > b - r || (r == b - r && t % 2 == 1) {
        t + 1
    } else {
        t
    }
}

/// The tenths of a second that the double of the span rounds to.
pub fn tenths_of(secs: u64, nanos: u32) -> (t: u128)
    requires
        nanos < 1_000_000_000,
    ensures
        t == double_tenths(secs as nat, nanos as nat),
{
    let n = nanos as u128;
    assert(n * FRACTION_SCALE < 0x2_0000_0000_0000_0000_0000_0000_0000) by (nonlinear_arith)
        requires
            n < 1_000_000_000,
    ;
    let p = n * FRACTION_SCALE;
    let x = p / BILLION;
    let q: u128 = if n == 0 {
        proof {
            assert(precision_unit(0) == 1);
            assert(0nat / 1nat == 0 && 0nat % 1nat == 0 && 1nat / 2nat == 0) by (nonlinear_arith);
            assert(round_to_unit(0, false, 1) == 0);
        }
        0
    } else {
        assert(p >= FRACTION_SCALE) by (nonlinear_arith)
            requires
                n >= 1,
                p == n * FRACTION_SCALE,
        ;
        assert(x >= SIGNIFICAND_LIMIT) by (nonlinear_arith)
            requires
                p >= FRACTION_SCALE,
                x == p / BILLION,
        ;
        let u = precision_unit_of(x);
        round_to_unit_of(x, p % BILLION != 0, u)
    };
    assert(q == fraction_double(nanos as nat));
    assert(q <= 0x4_0000_0000_0000_0000_0000_0000_0000);
    if secs == 0 {
        nearest_even_quotient_of(10 * q, FRACTION_SCALE)
    } else if (secs as u128) < SIGNIFICAND_LIMIT {
        let s = secs as u128;
        assert(s * SUM_SCALE < 0x20_0000_0000_0000_0000_0000_0000_0000) by (nonlinear_arith)
            requires
                s < SIGNIFICAND_LIMIT,
        ;
        assert(s * SUM_SCALE >= SUM_SCALE) by (nonlinear_arith)
            requires
                s >= 1,
        ;
        let a = s * SUM_SCALE + q / SCALE_GAP;
        let u = precision_unit_of(a);
        let v = round_to_unit_of(a, q % SCALE_GAP != 0, u);
        nearest_even_quotient_of(10 * v, SUM_SCALE)
    } else {
        let s = secs as u128;
        let u = precision_unit_of(s);
        let v = round_to_unit_of(s, false, u);
        10 * v
    }
}

/// `m` doubled `k` times.
spec fn doubled(m: nat, k: nat) -> nat
    decreases k,
{
    if k == 0 {
        m
    } else {
        2 * doubled(m, (k - 1) as nat)
    }
}

proof fn lemma_doubled_is_product(m: nat, k: nat)
    ensures
        doubled(m, k) == m * doubled(1, k),
        doubled(1, k) >= 1,
    decreases k,
{
    if k > 0 {
        lemma_doubled_is_product(m, (k - 1) as nat);
        let t = doubled(1, (k - 1) as nat);
        assert(doubled(m, k) == 2 * doubled(m, (k - 1) as nat));
        assert(doubled(1, k) == 2 * t);
        assert(2 * (m * t) == m * (2 * t)) by (nonlinear_arith);
    } else {
        assert(m * 1 == m) by (nonlinear_arith);
    }
}

/// A number below 2^53 doubled any number of times is a multiple of the
/// weight of its last kept bit: cutting it to 53 bits loses nothing.
proof fn lemma_unit_divides_doubled(m: nat, k: nat)
    requires
        m < SIGNIFICAND_LIMIT,
    ensures
        precision_unit(doubled(m, k)) >= 1,
        doubled(m, k) % precision_unit(doubled(m, k)) == 0,
    decreases k,
{
    let x = doubled(m, k);
    if x < SIGNIFICAND_LIMIT {
        assert(precision_unit(x) == 1);
        assert(x % 1 == 0) by (nonlinear_arith);
    } else {
        let y = doubled(m, (k - 1) as nat);
        lemma_unit_divides_doubled(m, (k - 1) as nat);
        let u = precision_unit(y);
        assert(x / 2 == y);
        assert(precision_unit(x) == 2 * u);
        lemma_fundamental_div_mod(y as int, u as int);
        let c = y / u;
        assert(y == c * u);
        assert(x == c * (2 * u)) by (nonlinear_arith)
            requires
                x == 2 * y,
                y == c * u,
        ;
        lemma_mod_multiples_basic(c as int, (2 * u) as int);
    }
}

/// A span of whole seconds that a double holds exactly (below 2^53
/// seconds) shows as that many seconds and zero tenths.
pub proof fn lemma_whole_seconds_show_exactly(secs: nat)
    requires
        secs < SIGNIFICAND_LIMIT,
    ensures
        double_tenths(secs, 0) == 10 * secs,
{
    assert(precision_unit(0) == 1);
    assert(0nat / 1nat == 0 && 0nat % 1nat == 0 && 1nat / 2nat == 0) by (nonlinear_arith);
    assert(round_to_unit(0, false, 1) == 0);
    assert(fraction_double(0) == 0);
    if secs == 0 {
        lemma_fundamental_div_mod_converse(0, FRACTION_SCALE as int, 0, 0);
    } else {
        let a: nat = secs * (SUM_SCALE as nat);
        lemma_doubled_is_product(secs, 64);
        assert(doubled(1, 64) == SUM_SCALE) by {
            reveal_with_fuel(doubled, 65);
        }
        lemma_unit_divides_doubled(secs, 64);
        assert(a >= SIGNIFICAND_LIMIT) by (nonlinear_arith)
            requires
                secs >= 1,
                a == secs * (SUM_SCALE as nat),
        ;
        let u = precision_unit(a);
        assert(u == 2 * precision_unit(a / 2));
        assert(a % u == 0);
        lemma_fundamental_div_mod(a as int, u as int);
        assert(round_to_unit(a, false, u) == a);
        assert(round_significand(a, false) == a);
        assert(10 * a == (10 * secs) * (SUM_SCALE as nat)) by (nonlinear_arith)
            requires
                a == secs * (SUM_SCALE as nat),
        ;
        lemma_fundamental_div_mod_converse((10 * a) as int, SUM_SCALE as int, (10 * secs) as int, 0);
    }
}

} // verus!
