//! Proportions as binary floating point gives them, computed on integers: every
//! intermediate result is rounded to a fixed number of significant bits, to the
//! nearest such number and of two equally near ones to the even one.
use vstd::prelude::*;

verus! {

/// The first number beyond 53 significant bits, those of double precision.
pub const DOUBLE: u64 = 0x20_0000_0000_0000;

/// The first number beyond 24 significant bits, those of single precision.
pub const SINGLE: u64 = 0x100_0000;

/// Two to the power of `n`.
pub open spec fn two(n: nat) -> nat
    decreases n,
{
    if n == 0 {
        1
    } else {
        2 * two((n - 1) as nat)
    }
}

/// The integer nearest to `n / d`; of two equally near ones the even one.
pub open spec fn half_even(n: nat, d: nat) -> nat {
    let q = n / d;
    let r = n % d;
    if 2 * r > d || (2 * r == d && q % 2 == 1) {
        q + 1
    } else {
        q
    }
}

/// How many low bits of `n` are beyond the precision: how often it is to be halved
/// until it is below `top`.
pub open spec fn halves(top: nat, n: nat) -> nat
    decreases n,
{
    if top == 0 || n < top {
        0
    } else {
        1 + halves(top, n / 2)
    }
}

/// The integer `n` at the precision whose first number beyond is `top`.
pub open spec fn nearest(top: nat, n: nat) -> nat {
    half_even(n, two(halves(top, n))) * two(halves(top, n))
}

/// How often `a` is to be doubled until `a / b` has all bits of the precision
/// before the point.
pub open spec fn doublings(top: nat, a: nat, b: nat) -> nat
    decreases
            if a < b * (top / 2) {
                b * (top / 2) - a
            } else {
                0
            },
{
    if a == 0 || a >= b * (top / 2) {
        0
    } else {
        1 + doublings(top, 2 * a, b)
    }
}

/// How often `b` is to be doubled until `a / b` has no more bits before the point
/// than the precision.
pub open spec fn spare(top: nat, a: nat, b: nat) -> nat
    decreases a - b,
{
    if top <= 1 || b == 0 || a < b * top {
        0
    } else {
        proof {
            assert(2 * b <= b * top) by (nonlinear_arith)
                requires
                    top >= 2,
            ;
        }
        1 + spare(top, a, 2 * b)
    }
}

/// A quotient at a precision: an integer `m` and two powers of two, one of which is 1.
/// It stands for `m * down / up`.
pub struct Quotient {
    pub m: nat,
    pub up: nat,
    pub down: nat,
}

/// The quotient of `a` and `b` at a precision.
pub open spec fn quotient(top: nat, a: nat, b: nat) -> Quotient {
    let up = two(doublings(top, a, b));
    let down = two(spare(top, a, b));
    Quotient { m: half_even(a * up, b * down), up, down }
}

/// The integer part of `value / max * width` in double precision.
pub open spec fn proportion(value: nat, max: nat, width: nat) -> nat {
    let q = quotient(
        DOUBLE as nat,
        nearest(DOUBLE as nat, value),
        nearest(DOUBLE as nat, max),
    );
    nearest(DOUBLE as nat, q.m * nearest(DOUBLE as nat, width)) * q.down / q.up
}

/// The ratio of `i` to `n` in single precision is below `c / d`.
pub open spec fn ratio_below(i: nat, n: nat, c: nat, d: nat) -> bool {
    let q = quotient(SINGLE as nat, nearest(SINGLE as nat, i), nearest(SINGLE as nat, n));
    q.m * q.down * d < c * q.up
}

// ── Bounds ──────────────────────────────────────────────────────────────────

proof fn lemma_two_positive(n: nat)
    ensures
        two(n) >= 1,
    decreases n,
{
    if n > 0 {
        lemma_two_positive((n - 1) as nat);
    }
}

proof fn lemma_half_even(n: nat, d: nat)
    requires
        d > 0,
    ensures
        half_even(n, d) * d <= n + d,
        n < half_even(n, d) * d + d,
        d <= n ==> half_even(n, d) >= 1,
{
    let q = n / d;
    let r = n % d;
    assert(n == q * d + r && 0 <= r < d) by (nonlinear_arith)
        requires
            d > 0,
            q == n / d,
            r == n % d,
    ;
    assert((q + 1) * d == q * d + d) by (nonlinear_arith);
    if d <= n {
        assert(q >= 1) by (nonlinear_arith)
            requires
                n == q * d + r,
                r < d,
                d <= n,
        ;
    }
}

proof fn lemma_halves(top: nat, n: nat)
    requires
        top > 1,
        n > 0,
    ensures
        two(halves(top, n)) <= n,
    decreases n,
{
    if n >= top {
        lemma_halves(top, n / 2);
    }
}

/// Rounding changes a number by less than a factor of two.
pub proof fn law_nearest_is_near(top: nat, n: nat)
    requires
        top > 1,
    ensures
        nearest(top, n) <= 2 * n,
        n <= 2 * nearest(top, n),
        n < top ==> nearest(top, n) == n,
{
    let d = two(halves(top, n));
    lemma_two_positive(halves(top, n));
    lemma_half_even(n, d);
    if n > 0 {
        lemma_halves(top, n);
        assert(half_even(n, d) * d >= d) by (nonlinear_arith)
            requires
                half_even(n, d) >= 1,
        ;
    }
    if n < top {
        assert(half_even(n, 1) == n);
        assert(n * 1 == n) by (nonlinear_arith);
        assert(d == 1);
    }
}

proof fn lemma_half_even_doubled(n: nat, d: nat)
    requires
        d > 0,
    ensures
        half_even(2 * n, 2 * d) == half_even(n, d),
{
    let q = n / d;
    let r = n % d;
    assert(n == q * d + r && 0 <= r < d) by (nonlinear_arith)
        requires
            d > 0,
            q == n / d,
            r == n % d,
    ;
    assert((2 * n) / (2 * d) == q && (2 * n) % (2 * d) == 2 * r) by {
        assert(2 * n == q * (2 * d) + 2 * r) by (nonlinear_arith)
            requires
                n == q * d + r,
        ;
        vstd::arithmetic::div_mod::lemma_fundamental_div_mod_converse(
            (2 * n) as int,
            (2 * d) as int,
            q as int,
            (2 * r) as int,
        );
    }
}

/// Rounding and doubling can be done in either order.
pub proof fn law_nearest_of_double(top: nat, n: nat)
    requires
        top > 1,
    ensures
        nearest(top, 2 * n) == 2 * nearest(top, n),
{
    let j = halves(top, n);
    lemma_two_positive(j);
    if 2 * n < top {
        law_nearest_is_near(top, n);
        law_nearest_is_near(top, 2 * n);
    } else {
        assert((2 * n) / 2 == n);
        assert(halves(top, 2 * n) == 1 + j);
        lemma_half_even_doubled(n, two(j));
        assert(half_even(n, two(j)) * (2 * two(j)) == 2 * (half_even(n, two(j)) * two(j)))
            by (nonlinear_arith);
    }
}

proof fn lemma_nearest_of_scaled(top: nat, n: nat, k: nat)
    requires
        top > 1,
    ensures
        nearest(top, two(k) * n) == two(k) * nearest(top, n),
    decreases k,
{
    if k > 0 {
        let h = two((k - 1) as nat);
        lemma_nearest_of_scaled(top, n, (k - 1) as nat);
        law_nearest_of_double(top, h * n);
        assert(two(k) * n == 2 * (h * n)) by (nonlinear_arith)
            requires
                two(k) == 2 * h,
        ;
        assert(two(k) * nearest(top, n) == 2 * (h * nearest(top, n))) by (nonlinear_arith)
            requires
                two(k) == 2 * h,
        ;
    } else {
        assert(two(0) == 1);
        assert(1 * n == n && 1 * nearest(top, n) == nearest(top, n));
    }
}

/// A quotient is either scaled up or down.
proof fn lemma_one_way(top: nat, a: nat, b: nat)
    requires
        top > 1,
    ensures
        doublings(top, a, b) > 0 ==> spare(top, a, b) == 0,
        a < b * top ==> spare(top, a, b) == 0,
{
    if doublings(top, a, b) > 0 {
        assert(a < b * top) by (nonlinear_arith)
            requires
                a < b * (top / 2),
                top > 1,
        ;
    }
}

/// A quotient of at most four is at most five at any precision.
proof fn lemma_small_quotient(top: nat, a: nat, b: nat)
    requires
        top >= SINGLE,
        b > 0,
        a <= 4 * b,
    ensures
        quotient(top, a, b).down == 1,
        quotient(top, a, b).up >= 1,
        quotient(top, a, b).m <= 5 * quotient(top, a, b).up,
{
    let up = two(doublings(top, a, b));
    lemma_two_positive(doublings(top, a, b));
    assert(a < b * top) by (nonlinear_arith)
        requires
            a <= 4 * b,
            b > 0,
            top > 4,
    ;
    lemma_one_way(top, a, b);
    assert(b * 1 == b);
    let m = half_even(a * up, b);
    lemma_half_even(a * up, b);
    assert(m <= 5 * up) by (nonlinear_arith)
        requires
            m * b <= a * up + b,
            a <= 4 * b,
            b > 0,
            up >= 1,
    ;
}

/// A value of at most the maximum takes a bounded multiple of the width.
pub proof fn law_proportion_is_bounded(value: nat, max: nat, width: nat)
    requires
        value <= max,
        max > 0,
    ensures
        proportion(value, max, width) <= 20 * width,
{
    let top = DOUBLE as nat;
    law_nearest_is_near(top, value);
    law_nearest_is_near(top, max);
    law_nearest_is_near(top, width);
    let (a, b, w) = (nearest(top, value), nearest(top, max), nearest(top, width));
    lemma_small_quotient(top, a, b);
    let q = quotient(top, a, b);
    law_nearest_is_near(top, q.m * w);
    let z = nearest(top, q.m * w);
    assert(z <= 20 * width * q.up) by (nonlinear_arith)
        requires
            z <= 2 * (q.m * w),
            q.m <= 5 * q.up,
            w <= 2 * width,
    ;
    assert(z * 1 / q.up <= 20 * width) by (nonlinear_arith)
        requires
            z <= 20 * width * q.up,
            q.up >= 1,
    ;
}

/// The whole takes the whole width.
pub proof fn law_whole_proportion(max: nat, width: nat)
    requires
        max > 0,
        width < DOUBLE,
    ensures
        proportion(max, max, width) == width,
{
    let top = DOUBLE as nat;
    law_nearest_is_near(top, max);
    law_nearest_is_near(top, width);
    let (b, w) = (nearest(top, max), width);
    let k = doublings(top, b, b);
    lemma_small_quotient(top, b, b);
    let q = quotient(top, b, b);
    lemma_two_positive(k);
    assert(b * 1 == b);
    assert(half_even(b * q.up, b) == q.up) by {
        assert((b * q.up) / b == q.up && (b * q.up) % b == 0) by (nonlinear_arith)
            requires
                b > 0,
        ;
    }
    lemma_nearest_of_scaled(top, w, k);
    assert(q.up * w * 1 / q.up == w) by (nonlinear_arith)
        requires
            q.up >= 1,
    ;
}

// ── Computing ───────────────────────────────────────────────────────────────

/// No number above this one is rounded.
const LIMIT: u128 = 0x4000_0000_0000_0000_0000_0000_0000_0000;

fn round_half_even(n: u128, d: u128) -> (r: u128)
    requires
        0 < d,
        n <= LIMIT,
    ensures
        r == half_even(n as nat, d as nat),
        r <= n + 1,
{
    let q: u128 = n / d;
    let rest: u128 = n % d;
    assert(q <= n) by (nonlinear_arith)
        requires
            q == n / d,
            d > 0,
    ;
    if rest > d - rest || (rest == d - rest && q % 2 == 1) {
        q + 1
    } else {
        q
    }
}

/// The integer `n` at the precision whose first number beyond is `top`.
fn nearest_of(top: u64, n: u128) -> (r: u128)
    requires
        top > 1,
        n <= LIMIT,
    ensures
        r == nearest(top as nat, n as nat),
{
    let mut rest: u128 = n;
    let mut d: u128 = 1;
    let ghost mut j: nat = 0;
    while rest >= top as u128
        invariant
            top > 1,
            n <= LIMIT,
            1 <= d,
            d == two(j),
            rest * d <= n,
            halves(top as nat, n as nat) == j + halves(top as nat, rest as nat),
        decreases rest,
    {
        assert(2 * d <= n && (rest / 2) * (2 * d) <= n) by (nonlinear_arith)
            requires
                rest * d <= n,
                rest >= 2,
                d >= 1,
        ;
        rest = rest / 2;
        d = d * 2;
        proof {
            j = j + 1;
        }
    }
    proof {
        law_nearest_is_near(top as nat, n as nat);
    }
    let m: u128 = round_half_even(n, d);
    assert(m * d == nearest(top as nat, n as nat));
    m * d
}

/// A quotient at a precision, see [`Quotient`].
struct Parts {
    m: u128,
    up: u128,
    down: u128,
}

/// The quotient of `a` and `b` at the precision whose first number beyond is `top`.
fn quotient_of(top: u64, a: u128, b: u128) -> (r: Parts)
    requires
        1 < top <= DOUBLE,
        a <= 0x2_0000_0000_0000_0000,
        0 < b <= 0x2_0000_0000_0000_0000,
    ensures
        (Quotient { m: r.m as nat, up: r.up as nat, down: r.down as nat }) == quotient(
            top as nat,
            a as nat,
            b as nat,
        ),
        r.m <= top,
        1 <= r.up <= LIMIT,
        r.up == 1 || r.up < b * top,
        1 <= r.down,
        r.up == 1 || r.down == 1,
{
    let ghost (t, x0, y0) = (top as nat, a as nat, b as nat);
    let half: u128 = (top / 2) as u128;
    assert(b * half <= 0x2_0000_0000_0000_0000 * 0x10_0000_0000_0000) by (nonlinear_arith)
        requires
            0 < b <= 0x2_0000_0000_0000_0000,
            half <= 0x10_0000_0000_0000,
    ;
    let bound: u128 = b * half;
    let mut x: u128 = a;
    let mut up: u128 = 1;
    let ghost mut j: nat = 0;
    assert(x0 * 1 == x0);
    while x > 0 && x < bound
        invariant
            t == top,
            x0 == a,
            y0 == b,
            half == t / 2,
            bound == b * half,
            bound <= 0x2_0000_0000_0000_0000 * 0x10_0000_0000_0000,
            x0 > 0 ==> up <= x,
            1 <= up,
            up == 1 || x < 2 * bound,
            x <= 0x2_0000_0000_0000_0000 || x < 2 * bound,
            x0 == 0 ==> x == 0 && up == 1,
            up == two(j),
            x == x0 * up,
            doublings(t, x0, y0) == j + doublings(t, x as nat, y0),
        decreases
                if x < bound {
                    bound - x
                } else {
                    0
                },
    {
        assert(x0 * (2 * up) == 2 * (x0 * up)) by (nonlinear_arith);
        x = x * 2;
        up = up * 2;
        proof {
            j = j + 1;
        }
    }
    assert(doublings(t, x as nat, y0) == 0);
    let mut y: u128 = b;
    let mut down: u128 = 1;
    let ghost mut k: nat = 0;
    assert(y0 * 1 == y0);
    assert(top * b <= 0x20_0000_0000_0000 * 0x2_0000_0000_0000_0000) by (nonlinear_arith)
        requires
            b <= 0x2_0000_0000_0000_0000,
            top <= 0x20_0000_0000_0000,
    ;
    while a >= y * (top as u128)
        invariant
            1 < t <= DOUBLE,
            t == top,
            x0 == a,
            y0 == b,
            a <= 0x2_0000_0000_0000_0000,
            1 <= y,
            y * top <= 0x80_0000_0000_0000 * 0x2_0000_0000_0000_0000,
            1 <= down <= y,
            down == two(k),
            y == y0 * down,
            spare(t, x0, y0) == k + spare(t, x0, y as nat),
        decreases a - y,
    {
        assert(2 * y <= a && (2 * y) * top <= 2 * a) by (nonlinear_arith)
            requires
                a >= y * top,
                top >= 2,
        ;
        assert(y0 * (2 * down) == 2 * (y0 * down)) by (nonlinear_arith);
        y = y * 2;
        down = down * 2;
        proof {
            k = k + 1;
        }
    }
    assert(spare(t, x0, y as nat) == 0);
    proof {
        lemma_one_way(t, x0, y0);
        lemma_two_positive((k - 1) as nat);
        lemma_two_positive((j - 1) as nat);
    }
    let m: u128 = round_half_even(x, y);
    proof {
        assert(x <= y * top) by {
            if j > 0 {
                assert(x < 2 * bound);
                assert(2 * bound <= y * top) by (nonlinear_arith)
                    requires
                        bound == b * half,
                        half == top / 2,
                        y == b,
                ;
            } else {
                assert(x == a) by (nonlinear_arith)
                    requires
                        x == x0 * up,
                        up == 1,
                        x0 == a,
                ;
            }
        }
        lemma_half_even_bound(x as nat, y as nat, t);
        assert(2 * bound <= b * top) by (nonlinear_arith)
            requires
                bound == b * half,
                half == top / 2,
        ;
    }
    Parts { m, up, down }
}

proof fn lemma_half_even_bound(n: nat, d: nat, top: nat)
    requires
        d > 0,
        n <= d * top,
    ensures
        half_even(n, d) <= top,
{
    let q = n / d;
    let r = n % d;
    assert(n == q * d + r && 0 <= r < d) by (nonlinear_arith)
        requires
            d > 0,
            q == n / d,
            r == n % d,
    ;
    assert(q < top || (q == top && r == 0)) by (nonlinear_arith)
        requires
            q * d + r <= d * top,
            d > 0,
            r >= 0,
    ;
}

/// The integer part of `value / max * width` in double precision, where it is no
/// larger than a memory can hold.
pub(crate) fn proportion_of(value: u64, max: u64, width: usize) -> (r: usize)
    requires
        max > 0,
        proportion(value as nat, max as nat, width as nat) <= usize::MAX,
    ensures
        r == proportion(value as nat, max as nat, width as nat),
{
    let a: u128 = nearest_of(DOUBLE, value as u128);
    let b: u128 = nearest_of(DOUBLE, max as u128);
    let w: u128 = nearest_of(DOUBLE, width as u128);
    proof {
        law_nearest_is_near(DOUBLE as nat, value as nat);
        law_nearest_is_near(DOUBLE as nat, max as nat);
        law_nearest_is_near(DOUBLE as nat, width as nat);
    }
    let q = quotient_of(DOUBLE, a, b);
    assert(q.m * w <= 0x20_0000_0000_0000 * 0x2_0000_0000_0000_0000) by (nonlinear_arith)
        requires
            q.m <= 0x20_0000_0000_0000,
            w <= 0x2_0000_0000_0000_0000,
    ;
    let z: u128 = nearest_of(DOUBLE, q.m * w);
    proof {
        law_nearest_is_near(DOUBLE as nat, (q.m * w) as nat);
    }
    if q.up == 1 {
        assert(z * q.down / 1 == z * q.down);
        (z * q.down) as usize
    } else {
        assert(z * 1 / (q.up as int) == z / q.up);
        (z / q.up) as usize
    }
}

/// Whether the ratio of `i` to `n` in single precision is below `c / d`.
pub(crate) fn is_ratio_below(i: usize, n: usize, c: u32, d: u32) -> (r: bool)
    requires
        i <= n,
        0 < n,
    ensures
        r == ratio_below(i as nat, n as nat, c as nat, d as nat),
{
    let a: u128 = nearest_of(SINGLE, i as u128);
    let b: u128 = nearest_of(SINGLE, n as u128);
    proof {
        law_nearest_is_near(SINGLE as nat, i as nat);
        law_nearest_is_near(SINGLE as nat, n as nat);
        lemma_small_quotient(SINGLE as nat, a as nat, b as nat);
    }
    let q = quotient_of(SINGLE, a, b);
    assert(q.m * d <= 0x100_0000 * 0xffff_ffff) by (nonlinear_arith)
        requires
            q.m <= 0x100_0000,
            d <= 0xffff_ffff,
    ;
    assert(c * q.up <= 0xffff_ffff * (0x2_0000_0000_0000_0000 * 0x100_0000)) by (nonlinear_arith)
        requires
            c <= 0xffff_ffff,
            q.up == 1 || q.up < b * 0x100_0000,
            b <= 0x2_0000_0000_0000_0000,
    ;
    assert(q.m * 1 * d == q.m * d);
    q.m * (d as u128) < (c as u128) * q.up
}

// ── What rounding means ─────────────────────────────────────────────────────

/// No integer is nearer to `n / d` than the rounded one, and where two are equally near
/// it is the even one.
pub proof fn law_half_even_is_nearest(n: nat, d: nat)
    requires
        d > 0,
    ensures
        ({
            let q = half_even(n, d);
            &&& 2 * (q * d - n) <= d
            &&& 2 * (n - q * d) <= d
            &&& 2 * (q * d - n) == d || 2 * (n - q * d) == d ==> q % 2 == 0
        }),
{
    let q = n / d;
    let r = n % d;
    assert(n == q * d + r && 0 <= r < d) by (nonlinear_arith)
        requires
            d > 0,
            q == n / d,
            r == n % d,
    ;
    assert((q + 1) * d == q * d + d) by (nonlinear_arith);
}

/// Each power of two is the double of the one before.
pub proof fn law_powers_of_two(n: nat)
    ensures
        two(0) == 1,
        two(n + 1) == 2 * two(n),
        two(n) >= 1,
{
    lemma_two_positive(n);
}

/// As many low bits are given up as are beyond the precision: with one fewer the number
/// would still be too large for it.
pub proof fn law_halves_are_what_is_beyond(top: nat, n: nat)
    requires
        top > 1,
    ensures
        n < top * two(halves(top, n)),
        halves(top, n) > 0 ==> 2 * n >= top * two(halves(top, n)),
    decreases n,
{
    if n >= top {
        law_halves_are_what_is_beyond(top, n / 2);
        let h = halves(top, n / 2);
        let x = top * two(h);
        assert(top * two(h + 1) == 2 * x) by (nonlinear_arith)
            requires
                x == top * two(h),
                two(h + 1) == 2 * two(h),
        ;
        if h == 0 {
            assert(top * 1 == top) by (nonlinear_arith);
        }
    } else {
        assert(two(0) == 1);
        assert(top * 1 == top) by (nonlinear_arith);
    }
}

/// A number at a precision is a multiple of the power of two by which it is beyond it, and
/// no multiple is nearer to the number.
pub proof fn law_nearest_is_nearest(top: nat, n: nat)
    requires
        top > 1,
    ensures
        ({
            let d = two(halves(top, n));
            &&& nearest(top, n) == half_even(n, d) * d
            &&& 2 * (nearest(top, n) - n) <= d
            &&& 2 * (n - nearest(top, n)) <= d
            &&& n < top * d
        }),
{
    lemma_two_positive(halves(top, n));
    law_half_even_is_nearest(n, two(halves(top, n)));
    law_halves_are_what_is_beyond(top, n);
}

proof fn lemma_doublings(top: nat, a: nat, b: nat)
    requires
        top > 1,
        a > 0,
        b > 0,
    ensures
        a * two(doublings(top, a, b)) >= b * (top / 2),
        doublings(top, a, b) > 0 ==> a * two(doublings(top, a, b)) < b * top,
    decreases
            if a < b * (top / 2) {
                b * (top / 2) - a
            } else {
                0
            },
{
    if a < b * (top / 2) {
        lemma_doublings(top, 2 * a, b);
        let k = doublings(top, 2 * a, b);
        assert(a * two(k + 1) == (2 * a) * two(k)) by (nonlinear_arith)
            requires
                two(k + 1) == 2 * two(k),
        ;
        if k == 0 {
            assert((2 * a) * 1 == 2 * a) by (nonlinear_arith);
            assert(2 * (b * (top / 2)) <= b * top) by (nonlinear_arith)
                requires
                    2 * (top / 2) <= top,
            ;
        }
    } else {
        assert(a * 1 == a) by (nonlinear_arith);
    }
}

proof fn lemma_spare(top: nat, a: nat, b: nat)
    requires
        top > 1,
        b > 0,
    ensures
        a < (b * two(spare(top, a, b))) * top,
        spare(top, a, b) > 0 ==> 2 * a >= (b * two(spare(top, a, b))) * top,
    decreases a - b,
{
    if a >= b * top {
        assert(2 * b <= b * top) by (nonlinear_arith)
            requires
                top >= 2,
        ;
        lemma_spare(top, a, 2 * b);
        let k = spare(top, a, 2 * b);
        assert(b * two(k + 1) == (2 * b) * two(k)) by (nonlinear_arith)
            requires
                two(k + 1) == 2 * two(k),
        ;
        if k == 0 {
            assert((2 * b) * 1 == 2 * b) by (nonlinear_arith);
            assert((2 * b) * top == 2 * (b * top)) by (nonlinear_arith);
        }
    } else {
        assert(b * 1 == b) by (nonlinear_arith);
    }
}

/// A quotient at a precision is scaled by a power of two, up or down, until it fills the
/// precision, and rounded to the nearest integer there.
pub proof fn law_quotient_fills_the_precision(top: nat, a: nat, b: nat)
    requires
        top > 1,
        a > 0,
        b > 0,
    ensures
        ({
            let q = quotient(top, a, b);
            &&& q.m == half_even(a * q.up, b * q.down)
            &&& q.up >= 1 && q.down >= 1
            &&& q.up == 1 || q.down == 1
            &&& q.down == 1 ==> a * q.up >= b * (top / 2)
            &&& q.up > 1 ==> a * q.up < b * top
            &&& q.up == 1 ==> a < (b * q.down) * top
            &&& q.down > 1 ==> 2 * a >= (b * q.down) * top
        }),
{
    let (k, m) = (doublings(top, a, b), spare(top, a, b));
    lemma_two_positive(k);
    lemma_two_positive(m);
    lemma_doublings(top, a, b);
    lemma_spare(top, a, b);
    lemma_one_way(top, a, b);
    if k == 0 {
        assert(two(k) == 1);
    }
    if m == 0 {
        assert(two(m) == 1);
    }
}

/// What is computed in double precision: the quotient of value and maximum, times the
/// width, without what is behind the point; and in single precision a ratio.
pub proof fn law_precisions(value: nat, max: nat, width: nat, c: nat, d: nat)
    ensures
        proportion(value, max, width) == ({
            let top = 9_007_199_254_740_992nat;
            let q = quotient(top, nearest(top, value), nearest(top, max));
            nearest(top, q.m * nearest(top, width)) * q.down / q.up
        }),
        ratio_below(value, max, c, d) == ({
            let top = 16_777_216nat;
            let q = quotient(top, nearest(top, value), nearest(top, max));
            q.m * q.down * d < c * q.up
        }),
{
}

} // verus!
