use vstd::prelude::*;

verus! {

/// Integer square root property: `r` is the floor of the square root of `n`.
pub open spec fn is_floor_sqrt(n: int, r: int) -> bool {
    0 <= r && r * r <= n && n < (r + 1) * (r + 1)
}

/// The floor of the square root of a non-negative integer.
pub open spec fn floor_sqrt(n: int) -> int {
    choose|r: int| is_floor_sqrt(n, r)
}

/// Division that rounds toward zero, as Rust's integer `/` does.
pub open spec fn tdiv(a: int, b: int) -> int {
    if a >= 0 {
        a / b
    } else {
        -((-a) / b)
    }
}

pub open spec fn abs(a: int) -> int {
    if a >= 0 {
        a
    } else {
        -a
    }
}

pub proof fn lemma_floor_sqrt_unique(n: int, a: int, b: int)
    requires
        is_floor_sqrt(n, a),
        is_floor_sqrt(n, b),
    ensures
        a == b,
{
    if a < b {
        assert((a + 1) * (a + 1) <= b * b) by (nonlinear_arith)
            requires
                0 <= a,
                a + 1 <= b,
        ;
    }
    if b < a {
        assert((b + 1) * (b + 1) <= a * a) by (nonlinear_arith)
            requires
                0 <= b,
                b + 1 <= a,
        ;
    }
}

pub proof fn lemma_floor_sqrt_is(n: int, r: int)
    requires
        is_floor_sqrt(n, r),
    ensures
        floor_sqrt(n) == r,
{
    let c = floor_sqrt(n);
    assert(is_floor_sqrt(n, c));
    lemma_floor_sqrt_unique(n, r, c);
}

/// Every non-negative integer has a floor square root.
pub proof fn lemma_floor_sqrt_exists(n: int)
    requires
        n >= 0,
    ensures
        is_floor_sqrt(n, floor_sqrt(n)),
    decreases n,
{
    if n == 0 {
        assert(is_floor_sqrt(0, 0));
        lemma_floor_sqrt_is(0, 0);
    } else {
        lemma_floor_sqrt_exists(n - 1);
        let r = floor_sqrt(n - 1);
        if (r + 1) * (r + 1) <= n {
            assert(n < (r + 2) * (r + 2)) by (nonlinear_arith)
                requires
                    n - 1 < (r + 1) * (r + 1),
                    r >= 0,
            ;
            lemma_floor_sqrt_is(n, r + 1);
        } else {
            lemma_floor_sqrt_is(n, r);
        }
    }
}

/// A coordinate whose square is at most `n` is at most its floor square root.
pub proof fn lemma_component_le_root(x: int, n: int, r: int)
    requires
        is_floor_sqrt(n, r),
        x * x <= n,
    ensures
        abs(x) <= r,
{
    if abs(x) > r {
        assert((r + 1) * (r + 1) <= x * x) by (nonlinear_arith)
            requires
                0 <= r,
                r + 1 <= abs(x),
                abs(x) == x || abs(x) == -x,
        ;
    }
}

/// A coordinate whose square is at most `m * m` lies within `m`.
pub proof fn lemma_square_bound(x: int, m: int)
    requires
        m >= 0,
        x * x <= m * m,
    ensures
        abs(x) <= m,
{
    if abs(x) > m {
        assert(m * m < x * x) by (nonlinear_arith)
            requires
                0 <= m,
                m < abs(x),
                abs(x) == x || abs(x) == -x,
        ;
    }
}

/// `|tdiv(a, b)| <= c` whenever `|a| <= c * b`.
pub proof fn lemma_tdiv_bound(a: int, b: int, c: int)
    requires
        b > 0,
        c >= 0,
        abs(a) <= c * b,
    ensures
        abs(tdiv(a, b)) <= c,
        a >= 0 ==> tdiv(a, b) >= 0,
        a <= 0 ==> tdiv(a, b) <= 0,
{
    let x = abs(a);
    vstd::arithmetic::div_mod::lemma_div_is_ordered(x, c * b, b);
    vstd::arithmetic::div_mod::lemma_div_multiples_vanish(c, b);
    assert(c * b == b * c) by (nonlinear_arith);
    vstd::arithmetic::div_mod::lemma_div_pos_is_pos(x, b);
}

/// The ceiling of the square root of a non-negative integer.
pub open spec fn ceil_sqrt(n: int) -> int {
    let f = floor_sqrt(n);
    if f * f == n {
        f
    } else {
        f + 1
    }
}

/// Truncating division loses less than one divisor.
pub proof fn lemma_tdiv_times(a: int, c: int)
    requires
        c > 0,
    ensures
        abs(tdiv(a, c)) * c <= abs(a),
        abs(a) < (abs(tdiv(a, c)) + 1) * c,
{
    let x = abs(a);
    vstd::arithmetic::div_mod::lemma_fundamental_div_mod(x, c);
    vstd::arithmetic::div_mod::lemma_mod_pos_bound(x, c);
    vstd::arithmetic::div_mod::lemma_div_pos_is_pos(x, c);
    assert(abs(tdiv(a, c)) == x / c);
    let q = x / c;
    assert(c * q == q * c && (q + 1) * c == q * c + c) by (nonlinear_arith);
}

/// The offset `(dx, dy)` scaled by `m / c`, each axis rounded toward zero, lies
/// within `m` when `c` is at least the offset's length.
pub proof fn lemma_scaled_offset_within(dx: int, dy: int, c: int, m: int)
    requires
        c >= 1,
        c * c >= dx * dx + dy * dy,
        m >= 0,
    ensures
        tdiv(dx * m, c) * tdiv(dx * m, c) + tdiv(dy * m, c) * tdiv(dy * m, c) <= m * m,
{
    lemma_tdiv_times(dx * m, c);
    lemma_tdiv_times(dy * m, c);
    let x = abs(tdiv(dx * m, c));
    let y = abs(tdiv(dy * m, c));
    let a = abs(dx * m);
    let b = abs(dy * m);
    assert(x * x * (c * c) <= a * a) by (nonlinear_arith)
        requires
            x * c <= a,
            x >= 0,
            c >= 1,
    ;
    assert(y * y * (c * c) <= b * b) by (nonlinear_arith)
        requires
            y * c <= b,
            y >= 0,
            c >= 1,
    ;
    assert(a * a == dx * dx * (m * m) && b * b == dy * dy * (m * m)) by (nonlinear_arith)
        requires
            a == dx * m || a == -(dx * m),
            b == dy * m || b == -(dy * m),
    ;
    assert(x * x + y * y <= m * m) by (nonlinear_arith)
        requires
            x * x * (c * c) <= dx * dx * (m * m),
            y * y * (c * c) <= dy * dy * (m * m),
            c * c >= dx * dx + dy * dy,
            c >= 1,
            m >= 0,
    ;
    let ox = tdiv(dx * m, c);
    let oy = tdiv(dy * m, c);
    assert(ox * ox == x * x && oy * oy == y * y) by (nonlinear_arith)
        requires
            x == ox || x == -ox,
            y == oy || y == -oy,
    ;
}

pub const SQRT_LIMIT: u64 = 0x3fff_ffff_ffff_ffff;

/// The floor square root of `n`, by bisection.
pub fn isqrt(n: u64) -> (r: u64)
    requires
        n <= SQRT_LIMIT,
    ensures
        is_floor_sqrt(n as int, r as int),
        r as int == floor_sqrt(n as int),
{
    let mut lo: u64 = 0;
    let mut hi: u64 = 0x8000_0000;
    assert(0x8000_0000u64 * 0x8000_0000u64 > SQRT_LIMIT) by (nonlinear_arith);
    while hi - lo > 1
        invariant
            lo < hi <= 0x8000_0000,
            lo * lo <= n,
            n < hi * hi,
        decreases hi - lo,
    {
        let mid: u64 = lo + (hi - lo) / 2;
        assert(mid * mid <= 0x8000_0000u64 * 0x8000_0000u64) by (nonlinear_arith)
            requires
                mid <= 0x8000_0000,
        ;
        if mid * mid <= n {
            lo = mid;
        } else {
            hi = mid;
        }
    }
    assert(hi == lo + 1);
    proof {
        lemma_floor_sqrt_is(n as int, lo as int);
    }
    lo
}

/// Rust's `/` on a signed value and a positive divisor, stated as `tdiv`.
pub fn div_toward_zero(a: i128, b: i128) -> (r: i128)
    requires
        b > 0,
        a > i128::MIN,
    ensures
        r == tdiv(a as int, b as int),
{
    if a >= 0 {
        a / b
    } else {
        -((-a) / b)
    }
}

} // verus!
