//! The mathematical model of the image moments that the moment circuit accumulates,
//! and the laws that the calibration rests on.
//!
//! An image is seen as a sequence of weighted pixels `(m, x, y)`: a weight `m`
//! (0/1 for a binary mask, 0..255 for an intensity) at row `x`, column `y`.
use vstd::arithmetic::div_mod::*;
use vstd::arithmetic::mul::*;
use vstd::prelude::*;

verus! {

/// Raw moments of order 0, 1 and 2 of a weighted pixel set:
/// `s = Σ m`, `sx = Σ x·m`, `sy = Σ y·m`, `sxx = Σ x²·m`, `syy = Σ y²·m`, `sxy = Σ x·y·m`.
pub struct Moments {
    pub s: int,
    pub sx: int,
    pub sy: int,
    pub sxx: int,
    pub syy: int,
    pub sxy: int,
}

/// Moments of the empty pixel set.
pub open spec fn zero_moments() -> Moments {
    Moments { s: 0, sx: 0, sy: 0, sxx: 0, syy: 0, sxy: 0 }
}

/// Moments of the single pixel of weight `m` at row `x`, column `y`.
pub open spec fn pixel_moments(m: int, x: int, y: int) -> Moments {
    Moments { s: m, sx: m * x, sy: m * y, sxx: m * x * x, syy: m * y * y, sxy: m * x * y }
}

/// Field-wise sum of two moment sets (the moments of a disjoint union).
pub open spec fn plus(a: Moments, b: Moments) -> Moments {
    Moments {
        s: a.s + b.s,
        sx: a.sx + b.sx,
        sy: a.sy + b.sy,
        sxx: a.sxx + b.sxx,
        syy: a.syy + b.syy,
        sxy: a.sxy + b.sxy,
    }
}

/// The raw moments of a sequence of weighted pixels `(m, x, y)`.
pub open spec fn moments_of(px: Seq<(int, int, int)>) -> Moments
    decreases px.len(),
{
    if px.len() == 0 {
        zero_moments()
    } else {
        let p = px.last();
        plus(moments_of(px.drop_last()), pixel_moments(p.0, p.1, p.2))
    }
}

/// Modulus of the count register (`sum_mask`, 10 bits).
pub open spec fn count_modulus() -> int {
    1024
}

/// Modulus of the first-order registers (`sum_x`, `sum_y`, 16 bits).
pub open spec fn first_modulus() -> int {
    65536
}

/// Modulus of the second-order registers (`sum_x_pow_2`, `sum_y_pow_2`, `sum_x_y`, 24 bits).
pub open spec fn second_modulus() -> int {
    16777216
}

/// What the fixed-width registers of the moment circuit hold for the moments `m`:
/// each sum reduced modulo its register's range (the registers wrap around).
pub open spec fn registers(m: Moments) -> Moments {
    Moments {
        s: m.s % count_modulus(),
        sx: m.sx % first_modulus(),
        sy: m.sy % first_modulus(),
        sxx: m.sxx % second_modulus(),
        syy: m.syy % second_modulus(),
        sxy: m.sxy % second_modulus(),
    }
}

/// Every field of `m` lies in the range of its register.
pub open spec fn fits_registers(m: Moments) -> bool {
    &&& 0 <= m.s < count_modulus()
    &&& 0 <= m.sx < first_modulus()
    &&& 0 <= m.sy < first_modulus()
    &&& 0 <= m.sxx < second_modulus()
    &&& 0 <= m.syy < second_modulus()
    &&& 0 <= m.sxy < second_modulus()
}

/// The pixel set moved by `dx` rows and `dy` columns.
pub open spec fn shifted(px: Seq<(int, int, int)>, dx: int, dy: int) -> Seq<(int, int, int)> {
    px.map_values(|p: (int, int, int)| (p.0, p.1 + dx, p.2 + dy))
}

/// Centroid of `m` with integer (floor) division: `(sx / s, sy / s)`.
pub open spec fn centroid(m: Moments) -> (int, int) {
    (m.sx / m.s, m.sy / m.s)
}

/// The shift that takes the first image's centroid onto the second's:
/// `centroid(b) - centroid(a)`.
pub open spec fn offset(a: Moments, b: Moments) -> (int, int) {
    (centroid(b).0 - centroid(a).0, centroid(b).1 - centroid(a).1)
}

/// Dot product of two vectors.
pub open spec fn dot(u: (int, int), v: (int, int)) -> int {
    u.0 * v.0 + u.1 * v.1
}

/// Cross product (the signed area) of two vectors: `u.0·v.1 − u.1·v.0`.
pub open spec fn cross(u: (int, int), v: (int, int)) -> int {
    u.0 * v.1 - u.1 * v.0
}

/// Second-order central moments as computed with integer division:
/// `(sxx - sx²/s, syy - sy²/s, sxy - sx·sy/s)`.
pub open spec fn central(m: Moments) -> (int, int, int) {
    (m.sxx - (m.sx * m.sx) / m.s, m.syy - (m.sy * m.sy) / m.s, m.sxy - (m.sx * m.sy) / m.s)
}

/// The orientation vector `[2·Mxy, Mxx − Myy]` of the central moments `c = (Mxx, Myy, Mxy)`.
pub open spec fn axis(c: (int, int, int)) -> (int, int) {
    (2 * c.2, c.0 - c.1)
}

/// Squared length of a vector.
pub open spec fn norm_sq(v: (int, int)) -> int {
    v.0 * v.0 + v.1 * v.1
}

/// `Σ m·(a·x − b)²` over the pixels: with `a = Σ m` and `b = Σ x·m` this is `(Σ m)²` times
/// the exact central moment `Σ (x − cx)²·m` around the exact centroid row `cx = b / a`.
pub open spec fn spread_xx(px: Seq<(int, int, int)>, a: int, b: int) -> int
    decreases px.len(),
{
    if px.len() == 0 {
        0
    } else {
        let p = px.last();
        spread_xx(px.drop_last(), a, b) + p.0 * ((a * p.1 - b) * (a * p.1 - b))
    }
}

/// `Σ m·(a·y − c)²` over the pixels (see `spread_xx`, for the columns).
pub open spec fn spread_yy(px: Seq<(int, int, int)>, a: int, c: int) -> int
    decreases px.len(),
{
    if px.len() == 0 {
        0
    } else {
        let p = px.last();
        spread_yy(px.drop_last(), a, c) + p.0 * ((a * p.2 - c) * (a * p.2 - c))
    }
}

/// `Σ m·(a·x − b)·(a·y − c)` over the pixels (see `spread_xx`, for the mixed moment).
pub open spec fn spread_xy(px: Seq<(int, int, int)>, a: int, b: int, c: int) -> int
    decreases px.len(),
{
    if px.len() == 0 {
        0
    } else {
        let p = px.last();
        spread_xy(px.drop_last(), a, b, c) + p.0 * ((a * p.1 - b) * (a * p.2 - c))
    }
}

/// The moments of a pixel set after moving it by `dx` rows and `dy` columns, in terms of
/// its moments before.
pub open spec fn shifted_moments(m: Moments, dx: int, dy: int) -> Moments {
    Moments {
        s: m.s,
        sx: m.sx + dx * m.s,
        sy: m.sy + dy * m.s,
        sxx: m.sxx + 2 * dx * m.sx + dx * dx * m.s,
        syy: m.syy + 2 * dy * m.sy + dy * dy * m.s,
        sxy: m.sxy + dy * m.sx + dx * m.sy + dx * dy * m.s,
    }
}

/// Adding moments commutes with reducing them to the register ranges.
pub proof fn lemma_registers_plus(a: Moments, b: Moments)
    ensures
        registers(plus(registers(a), b)) == registers(plus(a, b)),
{
    lemma_add_mod_noop_right(b.s, a.s, count_modulus());
    lemma_add_mod_noop_right(b.sx, a.sx, first_modulus());
    lemma_add_mod_noop_right(b.sy, a.sy, first_modulus());
    lemma_add_mod_noop_right(b.sxx, a.sxx, second_modulus());
    lemma_add_mod_noop_right(b.syy, a.syy, second_modulus());
    lemma_add_mod_noop_right(b.sxy, a.sxy, second_modulus());
}

/// When every moment sum is within its register's range, the registers hold the exact
/// moment sums: no wrap-around has taken place.
pub proof fn law_registers_exact_when_in_range(m: Moments)
    requires
        fits_registers(m),
    ensures
        registers(m) == m,
{
    lemma_small_mod(m.s as nat, count_modulus() as nat);
    lemma_small_mod(m.sx as nat, first_modulus() as nat);
    lemma_small_mod(m.sy as nat, first_modulus() as nat);
    lemma_small_mod(m.sxx as nat, second_modulus() as nat);
    lemma_small_mod(m.syy as nat, second_modulus() as nat);
    lemma_small_mod(m.sxy as nat, second_modulus() as nat);
}

/// `(p - q)·(r - t) = p·r − p·t − q·r + q·t`.
proof fn lemma_expand(p: int, q: int, r: int, t: int)
    ensures
        (p - q) * (r - t) == p * r - p * t - q * r + q * t,
{
    lemma_mul_is_distributive_sub_other_way(r - t, p, q);
    lemma_mul_is_distributive_sub(p, r, t);
    lemma_mul_is_distributive_sub(q, r, t);
}

/// `w·(p − q − r + t) = w·p − w·q − w·r + w·t`.
proof fn lemma_scale4(w: int, p: int, q: int, r: int, t: int)
    ensures
        w * (p - q - r + t) == w * p - w * q - w * r + w * t,
{
    lemma_mul_is_distributive_add(w, p - q - r, t);
    lemma_mul_is_distributive_sub(w, p - q, r);
    lemma_mul_is_distributive_sub(w, p, q);
}

/// Regrouping a product of three factors: `w·(u·v) = u·(w·v) = (w·u)·v`.
proof fn lemma_regroup(w: int, u: int, v: int)
    ensures
        w * (u * v) == u * (w * v),
        w * (u * v) == (w * u) * v,
{
    lemma_mul_is_associative(w, u, v);
    lemma_mul_is_associative(u, w, v);
    lemma_mul_is_commutative(w, u);
}

proof fn lemma_weighted_product(w: int, a: int, x: int, b: int, y: int, c: int)
    ensures
        w * ((a * x - b) * (a * y - c)) == a * a * (w * x * y) - a * c * (w * x) - a * b * (w * y)
            + b * c * w,
{
    lemma_expand(a * x, b, a * y, c);
    lemma_scale4(w, (a * x) * (a * y), (a * x) * c, b * (a * y), b * c);
    // w·((a·x)·(a·y)) = (a·a)·(w·x·y)
    lemma_regroup(a, x, a * y);
    lemma_regroup(x, a, y);
    lemma_regroup(w, a, a * (x * y));
    lemma_regroup(w, a * a, x * y);
    lemma_regroup(a, a, x * y);
    lemma_mul_is_associative(w, x, y);
    // w·((a·x)·c) = (a·c)·(w·x)
    lemma_regroup(w, a * x, c);
    lemma_regroup(a, x, c);
    lemma_regroup(w, a, c * x);
    lemma_regroup(a, c, w * x);
    lemma_regroup(c, x, w);
    lemma_mul_is_commutative(w * x, c);
    lemma_mul_is_commutative(c * x, w);
    lemma_mul_is_commutative(x, w);
    // w·(b·(a·y)) = (a·b)·(w·y)
    lemma_regroup(w, b, a * y);
    lemma_regroup(b, a, y);
    lemma_mul_is_commutative(b, a);
    lemma_regroup(w, a * b, y);
    lemma_mul_is_commutative(w, a * b);
    lemma_mul_is_associative(a * b, w, y);
    // w·(b·c) = (b·c)·w
    lemma_mul_is_commutative(w, b * c);
}

proof fn lemma_weighted_square(w: int, a: int, x: int, b: int)
    ensures
        w * ((a * x - b) * (a * x - b)) == a * a * (w * x * x) - 2 * a * b * (w * x) + b * b * w,
{
    lemma_weighted_product(w, a, x, b, x, b);
    assert(a * b * (w * x) + a * b * (w * x) == 2 * a * b * (w * x)) by {
        lemma_mul_is_distributive_add_other_way(w * x, a * b, a * b);
        lemma_mul_is_associative(2, a, b);
        lemma_mul_is_distributive_add_other_way(b, a, a);
        lemma_mul_is_associative(2 * a, b, w * x);
    }
}

proof fn lemma_shift_terms(w: int, x: int, dx: int, y: int, dy: int)
    ensures
        w * (x + dx) == w * x + dx * w,
        w * (y + dy) == w * y + dy * w,
        w * (x + dx) * (x + dx) == w * x * x + 2 * dx * (w * x) + dx * dx * w,
        w * (y + dy) * (y + dy) == w * y * y + 2 * dy * (w * y) + dy * dy * w,
        w * (x + dx) * (y + dy) == w * x * y + dy * (w * x) + dx * (w * y) + dx * dy * w,
{
    lemma_shift_product(w, x, dx, y, dy);
    lemma_shift_product(w, x, dx, x, dx);
    lemma_shift_product(w, y, dy, y, dy);
    lemma_mul_is_distributive_add(w, x, dx);
    lemma_mul_is_distributive_add(w, y, dy);
    lemma_mul_is_commutative(w, dx);
    lemma_mul_is_commutative(w, dy);
    assert(dx * (w * x) + dx * (w * x) == 2 * dx * (w * x)) by {
        lemma_mul_is_distributive_add_other_way(w * x, dx, dx);
    }
    assert(dy * (w * y) + dy * (w * y) == 2 * dy * (w * y)) by {
        lemma_mul_is_distributive_add_other_way(w * y, dy, dy);
    }
}

/// `w·(x + dx)·(y + dy) = w·x·y + dy·(w·x) + dx·(w·y) + dx·dy·w`.
proof fn lemma_shift_product(w: int, x: int, dx: int, y: int, dy: int)
    ensures
        w * (x + dx) * (y + dy) == w * x * y + dy * (w * x) + dx * (w * y) + dx * dy * w,
{
    lemma_mul_is_distributive_add(w, x, dx);
    lemma_mul_is_distributive_add_other_way(y + dy, w * x, w * dx);
    lemma_mul_is_distributive_add(w * x, y, dy);
    lemma_mul_is_distributive_add(w * dx, y, dy);
    lemma_mul_is_commutative(w * x, dy);
    lemma_regroup(w, dx, y);
    lemma_mul_is_commutative(w, dx);
    lemma_mul_is_associative(dx, w, y);
    lemma_mul_is_associative(w, dx, dy);
    lemma_regroup(dx, dy, w);
    lemma_mul_is_commutative(dx * dy, w);
    lemma_mul_is_associative(dx, dy, w);
}

/// `(u + du·s)·(v + dv·s) = u·v + (dv·u + du·v + du·dv·s)·s`.
proof fn lemma_shifted_product(u: int, du: int, v: int, dv: int, s: int)
    ensures
        (u + du * s) * (v + dv * s) == u * v + (dv * u + du * v + du * dv * s) * s,
{
    lemma_shift_product(1, u, du * s, v, dv * s);
    lemma_mul_basics(u);
    lemma_mul_basics(u * v);
    lemma_mul_basics(u + du * s);
    lemma_mul_basics(v);
    lemma_mul_basics(du * s);
    lemma_mul_basics(du * s * (dv * s));
    lemma_regroup(dv, s, u);
    lemma_mul_is_commutative(dv * s, u);
    lemma_mul_is_commutative(s * u, dv);
    lemma_regroup(du, s, v);
    lemma_mul_is_commutative(s, v);
    lemma_mul_is_associative(du, v, s);
    lemma_mul_is_associative(du * s, dv, s);
    lemma_regroup(du, s, dv);
    lemma_mul_is_associative(du, dv, s);
    lemma_mul_is_commutative(s, dv);
    lemma_mul_is_distributive_add_other_way(s, dv * u + du * v, du * dv * s);
    lemma_mul_is_distributive_add_other_way(s, dv * u, du * v);
    lemma_mul_is_commutative(dv * u, s);
}

proof fn lemma_spread_xx(px: Seq<(int, int, int)>, a: int, b: int)
    ensures
        spread_xx(px, a, b) == a * a * moments_of(px).sxx - 2 * a * b * moments_of(px).sx + b * b
            * moments_of(px).s,
    decreases px.len(),
{
    if px.len() > 0 {
        lemma_spread_xx(px.drop_last(), a, b);
        let p = px.last();
        let m0 = moments_of(px.drop_last());
        let prev = spread_xx(px.drop_last(), a, b);
        lemma_weighted_square(p.0, a, p.1, b);
        lemma_mul_is_distributive_add(a * a, m0.sxx, p.0 * p.1 * p.1);
        lemma_mul_is_distributive_add(2 * a * b, m0.sx, p.0 * p.1);
        lemma_mul_is_distributive_add(b * b, m0.s, p.0);
    }
}

proof fn lemma_spread_yy(px: Seq<(int, int, int)>, a: int, c: int)
    ensures
        spread_yy(px, a, c) == a * a * moments_of(px).syy - 2 * a * c * moments_of(px).sy + c * c
            * moments_of(px).s,
    decreases px.len(),
{
    if px.len() > 0 {
        lemma_spread_yy(px.drop_last(), a, c);
        let p = px.last();
        let m0 = moments_of(px.drop_last());
        let prev = spread_yy(px.drop_last(), a, c);
        lemma_weighted_square(p.0, a, p.2, c);
        lemma_mul_is_distributive_add(a * a, m0.syy, p.0 * p.2 * p.2);
        lemma_mul_is_distributive_add(2 * a * c, m0.sy, p.0 * p.2);
        lemma_mul_is_distributive_add(c * c, m0.s, p.0);
    }
}

proof fn lemma_spread_xy(px: Seq<(int, int, int)>, a: int, b: int, c: int)
    ensures
        spread_xy(px, a, b, c) == a * a * moments_of(px).sxy - a * c * moments_of(px).sx - a * b
            * moments_of(px).sy + b * c * moments_of(px).s,
    decreases px.len(),
{
    if px.len() > 0 {
        lemma_spread_xy(px.drop_last(), a, b, c);
        let p = px.last();
        let m0 = moments_of(px.drop_last());
        let prev = spread_xy(px.drop_last(), a, b, c);
        lemma_weighted_product(p.0, a, p.1, b, p.2, c);
        lemma_mul_is_distributive_add(a * a, m0.sxy, p.0 * p.1 * p.2);
        lemma_mul_is_distributive_add(a * c, m0.sx, p.0 * p.1);
        lemma_mul_is_distributive_add(a * b, m0.sy, p.0 * p.2);
        lemma_mul_is_distributive_add(b * c, m0.s, p.0);
    }
}

/// `q = s·(s·t − u)`, `v = t − u / s` (floor division) and `s > 0` give
/// `s²·v − s² < q <= s²·v`.
proof fn lemma_round_up(s: int, t: int, u: int, q: int, v: int)
    requires
        s > 0,
        q == s * (s * t - u),
        v == t - u / s,
    ensures
        s * s * v - s * s < q <= s * s * v,
{
    let d = u / s;
    let r = u % s;
    lemma_fundamental_div_mod(u, s);
    lemma_mod_bound(u, s);
    assert(s * s * v - s * s < q <= s * s * v) by (nonlinear_arith)
        requires
            s > 0,
            u == s * d + r,
            0 <= r < s,
            q == s * (s * t - u),
            v == t - d,
    ;
}

/// The central moments computed with integer division round the exact central moments
/// up: with `S = Σ m > 0`, `Sx = Σ x·m`, `Sy = Σ y·m` and `(Mxx, Myy, Mxy) = central(..)`,
/// `S²·Mxx − S² < Σ m·(S·x − Sx)² <= S²·Mxx`, and likewise for `Myy` and `Mxy`. Divided by
/// `S²`, the middle terms are `Σ (x − cx)²·m`, `Σ (y − cy)²·m` and `Σ (x − cx)(y − cy)·m`
/// around the exact centroid `(cx, cy) = (Sx / S, Sy / S)`: each computed moment is the
/// least integer at or above the exact one.
pub proof fn law_central_moments_round_up(px: Seq<(int, int, int)>)
    requires
        moments_of(px).s > 0,
    ensures
        ({
            let m = moments_of(px);
            let c = central(m);
            &&& m.s * m.s * c.0 - m.s * m.s < spread_xx(px, m.s, m.sx) <= m.s * m.s * c.0
            &&& m.s * m.s * c.1 - m.s * m.s < spread_yy(px, m.s, m.sy) <= m.s * m.s * c.1
            &&& m.s * m.s * c.2 - m.s * m.s < spread_xy(px, m.s, m.sx, m.sy) <= m.s * m.s * c.2
        }),
{
    let m = moments_of(px);
    lemma_spread_xx(px, m.s, m.sx);
    lemma_spread_yy(px, m.s, m.sy);
    lemma_spread_xy(px, m.s, m.sx, m.sy);
    assert(spread_xx(px, m.s, m.sx) == m.s * (m.s * m.sxx - m.sx * m.sx)) by (nonlinear_arith)
        requires
            spread_xx(px, m.s, m.sx) == m.s * m.s * m.sxx - 2 * m.s * m.sx * m.sx + m.sx * m.sx
                * m.s,
    ;
    assert(spread_yy(px, m.s, m.sy) == m.s * (m.s * m.syy - m.sy * m.sy)) by (nonlinear_arith)
        requires
            spread_yy(px, m.s, m.sy) == m.s * m.s * m.syy - 2 * m.s * m.sy * m.sy + m.sy * m.sy
                * m.s,
    ;
    assert(spread_xy(px, m.s, m.sx, m.sy) == m.s * (m.s * m.sxy - m.sx * m.sy))
        by (nonlinear_arith)
        requires
            spread_xy(px, m.s, m.sx, m.sy) == m.s * m.s * m.sxy - m.s * m.sy * m.sx - m.s * m.sx
                * m.sy + m.sx * m.sy * m.s,
    ;
    lemma_round_up(m.s, m.sxx, m.sx * m.sx, spread_xx(px, m.s, m.sx), central(m).0);
    lemma_round_up(m.s, m.syy, m.sy * m.sy, spread_yy(px, m.s, m.sy), central(m).1);
    lemma_round_up(m.s, m.sxy, m.sx * m.sy, spread_xy(px, m.s, m.sx, m.sy), central(m).2);
}

/// Moving a pixel moves its moments as `shifted_moments` says.
pub proof fn lemma_pixel_moments_shifted(w: int, x: int, y: int, dx: int, dy: int)
    ensures
        pixel_moments(w, x + dx, y + dy) == shifted_moments(pixel_moments(w, x, y), dx, dy),
{
    lemma_shift_terms(w, x, dx, y, dy);
}

/// Moving a pixel set moves its moments as `shifted_moments` says.
pub proof fn lemma_moments_of_shifted(px: Seq<(int, int, int)>, dx: int, dy: int)
    ensures
        moments_of(shifted(px, dx, dy)) == shifted_moments(moments_of(px), dx, dy),
    decreases px.len(),
{
    if px.len() > 0 {
        lemma_moments_of_shifted(px.drop_last(), dx, dy);
        assert(shifted(px, dx, dy).drop_last() =~= shifted(px.drop_last(), dx, dy));
        let p = px.last();
        let m0 = moments_of(px.drop_last());
        let x = p.1;
        let y = p.2;
        let w = p.0;
        lemma_shift_terms(w, x, dx, y, dy);
        lemma_mul_is_distributive_add(dx, m0.s, w);
        lemma_mul_is_distributive_add(dy, m0.s, w);
        lemma_mul_is_distributive_add(2 * dx, m0.sx, w * x);
        lemma_mul_is_distributive_add(dx * dx, m0.s, w);
        lemma_mul_is_distributive_add(2 * dy, m0.sy, w * y);
        lemma_mul_is_distributive_add(dy * dy, m0.s, w);
        lemma_mul_is_distributive_add(dy, m0.sx, w * x);
        lemma_mul_is_distributive_add(dx, m0.sy, w * y);
        lemma_mul_is_distributive_add(dx * dy, m0.s, w);
        assert(shifted(px, dx, dy).last() == (w, x + dx, y + dy));
    } else {
        assert(shifted(px, dx, dy).len() == 0);
        lemma_mul_basics(dx);
        lemma_mul_basics(dy);
        lemma_mul_basics(2 * dx);
        lemma_mul_basics(2 * dy);
        lemma_mul_basics(dx * dx);
        lemma_mul_basics(dy * dy);
        lemma_mul_basics(dx * dy);
    }
}

/// Moving by `dx`, `dy` leaves the central moments (computed with integer division) of
/// moments with positive mass unchanged.
pub proof fn lemma_central_of_shifted(m: Moments, dx: int, dy: int)
    requires
        m.s > 0,
    ensures
        central(shifted_moments(m, dx, dy)) == central(m),
{
    let s = m.s;
    let n = shifted_moments(m, dx, dy);
    let kx = dx * m.sx + dx * m.sx + dx * dx * s;
    let ky = dy * m.sy + dy * m.sy + dy * dy * s;
    let kxy = dy * m.sx + dx * m.sy + dx * dy * s;
    lemma_shifted_product(m.sx, dx, m.sx, dx, s);
    lemma_shifted_product(m.sy, dy, m.sy, dy, s);
    lemma_shifted_product(m.sx, dx, m.sy, dy, s);
    assert(s as nat as int == s);
    lemma_hoist_over_denominator(m.sx * m.sx, kx, s as nat);
    lemma_hoist_over_denominator(m.sy * m.sy, ky, s as nat);
    lemma_hoist_over_denominator(m.sx * m.sy, kxy, s as nat);
    lemma_mul_is_associative(2, dx, m.sx);
    lemma_mul_is_associative(2, dy, m.sy);
    assert((n.sx * n.sx) / s == (m.sx * m.sx) / s + kx);
    assert((n.sy * n.sy) / s == (m.sy * m.sy) / s + ky);
    assert((n.sx * n.sy) / s == (m.sx * m.sy) / s + kxy);
}

/// Moving by `dx`, `dy` moves the centroid of moments with positive mass by exactly
/// `(dx, dy)`.
pub proof fn lemma_centroid_of_shifted(m: Moments, dx: int, dy: int)
    requires
        m.s > 0,
    ensures
        centroid(shifted_moments(m, dx, dy)) == (centroid(m).0 + dx, centroid(m).1 + dy),
{
    assert(dx * m.s == dx * (m.s as nat) && dy * m.s == dy * (m.s as nat));
    lemma_hoist_over_denominator(m.sx, dx, m.s as nat);
    lemma_hoist_over_denominator(m.sy, dy, m.s as nat);
}

/// The central moments, as computed with integer division, do not depend on where the
/// object is: moving every pixel by `dx` rows and `dy` columns leaves `central` unchanged,
/// and with it the orientation vector `axis`.
pub proof fn law_central_moments_shift_invariant(
    px: Seq<(int, int, int)>,
    dx: int,
    dy: int,
)
    requires
        moments_of(px).s > 0,
    ensures
        central(moments_of(shifted(px, dx, dy))) == central(moments_of(px)),
        axis(central(moments_of(shifted(px, dx, dy)))) == axis(central(moments_of(px))),
{
    lemma_moments_of_shifted(px, dx, dy);
    lemma_central_of_shifted(moments_of(px), dx, dy);
}

/// The centroid follows the object: an object moved by `dx` rows and `dy` columns has its
/// centroid moved by exactly `(dx, dy)`, which is the offset measured from the original
/// to the moved copy.
pub proof fn law_offset_of_shifted_copy(px: Seq<(int, int, int)>, dx: int, dy: int)
    requires
        moments_of(px).s > 0,
    ensures
        centroid(moments_of(shifted(px, dx, dy))) == (
            centroid(moments_of(px)).0 + dx,
            centroid(moments_of(px)).1 + dy,
        ),
        offset(moments_of(px), moments_of(shifted(px, dx, dy))) == (dx, dy),
{
    lemma_moments_of_shifted(px, dx, dy);
    lemma_centroid_of_shifted(moments_of(px), dx, dy);
}

/// The moments of a concatenation are the sum of the moments of its parts.
pub proof fn lemma_moments_of_concat(a: Seq<(int, int, int)>, b: Seq<(int, int, int)>)
    ensures
        moments_of(a + b) == plus(moments_of(a), moments_of(b)),
    decreases b.len(),
{
    if b.len() == 0 {
        assert(a + b =~= a);
    } else {
        lemma_moments_of_concat(a, b.drop_last());
        assert((a + b).drop_last() =~= a + b.drop_last());
        assert((a + b).last() == b.last());
    }
}

/// The moments do not depend on the order in which the pixels come: two sequences holding
/// the same pixels, each as many times, have the same moments.
pub proof fn law_moments_order_independent(a: Seq<(int, int, int)>, b: Seq<(int, int, int)>)
    requires
        a.to_multiset() == b.to_multiset(),
    ensures
        moments_of(a) == moments_of(b),
    decreases b.len(),
{
    broadcast use vstd::seq_lib::group_to_multiset_ensures;

    assert(a.to_multiset().len() == a.len() && b.to_multiset().len() == b.len());
    if b.len() == 0 {
        assert(a.len() == 0);
    } else {
        let x = b.last();
        let b0 = b.drop_last();
        assert(b0.push(x) =~= b);
        assert(b.contains(x));
        assert(a.to_multiset().count(x) > 0);
        assert(a.contains(x));
        let k = choose|k: int| 0 <= k < a.len() && a[k] == x;
        let a0 = a.remove(k);
        assert(b0.to_multiset() =~= b.to_multiset().remove(x));
        law_moments_order_independent(a0, b0);
        assert(a =~= a.take(k) + seq![x] + a.skip(k + 1));
        assert(a0 =~= a.take(k) + a.skip(k + 1));
        lemma_moments_of_concat(a.take(k) + seq![x], a.skip(k + 1));
        lemma_moments_of_concat(a.take(k), seq![x]);
        lemma_moments_of_concat(a.take(k), a.skip(k + 1));
        assert(seq![x].drop_last() =~= Seq::<(int, int, int)>::empty());
        assert(moments_of(Seq::<(int, int, int)>::empty()) == zero_moments());
        assert(moments_of(seq![x]) == pixel_moments(x.0, x.1, x.2));
        assert(moments_of(a) == moments_of(a.take(k) + seq![x] + a.skip(k + 1)));
        assert(moments_of(a0) == moments_of(a.take(k) + a.skip(k + 1)));
        assert(moments_of(b) == plus(moments_of(b0), pixel_moments(x.0, x.1, x.2)));
    }
}

/// Applying the same function to the elements of two sequences with the same elements gives
/// sequences with the same elements.
pub proof fn lemma_map_values_multiset<A, B>(a: Seq<A>, b: Seq<A>, f: spec_fn(A) -> B)
    requires
        a.to_multiset() == b.to_multiset(),
    ensures
        a.map_values(f).to_multiset() == b.map_values(f).to_multiset(),
    decreases b.len(),
{
    broadcast use vstd::seq_lib::group_to_multiset_ensures;

    assert(a.to_multiset().len() == a.len() && b.to_multiset().len() == b.len());
    if b.len() == 0 {
        assert(a.len() == 0);
        assert(a.map_values(f) =~= b.map_values(f));
    } else {
        let x = b.last();
        let b0 = b.drop_last();
        assert(b0.push(x) =~= b);
        assert(b.contains(x));
        assert(a.to_multiset().count(x) > 0);
        assert(a.contains(x));
        let k = choose|k: int| 0 <= k < a.len() && a[k] == x;
        let a0 = a.remove(k);
        assert(b0.to_multiset() =~= b.to_multiset().remove(x));
        lemma_map_values_multiset(a0, b0, f);
        assert(a0.map_values(f) =~= a.map_values(f).remove(k));
        assert(b0.map_values(f).push(f(x)) =~= b.map_values(f));
        assert(a.map_values(f)[k] == f(x));
        assert(a.map_values(f).to_multiset() =~= a0.map_values(f).to_multiset().insert(f(x)));
    }
}

/// The centroid is the mass-weighted mean position, rounded down: for positive mass `s`,
/// `s·cx <= Σ x·m < s·(cx + 1)` and `s·cy <= Σ y·m < s·(cy + 1)`, each coordinate using the
/// image's own mass.
pub proof fn law_centroid_is_floor_of_mean(m: Moments)
    requires
        m.s > 0,
    ensures
        m.s * centroid(m).0 <= m.sx < m.s * centroid(m).0 + m.s,
        m.s * centroid(m).1 <= m.sy < m.s * centroid(m).1 + m.s,
{
    lemma_fundamental_div_mod(m.sx, m.s);
    lemma_fundamental_div_mod(m.sy, m.s);
    lemma_mod_bound(m.sx, m.s);
    lemma_mod_bound(m.sy, m.s);
}

/// The offset between two images is the difference of their centroids, each centroid
/// taken with its own image's mass: `offset(a, b) = (⌊Sx_b / S_b⌋ − ⌊Sx_a / S_a⌋,
/// ⌊Sy_b / S_b⌋ − ⌊Sy_a / S_a⌋)`. So an image is at offset 0 from itself, the offset from
/// `b` to `a` is minus the offset from `a` to `b`, offsets add up along a chain of images,
/// and moving the second image by `(dx, dy)` adds `(dx, dy)` to the offset.
pub proof fn law_offset_of_centroids(a: Moments, b: Moments, c: Moments, dx: int, dy: int)
    requires
        a.s > 0,
        b.s > 0,
        c.s > 0,
    ensures
        offset(a, b) == (b.sx / b.s - a.sx / a.s, b.sy / b.s - a.sy / a.s),
        offset(a, a) == (0int, 0int),
        offset(b, a) == (-offset(a, b).0, -offset(a, b).1),
        offset(a, c) == (offset(a, b).0 + offset(b, c).0, offset(a, b).1 + offset(b, c).1),
        offset(a, shifted_moments(b, dx, dy)) == (offset(a, b).0 + dx, offset(a, b).1 + dy),
{
    lemma_centroid_of_shifted(b, dx, dy);
}

/// The dot product is symmetric and linear in each vector, its values on the unit vectors
/// are those of an orthonormal basis, and the dot product of a vector with itself is its
/// squared length, which is never negative.
pub proof fn law_dot_product(u: (int, int), v: (int, int), w: (int, int), k: int)
    ensures
        dot(u, v) == dot(v, u),
        dot((u.0 + w.0, u.1 + w.1), v) == dot(u, v) + dot(w, v),
        dot((k * u.0, k * u.1), v) == k * dot(u, v),
        dot((1, 0), (1, 0)) == 1 && dot((0, 1), (0, 1)) == 1 && dot((1, 0), (0, 1)) == 0,
        dot(u, u) == norm_sq(u),
        norm_sq(u) >= 0,
{
    lemma_mul_is_commutative(u.0, v.0);
    lemma_mul_is_commutative(u.1, v.1);
    lemma_mul_is_distributive_add_other_way(v.0, u.0, w.0);
    lemma_mul_is_distributive_add_other_way(v.1, u.1, w.1);
    lemma_mul_is_associative(k, u.0, v.0);
    lemma_mul_is_associative(k, u.1, v.1);
    lemma_mul_is_distributive_add(k, u.0 * v.0, u.1 * v.1);
    lemma_mul_basics(1);
    lemma_mul_basics(0);
    assert(u.0 * u.0 >= 0 && u.1 * u.1 >= 0) by (nonlinear_arith);
}

/// The cross product is antisymmetric and linear in each vector, a vector has cross
/// product 0 with itself, and the unit vectors `(1, 0)`, `(0, 1)` have cross product 1.
pub proof fn law_cross_product(u: (int, int), v: (int, int), w: (int, int), k: int)
    ensures
        cross(u, v) == -cross(v, u),
        cross(u, u) == 0,
        cross((u.0 + w.0, u.1 + w.1), v) == cross(u, v) + cross(w, v),
        cross((k * u.0, k * u.1), v) == k * cross(u, v),
        cross((1, 0), (0, 1)) == 1,
{
    lemma_mul_is_commutative(u.0, v.1);
    lemma_mul_is_commutative(u.1, v.0);
    lemma_mul_is_commutative(u.0, u.1);
    lemma_mul_is_distributive_add_other_way(v.1, u.0, w.0);
    lemma_mul_is_distributive_add_other_way(v.0, u.1, w.1);
    lemma_mul_is_associative(k, u.0, v.1);
    lemma_mul_is_associative(k, u.1, v.0);
    lemma_mul_is_distributive_sub(k, u.0 * v.1, u.1 * v.0);
    lemma_mul_basics(1);
    lemma_mul_basics(0);
}

/// The dot and cross products of two vectors are `|u|·|v|` times the cosine and the sine of
/// the angle between them: `dot² + cross² = |u|²·|v|²`.
pub proof fn law_rotation_terms(u: (int, int), v: (int, int))
    ensures
        dot(u, v) * dot(u, v) + cross(u, v) * cross(u, v) == norm_sq(u) * norm_sq(v),
{
    let (a, b) = u;
    let (c, d) = v;
    lemma_square_of_sum(a * c, b * d);
    lemma_square_of_difference(a * d, b * c);
    lemma_product_of_products(a, c, b, d);
    lemma_product_of_products(a, d, b, c);
    lemma_product_of_products(a, c, a, c);
    lemma_product_of_products(b, d, b, d);
    lemma_product_of_products(a, d, a, d);
    lemma_product_of_products(b, c, b, c);
    lemma_mul_is_commutative(c, d);
    lemma_mul_is_commutative(a * b, d * c);
    lemma_mul_is_distributive_add_other_way(c * c + d * d, a * a, b * b);
    lemma_mul_is_distributive_add(a * a, c * c, d * d);
    lemma_mul_is_distributive_add(b * b, c * c, d * d);
}

proof fn lemma_square_of_sum(p: int, q: int)
    ensures
        (p + q) * (p + q) == p * p + 2 * (p * q) + q * q,
{
    assert((p + q) * (p + q) == p * p + 2 * (p * q) + q * q) by (nonlinear_arith);
}

proof fn lemma_square_of_difference(p: int, q: int)
    ensures
        (p - q) * (p - q) == p * p - 2 * (p * q) + q * q,
{
    assert((p - q) * (p - q) == p * p - 2 * (p * q) + q * q) by (nonlinear_arith);
}

/// `(a·c)·(b·d) = (a·b)·(c·d)`.
proof fn lemma_product_of_products(a: int, c: int, b: int, d: int)
    ensures
        (a * c) * (b * d) == (a * b) * (c * d),
{
    lemma_mul_is_associative(a, c, b * d);
    lemma_mul_is_associative(c, b, d);
    lemma_mul_is_commutative(c, b);
    lemma_mul_is_associative(b, c, d);
    lemma_mul_is_associative(a, b, c * d);
}

/// The moments of the image transposed (rows and columns swapped).
pub open spec fn transposed_moments(m: Moments) -> Moments {
    Moments { s: m.s, sx: m.sy, sy: m.sx, sxx: m.syy, syy: m.sxx, sxy: m.sxy }
}

/// The orientation vector depends linearly on the central moments; it is 0 for an object
/// spread evenly in both directions; mirroring the object (negating `Mxy`) negates its first
/// coordinate; transposing the object (swapping `Mxx` and `Myy`) negates its second; and
/// the unit moments `(1, 0, 0)` and `(0, 0, 1)` have vectors `(0, 1)` and `(2, 0)`.
/// For the moments of an image, transposing the image transposes its central moments, so
/// its orientation vector keeps its first coordinate and negates its second.
pub proof fn law_axis(c: (int, int, int), d: (int, int, int), t: int, m: Moments)
    ensures
        axis((c.0 + d.0, c.1 + d.1, c.2 + d.2)) == (axis(c).0 + axis(d).0, axis(c).1 + axis(d).1),
        axis((t, t, 0)) == (0int, 0int),
        axis((c.0, c.1, -c.2)) == (-axis(c).0, axis(c).1),
        axis((c.1, c.0, c.2)) == (axis(c).0, -axis(c).1),
        axis((1, 0, 0)) == (0int, 1int),
        axis((0, 0, 1)) == (2int, 0int),
        m.s > 0 ==> central(transposed_moments(m)) == (central(m).1, central(m).0, central(m).2),
        m.s > 0 ==> axis(central(transposed_moments(m))) == (
            axis(central(m)).0,
            -axis(central(m)).1,
        ),
{
    lemma_mul_is_commutative(m.sx, m.sy);
}

/// A single pixel of weight `m` at row `x`, column `y` contributes mass `m`, first-order
/// moments its position times its mass, and second-order moments its position times its
/// first-order moments; swapping its row and column transposes its moments.
pub proof fn law_pixel_moments(m: int, x: int, y: int)
    ensures
        pixel_moments(m, x, y).s == m,
        pixel_moments(m, x, y).sx == x * pixel_moments(m, x, y).s,
        pixel_moments(m, x, y).sy == y * pixel_moments(m, x, y).s,
        pixel_moments(m, x, y).sxx == x * pixel_moments(m, x, y).sx,
        pixel_moments(m, x, y).syy == y * pixel_moments(m, x, y).sy,
        pixel_moments(m, x, y).sxy == y * pixel_moments(m, x, y).sx,
        pixel_moments(m, y, x) == transposed_moments(pixel_moments(m, x, y)),
{
    lemma_mul_is_commutative(m, x);
    lemma_mul_is_commutative(m, y);
    lemma_mul_is_commutative(m * x, x);
    lemma_mul_is_commutative(m * y, y);
    lemma_mul_is_commutative(m * x, y);
    lemma_mul_is_associative(m, x, y);
    lemma_mul_is_associative(m, y, x);
    lemma_mul_is_commutative(x, y);
}

/// The registers keep each sum modulo its width: the count modulo 2^10, the first-order
/// sums modulo 2^16 and the second-order sums modulo 2^24. A sum already in its register's
/// range is kept as it is, adding one full range to a sum does not change its register,
/// and every register value is in range.
pub proof fn law_register_widths(m: Moments)
    ensures
        0 <= registers(m).s < 1024,
        0 <= registers(m).sx < 65536 && 0 <= registers(m).sy < 65536,
        0 <= registers(m).sxx < 16777216 && 0 <= registers(m).syy < 16777216 && 0 <= registers(
            m,
        ).sxy < 16777216,
        0 <= m.s < 1024 ==> registers(m).s == m.s,
        0 <= m.sx < 65536 ==> registers(m).sx == m.sx,
        0 <= m.sy < 65536 ==> registers(m).sy == m.sy,
        0 <= m.sxx < 16777216 ==> registers(m).sxx == m.sxx,
        0 <= m.syy < 16777216 ==> registers(m).syy == m.syy,
        0 <= m.sxy < 16777216 ==> registers(m).sxy == m.sxy,
        registers(
            Moments {
                s: m.s + 1024,
                sx: m.sx + 65536,
                sy: m.sy + 65536,
                sxx: m.sxx + 16777216,
                syy: m.syy + 16777216,
                sxy: m.sxy + 16777216,
            },
        ) == registers(m),
{
    lemma_mod_bound(m.s, 1024);
    lemma_mod_bound(m.sx, 65536);
    lemma_mod_bound(m.sy, 65536);
    lemma_mod_bound(m.sxx, 16777216);
    lemma_mod_bound(m.syy, 16777216);
    lemma_mod_bound(m.sxy, 16777216);
    if 0 <= m.s < 1024 {
        lemma_small_mod(m.s as nat, 1024);
    }
    if 0 <= m.sx < 65536 {
        lemma_small_mod(m.sx as nat, 65536);
    }
    if 0 <= m.sy < 65536 {
        lemma_small_mod(m.sy as nat, 65536);
    }
    if 0 <= m.sxx < 16777216 {
        lemma_small_mod(m.sxx as nat, 16777216);
    }
    if 0 <= m.syy < 16777216 {
        lemma_small_mod(m.syy as nat, 16777216);
    }
    if 0 <= m.sxy < 16777216 {
        lemma_small_mod(m.sxy as nat, 16777216);
    }
    lemma_mod_add_multiples_vanish(m.s, 1024);
    lemma_mod_add_multiples_vanish(m.sx, 65536);
    lemma_mod_add_multiples_vanish(m.sy, 65536);
    lemma_mod_add_multiples_vanish(m.sxx, 16777216);
    lemma_mod_add_multiples_vanish(m.syy, 16777216);
    lemma_mod_add_multiples_vanish(m.sxy, 16777216);
}

} // verus!
