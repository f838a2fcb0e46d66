//! Ray-sphere intersection.

use vstd::prelude::*;
use crate::color::{Color, ColorV};
use crate::fixed::{Fixed, fx_add, fx_sub, fx_neg, fx_mul, fx_div, fx_sqrt};
use crate::scene::{Ray, RayV, dist_from};
use crate::vec3::{V3, Vec3, v3_add, v3_sub, v3_scale, v3_dot, v3_norm, v3_norm_sq, v3_normalize, opt_v3};

verus! {

/// The mathematical model of a sphere.
pub ghost struct SphereV {
    pub color: ColorV,
    pub center: V3,
    pub radius: int,
}

/// A sphere with a center, a positive radius (the scene builder
/// rejects any other), and an intrinsic color.
#[derive(Debug, Clone, Copy)]
pub struct Sphere {
    pub color: Color,
    pub center: Vec3,
    pub radius: Fixed,
}

impl View for Sphere {
    type V = SphereV;

    open spec fn view(&self) -> SphereV {
        SphereV { color: self.color@, center: self.center@, radius: self.radius@ }
    }
}

/// The two roots of `a x^2 + b x + c = 0` by the quadratic formula,
/// in non-decreasing order when `a > 0`. `None` when the discriminant
/// is negative or the leading coefficient vanishes.
pub open spec fn quadratic_roots(a: int, b: int, c: int) -> Option<(int, int)> {
    let d = fx_sub(fx_mul(b, b), fx_mul(fx_mul(262144, a), c));
    if d < 0 {
        None
    } else {
        let two_a = fx_mul(131072, a);
        if two_a == 0 {
            None
        } else {
            let sq = fx_sqrt(d);
            Some((fx_div(fx_sub(fx_neg(b), sq), two_a), fx_div(fx_add(fx_neg(b), sq), two_a)))
        }
    }
}

pub open spec fn opt_pair(r: Option<(Fixed, Fixed)>) -> Option<(int, int)> {
    match r {
        Some((x, y)) => Some((x@, y@)),
        None => None,
    }
}

/// Return the solutions to `a x^2 + b x + c = 0`, smallest first, or
/// `None` when there are none (or the equation is not a quadratic).
fn solve_quadratic(a: Fixed, b: Fixed, c: Fixed) -> (r: Option<(Fixed, Fixed)>)
    ensures
        opt_pair(r) == quadratic_roots(a@, b@, c@),
{
    let four: Fixed = Fixed::from_int(4);
    let two: Fixed = Fixed::from_int(2);
    let d: Fixed = b.mul(b).sub(four.mul(a).mul(c));
    if d.lt(Fixed::zero()) {
        return None;
    }
    let two_a: Fixed = two.mul(a);
    if two_a.is_zero() {
        return None;
    }
    let sq: Fixed = d.sqrt();
    let soln1: Fixed = b.neg().sub(sq).div(two_a);
    let soln2: Fixed = b.neg().add(sq).div(two_a);
    Some((soln1, soln2))
}

/// The nearest intersection, in the frame where the sphere's center is
/// the origin: solve `|c + t d|^2 = r^2` and take the smallest strictly
/// positive root.
pub open spec fn sphere_hit_origin(c: V3, d: V3, r: int) -> Option<V3> {
    let a = v3_norm_sq(d);
    let b = fx_mul(131072, v3_dot(c, d));
    let k = fx_sub(v3_norm_sq(c), fx_mul(r, r));
    match quadratic_roots(a, b, k) {
        None => None,
        Some((t1, t2)) => if t1 > 0 {
            Some(v3_add(c, v3_scale(d, t1)))
        } else if t2 > 0 {
            Some(v3_add(c, v3_scale(d, t2)))
        } else {
            None
        },
    }
}

/// Solutions to `v = c + t d`, `v . v = r^2`, with `c` the ray start
/// relative to the center. Rejects roots at or behind the ray start.
fn sphere_intersection_origin(c: Vec3, d: Vec3, r: Fixed) -> (hit: Option<Vec3>)
    ensures
        opt_v3(hit) == sphere_hit_origin(c@, d@, r@),
{
    let a: Fixed = d.norm_squared();
    let b: Fixed = Fixed::from_int(2).mul(c.dot_product(d));
    let k: Fixed = c.norm_squared().sub(r.mul(r));
    match solve_quadratic(a, b, k) {
        None => None,
        Some((t1, t2)) => {
            if t1.gt(Fixed::zero()) {
                Some(c.add(d.scale(t1)))
            } else if t2.gt(Fixed::zero()) {
                Some(c.add(d.scale(t2)))
            } else {
                None
            }
        },
    }
}

/// The nearest intersection of a ray with a sphere, in world space.
pub open spec fn sphere_hit(ray: RayV, s: SphereV) -> Option<V3> {
    match sphere_hit_origin(v3_sub(ray.start, s.center), ray.direction, s.radius) {
        Some(p) => Some(v3_add(p, s.center)),
        None => None,
    }
}

/// The surface normal of a sphere at a point: the unit vector from the
/// center toward the point (the zero vector when the point coincides
/// with the center, where no direction exists).
pub open spec fn sphere_normal(s: SphereV, p: V3) -> V3 {
    let d = v3_sub(p, s.center);
    if v3_norm(d) == 0 {
        V3 { x: 0, y: 0, z: 0 }
    } else {
        v3_normalize(d)
    }
}

/// When the leading coefficient is positive, the two roots come out in
/// non-decreasing order.
pub proof fn lemma_quadratic_roots_ordered(a: int, b: int, c: int)
    requires
        a > 0,
        quadratic_roots(a, b, c) is Some,
    ensures
        quadratic_roots(a, b, c) matches Some((t1, t2)) && t1 <= t2,
{
    let d = fx_sub(fx_mul(b, b), fx_mul(fx_mul(262144, a), c));
    let two_a = fx_mul(131072, a);
    let sq = fx_sqrt(d);
    assert(sq >= 0);
    let n1 = fx_sub(fx_neg(b), sq);
    let n2 = fx_add(fx_neg(b), sq);
    assert(n1 <= n2);
    crate::fixed::lemma_tdiv_multiple(2 * a, 65536);
    assert(two_a == crate::fixed::sat64(2 * a));
    assert(two_a > 0);
    crate::fixed::lemma_tdiv_monotone(n1 * 65536, n2 * 65536, two_a);
}

/// For a sphere and a ray whose start lies outside it and whose
/// direction points at the center, the hit lies at distance
/// `|start - center| - radius` from the start. Stated where the
/// fixed-point arithmetic is exact: the direction's components and the
/// radius are whole numbers, the distance `m` to the center is a whole
/// number, and `m` divides the scaled ray parameter so that no
/// truncation occurs; elsewhere the same holds only to within the
/// rounding of the square roots and divisions.
pub proof fn lemma_ray_at_center_hit_distance(s: SphereV, o: V3, m: int, rho: int)
    requires
        (s.center.x - o.x) % 65536 == 0,
        (s.center.y - o.y) % 65536 == 0,
        (s.center.z - o.z) % 65536 == 0,
        -0x4000000 <= s.center.x - o.x <= 0x4000000,
        -0x4000000 <= s.center.y - o.y <= 0x4000000,
        -0x4000000 <= s.center.z - o.z <= 0x4000000,
        -0x10000000000 <= o.x <= 0x10000000000,
        -0x10000000000 <= o.y <= 0x10000000000,
        -0x10000000000 <= o.z <= 0x10000000000,
        -0x10000000000 <= s.center.x <= 0x10000000000,
        -0x10000000000 <= s.center.y <= 0x10000000000,
        -0x10000000000 <= s.center.z <= 0x10000000000,
        1 <= m <= 1024,
        ({
            let wx = (s.center.x - o.x) / 65536;
            let wy = (s.center.y - o.y) / 65536;
            let wz = (s.center.z - o.z) / 65536;
            m * m == wx * wx + wy * wy + wz * wz
        }),
        s.radius == 65536 * rho,
        1 <= rho < m,
        (65536 * (m - rho)) % m == 0,
        ((65536 * (m - rho)) / m) * ((65536 * (m - rho)) / m) % 65536 == 0,
    ensures
        ({
            let ray = RayV { start: o, direction: v3_sub(s.center, o) };
            &&& v3_norm(v3_sub(s.center, o)) == 65536 * m
            &&& sphere_hit(ray, s) matches Some(h) && dist_from(o, h) == 65536 * (m - rho)
        }),
{
    let wx = (s.center.x - o.x) / 65536;
    let wy = (s.center.y - o.y) / 65536;
    let wz = (s.center.z - o.z) / 65536;
    vstd::arithmetic::div_mod::lemma_fundamental_div_mod(s.center.x - o.x, 65536);
    vstd::arithmetic::div_mod::lemma_fundamental_div_mod(s.center.y - o.y, 65536);
    vstd::arithmetic::div_mod::lemma_fundamental_div_mod(s.center.z - o.z, 65536);
    assert(s.center.x - o.x == 65536 * wx);
    assert(s.center.y - o.y == 65536 * wy);
    assert(s.center.z - o.z == 65536 * wz);
    let d = v3_sub(s.center, o);
    assert(d == V3 { x: 65536 * wx, y: 65536 * wy, z: 65536 * wz });
    let c = v3_sub(o, s.center);
    assert(c == V3 { x: -65536 * wx, y: -65536 * wy, z: -65536 * wz });

    // Squared norms of the direction and the shifted start.
    let qx = 65536 * (wx * wx);
    let qy = 65536 * (wy * wy);
    let qz = 65536 * (wz * wz);
    assert((65536 * wx) * (65536 * wx) == qx * 65536 && (65536 * wy) * (65536 * wy) == qy
        * 65536 && (65536 * wz) * (65536 * wz) == qz * 65536 && (-65536 * wx) * (-65536 * wx)
        == qx * 65536 && (-65536 * wy) * (-65536 * wy) == qy * 65536 && (-65536 * wz) * (-65536
        * wz) == qz * 65536 && (-65536 * wx) * (65536 * wx) == (-qx) * 65536 && (-65536 * wy) * (
    65536 * wy) == (-qy) * 65536 && (-65536 * wz) * (65536 * wz) == (-qz) * 65536 && 0 <= qx
        <= 0x10000000000 && 0 <= qy <= 0x10000000000 && 0 <= qz <= 0x10000000000)
        by (nonlinear_arith)
        requires
            qx == 65536 * (wx * wx) && qy == 65536 * (wy * wy) && qz == 65536 * (wz * wz),
            -1024 <= wx <= 1024 && -1024 <= wy <= 1024 && -1024 <= wz <= 1024,
    ;
    crate::fixed::lemma_fx_mul_exact(65536 * wx, 65536 * wx, qx);
    crate::fixed::lemma_fx_mul_exact(65536 * wy, 65536 * wy, qy);
    crate::fixed::lemma_fx_mul_exact(65536 * wz, 65536 * wz, qz);
    crate::fixed::lemma_fx_mul_exact(-65536 * wx, -65536 * wx, qx);
    crate::fixed::lemma_fx_mul_exact(-65536 * wy, -65536 * wy, qy);
    crate::fixed::lemma_fx_mul_exact(-65536 * wz, -65536 * wz, qz);
    crate::fixed::lemma_fx_mul_exact(-65536 * wx, 65536 * wx, -qx);
    crate::fixed::lemma_fx_mul_exact(-65536 * wy, 65536 * wy, -qy);
    crate::fixed::lemma_fx_mul_exact(-65536 * wz, 65536 * wz, -qz);
    let a = v3_norm_sq(d);
    assert(a == 65536 * (m * m)) by (nonlinear_arith)
        requires
            a == fx_add(fx_add(qx, qy), qz),
            qx == 65536 * (wx * wx) && qy == 65536 * (wy * wy) && qz == 65536 * (wz * wz),
            0 <= qx <= 0x10000000000 && 0 <= qy <= 0x10000000000 && 0 <= qz <= 0x10000000000,
            m * m == wx * wx + wy * wy + wz * wz,
    ;
    assert(v3_norm_sq(c) == a) by (nonlinear_arith)
        requires
            v3_norm_sq(c) == fx_add(fx_add(qx, qy), qz),
            a == fx_add(fx_add(qx, qy), qz),
    ;
    assert(1 <= m * m <= 0x100000) by (nonlinear_arith)
        requires
            1 <= m <= 1024,
    ;
    // The norm of the direction is exactly m.
    assert(a * 65536 == (65536 * m) * (65536 * m)) by (nonlinear_arith)
        requires
            a == 65536 * (m * m),
    ;
    crate::fixed::lemma_fx_sqrt_exact(a, 65536 * m);
    assert(v3_norm(d) == 65536 * m);

    // The dot product of the shifted start with the direction.
    let cd = v3_dot(c, d);
    assert(cd == -(65536 * (m * m))) by (nonlinear_arith)
        requires
            cd == fx_add(fx_add(-qx, -qy), -qz),
            qx == 65536 * (wx * wx) && qy == 65536 * (wy * wy) && qz == 65536 * (wz * wz),
            0 <= qx <= 0x10000000000 && 0 <= qy <= 0x10000000000 && 0 <= qz <= 0x10000000000,
            m * m == wx * wx + wy * wy + wz * wz,
    ;
    let b = fx_mul(131072, cd);
    assert(131072 * cd == (-(131072 * (m * m))) * 65536) by (nonlinear_arith)
        requires
            cd == -(65536 * (m * m)),
    ;
    crate::fixed::lemma_fx_mul_exact(131072, cd, -(131072 * (m * m)));
    assert(b == -(131072 * (m * m)));

    // The constant coefficient.
    assert(s.radius * s.radius == (65536 * (rho * rho)) * 65536 && 0 <= 65536 * (rho * rho)
        <= 0x10000000000) by (nonlinear_arith)
        requires
            s.radius == 65536 * rho,
            1 <= rho <= 1024,
    ;
    crate::fixed::lemma_fx_mul_exact(s.radius, s.radius, 65536 * (rho * rho));
    let k = fx_sub(v3_norm_sq(c), fx_mul(s.radius, s.radius));
    assert(k == 65536 * (m * m - rho * rho) && 0 <= k <= 0x10000000000) by (nonlinear_arith)
        requires
            k == crate::fixed::sat64(65536 * (m * m) - 65536 * (rho * rho)),
            1 <= rho < m <= 1024,
    ;

    // The discriminant is an exact square.
    assert(b * b == (262144 * ((m * m) * (m * m))) * 65536 && 0 <= 262144 * ((m * m) * (m * m))
        <= 0x400000000000000) by (nonlinear_arith)
        requires
            b == -(131072 * (m * m)),
            1 <= m <= 1024,
    ;
    crate::fixed::lemma_fx_mul_exact(b, b, 262144 * ((m * m) * (m * m)));
    assert(262144 * a == (262144 * (m * m)) * 65536 && 0 <= 262144 * (m * m) <= 0x4000000000)
        by (nonlinear_arith)
        requires
            a == 65536 * (m * m),
            1 <= m <= 1024,
    ;
    crate::fixed::lemma_fx_mul_exact(262144, a, 262144 * (m * m));
    assert((262144 * (m * m)) * k == (262144 * ((m * m) * (m * m - rho * rho))) * 65536 && 0
        <= 262144 * ((m * m) * (m * m - rho * rho)) <= 0x400000000000000) by (nonlinear_arith)
        requires
            k == 65536 * (m * m - rho * rho),
            1 <= rho < m <= 1024,
    ;
    crate::fixed::lemma_fx_mul_exact(
        262144 * (m * m),
        k,
        262144 * ((m * m) * (m * m - rho * rho)),
    );
    let disc = fx_sub(fx_mul(b, b), fx_mul(fx_mul(262144, a), k));
    assert(disc == 262144 * ((m * m) * (rho * rho)) && 0 < disc <= 0x400000000000000)
        by (nonlinear_arith)
        requires
            disc == crate::fixed::sat64(
                262144 * ((m * m) * (m * m)) - 262144 * ((m * m) * (m * m - rho * rho)),
            ),
            1 <= rho < m <= 1024,
    ;

    // Its square root is exact.
    assert(disc * 65536 == (131072 * (m * rho)) * (131072 * (m * rho)) && 0 <= 131072 * (m
        * rho)) by (nonlinear_arith)
        requires
            disc == 262144 * ((m * m) * (rho * rho)),
            1 <= rho < m <= 1024,
    ;
    crate::fixed::lemma_fx_sqrt_exact(disc, 131072 * (m * rho));
    let sq = crate::fixed::fx_sqrt(disc);
    assert(sq == 131072 * (m * rho));

    // The leading coefficient doubled.
    assert(131072 * a == (131072 * (m * m)) * 65536) by (nonlinear_arith)
        requires
            a == 65536 * (m * m),
    ;
    crate::fixed::lemma_fx_mul_exact(131072, a, 131072 * (m * m));
    let two_a = fx_mul(131072, a);
    assert(two_a == 131072 * (m * m));
    assert(two_a != 0) by (nonlinear_arith)
        requires
            two_a == 131072 * (m * m),
            1 <= m,
    ;

    // The smaller root is exactly the scaled ray parameter.
    let tt = (65536 * (m - rho)) / m;
    vstd::arithmetic::div_mod::lemma_fundamental_div_mod(65536 * (m - rho), m);
    assert(tt * m == 65536 * (m - rho)) by (nonlinear_arith)
        requires
            65536 * (m - rho) == m * tt + (65536 * (m - rho)) % m,
            (65536 * (m - rho)) % m == 0,
    ;
    assert(0 < tt < 65536) by (nonlinear_arith)
        requires
            tt * m == 65536 * (m - rho),
            1 <= rho < m <= 1024,
            tt == (65536 * (m - rho)) / m,
    ;
    let num = fx_sub(crate::fixed::fx_neg(b), sq);
    assert(num == 131072 * (m * (m - rho)) && 0 <= num <= 0x20000000000) by (nonlinear_arith)
        requires
            num == crate::fixed::sat64(
                crate::fixed::sat64(-(-(131072 * (m * m)))) - 131072 * (m * rho),
            ),
            1 <= rho < m <= 1024,
    ;
    assert(num * 65536 == tt * two_a) by (nonlinear_arith)
        requires
            num == 131072 * (m * (m - rho)),
            two_a == 131072 * (m * m),
            tt * m == 65536 * (m - rho),
    ;
    crate::fixed::lemma_fx_div_exact(num, two_a, tt);
    let t1 = fx_div(num, two_a);
    assert(t1 == tt);

    // The hit point.
    assert((65536 * wx) * tt == (wx * tt) * 65536 && (65536 * wy) * tt == (wy * tt) * 65536 && (
    65536 * wz) * tt == (wz * tt) * 65536 && -0x4000000 <= wx * tt <= 0x4000000 && -0x4000000
        <= wy * tt <= 0x4000000 && -0x4000000 <= wz * tt <= 0x4000000) by (nonlinear_arith)
        requires
            -1024 <= wx <= 1024 && -1024 <= wy <= 1024 && -1024 <= wz <= 1024,
            0 < tt < 65536,
    ;
    crate::fixed::lemma_fx_mul_exact(65536 * wx, tt, wx * tt);
    crate::fixed::lemma_fx_mul_exact(65536 * wy, tt, wy * tt);
    crate::fixed::lemma_fx_mul_exact(65536 * wz, tt, wz * tt);
    let step = v3_scale(d, t1);
    assert(step == V3 { x: wx * tt, y: wy * tt, z: wz * tt });
    let h0 = v3_add(c, step);
    assert(h0 == V3 {
        x: -65536 * wx + wx * tt,
        y: -65536 * wy + wy * tt,
        z: -65536 * wz + wz * tt,
    });
    let ray = RayV { start: o, direction: d };
    assert(sphere_hit_origin(c, d, s.radius) == Some(h0));
    let h = v3_add(h0, s.center);
    assert(sphere_hit(ray, s) == Some(h));

    // Its distance from the ray start.
    let back = v3_sub(h, o);
    assert(back == V3 { x: wx * tt, y: wy * tt, z: wz * tt });
    let u = (tt * tt) / 65536;
    vstd::arithmetic::div_mod::lemma_fundamental_div_mod(tt * tt, 65536);
    assert(65536 * u == tt * tt) by (nonlinear_arith)
        requires
            tt * tt == 65536 * ((tt * tt) / 65536) + (tt * tt) % 65536,
            (tt * tt) % 65536 == 0,
            u == (tt * tt) / 65536,
    ;
    assert((wx * tt) * (wx * tt) == ((wx * wx) * u) * 65536 && (wy * tt) * (wy * tt) == ((wy
        * wy) * u) * 65536 && (wz * tt) * (wz * tt) == ((wz * wz) * u) * 65536 && 0 <= (wx * wx)
        * u <= 0x400000000000 && 0 <= (wy * wy) * u <= 0x400000000000 && 0 <= (wz * wz) * u
        <= 0x400000000000 && 0 <= u <= 65536) by (nonlinear_arith)
        requires
            65536 * u == tt * tt,
            0 < tt < 65536,
            -1024 <= wx <= 1024 && -1024 <= wy <= 1024 && -1024 <= wz <= 1024,
    ;
    crate::fixed::lemma_fx_mul_exact(wx * tt, wx * tt, (wx * wx) * u);
    crate::fixed::lemma_fx_mul_exact(wy * tt, wy * tt, (wy * wy) * u);
    crate::fixed::lemma_fx_mul_exact(wz * tt, wz * tt, (wz * wz) * u);
    let bn = v3_norm_sq(back);
    assert(bn == (m * m) * u && 0 <= bn <= 0x10000000000000) by (nonlinear_arith)
        requires
            bn == fx_add(fx_add((wx * wx) * u, (wy * wy) * u), (wz * wz) * u),
            0 <= (wx * wx) * u <= 0x400000000000 && 0 <= (wy * wy) * u <= 0x400000000000 && 0
                <= (wz * wz) * u <= 0x400000000000,
            m * m == wx * wx + wy * wy + wz * wz,
            0 <= u <= 65536,
            1 <= m <= 1024,
    ;
    assert(bn * 65536 == (m * tt) * (m * tt) && 0 <= m * tt) by (nonlinear_arith)
        requires
            bn == (m * m) * u,
            65536 * u == tt * tt,
            1 <= m,
            0 < tt,
    ;
    crate::fixed::lemma_fx_sqrt_exact(bn, m * tt);
    assert(m * tt == 65536 * (m - rho)) by (nonlinear_arith)
        requires
            tt * m == 65536 * (m - rho),
    ;
    assert(dist_from(o, h) == 65536 * (m - rho));
}

/// A ray that never approaches the sphere within its radius — one
/// whose discriminant is negative — yields no hit.
pub proof fn lemma_negative_discriminant_no_hit(ray: RayV, s: SphereV)
    requires
        ({
            let c = v3_sub(ray.start, s.center);
            let d = ray.direction;
            let a = v3_norm_sq(d);
            let b = fx_mul(131072, v3_dot(c, d));
            let k = fx_sub(v3_norm_sq(c), fx_mul(s.radius, s.radius));
            fx_sub(fx_mul(b, b), fx_mul(fx_mul(262144, a), k)) < 0
        }),
    ensures
        sphere_hit(ray, s) is None,
{
}

impl Sphere {
    /// Shift the frame so the sphere is centered at the origin, hit-test
    /// there, and shift the hit point back.
    pub fn hit_test(&self, ray: Ray) -> (hit: Option<Vec3>)
        ensures
            opt_v3(hit) == sphere_hit(ray@, self@),
    {
        let c: Vec3 = ray.start.sub(self.center);
        match sphere_intersection_origin(c, ray.direction, self.radius) {
            Some(p) => Some(p.add(self.center)),
            None => None,
        }
    }

    pub fn normal(&self, point: Vec3) -> (n: Vec3)
        ensures
            n@ == sphere_normal(self@, point@),
    {
        let d: Vec3 = point.sub(self.center);
        if d.norm().is_zero() {
            Vec3::zero()
        } else {
            d.normalize()
        }
    }

    pub fn color(&self) -> (c: Color)
        ensures
            c@ == self@.color,
    {
        self.color
    }
}

} // verus!
