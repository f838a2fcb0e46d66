//! Ray-plane intersection.

use vstd::prelude::*;
use crate::color::{Color, ColorV};
use crate::fixed::{Fixed, fx_neg, fx_div};
use crate::scene::{Ray, RayV};
use crate::vec3::{V3, Vec3, v3_add, v3_sub, v3_scale, v3_dot, opt_v3};

verus! {

/// The mathematical model of a plane.
pub ghost struct PlaneV {
    pub anchor: V3,
    pub normal: V3,
    pub color: ColorV,
}

/// An infinite plane through `anchor` with the given normal (intended,
/// but not required, to be unit length) and an intrinsic color.
#[derive(Debug, Clone, Copy)]
pub struct Plane {
    pub anchor: Vec3,
    pub normal: Vec3,
    pub color: Color,
}

impl View for Plane {
    type V = PlaneV;

    open spec fn view(&self) -> PlaneV {
        PlaneV { anchor: self.anchor@, normal: self.normal@, color: self.color@ }
    }
}

/// Intersection in the frame where the plane passes through the origin.
/// A ray parallel to the plane yields a hit only when its shifted
/// start is exactly the zero vector — that is, the ray starts at the
/// anchor, which is then the hit point. A ray embedded elsewhere in
/// the plane yields no hit: what such a ray should return is left
/// open, and this narrow exact test is kept.
pub open spec fn plane_hit_origin(start: V3, dir: V3, n: V3) -> Option<V3> {
    let rhs = v3_dot(n, dir);
    if rhs == 0 {
        if start == (V3 { x: 0, y: 0, z: 0 }) {
            Some(V3 { x: 0, y: 0, z: 0 })
        } else {
            None
        }
    } else {
        let t = fx_neg(fx_div(v3_dot(n, start), rhs));
        if t >= 0 {
            Some(v3_add(start, v3_scale(dir, t)))
        } else {
            None
        }
    }
}

fn plane_intersection_origin(ray: Ray, normal: Vec3) -> (hit: Option<Vec3>)
    ensures
        opt_v3(hit) == plane_hit_origin(ray.start@, ray.direction@, normal@),
{
    let rhs = normal.dot_product(ray.direction);
    if rhs.is_zero() {
        if ray.start.x().is_zero() && ray.start.y().is_zero() && ray.start.z().is_zero() {
            return Some(Vec3::zero());
        } else {
            return None;
        }
    }
    let t = normal.dot_product(ray.start).div(rhs).neg();
    if t.ge(Fixed::zero()) {
        Some(ray.start.add(ray.direction.scale(t)))
    } else {
        None
    }
}

/// The intersection of a ray with a plane, in world space.
pub open spec fn plane_hit(ray: RayV, p: PlaneV) -> Option<V3> {
    match plane_hit_origin(v3_sub(ray.start, p.anchor), ray.direction, p.normal) {
        Some(h) => Some(v3_add(h, p.anchor)),
        None => None,
    }
}

/// A ray cast from distance 10 along a plane's normal, toward the
/// plane, hits exactly the plane's anchor. Stated for normals with
/// whole-number components and moderate coordinates, where the
/// fixed-point arithmetic is exact; with fractional components the
/// rounding of the dot products can move the hit point.
pub proof fn lemma_ray_along_normal_hits_anchor(p: PlaneV)
    requires
        p.normal.x % 65536 == 0,
        p.normal.y % 65536 == 0,
        p.normal.z % 65536 == 0,
        !(p.normal.x == 0 && p.normal.y == 0 && p.normal.z == 0),
        -0x4000000 <= p.normal.x <= 0x4000000,
        -0x4000000 <= p.normal.y <= 0x4000000,
        -0x4000000 <= p.normal.z <= 0x4000000,
        -0x10000000000 <= p.anchor.x <= 0x10000000000,
        -0x10000000000 <= p.anchor.y <= 0x10000000000,
        -0x10000000000 <= p.anchor.z <= 0x10000000000,
    ensures
        ({
            let start = v3_sub(p.anchor, v3_scale(p.normal, 655360));
            plane_hit(RayV { start, direction: p.normal }, p) == Some(p.anchor)
        }),
{
    let nx = p.normal.x;
    let ny = p.normal.y;
    let nz = p.normal.z;
    let mx = nx / 65536;
    let my = ny / 65536;
    let mz = nz / 65536;
    vstd::arithmetic::div_mod::lemma_fundamental_div_mod(nx, 65536);
    vstd::arithmetic::div_mod::lemma_fundamental_div_mod(ny, 65536);
    vstd::arithmetic::div_mod::lemma_fundamental_div_mod(nz, 65536);
    assert(nx == 65536 * mx && ny == 65536 * my && nz == 65536 * mz);

    // Scaling the normal by ten is exact.
    crate::fixed::lemma_fx_mul_exact(nx, 655360, 10 * nx);
    crate::fixed::lemma_fx_mul_exact(ny, 655360, 10 * ny);
    crate::fixed::lemma_fx_mul_exact(nz, 655360, 10 * nz);
    let ten_n = v3_scale(p.normal, 655360);
    assert(ten_n == V3 { x: 10 * nx, y: 10 * ny, z: 10 * nz });

    let start = v3_sub(p.anchor, ten_n);
    assert(start == V3 { x: p.anchor.x - 10 * nx, y: p.anchor.y - 10 * ny, z: p.anchor.z - 10
        * nz });
    let shifted = v3_sub(start, p.anchor);
    assert(shifted == V3 { x: -10 * nx, y: -10 * ny, z: -10 * nz });

    // The denominator: the normal's squared length, an exact whole
    // multiple of the scale.
    let qx = 65536 * mx * mx;
    let qy = 65536 * my * my;
    let qz = 65536 * mz * mz;
    assert(nx * nx == qx * 65536 && ny * ny == qy * 65536 && nz * nz == qz * 65536)
        by (nonlinear_arith)
        requires
            nx == 65536 * mx && ny == 65536 * my && nz == 65536 * mz,
            qx == 65536 * mx * mx && qy == 65536 * my * my && qz == 65536 * mz * mz,
    ;
    assert(0 <= qx <= 0x10000000000 && 0 <= qy <= 0x10000000000 && 0 <= qz <= 0x10000000000)
        by (nonlinear_arith)
        requires
            qx == 65536 * mx * mx && qy == 65536 * my * my && qz == 65536 * mz * mz,
            -1024 <= mx <= 1024 && -1024 <= my <= 1024 && -1024 <= mz <= 1024,
    ;
    crate::fixed::lemma_fx_mul_exact(nx, nx, qx);
    crate::fixed::lemma_fx_mul_exact(ny, ny, qy);
    crate::fixed::lemma_fx_mul_exact(nz, nz, qz);
    let m2 = mx * mx + my * my + mz * mz;
    let rhs = v3_dot(p.normal, p.normal);
    assert(rhs == 65536 * m2) by (nonlinear_arith)
        requires
            rhs == crate::fixed::fx_add(crate::fixed::fx_add(qx, qy), qz),
            qx == 65536 * mx * mx && qy == 65536 * my * my && qz == 65536 * mz * mz,
            0 <= qx <= 0x10000000000 && 0 <= qy <= 0x10000000000 && 0 <= qz <= 0x10000000000,
            m2 == mx * mx + my * my + mz * mz,
    ;
    assert(m2 >= 1) by (nonlinear_arith)
        requires
            !(mx == 0 && my == 0 && mz == 0),
            m2 == mx * mx + my * my + mz * mz,
    ;

    // The numerator: the normal dotted with the shifted start.
    let px = -655360 * (mx * mx);
    let py = -655360 * (my * my);
    let pz = -655360 * (mz * mz);
    assert(nx * (-10 * nx) == px * 65536 && ny * (-10 * ny) == py * 65536 && nz * (-10 * nz)
        == pz * 65536) by (nonlinear_arith)
        requires
            nx == 65536 * mx && ny == 65536 * my && nz == 65536 * mz,
            px == -655360 * (mx * mx) && py == -655360 * (my * my) && pz == -655360 * (mz
                * mz),
    ;
    assert(-0x100000000000 <= px <= 0 && -0x100000000000 <= py <= 0 && -0x100000000000 <= pz
        <= 0) by (nonlinear_arith)
        requires
            px == -655360 * (mx * mx) && py == -655360 * (my * my) && pz == -655360 * (mz
                * mz),
            -1024 <= mx <= 1024 && -1024 <= my <= 1024 && -1024 <= mz <= 1024,
    ;
    crate::fixed::lemma_fx_mul_exact(nx, -10 * nx, px);
    crate::fixed::lemma_fx_mul_exact(ny, -10 * ny, py);
    crate::fixed::lemma_fx_mul_exact(nz, -10 * nz, pz);
    let num = v3_dot(p.normal, shifted);
    assert(num == -655360 * m2) by (nonlinear_arith)
        requires
            num == crate::fixed::fx_add(crate::fixed::fx_add(px, py), pz),
            px == -655360 * (mx * mx) && py == -655360 * (my * my) && pz == -655360 * (mz
                * mz),
            -0x100000000000 <= px <= 0 && -0x100000000000 <= py <= 0 && -0x100000000000 <= pz
                <= 0,
            m2 == mx * mx + my * my + mz * mz,
    ;

    // The ray parameter comes out at exactly ten.
    assert(num * 65536 == (-655360) * rhs) by (nonlinear_arith)
        requires
            num == -655360 * m2,
            rhs == 65536 * m2,
    ;
    crate::fixed::lemma_fx_div_exact(num, rhs, -655360);
    let t = crate::fixed::fx_neg(crate::fixed::fx_div(num, rhs));
    assert(t == 655360);

    // Stepping the shifted start by ten normals lands on the origin,
    // and shifting back lands on the anchor.
    let step = v3_scale(p.normal, t);
    assert(step == V3 { x: 10 * nx, y: 10 * ny, z: 10 * nz });
    let h = v3_add(shifted, step);
    assert(h == V3 { x: 0, y: 0, z: 0 });
    assert(plane_hit_origin(shifted, p.normal, p.normal) == Some(h));
    assert(v3_add(h, p.anchor) == p.anchor);
}

impl Plane {
    /// Shift the frame so the plane passes through the origin, hit-test
    /// there, and shift the hit point back.
    pub fn hit_test(&self, ray: Ray) -> (hit: Option<Vec3>)
        ensures
            opt_v3(hit) == plane_hit(ray@, self@),
    {
        let shifted = Ray { start: ray.start.sub(self.anchor), direction: ray.direction };
        match plane_intersection_origin(shifted, self.normal) {
            Some(h) => Some(h.add(self.anchor)),
            None => None,
        }
    }

    /// The plane's normal is the same everywhere.
    pub fn normal(&self, _point: Vec3) -> (n: Vec3)
        ensures
            n@ == self@.normal,
    {
        self.normal
    }

    pub fn color(&self) -> (c: Color)
        ensures
            c@ == self@.color,
    {
        self.color
    }
}

} // verus!
