//! Three-component vectors over the fixed-point reals.

use vstd::prelude::*;
use crate::fixed::{Fixed, fx_add, fx_sub, fx_neg, fx_mul, fx_div, fx_sqrt, tdiv, sat64};

verus! {

/// The mathematical model of a vector: three raw fixed-point coordinates.
pub ghost struct V3 {
    pub x: int,
    pub y: int,
    pub z: int,
}

pub open spec fn v3_add(a: V3, b: V3) -> V3 {
    V3 { x: fx_add(a.x, b.x), y: fx_add(a.y, b.y), z: fx_add(a.z, b.z) }
}

pub open spec fn v3_sub(a: V3, b: V3) -> V3 {
    V3 { x: fx_sub(a.x, b.x), y: fx_sub(a.y, b.y), z: fx_sub(a.z, b.z) }
}

pub open spec fn v3_neg(a: V3) -> V3 {
    V3 { x: fx_neg(a.x), y: fx_neg(a.y), z: fx_neg(a.z) }
}

pub open spec fn v3_scale(a: V3, k: int) -> V3 {
    V3 { x: fx_mul(a.x, k), y: fx_mul(a.y, k), z: fx_mul(a.z, k) }
}

pub open spec fn v3_direct(a: V3, b: V3) -> V3 {
    V3 { x: fx_mul(a.x, b.x), y: fx_mul(a.y, b.y), z: fx_mul(a.z, b.z) }
}

/// Dot product, summed left to right as the executable code does.
pub open spec fn v3_dot(a: V3, b: V3) -> int {
    fx_add(fx_add(fx_mul(a.x, b.x), fx_mul(a.y, b.y)), fx_mul(a.z, b.z))
}

pub open spec fn v3_norm_sq(a: V3) -> int {
    v3_dot(a, a)
}

pub open spec fn v3_norm(a: V3) -> int {
    fx_sqrt(v3_norm_sq(a))
}

/// Componentwise division by the norm.
pub open spec fn v3_normalize(a: V3) -> V3 {
    let n = v3_norm(a);
    V3 { x: fx_div(a.x, n), y: fx_div(a.y, n), z: fx_div(a.z, n) }
}

/// The model of an optional hit point.
pub open spec fn opt_v3(r: Option<Vec3>) -> Option<V3> {
    match r {
        Some(v) => Some(v@),
        None => None,
    }
}

/// A square is never negative, so neither is a squared norm.
pub proof fn lemma_fx_square_nonneg(a: int)
    ensures
        fx_mul(a, a) >= 0,
{
    assert(a * a >= 0) by (nonlinear_arith);
    vstd::arithmetic::div_mod::lemma_div_pos_is_pos(a * a, crate::fixed::SCALE as int);
}

pub proof fn lemma_norm_sq_nonneg(a: V3)
    ensures
        v3_norm_sq(a) >= 0,
{
    lemma_fx_square_nonneg(a.x);
    lemma_fx_square_nonneg(a.y);
    lemma_fx_square_nonneg(a.z);
}

/// A vector of three fixed-point coordinates; a value type, immutable
/// under all operations.
#[derive(Debug, Clone, Copy, PartialEq, Eq, Structural)]
pub struct Vec3 {
    x: Fixed,
    y: Fixed,
    z: Fixed,
}

impl View for Vec3 {
    type V = V3;

    closed spec fn view(&self) -> V3 {
        V3 { x: self.x@, y: self.y@, z: self.z@ }
    }
}

impl Vec3 {
    pub fn new(x: Fixed, y: Fixed, z: Fixed) -> (r: Vec3)
        ensures
            r@ == (V3 { x: x@, y: y@, z: z@ }),
    {
        Vec3 { x, y, z }
    }

    pub fn zero() -> (r: Vec3)
        ensures
            r@ == (V3 { x: 0, y: 0, z: 0 }),
    {
        Vec3 { x: Fixed::zero(), y: Fixed::zero(), z: Fixed::zero() }
    }

    pub fn x(self) -> (r: Fixed)
        ensures
            r@ == self@.x,
    {
        self.x
    }

    pub fn y(self) -> (r: Fixed)
        ensures
            r@ == self@.y,
    {
        self.y
    }

    pub fn z(self) -> (r: Fixed)
        ensures
            r@ == self@.z,
    {
        self.z
    }

    pub fn add(self, other: Vec3) -> (r: Vec3)
        ensures
            r@ == v3_add(self@, other@),
    {
        Vec3 { x: self.x.add(other.x), y: self.y.add(other.y), z: self.z.add(other.z) }
    }

    pub fn sub(self, other: Vec3) -> (r: Vec3)
        ensures
            r@ == v3_sub(self@, other@),
    {
        Vec3 { x: self.x.sub(other.x), y: self.y.sub(other.y), z: self.z.sub(other.z) }
    }

    pub fn neg(self) -> (r: Vec3)
        ensures
            r@ == v3_neg(self@),
    {
        Vec3 { x: self.x.neg(), y: self.y.neg(), z: self.z.neg() }
    }

    pub fn scale(self, a: Fixed) -> (r: Vec3)
        ensures
            r@ == v3_scale(self@, a@),
    {
        Vec3 { x: self.x.mul(a), y: self.y.mul(a), z: self.z.mul(a) }
    }

    pub fn direct_product(self, other: Vec3) -> (r: Vec3)
        ensures
            r@ == v3_direct(self@, other@),
    {
        Vec3 { x: self.x.mul(other.x), y: self.y.mul(other.y), z: self.z.mul(other.z) }
    }

    pub fn dot_product(self, other: Vec3) -> (r: Fixed)
        ensures
            r@ == v3_dot(self@, other@),
    {
        self.x.mul(other.x).add(self.y.mul(other.y)).add(self.z.mul(other.z))
    }

    pub fn norm_squared(self) -> (r: Fixed)
        ensures
            r@ == v3_norm_sq(self@),
    {
        self.dot_product(self)
    }

    pub fn norm(self) -> (r: Fixed)
        ensures
            r@ == v3_norm(self@),
    {
        proof {
            lemma_norm_sq_nonneg(self@);
        }
        self.norm_squared().sqrt()
    }

    /// Divide each coordinate by the norm.
    pub fn normalize(self) -> (r: Vec3)
        requires
            v3_norm(self@) != 0,
        ensures
            r@ == v3_normalize(self@),
    {
        let n = self.norm();
        Vec3 { x: self.x.div(n), y: self.y.div(n), z: self.z.div(n) }
    }
}

} // verus!
