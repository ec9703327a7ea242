//! The 3-component vector type and its fixed-point operations.

use vstd::prelude::*;
use vstd::arithmetic::div_mod::*;
use vstd::arithmetic::mul::*;
use crate::fx::{
    FX_ONE, fx_mul, fx_div, fx_sqrt, fx_mul_spec, fx_div_spec, sqrt_floor, is_sqrt_floor,
    lemma_div_abs_bound, lemma_fxm_bound,
};
use crate::limits::{DIR_MAX, NORMAL_MAX};
use crate::common::{random_double, random_double_range};

verus! {

/// A vector of three fixed-point scalars: a point, a direction or a color,
/// depending on use.
#[derive(Clone, Copy, Debug, PartialEq, Eq, Structural, Default)]
pub struct Vec3 {
    pub x: i64,
    pub y: i64,
    pub z: i64,
}

/// A point in space; the same representation as any other vector.
pub type Point3 = Vec3;

/// A color with fixed-point channels in `[0, FX_ONE]`.
pub type Color = Vec3;

/// Every component of `v` has magnitude at most `m`.
pub open spec fn vec_bounded(v: Vec3, m: int) -> bool {
    -m <= v.x <= m && -m <= v.y <= m && -m <= v.z <= m
}

/// The fixed-point dot product: each component pair is multiplied and
/// scaled down, then the three terms are summed.
pub open spec fn dot_spec(u: Vec3, v: Vec3) -> int {
    fx_mul_spec(u.x as int, v.x as int) + fx_mul_spec(u.y as int, v.y as int) + fx_mul_spec(
        u.z as int,
        v.z as int,
    )
}

/// The squared length of `v`, as a fixed-point scalar.
pub open spec fn ls_spec(v: Vec3) -> int {
    dot_spec(v, v)
}

/// The length of `v`, as a fixed-point scalar.
pub open spec fn len_spec(v: Vec3) -> int {
    sqrt_floor(ls_spec(v) * FX_ONE as int)
}

/// The components of `v` scaled to unit length: each divided by the
/// fixed-point length.
pub open spec fn unit_spec(v: Vec3) -> (int, int, int) {
    (
        fx_div_spec(v.x as int, len_spec(v)),
        fx_div_spec(v.y as int, len_spec(v)),
        fx_div_spec(v.z as int, len_spec(v)),
    )
}

/// The components of the cross product of `u` and `v`.
pub open spec fn cross_spec(u: Vec3, v: Vec3) -> (int, int, int) {
    (
        fx_mul_spec(u.y as int, v.z as int) - fx_mul_spec(u.z as int, v.y as int),
        fx_mul_spec(u.z as int, v.x as int) - fx_mul_spec(u.x as int, v.z as int),
        fx_mul_spec(u.x as int, v.y as int) - fx_mul_spec(u.y as int, v.x as int),
    )
}

/// The components of `v` mirrored about the plane with normal `n`:
/// `v - 2 * dot(v, n) * n`.
pub open spec fn reflect_spec(v: Vec3, n: Vec3) -> (int, int, int) {
    let d2 = 2 * dot_spec(v, n);
    (
        v.x - fx_mul_spec(d2, n.x as int),
        v.y - fx_mul_spec(d2, n.y as int),
        v.z - fx_mul_spec(d2, n.z as int),
    )
}

/// `v` with every component negated.
pub open spec fn vneg(v: Vec3) -> Vec3 {
    (Vec3 { x: (-v.x) as i64, y: (-v.y) as i64, z: (-v.z) as i64 })
}

/// Magnitude bounds on the dot product of two component-bounded vectors,
/// plus the side conditions `dot` needs to be called on them.
pub proof fn lemma_dot_bound(u: Vec3, v: Vec3, uu: int, vv: int)
    requires
        vec_bounded(u, uu),
        vec_bounded(v, vv),
        uu * vv <= 0x2000_0000_0000_0000_0000,
    ensures
        -(uu * vv) <= u.x * v.x <= uu * vv,
        -(uu * vv) <= u.y * v.y <= uu * vv,
        -(uu * vv) <= u.z * v.z <= uu * vv,
        -3 * ((uu * vv) / 65536) - 3 <= dot_spec(u, v) <= 3 * ((uu * vv) / 65536),
{
    lemma_fxm_bound(u.x as int, v.x as int, uu, vv);
    lemma_fxm_bound(u.y as int, v.y as int, uu, vv);
    lemma_fxm_bound(u.z as int, v.z as int, uu, vv);
}

impl Vec3 {
    /// A vector from its three components.
    pub fn new(x: i64, y: i64, z: i64) -> (r: Vec3)
        ensures
            r.x == x && r.y == y && r.z == z,
    {
        Vec3 { x, y, z }
    }

    /// A vector with the same scalar in all three components.
    pub fn from_float(value: i64) -> (r: Vec3)
        ensures
            r.x == value && r.y == value && r.z == value,
    {
        Vec3 { x: value, y: value, z: value }
    }

    /// Componentwise negation.
    pub fn neg(self) -> (r: Vec3)
        requires
            vec_bounded(self, i64::MAX as int),
        ensures
            r.x == -self.x && r.y == -self.y && r.z == -self.z,
            r == vneg(self),
    {
        Vec3 { x: -self.x, y: -self.y, z: -self.z }
    }

    /// Componentwise sum.
    pub fn add(self, other: Vec3) -> (r: Vec3)
        requires
            vec_bounded(self, 0x3FFF_FFFF_FFFF_FFFF),
            vec_bounded(other, 0x3FFF_FFFF_FFFF_FFFF),
        ensures
            r.x == self.x + other.x && r.y == self.y + other.y && r.z == self.z + other.z,
    {
        Vec3 { x: self.x + other.x, y: self.y + other.y, z: self.z + other.z }
    }

    /// Componentwise difference.
    pub fn sub(self, other: Vec3) -> (r: Vec3)
        requires
            vec_bounded(self, 0x3FFF_FFFF_FFFF_FFFF),
            vec_bounded(other, 0x3FFF_FFFF_FFFF_FFFF),
        ensures
            r.x == self.x - other.x && r.y == self.y - other.y && r.z == self.z - other.z,
    {
        Vec3 { x: self.x - other.x, y: self.y - other.y, z: self.z - other.z }
    }

    /// The vector scaled by a fixed-point scalar.
    pub fn scale(self, t: i64) -> (r: Vec3)
        requires
            -0x8000_0000_0000_0000_0000 <= t * self.x <= 0x7FFF_FFFF_FFFF_FFFF_0000,
            -0x8000_0000_0000_0000_0000 <= t * self.y <= 0x7FFF_FFFF_FFFF_FFFF_0000,
            -0x8000_0000_0000_0000_0000 <= t * self.z <= 0x7FFF_FFFF_FFFF_FFFF_0000,
        ensures
            r.x == fx_mul_spec(t as int, self.x as int),
            r.y == fx_mul_spec(t as int, self.y as int),
            r.z == fx_mul_spec(t as int, self.z as int),
    {
        Vec3 { x: fx_mul(t, self.x), y: fx_mul(t, self.y), z: fx_mul(t, self.z) }
    }

    /// Componentwise fixed-point product; used to blend colors.
    pub fn mul(self, other: Vec3) -> (r: Vec3)
        requires
            -0x8000_0000_0000_0000_0000 <= self.x * other.x <= 0x7FFF_FFFF_FFFF_FFFF_0000,
            -0x8000_0000_0000_0000_0000 <= self.y * other.y <= 0x7FFF_FFFF_FFFF_FFFF_0000,
            -0x8000_0000_0000_0000_0000 <= self.z * other.z <= 0x7FFF_FFFF_FFFF_FFFF_0000,
        ensures
            r.x == fx_mul_spec(self.x as int, other.x as int),
            r.y == fx_mul_spec(self.y as int, other.y as int),
            r.z == fx_mul_spec(self.z as int, other.z as int),
    {
        Vec3 {
            x: fx_mul(self.x, other.x),
            y: fx_mul(self.y, other.y),
            z: fx_mul(self.z, other.z),
        }
    }

    /// The squared length, as a fixed-point scalar; never negative.
    pub fn length_squared(&self) -> (r: i64)
        requires
            vec_bounded(*self, 0x40_0000_0000),
        ensures
            r == ls_spec(*self),
            0 <= r,
    {
        proof {
            lemma_dot_bound(*self, *self, 0x40_0000_0000, 0x40_0000_0000);
            assert(self.x * self.x >= 0) by (nonlinear_arith);
            assert(self.y * self.y >= 0) by (nonlinear_arith);
            assert(self.z * self.z >= 0) by (nonlinear_arith);
            lemma_div_pos_is_pos(self.x * self.x, 65536);
            lemma_div_pos_is_pos(self.y * self.y, 65536);
            lemma_div_pos_is_pos(self.z * self.z, 65536);
        }
        dot(*self, *self)
    }

    /// The length, as a fixed-point scalar; never negative.
    pub fn length(&self) -> (r: i64)
        requires
            vec_bounded(*self, 0x40_0000_0000),
        ensures
            r == len_spec(*self),
            is_sqrt_floor(ls_spec(*self) * FX_ONE, r as int),
            0 <= r,
    {
        let ls = self.length_squared();
        fx_sqrt(ls)
    }

    /// Whether the vector is too small to carry a direction. At this
    /// fixed-point resolution the only such vector is zero itself.
    pub fn near_zero(&self) -> (r: bool)
        ensures
            r == (self.x == 0 && self.y == 0 && self.z == 0),
    {
        self.x == 0 && self.y == 0 && self.z == 0
    }

    /// A vector with three independent random components in `[0, 1)`.
    pub fn random() -> (r: Vec3)
        ensures
            0 <= r.x < FX_ONE,
            0 <= r.y < FX_ONE,
            0 <= r.z < FX_ONE,
    {
        Vec3 { x: random_double(), y: random_double(), z: random_double() }
    }

    /// A vector with three independent random components in `[min, max)`.
    pub fn random_range(min: i64, max: i64) -> (r: Vec3)
        requires
            min < max,
            -0x4000_0000_0000 <= min,
            max <= 0x4000_0000_0000,
        ensures
            min <= r.x < max,
            min <= r.y < max,
            min <= r.z < max,
    {
        Vec3 {
            x: random_double_range(min, max),
            y: random_double_range(min, max),
            z: random_double_range(min, max),
        }
    }
}

/// The fixed-point dot product of `u` and `v`.
pub fn dot(u: Vec3, v: Vec3) -> (r: i64)
    requires
        -0x2000_0000_0000_0000_0000 <= u.x * v.x <= 0x2000_0000_0000_0000_0000,
        -0x2000_0000_0000_0000_0000 <= u.y * v.y <= 0x2000_0000_0000_0000_0000,
        -0x2000_0000_0000_0000_0000 <= u.z * v.z <= 0x2000_0000_0000_0000_0000,
    ensures
        r == dot_spec(u, v),
{
    proof {
        lemma_div_abs_bound(u.x * v.x, 0x2000_0000_0000_0000_0000, 65536);
        lemma_div_abs_bound(u.y * v.y, 0x2000_0000_0000_0000_0000, 65536);
        lemma_div_abs_bound(u.z * v.z, 0x2000_0000_0000_0000_0000, 65536);
    }
    fx_mul(u.x, v.x) + fx_mul(u.y, v.y) + fx_mul(u.z, v.z)
}

/// The fixed-point cross product of `u` and `v`.
pub fn cross(u: Vec3, v: Vec3) -> (r: Vec3)
    requires
        vec_bounded(u, 0x400_0000),
        vec_bounded(v, 0x400_0000),
    ensures
        (r.x as int, r.y as int, r.z as int) == cross_spec(u, v),
        vec_bounded(r, 0x40_0000_0000),
{
    proof {
        lemma_fxm_bound(u.y as int, v.z as int, 0x400_0000, 0x400_0000);
        lemma_fxm_bound(u.z as int, v.y as int, 0x400_0000, 0x400_0000);
        lemma_fxm_bound(u.z as int, v.x as int, 0x400_0000, 0x400_0000);
        lemma_fxm_bound(u.x as int, v.z as int, 0x400_0000, 0x400_0000);
        lemma_fxm_bound(u.x as int, v.y as int, 0x400_0000, 0x400_0000);
        lemma_fxm_bound(u.y as int, v.x as int, 0x400_0000, 0x400_0000);
    }
    Vec3 {
        x: fx_mul(u.y, v.z) - fx_mul(u.z, v.y),
        y: fx_mul(u.z, v.x) - fx_mul(u.x, v.z),
        z: fx_mul(u.x, v.y) - fx_mul(u.y, v.x),
    }
}

/// Each component of a vector with squared length at least one stays
/// within twice the fixed-point length once scaled by the length.
proof fn lemma_unit_comp_bound(c: int, ls: int, ll: int)
    by (nonlinear_arith)
    requires
        1 <= ls,
        256 <= ll,
        ll * ll <= ls * 65536,
        ls * 65536 < (ll + 1) * (ll + 1),
        c * c < (ls + 1) * 65536,
    ensures
        -2 * ll < c < 2 * ll,
{
}

/// The fixed-point length of a vector with squared length at least one is
/// at least 256 (the square root of one unit of the scale).
proof fn lemma_len_at_least(ls: int, ll: int)
    by (nonlinear_arith)
    requires
        1 <= ls,
        0 <= ll,
        ls * 65536 < (ll + 1) * (ll + 1),
    ensures
        256 <= ll,
{
}

/// `v` scaled to unit length. The caller keeps `v` away from zero; the
/// result's components stay within two units.
pub fn unit_vector(u: Vec3) -> (r: Vec3)
    requires
        vec_bounded(u, 0x40_0000_0000),
        1 <= ls_spec(u),
    ensures
        (r.x as int, r.y as int, r.z as int) == unit_spec(u),
        vec_bounded(r, 2 * FX_ONE),
{
    let ls = u.length_squared();
    let ll = u.length();
    proof {
        lemma_len_at_least(ls as int, ll as int);
        lemma_square_le_ls(u);
        lemma_unit_comp_bound(u.x as int, ls as int, ll as int);
        lemma_unit_comp_bound(u.y as int, ls as int, ll as int);
        lemma_unit_comp_bound(u.z as int, ls as int, ll as int);
        lemma_unit_div_fits(u.x as int, ll as int);
        lemma_unit_div_fits(u.y as int, ll as int);
        lemma_unit_div_fits(u.z as int, ll as int);
    }
    let rx = fx_div(u.x, ll);
    let ry = fx_div(u.y, ll);
    let rz = fx_div(u.z, ll);
    proof {
        lemma_unit_div_bound(u.x as int, ll as int);
        lemma_unit_div_bound(u.y as int, ll as int);
        lemma_unit_div_bound(u.z as int, ll as int);
    }
    Vec3 { x: rx, y: ry, z: rz }
}

/// Each squared component of `u` is within one scale unit of the
/// fixed-point squared length.
proof fn lemma_square_le_ls(u: Vec3)
    requires
        vec_bounded(u, 0x40_0000_0000),
    ensures
        u.x * u.x < (ls_spec(u) + 1) * 65536,
        u.y * u.y < (ls_spec(u) + 1) * 65536,
        u.z * u.z < (ls_spec(u) + 1) * 65536,
{
    assert(u.x * u.x >= 0) by (nonlinear_arith);
    assert(u.y * u.y >= 0) by (nonlinear_arith);
    assert(u.z * u.z >= 0) by (nonlinear_arith);
    lemma_div_pos_is_pos(u.x * u.x, 65536);
    lemma_div_pos_is_pos(u.y * u.y, 65536);
    lemma_div_pos_is_pos(u.z * u.z, 65536);
    lemma_fundamental_div_mod(u.x * u.x, 65536);
    lemma_fundamental_div_mod(u.y * u.y, 65536);
    lemma_fundamental_div_mod(u.z * u.z, 65536);
    lemma_mod_division_less_than_divisor(u.x * u.x, 65536);
    lemma_mod_division_less_than_divisor(u.y * u.y, 65536);
    lemma_mod_division_less_than_divisor(u.z * u.z, 65536);
    assert(65536 * ((u.x * u.x) / 65536) <= 65536 * ls_spec(u)) by (nonlinear_arith)
        requires
            (u.x * u.x) / 65536 <= ls_spec(u),
    ;
    assert(65536 * ((u.y * u.y) / 65536) <= 65536 * ls_spec(u)) by (nonlinear_arith)
        requires
            (u.y * u.y) / 65536 <= ls_spec(u),
    ;
    assert(65536 * ((u.z * u.z) / 65536) <= 65536 * ls_spec(u)) by (nonlinear_arith)
        requires
            (u.z * u.z) / 65536 <= ls_spec(u),
    ;
}

/// Side condition of `fx_div` for normalizing a component by the length.
proof fn lemma_unit_div_fits(c: int, ll: int)
    by (nonlinear_arith)
    requires
        -2 * ll < c < 2 * ll,
        1 <= ll,
    ensures
        i64::MIN * ll <= c * 65536 <= i64::MAX * ll,
{
}

/// A component divided by the length stays within two scale units.
proof fn lemma_unit_div_bound(c: int, ll: int)
    requires
        -2 * ll < c < 2 * ll,
        1 <= ll,
    ensures
        -2 * 65536 <= fx_div_spec(c, ll) <= 2 * 65536,
{
    assert(c * 65536 <= (2 * 65536) * ll) by (nonlinear_arith)
        requires
            c < 2 * ll,
    ;
    assert((-(2 * 65536)) * ll <= c * 65536) by (nonlinear_arith)
        requires
            -2 * ll < c,
    ;
    lemma_div_is_ordered(c * 65536, (2 * 65536) * ll, ll);
    lemma_div_is_ordered((-(2 * 65536)) * ll, c * 65536, ll);
    lemma_div_multiples_vanish(2 * 65536int, ll);
    lemma_div_multiples_vanish(-(2 * 65536), ll);
    lemma_mul_is_commutative(2 * 65536int, ll);
    lemma_mul_is_commutative(-(2 * 65536), ll);
}

/// A scaled component squares to the component's square scaled, shifted
/// by the division remainder.
proof fn lemma_unit_sq_identity(vi: int, ll: int, ui: int, rem: int)
    by (nonlinear_arith)
    requires
        vi * 65536 == ll * ui + rem,
    ensures
        (ui * ui) * (ll * ll) == (vi * vi) * (65536 * 65536) - 2 * 65536 * (vi * rem) + rem * rem,
{
}

/// A normalized vector has length one, within fixed-point tolerance: for
/// any vector of squared length at least a quarter unit (and within the
/// range the normalizer accepts), the squared length of `unit_vector`'s
/// result is within 32 of one. Shorter vectors lose precision to the
/// scale and are left out.
pub proof fn lemma_unit_vector_length(v: Vec3)
    requires
        vec_bounded(v, 0x40_0000_0000),
        16384 <= ls_spec(v),
    ensures
        ({
            let t = unit_spec(v);
            let u = (Vec3 { x: t.0 as i64, y: t.1 as i64, z: t.2 as i64 });
            FX_ONE - 32 <= ls_spec(u) <= FX_ONE + 32
        }),
{
    let s = 65536int;
    let ls = ls_spec(v);
    let w = v.x * v.x + v.y * v.y + v.z * v.z;

    // the fixed-point squared length brackets the exact one
    lemma_fundamental_div_mod(v.x * v.x, 65536);
    lemma_fundamental_div_mod(v.y * v.y, 65536);
    lemma_fundamental_div_mod(v.z * v.z, 65536);
    lemma_mod_bound(v.x * v.x, 65536);
    lemma_mod_bound(v.y * v.y, 65536);
    lemma_mod_bound(v.z * v.z, 65536);
    assert(s * ls <= w < s * ls + 3 * s);

    // the fixed-point length brackets the square root
    crate::fx::lemma_sqrt_floor_exists(ls * 65536);
    let ll = len_spec(v);
    assert(ll * ll <= ls * s < (ll + 1) * (ll + 1));
    assert(ll >= 32768) by (nonlinear_arith)
        requires
            0 <= ll,
            ls * 65536 < (ll + 1) * (ll + 1),
            16384 <= ls,
    ;

    // each component against the length
    lemma_square_le_ls(v);
    lemma_unit_comp_bound(v.x as int, ls, ll);
    lemma_unit_comp_bound(v.y as int, ls, ll);
    lemma_unit_comp_bound(v.z as int, ls, ll);
    lemma_unit_div_bound(v.x as int, ll);
    lemma_unit_div_bound(v.y as int, ll);
    lemma_unit_div_bound(v.z as int, ll);

    let ux = fx_div_spec(v.x as int, ll);
    let uy = fx_div_spec(v.y as int, ll);
    let uz = fx_div_spec(v.z as int, ll);
    let t = unit_spec(v);
    let u = (Vec3 { x: t.0 as i64, y: t.1 as i64, z: t.2 as i64 });
    assert(u.x == ux && u.y == uy && u.z == uz);

    // division remainders of each scaled component
    lemma_fundamental_div_mod(v.x * 65536, ll);
    lemma_fundamental_div_mod(v.y * 65536, ll);
    lemma_fundamental_div_mod(v.z * 65536, ll);
    lemma_mod_bound(v.x * 65536, ll);
    lemma_mod_bound(v.y * 65536, ll);
    lemma_mod_bound(v.z * 65536, ll);
    let rx = (v.x * 65536) % ll;
    let ry = (v.y * 65536) % ll;
    let rz = (v.z * 65536) % ll;
    lemma_unit_sq_identity(v.x as int, ll, ux, rx);
    lemma_unit_sq_identity(v.y as int, ll, uy, ry);
    lemma_unit_sq_identity(v.z as int, ll, uz, rz);
    let uu = ux * ux + uy * uy + uz * uz;
    assert(uu * (ll * ll) == w * (s * s) - 2 * s * (v.x * rx + v.y * ry + v.z * rz) + (rx * rx + ry
        * ry + rz * rz)) by (nonlinear_arith)
        requires
            (ux * ux) * (ll * ll) == (v.x * v.x) * (65536 * 65536) - 2 * 65536 * (v.x * rx) + rx
                * rx,
            (uy * uy) * (ll * ll) == (v.y * v.y) * (65536 * 65536) - 2 * 65536 * (v.y * ry) + ry
                * ry,
            (uz * uz) * (ll * ll) == (v.z * v.z) * (65536 * 65536) - 2 * 65536 * (v.z * rz) + rz
                * rz,
            uu == ux * ux + uy * uy + uz * uz,
            w == v.x * v.x + v.y * v.y + v.z * v.z,
            s == 65536,
    ;

    // each component stays within 512 of the length
    assert(v.x * v.x <= w && v.y * v.y <= w && v.z * v.z <= w) by (nonlinear_arith)
        requires
            w == v.x * v.x + v.y * v.y + v.z * v.z,
    ;
    assert(w < (ll + 512) * (ll + 512)) by (nonlinear_arith)
        requires
            w < s * ls + 3 * s,
            ls * 65536 < (ll + 1) * (ll + 1),
            s == 65536,
            ll >= 32768,
    ;
    assert(-(ll + 511) <= v.x <= ll + 511 && -(ll + 511) <= v.y <= ll + 511 && -(ll + 511) <= v.z
        <= ll + 511) by (nonlinear_arith)
        requires
            v.x * v.x < (ll + 512) * (ll + 512),
            v.y * v.y < (ll + 512) * (ll + 512),
            v.z * v.z < (ll + 512) * (ll + 512),
            ll >= 0,
    ;

    // the cross terms and remainders are small
    assert(-((ll + 511) * ll) <= v.x * rx <= (ll + 511) * ll && -((ll + 511) * ll) <= v.y * ry <= (
    ll + 511) * ll && -((ll + 511) * ll) <= v.z * rz <= (ll + 511) * ll) by (nonlinear_arith)
        requires
            -(ll + 511) <= v.x <= ll + 511,
            -(ll + 511) <= v.y <= ll + 511,
            -(ll + 511) <= v.z <= ll + 511,
            0 <= rx < ll,
            0 <= ry < ll,
            0 <= rz < ll,
            ll >= 1,
    ;
    assert(0 <= rx * rx < ll * ll && 0 <= ry * ry < ll * ll && 0 <= rz * rz < ll * ll)
        by (nonlinear_arith)
        requires
            0 <= rx < ll,
            0 <= ry < ll,
            0 <= rz < ll,
    ;

    // upper end
    assert(w * (s * s) < (s * s) * ((ll + 1) * (ll + 1)) + 3 * (s * s) * s) by (nonlinear_arith)
        requires
            s * ls <= w < s * ls + 3 * s,
            ls * s < (ll + 1) * (ll + 1),
            s == 65536,
    ;
    assert(uu * (ll * ll) < (s * s) * ((ll + 1) * (ll + 1)) + 3 * (s * s) * s + 6 * s * ((ll + 511)
        * ll) + 3 * (ll * ll));
    assert((s * s) * ((ll + 1) * (ll + 1)) + 3 * (s * s) * s + 6 * s * ((ll + 511) * ll) + 3 * (ll
        * ll) <= (s * s + 23 * s) * (ll * ll)) by (nonlinear_arith)
        requires
            s == 65536,
            ll >= 32768,
    ;
    lemma_mul_strict_inequality_converse(uu, s * s + 23 * s, ll * ll);

    // lower end
    assert(w * (s * s) >= (s * s) * (ll * ll)) by (nonlinear_arith)
        requires
            s * ls <= w,
            ll * ll <= ls * s,
            s == 65536,
    ;
    assert(uu * (ll * ll) >= (s * s) * (ll * ll) - 6 * s * ((ll + 511) * ll));
    assert((s * s) * (ll * ll) - 6 * s * ((ll + 511) * ll) >= (s * s - 10 * s) * (ll * ll))
        by (nonlinear_arith)
        requires
            s == 65536,
            ll >= 32768,
    ;
    assert((s * s - 10 * s) * (ll * ll) <= uu * (ll * ll));
    lemma_mul_inequality_converse(s * s - 10 * s, uu, ll * ll);

    // back from exact squares to the fixed-point squared length
    lemma_fundamental_div_mod(ux * ux, 65536);
    lemma_fundamental_div_mod(uy * uy, 65536);
    lemma_fundamental_div_mod(uz * uz, 65536);
    lemma_mod_bound(ux * ux, 65536);
    lemma_mod_bound(uy * uy, 65536);
    lemma_mod_bound(uz * uz, 65536);
    let lsu = ls_spec(u);
    assert(s * lsu <= uu < s * lsu + 3 * s);
    assert(lsu < s + 23) by {
        assert(s * lsu < s * (s + 23)) by (nonlinear_arith)
            requires
                s * lsu <= uu,
                uu < s * s + 23 * s,
                s == 65536,
        ;
        lemma_mul_strict_inequality_converse(lsu, s + 23, s);
        lemma_mul_is_commutative(lsu, s);
        lemma_mul_is_commutative(s + 23, s);
    }
    assert(lsu > s - 14) by {
        assert(s * lsu > s * (s - 14)) by (nonlinear_arith)
            requires
                uu < s * lsu + 3 * s,
                uu >= s * s - 10 * s,
                s == 65536,
        ;
        lemma_mul_strict_inequality_converse(s - 14, lsu, s);
        lemma_mul_is_commutative(lsu, s);
        lemma_mul_is_commutative(s - 14, s);
    }
}

/// `v` mirrored about the plane with normal `n`.
pub fn reflect(v: Vec3, n: Vec3) -> (r: Vec3)
    requires
        vec_bounded(v, DIR_MAX as int),
        vec_bounded(n, NORMAL_MAX as int),
    ensures
        (r.x as int, r.y as int, r.z as int) == reflect_spec(v, n),
        vec_bounded(r, 0x4000_0000),
{
    proof {
        lemma_dot_bound(v, n, DIR_MAX as int, NORMAL_MAX as int);
    }
    let d = dot(v, n);
    let d2 = 2 * d;
    proof {
        lemma_fxm_bound(d2 as int, n.x as int, 0x2400_0000, NORMAL_MAX as int);
        lemma_fxm_bound(d2 as int, n.y as int, 0x2400_0000, NORMAL_MAX as int);
        lemma_fxm_bound(d2 as int, n.z as int, 0x2400_0000, NORMAL_MAX as int);
    }
    Vec3 { x: v.x - fx_mul(d2, n.x), y: v.y - fx_mul(d2, n.y), z: v.z - fx_mul(d2, n.z) }
}

/// The refraction of the unit direction `uv` through a surface with
/// normal `n`, for a ratio of refractive indices `ratio`: the component
/// perpendicular to `n` is `ratio * (uv + cos * n)` with
/// `cos = min(dot(-uv, n), 1)`, and the parallel component is
/// `-sqrt(|1 - |perp|^2|) * n`.
pub open spec fn refract_spec(uv: Vec3, n: Vec3, ratio: int) -> (int, int, int) {
    let cos0 = dot_spec(vneg(uv), n);
    let cos = if cos0 > FX_ONE {
        FX_ONE as int
    } else {
        cos0
    };
    let wx = uv.x + fx_mul_spec(cos, n.x as int);
    let wy = uv.y + fx_mul_spec(cos, n.y as int);
    let wz = uv.z + fx_mul_spec(cos, n.z as int);
    let px = fx_mul_spec(ratio, wx);
    let py = fx_mul_spec(ratio, wy);
    let pz = fx_mul_spec(ratio, wz);
    let pls = fx_mul_spec(px, px) + fx_mul_spec(py, py) + fx_mul_spec(pz, pz);
    let dd = if FX_ONE - pls >= 0 {
        FX_ONE - pls
    } else {
        pls - FX_ONE
    };
    let sq = sqrt_floor(dd * FX_ONE);
    (
        px - fx_mul_spec(sq, n.x as int),
        py - fx_mul_spec(sq, n.y as int),
        pz - fx_mul_spec(sq, n.z as int),
    )
}

/// Refraction by Snell's law, for a unit incident direction.
pub fn refract(uv: Vec3, n: Vec3, ratio: i64) -> (r: Vec3)
    requires
        vec_bounded(uv, 2 * FX_ONE),
        vec_bounded(n, NORMAL_MAX as int),
        1 <= ratio <= 0x8_0000,
    ensures
        (r.x as int, r.y as int, r.z as int) == refract_spec(uv, n, ratio as int),
        vec_bounded(r, 0x200_0000),
{
    let nu = uv.neg();
    proof {
        lemma_dot_bound(nu, n, 2 * FX_ONE, NORMAL_MAX as int);
    }
    let cos0 = dot(nu, n);
    let cos: i64 = if cos0 > 65536 {
        65536
    } else {
        cos0
    };
    proof {
        lemma_fxm_bound(cos as int, n.x as int, 589827, NORMAL_MAX as int);
        lemma_fxm_bound(cos as int, n.y as int, 589827, NORMAL_MAX as int);
        lemma_fxm_bound(cos as int, n.z as int, 589827, NORMAL_MAX as int);
    }
    let w = uv.add(n.scale(cos));
    proof {
        lemma_fxm_bound(ratio as int, w.x as int, 0x8_0000, 1015813);
        lemma_fxm_bound(ratio as int, w.y as int, 0x8_0000, 1015813);
        lemma_fxm_bound(ratio as int, w.z as int, 0x8_0000, 1015813);
    }
    let p = w.scale(ratio);
    let pls = p.length_squared();
    proof {
        lemma_dot_bound(p, p, 8126505, 8126505);
    }
    let dd: i64 = if 65536 - pls >= 0 {
        65536 - pls
    } else {
        pls - 65536
    };
    let sq = fx_sqrt(dd);
    proof {
        assert(sq <= 14100000) by (nonlinear_arith)
            requires
                0 <= sq,
                sq * sq <= dd * 65536,
                dd <= 3_030_000_000,
        ;
        lemma_fxm_bound(sq as int, n.x as int, 14100000, NORMAL_MAX as int);
        lemma_fxm_bound(sq as int, n.y as int, 14100000, NORMAL_MAX as int);
        lemma_fxm_bound(sq as int, n.z as int, 14100000, NORMAL_MAX as int);
    }
    Vec3 { x: p.x - fx_mul(sq, n.x), y: p.y - fx_mul(sq, n.y), z: p.z - fx_mul(sq, n.z) }
}

/// A vector drawn by rejection from a spherical shell of the unit ball
/// and scaled to unit length. The shell's floor (squared length one
/// quarter) keeps the sample where the fixed-point normalizer is
/// accurate; any spherically symmetric acceptance region distributes
/// directions uniformly.
pub open spec fn unit_sample_pre(p: Vec3) -> bool {
    vec_bounded(p, FX_ONE as int) && 16384 <= ls_spec(p) <= FX_ONE
}

/// `r` is the normalization of some acceptable sample from the shell.
pub open spec fn is_unit_sample(r: Vec3) -> bool {
    exists|p: Vec3| unit_sample_pre(p) && (r.x as int, r.y as int, r.z as int) == #[trigger] unit_spec(p)
}

/// Negating both factors of a fixed-point product leaves it unchanged;
/// negating one negates it, up to the floor's one-unit slack.
proof fn lemma_fxm_negated(a: int, b: int)
    ensures
        fx_mul_spec(-a, -b) == fx_mul_spec(a, b),
        -fx_mul_spec(a, b) - 1 <= fx_mul_spec(-a, b) <= -fx_mul_spec(a, b),
{
    assert((-a) * (-b) == a * b) by (nonlinear_arith);
    assert((-a) * b == -(a * b)) by (nonlinear_arith);
    let x = a * b;
    let q = x / 65536;
    let rem = x % 65536;
    lemma_fundamental_div_mod(x, 65536);
    lemma_mod_bound(x, 65536);
    if rem == 0 {
        assert(-x == (-q) * 65536 + 0) by (nonlinear_arith)
            requires
                x == 65536 * q + rem,
                rem == 0,
        ;
        lemma_fundamental_div_mod_converse_div(-x, 65536, -q, 0);
    } else {
        assert(-x == (-q - 1) * 65536 + (65536 - rem)) by (nonlinear_arith)
            requires
                x == 65536 * q + rem,
        ;
        lemma_fundamental_div_mod_converse_div(-x, 65536, -q - 1, 65536 - rem);
    }
}

/// A random vector of nearly unit length: a point is drawn in the cube
/// `[-1, 1]^3` until its squared length lands in `[1/4, 1]`, then scaled
/// to unit length, leaving the squared length within 32 fixed-point
/// steps of one. After too many rejections a fixed unit vector stands
/// in.
pub fn random_unit_vector() -> (r: Vec3)
    ensures
        is_unit_sample(r),
        vec_bounded(r, 2 * FX_ONE),
        FX_ONE - 32 <= ls_spec(r) <= FX_ONE + 32,
{
    let mut tries: u32 = 0;
    while tries < 64
        decreases 64 - tries,
    {
        let p = Vec3::random_range(-65536, 65536);
        let ls = p.length_squared();
        if 16384 <= ls && ls <= 65536 {
            let u = unit_vector(p);
            proof {
                assert(unit_sample_pre(p));
                assert((u.x as int, u.y as int, u.z as int) == unit_spec(p));
                lemma_unit_vector_length(p);
            }
            return u;
        }
        tries = tries + 1;
    }
    let p = Vec3 { x: 0, y: 0, z: 65536 };
    proof {
        assert(ls_spec(p) == 65536);
        assert(unit_sample_pre(p));
    }
    let u = unit_vector(p);
    proof {
        assert((u.x as int, u.y as int, u.z as int) == unit_spec(p));
        lemma_unit_vector_length(p);
    }
    u
}

/// A random nearly-unit vector on the hemisphere around `normal`: a unit
/// sample, negated when it points against the normal. The flooring of
/// the negated components can leave the dot product up to three
/// fixed-point steps below zero.
pub fn random_on_hemisphere(normal: &Vec3) -> (r: Vec3)
    requires
        vec_bounded(*normal, NORMAL_MAX as int),
    ensures
        vec_bounded(r, 2 * FX_ONE),
        FX_ONE - 32 <= ls_spec(r) <= FX_ONE + 32,
        dot_spec(r, *normal) >= -3,
        (is_unit_sample(r) && dot_spec(r, *normal) > 0) || (is_unit_sample(vneg(r))
            && dot_spec(vneg(r), *normal) <= 0),
{
    let on_unit_sphere = random_unit_vector();
    proof {
        lemma_dot_bound(on_unit_sphere, *normal, 2 * FX_ONE, NORMAL_MAX as int);
    }
    let d = dot(on_unit_sphere, *normal);
    if d > 0 {
        on_unit_sphere
    } else {
        let r = on_unit_sphere.neg();
        proof {
            assert(vneg(r) == on_unit_sphere);
            lemma_fxm_negated(on_unit_sphere.x as int, normal.x as int);
            lemma_fxm_negated(on_unit_sphere.y as int, normal.y as int);
            lemma_fxm_negated(on_unit_sphere.z as int, normal.z as int);
            lemma_fxm_negated(on_unit_sphere.x as int, on_unit_sphere.x as int);
            lemma_fxm_negated(on_unit_sphere.y as int, on_unit_sphere.y as int);
            lemma_fxm_negated(on_unit_sphere.z as int, on_unit_sphere.z as int);
            assert(ls_spec(r) == ls_spec(on_unit_sphere));
            assert(dot_spec(r, *normal) >= -dot_spec(on_unit_sphere, *normal) - 3);
        }
        r
    }
}

/// A random point in the unit disk in the `z = 0` plane, drawn by
/// rejection; after too many rejections the center stands in.
pub fn random_in_unit_disk() -> (r: Vec3)
    ensures
        r.z == 0,
        vec_bounded(r, FX_ONE as int),
        0 <= ls_spec(r) < FX_ONE,
{
    let mut tries: u32 = 0;
    while tries < 64
        decreases 64 - tries,
    {
        let p = Vec3 {
            x: random_double_range(-65536, 65536),
            y: random_double_range(-65536, 65536),
            z: 0,
        };
        let ls = p.length_squared();
        if ls < 65536 {
            return p;
        }
        tries = tries + 1;
    }
    let p = Vec3 { x: 0, y: 0, z: 0 };
    proof {
        assert(ls_spec(p) == 0);
    }
    p
}

} // verus!
