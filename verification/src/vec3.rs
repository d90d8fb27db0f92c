//! Three-component fixed-point vectors.
//!
//! The spec-level model of a vector is `V3`, a triple of unbounded
//! integers; every executable operation is proved equal to a spec mirror
//! over `V3` built from `mul_fx` / `divc_fx` / `sqrt_fx`.

use vstd::prelude::*;
use crate::fx;
use crate::fx::{SCALE, T_HUGE, mag, min_i, mul_fx, divc_fx, sqrt_fx, tdiv, fits_i64};
use crate::rng::rand_unit;

verus! {

/// The mathematical model of a vector or point: unbounded components.
pub ghost struct V3 {
    pub x: int,
    pub y: int,
    pub z: int,
}

#[derive(Clone, Copy, Debug, PartialEq, Eq, Structural)]
pub struct Vec3 {
    pub x: i64,
    pub y: i64,
    pub z: i64,
}

impl View for Vec3 {
    type V = V3;

    open spec fn view(&self) -> V3 {
        V3 { x: self.x as int, y: self.y as int, z: self.z as int }
    }
}

/// All three components within `m` in magnitude.
pub open spec fn v3_bounded(v: V3, m: int) -> bool {
    mag(v.x) <= m && mag(v.y) <= m && mag(v.z) <= m
}

/// All three components representable as `i64`.
pub open spec fn v3_fits(v: V3) -> bool {
    fits_i64(v.x) && fits_i64(v.y) && fits_i64(v.z)
}

pub open spec fn add3(a: V3, b: V3) -> V3 {
    V3 { x: a.x + b.x, y: a.y + b.y, z: a.z + b.z }
}

pub open spec fn sub3(a: V3, b: V3) -> V3 {
    V3 { x: a.x - b.x, y: a.y - b.y, z: a.z - b.z }
}

pub open spec fn neg3(a: V3) -> V3 {
    V3 { x: -a.x, y: -a.y, z: -a.z }
}

/// Componentwise fixed-point scaling by the scalar `s`.
pub open spec fn scale3(a: V3, s: int) -> V3 {
    V3 { x: mul_fx(a.x, s), y: mul_fx(a.y, s), z: mul_fx(a.z, s) }
}

/// Componentwise saturated fixed-point division by the scalar `s`.
pub open spec fn div3(a: V3, s: int) -> V3 {
    V3 { x: divc_fx(a.x, s), y: divc_fx(a.y, s), z: divc_fx(a.z, s) }
}

/// Componentwise (Hadamard) fixed-point product, used for colors and
/// attenuation.
pub open spec fn hadamard3(a: V3, b: V3) -> V3 {
    V3 { x: mul_fx(a.x, b.x), y: mul_fx(a.y, b.y), z: mul_fx(a.z, b.z) }
}

/// Fixed-point dot product: the exact integer sum of products is formed
/// first and divided by `SCALE` once, rounding toward zero.
pub open spec fn dot_fx(a: V3, b: V3) -> int {
    tdiv(a.x * b.x + a.y * b.y + a.z * b.z, SCALE as int)
}

pub open spec fn cross_fx(a: V3, b: V3) -> V3 {
    V3 {
        x: mul_fx(a.y, b.z) - mul_fx(a.z, b.y),
        y: mul_fx(a.z, b.x) - mul_fx(a.x, b.z),
        z: mul_fx(a.x, b.y) - mul_fx(a.y, b.x),
    }
}

pub open spec fn length2_fx(a: V3) -> int {
    dot_fx(a, a)
}

pub open spec fn length_fx(a: V3) -> int {
    sqrt_fx(length2_fx(a))
}

/// A zero-length vector is left unchanged; anything else is divided by
/// its length.
pub open spec fn normalize_fx(a: V3) -> V3 {
    if length_fx(a) == 0 {
        a
    } else {
        div3(a, length_fx(a))
    }
}

/// Mirror reflection about the normal `n`: `v - 2 (v . n) n`.
pub open spec fn reflect_fx(v: V3, n: V3) -> V3 {
    sub3(v, scale3(n, 2 * dot_fx(v, n)))
}

/// Componentwise clamp into `[-m, m]`; geometry uses it to keep a
/// degenerate outward normal within the near-unit bound instead of
/// rejecting the hit.
pub open spec fn clamp3(v: V3, m: int) -> V3 {
    V3 {
        x: crate::fx::clamped(v.x, -m, m),
        y: crate::fx::clamped(v.y, -m, m),
        z: crate::fx::clamped(v.z, -m, m),
    }
}

/// A clamped vector is bounded, and clamping a vector already within
/// bounds changes nothing.
pub proof fn lemma_clamp3(v: V3, m: int)
    requires
        m >= 0,
    ensures
        v3_bounded(clamp3(v, m), m),
        v3_bounded(v, m) ==> clamp3(v, m) == v,
{
}

/// Refraction by the perpendicular/parallel decomposition:
/// `perp = ratio * (uv + cos_theta * n)` and
/// `par = -sqrt(|1 - |perp|^2|) * n`, with `cos_theta` capped at one.
pub open spec fn refract_fx(uv: V3, n: V3, ratio: int) -> V3 {
    let cos_theta = min_i(-dot_fx(uv, n), SCALE as int);
    let perp = scale3(add3(uv, scale3(n, cos_theta)), ratio);
    let par = scale3(n, -sqrt_fx(mag((SCALE as int) - length2_fx(perp))));
    add3(perp, par)
}

/// The algebra behind mirror reflection, in the exact (unrounded)
/// integer model: with `k = <n, n>` the scaled reflection
/// `k v - 2 <v, n> n` has squared length `k^2 |v|^2`, so reflecting
/// about a unit normal preserves length. The executable `reflect`
/// rounds each product to fixed point, so there the identity holds up
/// to that rounding.
pub proof fn lemma_reflect_preserves_length(vx: int, vy: int, vz: int, nx: int, ny: int, nz: int)
    ensures
        ({
            let d = vx * nx + vy * ny + vz * nz;
            let k = nx * nx + ny * ny + nz * nz;
            let rx = k * vx - 2 * d * nx;
            let ry = k * vy - 2 * d * ny;
            let rz = k * vz - 2 * d * nz;
            rx * rx + ry * ry + rz * rz == k * k * (vx * vx + vy * vy + vz * vz)
        }),
{
    lemma_reflect_len_core(
        vx,
        vy,
        vz,
        nx,
        ny,
        nz,
        vx * nx + vy * ny + vz * nz,
        nx * nx + ny * ny + nz * nz,
    );
}

/// Working part of the reflection identity, with the dot product `d`
/// and the normal's squared length `k` abstracted so that each
/// nonlinear step stays small.
proof fn lemma_reflect_len_core(
    vx: int,
    vy: int,
    vz: int,
    nx: int,
    ny: int,
    nz: int,
    d: int,
    k: int,
)
    requires
        d == vx * nx + vy * ny + vz * nz,
        k == nx * nx + ny * ny + nz * nz,
    ensures
        (k * vx - 2 * d * nx) * (k * vx - 2 * d * nx) + (k * vy - 2 * d * ny) * (k * vy - 2 * d
            * ny) + (k * vz - 2 * d * nz) * (k * vz - 2 * d * nz) == k * k * (vx * vx + vy * vy + vz
            * vz),
{
    lemma_sq_expand(k, vx, d, nx);
    lemma_sq_expand(k, vy, d, ny);
    lemma_sq_expand(k, vz, d, nz);
    lemma_distribute3(k * k, vx * vx, vy * vy, vz * vz);
    lemma_distribute3(k * d, vx * nx, vy * ny, vz * nz);
    lemma_distribute3(d * d, nx * nx, ny * ny, nz * nz);
    assert((k * d) * (vx * nx + vy * ny + vz * nz) == (k * d) * d);
    assert((d * d) * (nx * nx + ny * ny + nz * nz) == (d * d) * k);
    lemma_swap_product(k, d);
}

/// `(u - w)^2` expanded, for free `u` and `w`.
proof fn lemma_sq_binomial(u: int, w: int)
    ensures
        (u - w) * (u - w) == u * u - 2 * (u * w) + w * w,
{
    assert((u - w) * (u - w) == u * u - 2 * (u * w) + w * w) by (nonlinear_arith);
}

/// `(a b - 2 c e)^2` expanded.
#[verifier::rlimit(100)]
proof fn lemma_sq_expand(a: int, b: int, c: int, e: int)
    ensures
        (a * b - 2 * c * e) * (a * b - 2 * c * e) == a * a * (b * b) - 4 * ((a * c) * (b * e)) + 4
            * ((c * c) * (e * e)),
{
    lemma_sq_binomial(a * b, 2 * c * e);
    assert((a * b) * (a * b) == a * a * (b * b)) by (nonlinear_arith);
    assert((a * b) * (2 * c * e) == 2 * ((a * c) * (b * e))) by (nonlinear_arith);
    assert((2 * c * e) * (2 * c * e) == 4 * ((c * c) * (e * e))) by (nonlinear_arith);
}

/// Multiplication distributes over a three-term sum.
proof fn lemma_distribute3(q: int, x1: int, x2: int, x3: int)
    ensures
        q * x1 + q * x2 + q * x3 == q * (x1 + x2 + x3),
{
    assert(q * x1 + q * x2 + q * x3 == q * (x1 + x2 + x3)) by (nonlinear_arith);
}

/// `(k d) d == (d d) k`.
proof fn lemma_swap_product(k: int, d: int)
    ensures
        (k * d) * d == (d * d) * k,
{
    assert((k * d) * d == (d * d) * k) by (nonlinear_arith);
}

/// `u` is what `random_unit_vector` can return: the normalization of
/// some sample strictly inside the unit sphere, or the fixed unit
/// fallback when that normalization degenerates.
pub open spec fn unit_sample_ok(u: V3) -> bool {
    exists|w: V3|
        v3_bounded(w, SCALE as int) && length2_fx(w) < SCALE && u == (
        if v3_bounded(#[trigger] normalize_fx(w), 2 * (SCALE as int)) {
            normalize_fx(w)
        } else {
            (V3 { x: SCALE as int, y: 0, z: 0 })
        })
}

/// `true` when every component is below one fixed-point tick, the
/// degenerate-direction test.
pub open spec fn near_zero3(v: V3) -> bool {
    mag(v.x) < 1 && mag(v.y) < 1 && mag(v.z) < 1
}

/// The dot product of a vector with itself is nonnegative.
pub proof fn lemma_dot_self_nonneg(a: V3)
    ensures
        dot_fx(a, a) >= 0,
{
    assert(a.x * a.x + a.y * a.y + a.z * a.z >= 0) by (nonlinear_arith);
}

/// Negating one argument negates the dot product.
pub proof fn lemma_dot_neg(a: V3, b: V3)
    ensures
        dot_fx(a, neg3(b)) == -dot_fx(a, b),
{
    assert(a.x * -b.x + a.y * -b.y + a.z * -b.z == -(a.x * b.x + a.y * b.y + a.z * b.z))
        by (nonlinear_arith);
}

/// Magnitude bound for the dot product of bounded vectors.
pub proof fn lemma_dot_bound(a: V3, b: V3, m: int, n: int)
    requires
        v3_bounded(a, m),
        v3_bounded(b, n),
    ensures
        mag(dot_fx(a, b)) <= (3 * (m * n)) / (SCALE as int),
{
    fx::lemma_abs_mul_le(a.x, b.x, m, n);
    fx::lemma_abs_mul_le(a.y, b.y, m, n);
    fx::lemma_abs_mul_le(a.z, b.z, m, n);
    fx::lemma_tdiv_bound(a.x * b.x + a.y * b.y + a.z * b.z, SCALE as int, 3 * (m * n));
}

/// Magnitude bounds for every product inside a cross product, and for
/// the cross product itself.
pub proof fn lemma_cross_bounds(a: V3, b: V3, m: int, n: int)
    requires
        v3_bounded(a, m),
        v3_bounded(b, n),
    ensures
        mag(mul_fx(a.y, b.z)) <= (m * n) / (SCALE as int),
        mag(mul_fx(a.z, b.y)) <= (m * n) / (SCALE as int),
        mag(mul_fx(a.z, b.x)) <= (m * n) / (SCALE as int),
        mag(mul_fx(a.x, b.z)) <= (m * n) / (SCALE as int),
        mag(mul_fx(a.x, b.y)) <= (m * n) / (SCALE as int),
        mag(mul_fx(a.y, b.x)) <= (m * n) / (SCALE as int),
        v3_bounded(cross_fx(a, b), 2 * ((m * n) / (SCALE as int))),
{
    fx::lemma_mul_fx_bound(a.y, b.z, m, n);
    fx::lemma_mul_fx_bound(a.z, b.y, m, n);
    fx::lemma_mul_fx_bound(a.z, b.x, m, n);
    fx::lemma_mul_fx_bound(a.x, b.z, m, n);
    fx::lemma_mul_fx_bound(a.x, b.y, m, n);
    fx::lemma_mul_fx_bound(a.y, b.x, m, n);
}

/// Magnitude bound for a componentwise fixed-point scaling.
pub proof fn lemma_scale3_bound(a: V3, s: int, m: int, n: int)
    requires
        v3_bounded(a, m),
        mag(s) <= n,
    ensures
        v3_bounded(scale3(a, s), (m * n) / (SCALE as int)),
{
    fx::lemma_mul_fx_bound(a.x, s, m, n);
    fx::lemma_mul_fx_bound(a.y, s, m, n);
    fx::lemma_mul_fx_bound(a.z, s, m, n);
}

/// A saturated division never exceeds the saturation bound.
pub proof fn lemma_div3_bounded(a: V3, s: int)
    ensures
        v3_bounded(div3(a, s), T_HUGE as int),
{
}

impl Vec3 {
    pub fn new(x: i64, y: i64, z: i64) -> (v: Vec3)
        ensures
            v@ == (V3 { x: x as int, y: y as int, z: z as int }),
    {
        Vec3 { x, y, z }
    }

    pub fn zero() -> (v: Vec3)
        ensures
            v@ == (V3 { x: 0, y: 0, z: 0 }),
    {
        Vec3 { x: 0, y: 0, z: 0 }
    }

    pub fn add(self, o: Vec3) -> (r: Vec3)
        requires
            v3_fits(add3(self@, o@)),
        ensures
            r@ == add3(self@, o@),
    {
        Vec3 { x: self.x + o.x, y: self.y + o.y, z: self.z + o.z }
    }

    pub fn sub(self, o: Vec3) -> (r: Vec3)
        requires
            v3_fits(sub3(self@, o@)),
        ensures
            r@ == sub3(self@, o@),
    {
        Vec3 { x: self.x - o.x, y: self.y - o.y, z: self.z - o.z }
    }

    pub fn neg(self) -> (r: Vec3)
        requires
            v3_fits(neg3(self@)),
        ensures
            r@ == neg3(self@),
    {
        Vec3 { x: -self.x, y: -self.y, z: -self.z }
    }

    /// Scalar multiple, each component a fixed-point product.
    pub fn scale(self, s: i64) -> (r: Vec3)
        requires
            v3_fits(scale3(self@, s as int)),
        ensures
            r@ == scale3(self@, s as int),
    {
        Vec3 {
            x: fx::fmul(self.x, s),
            y: fx::fmul(self.y, s),
            z: fx::fmul(self.z, s),
        }
    }

    /// Scalar division, saturated at `T_HUGE`, so total for nonzero `s`.
    pub fn div(self, s: i64) -> (r: Vec3)
        requires
            s != 0,
        ensures
            r@ == div3(self@, s as int),
    {
        Vec3 {
            x: fx::fdivc(self.x, s),
            y: fx::fdivc(self.y, s),
            z: fx::fdivc(self.z, s),
        }
    }

    /// Componentwise product, used for color attenuation.
    pub fn hadamard(self, o: Vec3) -> (r: Vec3)
        requires
            v3_fits(hadamard3(self@, o@)),
        ensures
            r@ == hadamard3(self@, o@),
    {
        Vec3 {
            x: fx::fmul(self.x, o.x),
            y: fx::fmul(self.y, o.y),
            z: fx::fmul(self.z, o.z),
        }
    }

    pub fn dot(self, o: Vec3) -> (r: i64)
        requires
            v3_bounded(self@, 0x4000000000000000),
            v3_bounded(o@, 0x4000000000000000),
            fits_i64(dot_fx(self@, o@)),
        ensures
            r as int == dot_fx(self@, o@),
    {
        proof {
            fx::lemma_abs_mul_le(self.x as int, o.x as int, 0x4000000000000000, 0x4000000000000000);
            fx::lemma_abs_mul_le(self.y as int, o.y as int, 0x4000000000000000, 0x4000000000000000);
            fx::lemma_abs_mul_le(self.z as int, o.z as int, 0x4000000000000000, 0x4000000000000000);
        }
        let p: i128 = (self.x as i128) * (o.x as i128) + (self.y as i128) * (o.y as i128)
            + (self.z as i128) * (o.z as i128);
        fx::scale_down(p)
    }

    pub fn cross(self, o: Vec3) -> (r: Vec3)
        requires
            fits_i64(mul_fx(self@.y, o@.z)),
            fits_i64(mul_fx(self@.z, o@.y)),
            fits_i64(mul_fx(self@.z, o@.x)),
            fits_i64(mul_fx(self@.x, o@.z)),
            fits_i64(mul_fx(self@.x, o@.y)),
            fits_i64(mul_fx(self@.y, o@.x)),
            v3_fits(cross_fx(self@, o@)),
        ensures
            r@ == cross_fx(self@, o@),
    {
        Vec3 {
            x: fx::fmul(self.y, o.z) - fx::fmul(self.z, o.y),
            y: fx::fmul(self.z, o.x) - fx::fmul(self.x, o.z),
            z: fx::fmul(self.x, o.y) - fx::fmul(self.y, o.x),
        }
    }

    pub fn length2(self) -> (r: i64)
        requires
            v3_bounded(self@, 0x4000000000000000),
            fits_i64(length2_fx(self@)),
        ensures
            r as int == length2_fx(self@),
            r >= 0,
    {
        proof {
            lemma_dot_self_nonneg(self@);
        }
        self.dot(self)
    }

    pub fn length(self) -> (r: i64)
        requires
            v3_bounded(self@, 0x4000000000000000),
            fits_i64(length2_fx(self@)),
        ensures
            r as int == length_fx(self@),
            r >= 0,
    {
        let l2: i64 = self.length2();
        fx::fsqrt(l2)
    }

    /// Unit vector in the direction of `self`; a zero-length vector is
    /// returned unchanged.
    pub fn normalize(self) -> (r: Vec3)
        requires
            v3_bounded(self@, 0x4000000000000000),
            fits_i64(length2_fx(self@)),
        ensures
            r@ == normalize_fx(self@),
    {
        let len: i64 = self.length();
        if len == 0 {
            self
        } else {
            self.div(len)
        }
    }

    /// Componentwise clamp into `[-m, m]`.
    pub fn clamp_box(self, m: i64) -> (r: Vec3)
        requires
            m >= 0,
        ensures
            r@ == clamp3(self@, m as int),
    {
        Vec3 {
            x: fx::fclamp(self.x, -m, m),
            y: fx::fclamp(self.y, -m, m),
            z: fx::fclamp(self.z, -m, m),
        }
    }

    /// All components smaller than one fixed-point tick.
    pub fn near_zero(self) -> (r: bool)
        ensures
            r == near_zero3(self@),
    {
        self.x == 0 && self.y == 0 && self.z == 0
    }

    /// Components uniform in `[-1, 1)`.
    pub fn random(rng: &mut rand::rngs::SmallRng) -> (v: Vec3)
        ensures
            v3_bounded(v@, SCALE as int),
    {
        let x: i64 = 2 * rand_unit(rng) - SCALE;
        let y: i64 = 2 * rand_unit(rng) - SCALE;
        let z: i64 = 2 * rand_unit(rng) - SCALE;
        Vec3 { x, y, z }
    }

    /// Rejection-samples a vector of squared length below one. The
    /// retry loop is bounded; if every draw lands outside the sphere the
    /// fallback is a fixed interior vector.
    pub fn random_in_unit_sphere(rng: &mut rand::rngs::SmallRng) -> (v: Vec3)
        ensures
            v3_bounded(v@, SCALE as int),
            length2_fx(v@) < SCALE,
    {
        let mut i: usize = 0;
        while i < 64
            invariant
                i <= 64,
            decreases 64 - i,
        {
            let v = Vec3::random(rng);
            proof {
                lemma_dot_bound(v@, v@, SCALE as int, SCALE as int);
            }
            let l2: i64 = v.length2();
            if l2 < SCALE {
                return v;
            }
            i = i + 1;
        }
        let f = Vec3 { x: 32768, y: 0, z: 0 };
        proof {
            assert(f@.x * f@.x + f@.y * f@.y + f@.z * f@.z == 1073741824);
            assert(length2_fx(f@) == tdiv(1073741824, 65536));
            assert(1073741824int / 65536int == 16384int) by (nonlinear_arith);
            assert(tdiv(1073741824, 65536) == 16384);
        }
        f
    }

    /// A unit-sphere sample zeroed in `z`: a point in the unit disk.
    pub fn random_in_unit_disk(rng: &mut rand::rngs::SmallRng) -> (v: Vec3)
        ensures
            v3_bounded(v@, SCALE as int),
            v@.z == 0,
            length2_fx(v@) < SCALE,
    {
        let s = Vec3::random_in_unit_sphere(rng);
        let v = Vec3 { x: s.x, y: s.y, z: 0 };
        proof {
            assert(s@.z * s@.z >= 0) by (nonlinear_arith);
            fx::lemma_tdiv_monotone(
                v@.x * v@.x + v@.y * v@.y + v@.z * v@.z,
                s@.x * s@.x + s@.y * s@.y + s@.z * s@.z,
                SCALE as int,
            );
        }
        v
    }

    /// A random direction of roughly unit length: the normalization of
    /// an in-sphere sample, with a fixed unit fallback for degenerate
    /// draws (see `unit_sample_ok`).
    pub fn random_unit_vector(rng: &mut rand::rngs::SmallRng) -> (v: Vec3)
        ensures
            v3_bounded(v@, 2 * SCALE),
            unit_sample_ok(v@),
    {
        let s = Vec3::random_in_unit_sphere(rng);
        proof {
            lemma_dot_bound(s@, s@, SCALE as int, SCALE as int);
        }
        let n = s.normalize();
        let r: Vec3 = if n.x >= -2 * SCALE && n.x <= 2 * SCALE && n.y >= -2 * SCALE && n.y <= 2
            * SCALE && n.z >= -2 * SCALE && n.z <= 2 * SCALE {
            n
        } else {
            Vec3 { x: SCALE, y: 0, z: 0 }
        };
        proof {
            assert(unit_sample_ok(r@)) by {
                assert(v3_bounded(s@, SCALE as int) && length2_fx(s@) < SCALE && r@ == (
                if v3_bounded(normalize_fx(s@), 2 * (SCALE as int)) {
                    normalize_fx(s@)
                } else {
                    (V3 { x: SCALE as int, y: 0, z: 0 })
                }));
            }
        }
        r
    }

    /// `self - 2 (self . n) n`, the mirror reflection about `n`.
    pub fn reflect(self, n: Vec3) -> (r: Vec3)
        requires
            v3_bounded(self@, 0x4000000000000000),
            v3_bounded(n@, 0x4000000000000000),
            fits_i64(dot_fx(self@, n@)),
            fits_i64(2 * dot_fx(self@, n@)),
            v3_fits(scale3(n@, 2 * dot_fx(self@, n@))),
            v3_fits(reflect_fx(self@, n@)),
        ensures
            r@ == reflect_fx(self@, n@),
    {
        let d: i64 = self.dot(n);
        self.sub(n.scale(2 * d))
    }

    /// Refraction of the (near-unit) direction `uv` at a surface with
    /// (near-unit) normal `n` and refraction ratio `etai_over_etat`.
    pub fn refract(uv: Vec3, n: Vec3, etai_over_etat: i64) -> (r: Vec3)
        requires
            v3_bounded(uv@, 2 * SCALE),
            v3_bounded(n@, 2 * SCALE),
            0 <= etai_over_etat <= 524288,
        ensures
            r@ == refract_fx(uv@, n@, etai_over_etat as int),
    {
        proof {
            lemma_dot_bound(uv@, n@, 2 * (SCALE as int), 2 * (SCALE as int));
            assert(3 * ((2 * (SCALE as int)) * (2 * (SCALE as int))) == 51539607552int)
                by (nonlinear_arith);
            assert(mag(dot_fx(uv@, n@)) <= 786432);
        }
        let d: i64 = uv.dot(n);
        let cos_theta: i64 = fx::fmin(-d, SCALE);
        proof {
            assert(mag(cos_theta as int) <= 12 * SCALE);
            lemma_scale3_bound(n@, cos_theta as int, 2 * SCALE, 12 * SCALE);
        }
        let sn = n.scale(cos_theta);
        let sum = uv.add(sn);
        proof {
            assert(v3_bounded(sum@, 26 * SCALE));
            lemma_scale3_bound(sum@, etai_over_etat as int, 26 * SCALE, 8 * SCALE);
            assert(v3_bounded(scale3(sum@, etai_over_etat as int), 208 * SCALE));
        }
        let perp = sum.scale(etai_over_etat);
        proof {
            lemma_dot_bound(perp@, perp@, 208 * SCALE, 208 * SCALE);
            lemma_dot_self_nonneg(perp@);
        }
        let l2: i64 = perp.length2();
        let a: i64 = fx::fabs(SCALE - l2);
        let s: i64 = fx::fsqrt(a);
        proof {
            assert((s as int) * (s as int) < 1125899906842624 * 1125899906842624) by {
                assert((s as int) * (s as int) <= (a as int) * (SCALE as int));
            }
            fx::lemma_sq_le(s as int, 1125899906842623);
            lemma_scale3_bound(n@, -(s as int), 2 * SCALE, 1125899906842624);
        }
        let par = n.scale(-s);
        perp.add(par)
    }
}

} // verus!
