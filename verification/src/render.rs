//! The recursive radiance integrator and per-pixel sample
//! accumulation.

use vstd::prelude::*;
use crate::bvh::{BVHNode, bvh_wf, bvh_hit_fx};
use crate::color::{Color, color_in_01, black3, white3, lemma_hadamard_in_01};
use crate::fx;
use crate::fx::{SCALE, mul_fx, clamped};
use crate::geometry::{HitRecord, HitV, Shape, shapes_wf, shape_list_hit_fx, hit_list};
use crate::material::{Material, ScatteringRecord, scatter_ok};
use crate::ray::{Ray, RayV, ray_wf, T_EPS, T_FAR, WORLD_MAX};
use crate::vec3::{V3, add3, hadamard3, scale3, normalize_fx, lemma_dot_bound, lemma_div3_bounded};

verus! {

/// The zenith color of the background gradient.
pub open spec fn sky3() -> V3 {
    V3 { x: 32768, y: 45875, z: 65536 }
}

/// The background gradient: a blend between white at the horizon and
/// sky blue at the zenith, driven by the vertical component of the
/// normalized ray direction (blend factor clamped into `[0, 1]`).
pub open spec fn background_fx(r: RayV) -> V3 {
    let unit = normalize_fx(r.dir);
    let t = clamped(mul_fx(32768, unit.y + SCALE), 0, SCALE as int);
    add3(scale3(white3(), (SCALE as int) - t), scale3(sky3(), t))
}

/// The background gradient is a color in `[0, 1]`.
pub proof fn lemma_background_in_01(r: RayV)
    ensures
        color_in_01(background_fx(r)),
{
    let unit = normalize_fx(r.dir);
    let t = clamped(mul_fx(32768, unit.y + SCALE), 0, SCALE as int);
    fx::lemma_mul_fx_one((SCALE as int) - t);
    fx::lemma_mul_fx_nonneg(32768, t);
    fx::lemma_mul_fx_nonneg(45875, t);
    fx::lemma_mul_fx_nonneg(65536, t);
    fx::lemma_mul_fx_bound(32768, t, SCALE as int, t);
    fx::lemma_mul_fx_bound(45875, t, SCALE as int, t);
    fx::lemma_mul_fx_bound(65536, t, SCALE as int, t);
    vstd::arithmetic::div_mod::lemma_div_multiples_vanish(t, SCALE as int);
    assert(((SCALE as int) * t) / (SCALE as int) == t);
}

/// Evaluates the background gradient for a ray.
pub fn background(ray: &Ray) -> (c: Color)
    requires
        ray_wf(ray@),
    ensures
        c@ == background_fx(ray@),
        color_in_01(c@),
{
    proof {
        lemma_dot_bound(ray@.dir, ray@.dir, WORLD_MAX as int, WORLD_MAX as int);
        assert(3 * (67108864int * 67108864int) / 65536int == 206158430208int) by (nonlinear_arith);
        lemma_div3_bounded(ray@.dir, crate::vec3::length_fx(ray@.dir));
        lemma_background_in_01(ray@);
    }
    let unit = ray.dir.normalize();
    let t: i64 = fx::fclamp(fx::fmul(32768, unit.y + SCALE), 0, SCALE);
    let white = Color::new(SCALE, SCALE, SCALE);
    let sky = Color::new(32768, 45875, 65536);
    let a = white.scale(SCALE - t);
    let b = sky.scale(t);
    proof {
        fx::lemma_mul_fx_one((SCALE as int) - (t as int));
        fx::lemma_mul_fx_nonneg(32768, t as int);
        fx::lemma_mul_fx_nonneg(45875, t as int);
        fx::lemma_mul_fx_nonneg(65536, t as int);
        fx::lemma_mul_fx_bound(32768, t as int, SCALE as int, t as int);
        fx::lemma_mul_fx_bound(45875, t as int, SCALE as int, t as int);
        fx::lemma_mul_fx_bound(65536, t as int, SCALE as int, t as int);
        vstd::arithmetic::div_mod::lemma_div_multiples_vanish(t as int, SCALE as int);
    }
    a.add(b)
}

/// Recursive radiance estimate for one ray against a tree-accelerated
/// world.
///
/// Exhausted depth gives black; a missed ray gives the background
/// gradient; a hit is attenuated recursively. A scattered ray that
/// leaves the representable world is treated as absorbed.
///
/// What the integrator returns for a hit: black for the non-scattering
/// material, and otherwise some scatter record admitted by
/// `scatter_ok`, whose attenuation multiplies a recursive radiance
/// that itself meets the integrator's contract one level down (or
/// black, when the scattered ray left the representable world).
pub open spec fn hit_radiance_ok(
    world: BVHNode,
    m: Material,
    rayv: RayV,
    h: HitV,
    depth: u32,
    c: V3,
) -> bool
    decreases depth, 0int,
{
    match m {
        Material::BlackBody => c == black3(),
        _ => exists|sr: ScatteringRecord, inner: V3|
            #![trigger scatter_ok(m, rayv, h, Option::Some(sr)), color_in_01(inner)]
            scatter_ok(m, rayv, h, Option::Some(sr)) && color_in_01(inner) && (if depth > 0 {
                sample_ok(world, sr.ray, (depth - 1) as u32, inner)
            } else {
                true
            }) && c == (if ray_wf(sr.ray@) {
                hadamard3(sr.attenuation@, inner)
            } else {
                black3()
            }),
    }
}

/// The full contract of one radiance sample against the tree: a color
/// in `[0, 1]`, black at exhausted depth, the background on a miss,
/// and a `hit_radiance_ok` value on a hit.
pub open spec fn sample_ok(world: BVHNode, ray: Ray, depth: u32, c: V3) -> bool
    decreases depth, 1int,
{
    color_in_01(c) && (depth == 0 ==> c == black3()) && ((depth > 0 && ray_wf(ray@))
        ==> match bvh_hit_fx(world, ray@, T_EPS as int, T_FAR as int) {
        Option::Some(h) => hit_radiance_ok(world, h.material, ray@, h, depth, c),
        Option::None => c == background_fx(ray@),
    })
}

/// `hit_radiance_ok` against the flat shape list.
pub open spec fn hit_radiance_ok_flat(
    world: Seq<Shape>,
    m: Material,
    rayv: RayV,
    h: HitV,
    depth: u32,
    c: V3,
) -> bool
    decreases depth, 0int,
{
    match m {
        Material::BlackBody => c == black3(),
        _ => exists|sr: ScatteringRecord, inner: V3|
            #![trigger scatter_ok(m, rayv, h, Option::Some(sr)), color_in_01(inner)]
            scatter_ok(m, rayv, h, Option::Some(sr)) && color_in_01(inner) && (if depth > 0 {
                sample_ok_flat(world, sr.ray, (depth - 1) as u32, inner)
            } else {
                true
            }) && c == (if ray_wf(sr.ray@) {
                hadamard3(sr.attenuation@, inner)
            } else {
                black3()
            }),
    }
}

/// The same sample contract against the flat shape list.
pub open spec fn sample_ok_flat(world: Seq<Shape>, ray: Ray, depth: u32, c: V3) -> bool
    decreases depth, 1int,
{
    color_in_01(c) && (depth == 0 ==> c == black3()) && ((depth > 0 && ray_wf(ray@))
        ==> match shape_list_hit_fx(world, ray@, T_EPS as int, T_FAR as int) {
        Option::Some(h) => hit_radiance_ok_flat(world, h.material, ray@, h, depth, c),
        Option::None => c == background_fx(ray@),
    })
}

pub fn ray_color(rng: &mut rand::rngs::SmallRng, ray: &Ray, world: &BVHNode, depth: u32) -> (c:
    Color)
    requires
        bvh_wf(*world),
    ensures
        sample_ok(*world, *ray, depth, c@),
    decreases depth,
{
    if depth == 0 {
        return Color::black();
    }
    if !ray.in_world() {
        return Color::black();
    }
    let hit_record: Option<HitRecord> = world.hit_by(ray, T_EPS, T_FAR);
    match hit_record {
        Option::Some(rec) => {
            let scattered: Option<crate::material::ScatteringRecord> = rec.material.scatter(
                rng,
                ray,
                &rec,
            );
            match scattered {
                Option::Some(sc) => {
                    proof {
                        assert(color_in_01(sc.attenuation@));
                    }
                    if !sc.ray.in_world() {
                        let res = Color::black();
                        proof {
                            assert(hit_radiance_ok(*world, rec@.material, ray@, rec@, depth, res@))
                                by {
                                assert(sample_ok(*world, sc.ray, (depth - 1) as u32, black3()));
                                assert(scatter_ok(rec@.material, ray@, rec@, Option::Some(sc))
                                    && color_in_01(black3()));
                            }
                        }
                        return res;
                    }
                    let inner: Color = ray_color(rng, &sc.ray, world, depth - 1);
                    proof {
                        lemma_hadamard_in_01(sc.attenuation@, inner@);
                    }
                    let res = sc.attenuation.hadamard(inner);
                    proof {
                        assert(hit_radiance_ok(*world, rec@.material, ray@, rec@, depth, res@)) by {
                            assert(scatter_ok(rec@.material, ray@, rec@, Option::Some(sc))
                                && color_in_01(inner@) && sample_ok(
                                *world,
                                sc.ray,
                                (depth - 1) as u32,
                                inner@,
                            ));
                        }
                    }
                    res
                },
                Option::None => {
                    proof {
                        assert(rec@.material is BlackBody);
                    }
                    Color::black()
                },
            }
        },
        Option::None => background(ray),
    }
}

/// Recursive radiance estimate against the flat, acceleration-free
/// shape list: the baseline the tree traversal is compared with.
pub fn ray_color_flat(
    rng: &mut rand::rngs::SmallRng,
    ray: &Ray,
    world: &Vec<Shape>,
    depth: u32,
) -> (c: Color)
    requires
        shapes_wf(world@),
    ensures
        sample_ok_flat(world@, *ray, depth, c@),
    decreases depth,
{
    if depth == 0 {
        return Color::black();
    }
    if !ray.in_world() {
        return Color::black();
    }
    let hit_record: Option<HitRecord> = hit_list(world, ray, T_EPS, T_FAR);
    match hit_record {
        Option::Some(rec) => {
            let scattered: Option<crate::material::ScatteringRecord> = rec.material.scatter(
                rng,
                ray,
                &rec,
            );
            match scattered {
                Option::Some(sc) => {
                    proof {
                        assert(color_in_01(sc.attenuation@));
                    }
                    if !sc.ray.in_world() {
                        let res = Color::black();
                        proof {
                            assert(hit_radiance_ok_flat(
                                world@,
                                rec@.material,
                                ray@,
                                rec@,
                                depth,
                                res@,
                            )) by {
                                assert(sample_ok_flat(world@, sc.ray, (depth - 1) as u32, black3()));
                                assert(scatter_ok(rec@.material, ray@, rec@, Option::Some(sc))
                                    && color_in_01(black3()));
                            }
                        }
                        return res;
                    }
                    let inner: Color = ray_color_flat(rng, &sc.ray, world, depth - 1);
                    proof {
                        lemma_hadamard_in_01(sc.attenuation@, inner@);
                    }
                    let res = sc.attenuation.hadamard(inner);
                    proof {
                        assert(hit_radiance_ok_flat(world@, rec@.material, ray@, rec@, depth, res@))
                            by {
                            assert(scatter_ok(rec@.material, ray@, rec@, Option::Some(sc))
                                && color_in_01(inner@) && sample_ok_flat(
                                world@,
                                sc.ray,
                                (depth - 1) as u32,
                                inner@,
                            ));
                        }
                    }
                    res
                },
                Option::None => {
                    proof {
                        assert(rec@.material is BlackBody);
                    }
                    Color::black()
                },
            }
        },
        Option::None => background(ray),
    }
}

/// Componentwise sum of a sequence of colors.
pub open spec fn sum3(s: Seq<V3>) -> V3
    decreases s.len(),
{
    if s.len() == 0 {
        V3 { x: 0, y: 0, z: 0 }
    } else {
        add3(sum3(s.drop_last()), s.last())
    }
}

/// Appending to the sequence adds to the sum.
pub proof fn lemma_sum3_push(s: Seq<V3>, v: V3)
    ensures
        sum3(s.push(v)) == add3(sum3(s), v),
{
    assert(s.push(v).drop_last() =~= s);
    assert(s.push(v).last() == v);
}

/// One radiance sample per given ray, each meeting the integrator's
/// contract.
pub open spec fn pixel_samples_ok(world: BVHNode, rays: Seq<Ray>, depth: u32, s: Seq<V3>) -> bool {
    s.len() == rays.len() && (forall|i: int|
        0 <= i < s.len() ==> sample_ok(world, rays[i], depth, #[trigger] s[i]))
}

/// Accumulates the radiance of one camera ray per sample; the caller
/// quantizes the sum with `map_color_value`, which divides by the
/// sample count. The result is the componentwise sum of one
/// per-contract radiance sample per ray (so with positive depth and
/// misses all around, it is the summed background, never a constant).
pub fn render_pixel(
    rng: &mut rand::rngs::SmallRng,
    world: &BVHNode,
    rays: &Vec<Ray>,
    max_depth: u32,
) -> (c: Color)
    requires
        bvh_wf(*world),
        rays@.len() <= 0x100000000,
    ensures
        0 <= c@.x <= rays@.len() * SCALE,
        0 <= c@.y <= rays@.len() * SCALE,
        0 <= c@.z <= rays@.len() * SCALE,
        exists|s: Seq<V3>|
            #[trigger] pixel_samples_ok(*world, rays@, max_depth, s) && c@ == sum3(s),
{
    let mut sum: Color = Color::black();
    let mut i: usize = 0;
    let ghost mut samples: Seq<V3> = Seq::empty();
    while i < rays.len()
        invariant
            bvh_wf(*world),
            rays@.len() <= 0x100000000,
            i <= rays@.len(),
            0 <= sum@.x <= i * SCALE,
            0 <= sum@.y <= i * SCALE,
            0 <= sum@.z <= i * SCALE,
            samples.len() == i,
            forall|k: int|
                0 <= k < samples.len() ==> sample_ok(*world, rays@[k], max_depth, #[trigger] samples[k]),
            sum@ == sum3(samples),
        decreases rays@.len() - i,
    {
        let sample: Color = ray_color(rng, &rays[i], world, max_depth);
        proof {
            assert((i + 1) * (SCALE as int) == i * (SCALE as int) + SCALE) by (nonlinear_arith);
            lemma_sum3_push(samples, sample@);
            samples = samples.push(sample@);
        }
        sum = sum.add(sample);
        i = i + 1;
    }
    proof {
        assert(pixel_samples_ok(*world, rays@, max_depth, samples) && sum@ == sum3(samples));
    }
    sum
}

} // verus!
