//! The material scattering model: diffuse, metal, dielectric and
//! non-scattering variants.
//!
//! Scattering draws random directions, so a result cannot be pinned to
//! one value; the contracts instead state, per variant, the origin and
//! attenuation of the scattered ray and the exact shape its direction
//! takes as a function of the random sample.

use vstd::prelude::*;
use vstd::arithmetic::div_mod::lemma_div_is_ordered_by_denominator;
use crate::color::{Color, color_in_01, white3};
use crate::fx;
use crate::fx::{SCALE, mag, mul_fx, div_fx, sqrt_fx, clamped};
use crate::geometry::{HitRecord, HitV, hit_wf};
use crate::ray::{Ray, RayV, ray_wf, WORLD_MAX};
use crate::rng::rand_unit;
use crate::vec3::{
    V3,
    Vec3,
    add3,
    scale3,
    clamp3,
    dot_fx,
    length2_fx,
    near_zero3,
    normalize_fx,
    reflect_fx,
    refract_fx,
    unit_sample_ok,
    v3_bounded,
    lemma_dot_bound,
    lemma_scale3_bound,
};

verus! {

/// A scattered ray together with the color attenuation it carries.
pub struct ScatteringRecord {
    pub ray: Ray,
    pub attenuation: Color,
}

#[derive(Clone, Copy, Debug, PartialEq, Eq, Structural)]
pub enum Material {
    Lambertian { albedo: Color },
    Metal { albedo: Color, fuzz: i64 },
    Dielectric { index_of_refraction: i64 },
    BlackBody,
}

/// Albedos are colors in `[0, 1]`, fuzz lies in `[0, 1]`, and the
/// refractive index lies in `[1/8, 8]`.
pub open spec fn mat_wf(m: Material) -> bool {
    match m {
        Material::Lambertian { albedo } => color_in_01(albedo@),
        Material::Metal { albedo, fuzz } => color_in_01(albedo@) && 0 <= fuzz <= SCALE,
        Material::Dielectric { index_of_refraction } => 8192 <= index_of_refraction <= 524288,
        Material::BlackBody => true,
    }
}

/// Schlick's approximation:
/// `r0 + (1 - r0) (1 - cos)^5` with `r0 = ((1 - n) / (1 + n))^2`.
pub open spec fn reflectance_fx(cosine: int, ref_idx: int) -> int {
    let r0d = div_fx((SCALE as int) - ref_idx, (SCALE as int) + ref_idx);
    let r0 = mul_fx(r0d, r0d);
    r0 + mul_fx((SCALE as int) - r0, pow5_fx((SCALE as int) - cosine))
}

pub open spec fn pow5_fx(x: int) -> int {
    mul_fx(mul_fx(mul_fx(x, x), mul_fx(x, x)), x)
}

/// The diffuse scatter direction: the normal plus a random unit vector,
/// falling back to the bare normal when the sum degenerates to zero.
pub open spec fn lambertian_dir_fx(normal: V3, u: V3) -> V3 {
    let t = add3(normal, u);
    if near_zero3(t) {
        normal
    } else {
        t
    }
}

/// Refraction ratio on entering (`1/ior`) or leaving (`ior`) the
/// medium.
pub open spec fn refraction_ratio_fx(front_face: bool, ior: int) -> int {
    if front_face {
        div_fx(SCALE as int, ior)
    } else {
        ior
    }
}

/// Cosine of the incidence angle, capped at one in magnitude.
pub open spec fn cos_theta_fx(unit_dir: V3, normal: V3) -> int {
    clamped(-dot_fx(unit_dir, normal), -(SCALE as int), SCALE as int)
}

/// Total internal reflection: `ratio * sin_theta > 1`.
pub open spec fn cannot_refract_fx(unit_dir: V3, normal: V3, ratio: int) -> bool {
    let cos = cos_theta_fx(unit_dir, normal);
    let sin = sqrt_fx((SCALE as int) - mul_fx(cos, cos));
    mul_fx(ratio, sin) > SCALE
}

/// Some normalized unit-sphere sample (or the degenerate-draw
/// fallback, see `unit_sample_ok`) explains `d` as a diffuse scatter
/// off `normal`.
pub open spec fn lambertian_dir_ok(normal: V3, d: V3) -> bool {
    exists|u: V3|
        v3_bounded(u, 2 * (SCALE as int)) && unit_sample_ok(u) && d
            == #[trigger] lambertian_dir_fx(normal, u)
}

/// Some sample strictly inside the unit sphere explains `d` as a
/// fuzz-perturbed mirror reflection.
pub open spec fn metal_dir_ok(ray_in: RayV, h: HitV, fuzz: int, d: V3) -> bool {
    exists|u: V3|
        v3_bounded(u, SCALE as int) && length2_fx(u) < SCALE && d == add3(
            reflect_fx(ray_in.dir, h.normal),
            #[trigger] scale3(u, fuzz),
        )
}

/// What scattering promises for each variant, whatever the random
/// draws were.
pub open spec fn scatter_ok(
    m: Material,
    ray_in: RayV,
    h: HitV,
    r: Option<ScatteringRecord>,
) -> bool {
    match m {
        Material::Lambertian { albedo } => match r {
            Option::Some(sr) => sr.ray.orig@ == h.point && sr.attenuation@ == albedo@
                && lambertian_dir_ok(h.normal, sr.ray.dir@),
            Option::None => false,
        },
        Material::Metal { albedo, fuzz } => match r {
            Option::Some(sr) => sr.ray.orig@ == h.point && sr.attenuation@ == albedo@
                && metal_dir_ok(ray_in, h, fuzz as int, sr.ray.dir@),
            Option::None => false,
        },
        Material::Dielectric { index_of_refraction } => {
            let unit = clamp3(normalize_fx(ray_in.dir), 2 * (SCALE as int));
            let ratio = refraction_ratio_fx(h.front_face, index_of_refraction as int);
            match r {
                Option::Some(sr) => sr.ray.orig@ == h.point && sr.attenuation@ == white3() && (
                sr.ray.dir@ == reflect_fx(unit, h.normal) || sr.ray.dir@ == refract_fx(
                    unit,
                    h.normal,
                    ratio,
                )) && (cannot_refract_fx(unit, h.normal, ratio) ==> sr.ray.dir@ == reflect_fx(
                    unit,
                    h.normal,
                )),
                Option::None => false,
            }
        },
        Material::BlackBody => r is None,
    }
}

/// Schlick reflectance, exact in fixed point.
pub fn reflectance(cosine: i64, ref_idx: i64) -> (r: i64)
    requires
        mag(cosine as int) <= SCALE,
        0 <= ref_idx <= 524288,
    ensures
        r as int == reflectance_fx(cosine as int, ref_idx as int),
{
    proof {
        fx::lemma_div_fx_unit(
            (SCALE as int) - (ref_idx as int),
            (SCALE as int) + (ref_idx as int),
        );
        assert((65536int * 65536int) / 65536int == 65536int) by (nonlinear_arith);
    }
    let r0d: i64 = fx::fdiv(SCALE - ref_idx, SCALE + ref_idx);
    proof {
        fx::lemma_mul_fx_bound(r0d as int, r0d as int, SCALE as int, SCALE as int);
        fx::lemma_mul_fx_sq_nonneg(r0d as int);
    }
    let r0: i64 = fx::fmul(r0d, r0d);
    let p: i64 = SCALE - cosine;
    proof {
        assert((131072int * 131072int) / 65536int == 262144int) by (nonlinear_arith);
        fx::lemma_mul_fx_bound(p as int, p as int, 131072, 131072);
        fx::lemma_mul_fx_sq_nonneg(p as int);
        assert((262144int * 262144int) / 65536int == 1048576int) by (nonlinear_arith);
    }
    let p2: i64 = fx::fmul(p, p);
    proof {
        fx::lemma_mul_fx_bound(p2 as int, p2 as int, 262144, 262144);
        fx::lemma_mul_fx_sq_nonneg(p2 as int);
        assert((1048576int * 131072int) / 65536int == 2097152int) by (nonlinear_arith);
    }
    let p4: i64 = fx::fmul(p2, p2);
    proof {
        fx::lemma_mul_fx_bound(p4 as int, p as int, 1048576, 131072);
        fx::lemma_mul_fx_nonneg(p4 as int, p as int);
        assert((65536int * 2097152int) / 65536int == 2097152int) by (nonlinear_arith);
    }
    let p5: i64 = fx::fmul(p4, p);
    proof {
        fx::lemma_mul_fx_bound((SCALE as int) - (r0 as int), p5 as int, SCALE as int, 2097152);
        fx::lemma_mul_fx_nonneg((SCALE as int) - (r0 as int), p5 as int);
    }
    let f: i64 = fx::fmul(SCALE - r0, p5);
    r0 + f
}

impl Material {
    /// Evaluate scattering of `ray_in` at `hit_record`, drawing any
    /// random samples from `rng`.
    pub fn scatter(&self, rng: &mut rand::rngs::SmallRng, ray_in: &Ray, hit_record: &HitRecord) -> (r:
        Option<ScatteringRecord>)
        requires
            mat_wf(*self),
            ray_wf(ray_in@),
            hit_wf(hit_record@),
        ensures
            scatter_ok(*self, ray_in@, hit_record@, r),
    {
        match *self {
            Material::Lambertian { albedo } => Material::scatter_lambertian(
                rng,
                hit_record,
                albedo,
            ),
            Material::Metal { albedo, fuzz } => Material::scatter_metal(
                rng,
                ray_in,
                hit_record,
                albedo,
                fuzz,
            ),
            Material::Dielectric { index_of_refraction } => Material::scatter_dielectric(
                rng,
                ray_in,
                hit_record,
                index_of_refraction,
            ),
            Material::BlackBody => Option::None,
        }
    }

    fn scatter_lambertian(
        rng: &mut rand::rngs::SmallRng,
        hit_record: &HitRecord,
        albedo: Color,
    ) -> (r: Option<ScatteringRecord>)
        requires
            hit_wf(hit_record@),
        ensures
            scatter_ok(
                Material::Lambertian { albedo },
                arbitrary(),
                hit_record@,
                r,
            ),
    {
        let u: Vec3 = Vec3::random_unit_vector(rng);
        let mut target: Vec3 = hit_record.normal.add(u);
        if target.near_zero() {
            target = hit_record.normal;
        }
        proof {
            assert(lambertian_dir_ok(hit_record@.normal, target@)) by {
                assert(v3_bounded(u@, 2 * (SCALE as int)) && unit_sample_ok(u@) && target@
                    == lambertian_dir_fx(hit_record@.normal, u@));
            }
        }
        let scattered_ray = Ray { orig: hit_record.point, dir: target };
        Option::Some(ScatteringRecord { ray: scattered_ray, attenuation: albedo })
    }

    fn scatter_metal(
        rng: &mut rand::rngs::SmallRng,
        ray_in: &Ray,
        hit_record: &HitRecord,
        albedo: Color,
        fuzz: i64,
    ) -> (r: Option<ScatteringRecord>)
        requires
            ray_wf(ray_in@),
            hit_wf(hit_record@),
            0 <= fuzz <= SCALE,
        ensures
            scatter_ok(
                Material::Metal { albedo, fuzz },
                ray_in@,
                hit_record@,
                r,
            ),
    {
        proof {
            lemma_dot_bound(ray_in@.dir, hit_record@.normal, WORLD_MAX as int, 2 * (SCALE as int));
            assert(3 * (67108864int * 131072int) / 65536int == 402653184int) by (nonlinear_arith);
            lemma_scale3_bound(
                hit_record@.normal,
                2 * dot_fx(ray_in@.dir, hit_record@.normal),
                2 * (SCALE as int),
                805306368,
            );
            assert((131072int * 805306368int) / 65536int == 1610612736int) by (nonlinear_arith);
        }
        let reflected: Vec3 = ray_in.dir.reflect(hit_record.normal);
        let u: Vec3 = Vec3::random_in_unit_sphere(rng);
        proof {
            lemma_scale3_bound(u@, fuzz as int, SCALE as int, SCALE as int);
            assert((65536int * 65536int) / 65536int == 65536int) by (nonlinear_arith);
        }
        let fz: Vec3 = u.scale(fuzz);
        let dir: Vec3 = reflected.add(fz);
        proof {
            assert(metal_dir_ok(ray_in@, hit_record@, fuzz as int, dir@)) by {
                assert(v3_bounded(u@, SCALE as int) && length2_fx(u@) < SCALE && dir@ == add3(
                    reflect_fx(ray_in@.dir, hit_record@.normal),
                    scale3(u@, fuzz as int),
                ));
            }
        }
        let scattered_ray = Ray { orig: hit_record.point, dir };
        Option::Some(ScatteringRecord { ray: scattered_ray, attenuation: albedo })
    }

    fn scatter_dielectric(
        rng: &mut rand::rngs::SmallRng,
        ray_in: &Ray,
        hit_record: &HitRecord,
        index_of_refraction: i64,
    ) -> (r: Option<ScatteringRecord>)
        requires
            ray_wf(ray_in@),
            hit_wf(hit_record@),
            8192 <= index_of_refraction <= 524288,
        ensures
            scatter_ok(
                Material::Dielectric { index_of_refraction },
                ray_in@,
                hit_record@,
                r,
            ),
    {
        let refraction_ratio: i64 = if hit_record.front_face {
            proof {
                fx::lemma_tdiv_bound(
                    (SCALE as int) * (SCALE as int),
                    index_of_refraction as int,
                    65536int * 65536int,
                );
                lemma_div_is_ordered_by_denominator(
                    65536int * 65536int,
                    8192,
                    index_of_refraction as int,
                );
                assert((65536int * 65536int) / 8192int == 524288int) by (nonlinear_arith);
            }
            fx::fdiv(SCALE, index_of_refraction)
        } else {
            index_of_refraction
        };
        proof {
            assert(refraction_ratio as int == refraction_ratio_fx(
                hit_record@.front_face,
                index_of_refraction as int,
            ));
            assert(0 <= refraction_ratio <= 524288);
            lemma_dot_bound(ray_in@.dir, ray_in@.dir, WORLD_MAX as int, WORLD_MAX as int);
        }
        let unit_direction: Vec3 = ray_in.dir.normalize().clamp_box(2 * SCALE);
        proof {
            crate::vec3::lemma_clamp3(normalize_fx(ray_in@.dir), 2 * (SCALE as int));
        }
        proof {
            lemma_dot_bound(unit_direction@, hit_record@.normal, 2 * (SCALE as int), 2 * (
            SCALE as int));
            assert(3 * (131072int * 131072int) / 65536int == 786432int) by (nonlinear_arith);
        }
        let d: i64 = unit_direction.dot(hit_record.normal);
        let cos_theta: i64 = fx::fclamp(-d, -SCALE, SCALE);
        proof {
            fx::lemma_mul_fx_bound(cos_theta as int, cos_theta as int, SCALE as int, SCALE as int);
            fx::lemma_mul_fx_sq_nonneg(cos_theta as int);
            assert((65536int * 65536int) / 65536int == 65536int) by (nonlinear_arith);
        }
        let sin2: i64 = SCALE - fx::fmul(cos_theta, cos_theta);
        let sin_theta: i64 = fx::fsqrt(sin2);
        proof {
            assert((sin_theta as int) * (sin_theta as int) < 65537int * 65537int) by {
                assert((sin_theta as int) * (sin_theta as int) <= (sin2 as int) * (SCALE as int));
                assert((sin2 as int) * (SCALE as int) < 65537int * 65537int) by (nonlinear_arith)
                    requires
                        0 <= sin2 as int <= 65536,
                ;
            }
            fx::lemma_sq_le(sin_theta as int, 65536);
            fx::lemma_mul_fx_bound(refraction_ratio as int, sin_theta as int, 524288, SCALE as int);
            assert((524288int * 65536int) / 65536int == 524288int) by (nonlinear_arith);
        }
        let cannot_refract: bool = fx::fmul(refraction_ratio, sin_theta) > SCALE;
        let should_reflect: bool = cannot_refract || reflectance(cos_theta, refraction_ratio)
            > rand_unit(rng);
        let dir: Vec3 = if should_reflect {
            proof {
                lemma_scale3_bound(
                    hit_record@.normal,
                    2 * dot_fx(unit_direction@, hit_record@.normal),
                    2 * (SCALE as int),
                    1572864,
                );
                assert((131072int * 1572864int) / 65536int == 3145728int) by (nonlinear_arith);
            }
            unit_direction.reflect(hit_record.normal)
        } else {
            Vec3::refract(unit_direction, hit_record.normal, refraction_ratio)
        };
        let scattered_ray = Ray { orig: hit_record.point, dir };
        Option::Some(
            ScatteringRecord { ray: scattered_ray, attenuation: Color::new(SCALE, SCALE, SCALE) },
        )
    }
}

} // verus!
