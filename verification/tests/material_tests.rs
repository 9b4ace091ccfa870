use raytracer::scalar::Scalar;
use raytracer::material::{branch, keeps_sample, metal_scatter, reflects_totally, side, Branch, ScatterRecord, Side};

fn s(x: f64) -> Scalar {
    Scalar::from_bits(x.to_bits())
}

/// Whether a metal scatters a ray that leaves with the given dot product
/// with the normal; what it scatters must be what it was given.
fn metal_scatters(outgoing_dot_normal: Scalar) -> bool {
    match metal_scatter(outgoing_dot_normal, "ray", "albedo") {
        ScatterRecord::Scatter { scattered, attenuation } => {
            assert_eq!((scattered, attenuation), ("ray", "albedo"));
            true
        }
        ScatterRecord::Absorption => false,
    }
}

#[test]
fn a_metal_absorbs_at_exactly_zero() {
    // A ray reflected along the surface: v = (1, -1, 0) normalized, n = (0, 1, 0),
    // fuzz direction chosen so that the outgoing direction is (1, 0, 0).
    let n = [0.0f64, 1.0, 0.0];
    let outgoing = [1.0f64, 0.0, 0.0];
    let dot = outgoing[0] * n[0] + outgoing[1] * n[1] + outgoing[2] * n[2];
    assert_eq!(dot, 0.0);
    assert!(!metal_scatters(s(dot)));
    assert!(!metal_scatters(s(-0.0)));
}

#[test]
fn a_metal_scatters_only_outward() {
    assert!(metal_scatters(s(5e-324)));
    assert!(metal_scatters(s(0.3)));
    assert!(metal_scatters(s(f64::INFINITY)));
    assert!(!metal_scatters(s(-5e-324)));
    assert!(!metal_scatters(s(-0.3)));
    assert!(!metal_scatters(s(f64::NAN)));
}

#[test]
fn a_ray_along_the_normal_is_exiting() {
    assert_eq!(side(s(0.5)), Side::Exiting);
    assert_eq!(side(s(5e-324)), Side::Exiting);
    assert_eq!(side(s(0.0)), Side::Entering);
    assert_eq!(side(s(-0.0)), Side::Entering);
    assert_eq!(side(s(-0.5)), Side::Entering);
    assert_eq!(side(s(f64::NAN)), Side::Entering);
}

#[test]
fn a_negative_discriminant_means_total_reflection() {
    // Glass to air at a steep angle: ratio 1.5, cosine 0.5.
    let (ratio, cosine): (f64, f64) = (1.5, 0.5);
    let discriminant = 1.0 - ratio * ratio * (1.0 - cosine * cosine);
    assert!(discriminant < 0.0);
    assert!(reflects_totally(s(discriminant)));
    // Air to glass never reflects totally.
    let ratio: f64 = 1.0 / 1.5;
    let discriminant = 1.0 - ratio * ratio * (1.0 - cosine * cosine);
    assert!(!reflects_totally(s(discriminant)));
    assert!(!reflects_totally(s(0.0)));
    assert!(!reflects_totally(s(-0.0)));
    assert!(reflects_totally(s(-5e-324)));
}

#[test]
fn a_sample_above_the_reflectance_refracts() {
    assert_eq!(branch(s(0.5), s(0.04)), Branch::Refract);
    assert_eq!(branch(s(0.04), s(0.04)), Branch::Reflect);
    assert_eq!(branch(s(0.01), s(0.04)), Branch::Reflect);
    assert_eq!(branch(s(0.999), s(1.0)), Branch::Reflect);
    assert_eq!(branch(s(0.0), s(0.0)), Branch::Reflect);
    assert_eq!(branch(s(0.5), s(f64::NAN)), Branch::Reflect);
}

#[test]
fn a_sample_is_kept_within_the_unit_sphere() {
    assert!(keeps_sample(s(0.0)));
    assert!(keeps_sample(s(0.5)));
    assert!(keeps_sample(s(1.0)));
    assert!(!keeps_sample(s(1.0000000000000002)));
    assert!(!keeps_sample(s(3.0f64.sqrt())));
    assert!(!keeps_sample(s(f64::NAN)));
}

#[test]
fn a_dielectric_passes_all_light_on_whichever_ray_it_sends() {
    let color = |r: Scalar, g: Scalar, b: Scalar| {
        [f64::from_bits(r.to_bits()), f64::from_bits(g.to_bits()), f64::from_bits(b.to_bits())]
    };
    for sent in ["reflected", "refracted"] {
        match raytracer::material::dielectric_scatter(sent, color) {
            ScatterRecord::Scatter { scattered, attenuation } => {
                assert_eq!(scattered, sent);
                assert_eq!(attenuation, [1.0, 1.0, 1.0]);
            }
            ScatterRecord::Absorption => panic!("a dielectric absorbs nothing"),
        }
    }
}
