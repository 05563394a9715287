use rusttracer::structs::scalar::Scalar;
use rusttracer::structs::texture::{CheckerTexture, Texture};
use rusttracer::structs::vec3::Vec3;

fn s(x: f64) -> Scalar {
    Scalar::from_bits(x.to_bits())
}

fn f(x: Scalar) -> f64 {
    f64::from_bits(x.to_bits())
}

fn v(x: f64, y: f64, z: f64) -> Vec3 {
    Vec3::new(s(x), s(y), s(z))
}

fn a(p: Vec3) -> [f64; 3] {
    [f(p.x_), f(p.y_), f(p.z_)]
}

fn wave(p: Vec3) -> Scalar {
    s(f64::sin(10.0 * f(p.x_)) * f64::sin(10.0 * f(p.y_)) * f64::sin(10.0 * f(p.z_)))
}

fn never(_p: Vec3) -> Scalar {
    panic!("a flat texture needs no wave")
}

#[test]
fn a_flat_texture_has_one_colour() {
    let flat = Texture::new_solid_color(v(0.1, 0.2, 0.3));
    assert_eq!(a(flat.value(s(0.0), s(0.0), &v(5.0, 6.0, 7.0), &never)), [0.1, 0.2, 0.3]);
    assert_eq!(a(flat.value(s(0.5), s(0.5), &v(-5.0, 0.0, 1.0), &never)), [0.1, 0.2, 0.3]);
}

#[test]
fn a_chequered_texture_alternates_with_the_sign_of_the_wave() {
    let odd = v(0.0, 0.0, 0.0);
    let even = v(1.0, 1.0, 1.0);
    let board = Texture::new_checker_color(odd, even);
    // All three sines are positive at 0.1: an even field.
    assert_eq!(a(board.value(s(0.0), s(0.0), &v(0.1, 0.1, 0.1), &wave)), [1.0, 1.0, 1.0]);
    // One sine is negative at x = -0.1: an odd field.
    assert_eq!(a(board.value(s(0.0), s(0.0), &v(-0.1, 0.1, 0.1), &wave)), [0.0, 0.0, 0.0]);
    // Two negative sines make an even field again.
    assert_eq!(a(board.value(s(0.0), s(0.0), &v(-0.1, -0.1, 0.1), &wave)), [1.0, 1.0, 1.0]);
    // On a border the wave is 0, which counts as even.
    assert_eq!(a(board.value(s(0.0), s(0.0), &v(0.0, 0.1, 0.1), &wave)), [1.0, 1.0, 1.0]);
    let checker = CheckerTexture { odd, even };
    assert_eq!(a(checker.value(&v(0.1, 0.1, -0.1), &wave)), [0.0, 0.0, 0.0]);
    let nan = |_p: Vec3| s(f64::NAN);
    assert_eq!(a(checker.value(&v(0.1, 0.1, -0.1), &nan)), [1.0, 1.0, 1.0]);
}
