//! Vector algebra tests, over exact fixed-point values (one unit = 65536 raw).

use raytracer::fixed::Fx;
use raytracer::vec3::Vec3;

const S: i64 = 65536;

fn v(x: i64, y: i64, z: i64) -> Vec3 {
    Vec3::from_ints(x, y, z)
}

#[test]
fn add() {
    let l = Vec3::default();
    let r = v(1, 2, 3);
    let s = l.add(r);
    assert_eq!(s.x.raw, S);
    assert_eq!(s.y.raw, 2 * S);
    assert_eq!(s.z.raw, 3 * S);
}

#[test]
fn add_assign() {
    let mut l = Vec3::default();
    let r = v(1, 2, 3);

    l.add_assign(r);

    assert_eq!(l.x.raw, S);
    assert_eq!(l.y.raw, 2 * S);
    assert_eq!(l.z.raw, 3 * S);
}

#[test]
fn as_colour_string() {
    let r = Vec3::new(Fx::from_raw(0), Fx::from_int(1), Fx::from_raw(16384));

    assert_eq!(r.as_colour_string(1), "0 255 128\n");
}

#[test]
fn cross_product() {
    let r = v(2, 3, 4);
    let l = v(5, 6, 7);

    let res = v(-3, 6, -3);
    let r_cross_l = r.cross(&l);

    assert_eq!(res.x.raw, r_cross_l.x.raw);
    assert_eq!(res.y.raw, r_cross_l.y.raw);
    assert_eq!(res.z.raw, r_cross_l.z.raw);
}

#[test]
fn div() {
    let r = v(2, 4, 6);
    let d = r.div_fx(Fx::from_int(2));

    assert_eq!(d.x.raw, S);
    assert_eq!(d.y.raw, 2 * S);
    assert_eq!(d.z.raw, 3 * S);
}

#[test]
fn div_assign() {
    let mut r = v(2, 4, 6);
    r.div_assign(Fx::from_int(2));

    assert_eq!(r.x.raw, S);
    assert_eq!(r.y.raw, 2 * S);
    assert_eq!(r.z.raw, 3 * S);
}

#[test]
fn dot_product() {
    let r = v(1, 2, 3);
    let l = v(2, 4, 6);

    assert_eq!(r.dot(&l).raw, (2 + 2 * 4 + 3 * 6) * S);
    assert_eq!(l.dot(&r).raw, (2 + 2 * 4 + 3 * 6) * S);
}

#[test]
fn len() {
    let r = v(1, 2, 2);
    assert_eq!(r.len().raw, 3 * S);
}

#[test]
fn mul() {
    let l = v(1, 2, 3);
    let r = v(1, 2, 3);
    let s = l.mul(r);
    let f = Fx::from_int(2);

    assert_eq!(s.x.raw, S);
    assert_eq!(s.y.raw, 4 * S);
    assert_eq!(s.z.raw, 9 * S);

    let n = s.clone().mul_fx(f);

    assert_eq!(n.x.raw, 2 * S);
    assert_eq!(n.y.raw, 8 * S);
    assert_eq!(n.z.raw, 18 * S);

    let n = s.mul_fx(f);

    assert_eq!(n.x.raw, 2 * S);
    assert_eq!(n.y.raw, 8 * S);
    assert_eq!(n.z.raw, 18 * S);
}

#[test]
fn mul_assign() {
    let mut r = v(1, 2, 3);
    r.mul_assign(Fx::from_int(2));

    assert_eq!(r.x.raw, 2 * S);
    assert_eq!(r.y.raw, 4 * S);
    assert_eq!(r.z.raw, 6 * S);
}

#[test]
fn negate() {
    let nv = v(1, 2, 3).neg();
    let pv = v(1, 2, 3);

    assert_eq!(nv.x.raw + pv.x.raw, 0);
    assert_eq!(nv.y.raw + pv.y.raw, 0);
    assert_eq!(nv.z.raw + pv.z.raw, 0);
}

#[test]
fn new() {
    let pv = Vec3::new(Fx::from_int(1), Fx::from_int(2), Fx::from_int(3));

    assert_eq!(pv.x.raw, S);
    assert_eq!(pv.y.raw, 2 * S);
    assert_eq!(pv.z.raw, 3 * S);
}

#[test]
fn sub() {
    let l = Vec3::default();
    let r = v(1, 2, 3);
    let s = l.sub(r);
    assert_eq!(s.x.raw, -S);
    assert_eq!(s.y.raw, -2 * S);
    assert_eq!(s.z.raw, -3 * S);
}

#[test]
fn unit_vector() {
    let r = v(1, 2, 2);
    let u = r.unit_vector();

    // exact truncations of 1/3 and 2/3
    assert_eq!(u.x.raw, 21845);
    assert_eq!(u.y.raw, 43690);
    assert_eq!(u.z.raw, 43690);
}

#[test]
fn sum() {
    let vs = vec![v(1, 2, 3), v(5, 7, 1)];
    let sum: Vec3 = Vec3::sum(&vs);
    assert_eq!(sum.x.raw, 6 * S);
    assert_eq!(sum.y.raw, 9 * S);
    assert_eq!(sum.z.raw, 4 * S);
}
