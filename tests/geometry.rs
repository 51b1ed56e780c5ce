use ray_marcher::maths::{
    real_approx_eq, real_mod, vec3_abs, vec3_approx_eq, vec3_max, vec3_mod, vec3_reflect, Colour,
    Vec3, SCALE,
};
use ray_marcher::object::{
    default_period, Cube, Geometry, InfiniteRepetition, Intersection, Material, Object, Sphere,
    Subtraction, Union,
};

const S: i64 = SCALE;

fn sphere_at(position: Vec3, radius: i64) -> Object {
    Object {
        position,
        material: Material::default(),
        geometry: Geometry::Sphere(Sphere { radius }),
    }
}

fn cube_at(position: Vec3, size: Vec3) -> Object {
    Object { position, material: Material::default(), geometry: Geometry::Cube(Cube { size }) }
}

fn samples() -> Vec<Vec3> {
    let mut v = Vec::new();
    for &x in &[-3 * S, -S / 2, 0, S / 3, 2 * S] {
        for &y in &[-2 * S, 0, 7 * S / 10] {
            for &z in &[-S, S / 4, 3 * S] {
                v.push(Vec3::new(x, y, z));
            }
        }
    }
    v
}

#[test]
fn sphere_distance_is_length_minus_radius() {
    let s = Sphere { radius: S };
    assert_eq!(s.distance(Vec3::new(2 * S, 0, 0)), S);
    assert_eq!(s.distance(Vec3::new(0, 0, 0)), -S);
    assert_eq!(s.distance(Vec3::new(3 * S, 4 * S, 0)), 4 * S);
}

#[test]
fn cube_distance_outside_and_inside() {
    let c = Cube { size: Vec3::new(S, S, S) };
    assert_eq!(c.distance(Vec3::new(3 * S, 0, 0)), 2 * S);
    assert_eq!(c.distance(Vec3::new(0, 0, 0)), -S);
    assert_eq!(c.distance(Vec3::new(-S / 2, 0, 0)), -S / 2);
    assert_eq!(c.distance(Vec3::new(4 * S, 5 * S, S)), 5 * S);
}

#[test]
fn object_position_translates_geometry() {
    let o = sphere_at(Vec3::new(0, 0, 5 * S), S);
    assert_eq!(o.distance(Vec3::new(0, 0, 5 * S)), -S);
    assert_eq!(o.distance(Vec3::new(0, 0, 0)), 4 * S);
}

#[test]
fn union_is_min_of_parts() {
    let a = sphere_at(Vec3::new(S, 0, 0), S / 2);
    let b = cube_at(Vec3::new(-S, S, 0), Vec3::new(S / 3, S / 2, S));
    let u = Union {
        a: Box::new(sphere_at(Vec3::new(S, 0, 0), S / 2)),
        b: Box::new(cube_at(Vec3::new(-S, S, 0), Vec3::new(S / 3, S / 2, S))),
    };
    for p in samples() {
        assert_eq!(u.distance(p), a.distance(p).min(b.distance(p)));
    }
}

#[test]
fn intersection_is_max_of_parts() {
    let a = sphere_at(Vec3::new(S, 0, 0), 2 * S);
    let b = cube_at(Vec3::new(0, 0, 0), Vec3::new(S, S, S));
    let g = Geometry::Intersection(Intersection {
        a: Box::new(sphere_at(Vec3::new(S, 0, 0), 2 * S)),
        b: Box::new(cube_at(Vec3::new(0, 0, 0), Vec3::new(S, S, S))),
    });
    for p in samples() {
        assert_eq!(g.distance(p), a.distance(p).max(b.distance(p)));
    }
}

#[test]
fn subtraction_is_max_of_a_and_minus_b() {
    let s = Subtraction {
        a: Box::new(cube_at(Vec3::new(0, 0, 0), Vec3::new(S, S, S))),
        b: Box::new(sphere_at(Vec3::new(0, 0, 0), 6 * S / 5)),
    };
    assert_eq!(s.distance(Vec3::new(0, 0, 0)), 6 * S / 5);
    assert_eq!(s.distance(Vec3::new(3 * S, 0, 0)), 2 * S);
}

#[test]
fn repetition_is_periodic() {
    let r = InfiniteRepetition {
        period: Vec3::new(2 * S, 3 * S, 2 * S),
        child: Box::new(sphere_at(Vec3::new(0, 0, 0), S / 2)),
    };
    let p = Vec3::new(3 * S / 10, S / 10, -S / 5);
    let d = r.distance(p);
    assert_eq!(d, r.child.distance(p));
    for &(kx, ky, kz) in &[(1, 0, 0), (-2, 1, 3), (5, -4, -1)] {
        let q = Vec3::new(p.x + kx * 2 * S, p.y + ky * 3 * S, p.z + kz * 2 * S);
        assert_eq!(r.distance(q), d);
    }
}

#[test]
fn repetition_default_period_is_one() {
    assert_eq!(default_period(), Vec3::new(S, S, S));
    let r = InfiniteRepetition {
        period: default_period(),
        child: Box::new(sphere_at(Vec3::new(0, 0, 0), S / 4)),
    };
    assert_eq!(r.distance(Vec3::new(7 * S, -3 * S, 0)), -S / 4);
    assert_eq!(r.distance(Vec3::new(S / 2, 0, 0)), S / 4);
}

#[test]
fn floor_mod_for_negative_operands() {
    assert_eq!(real_mod(-3 * S / 2, S), S / 2);
    assert_eq!(real_mod(3 * S / 2, -S), -S / 2);
    assert_eq!(real_mod(5 * S, 2 * S), S);
    let m = vec3_mod(Vec3::new(-S, 3 * S, -5 * S), Vec3::new(3 * S, 2 * S, -2 * S));
    assert_eq!(m, Vec3::new(2 * S, S, -S));
}

#[test]
fn vector_operations() {
    let v = Vec3::new(3 * S, -4 * S, 0);
    assert_eq!(v.magnitude(), 5 * S);
    assert_eq!(v.normalize(), Vec3::new(3 * S / 5, -4 * S / 5, 0));
    assert_eq!(Vec3::zero().normalize(), Vec3::zero());
    assert_eq!(vec3_abs(v), Vec3::new(3 * S, 4 * S, 0));
    assert_eq!(vec3_max(v, 0), Vec3::new(3 * S, 0, 0));
    let x = Vec3::new(S, 0, 0);
    let y = Vec3::new(0, S, 0);
    assert_eq!(x.cross(&y), Vec3::new(0, 0, S));
    assert_eq!(x.dot(&y), 0);
    assert_eq!(vec3_reflect(Vec3::new(S, -S, 0), y), Vec3::new(S, S, 0));
    assert_eq!(v.scale(S / 2), Vec3::new(3 * S / 2, -2 * S, 0));
}

#[test]
fn approximate_equality() {
    assert!(real_approx_eq(S, S + 99));
    assert!(!real_approx_eq(S, S + 100));
    assert!(vec3_approx_eq(Vec3::new(0, S, 2 * S), Vec3::new(50, S - 50, 2 * S)));
    assert!(!vec3_approx_eq(Vec3::new(0, S, 2 * S), Vec3::new(0, S, 2 * S + 500)));
}

#[test]
fn colour_scaling_and_defaults() {
    let c = Colour::rgb(S, S / 2, 0).mul(S / 2);
    assert_eq!(c, Colour::rgb(S / 2, S / 4, 0));
    assert_eq!(Material::default().colour, Colour::rgb(S, 0, 0));
}
