use ray_marcher::maths::{Colour, Vec3, SCALE};
use ray_marcher::object::{Geometry, Material, Object, Sphere};
use ray_marcher::renderer::{
    get_direction, get_normal, get_view_matrix, ray_march, render, DistanceField, RenderError,
    EPSILON,
};
use ray_marcher::scene::{Camera, Environment, Light, Scene};

const S: i64 = SCALE;

/// tan(22.5 degrees): a vertical field of view of 45 degrees.
const TAN_HALF_45: i64 = 414_214;

fn unit_sphere() -> Object {
    Object {
        position: Vec3::zero(),
        material: Material::default(),
        geometry: Geometry::Sphere(Sphere { radius: S }),
    }
}

fn sphere_scene(target: Vec3) -> Scene {
    Scene {
        camera: Camera { position: Vec3::new(0, 0, 5 * S), target, half_fov_tan: TAN_HALF_45 },
        environment: Environment { ambient_light: 0, background_colour: Colour::rgb(0, 0, S) },
        light: Light { position: Vec3::new(3 * S, 0, 3 * S), strength: 10 * S },
        objects: vec![unit_sphere()],
    }
}

#[test]
fn march_hits_sphere_at_expected_depth() {
    for &(r, d) in &[(S, 5 * S), (S / 2, 3 * S), (2 * S, 40 * S)] {
        let o = Object {
            position: Vec3::zero(),
            material: Material::default(),
            geometry: Geometry::Sphere(Sphere { radius: r }),
        };
        let hit = ray_march(&o, Vec3::new(0, 0, d), Vec3::new(0, 0, -S)).expect("hit");
        assert!((hit - (d - r)).abs() < EPSILON);
    }
}

#[test]
fn march_away_from_objects_misses() {
    let o = unit_sphere();
    assert_eq!(ray_march(&o, Vec3::new(0, 0, 5 * S), Vec3::new(0, 0, S)), None);
    assert_eq!(ray_march(&o, Vec3::new(0, 3 * S, 0), Vec3::new(0, S, 0)), None);
}

#[test]
fn camera_facing_away_sees_background() {
    let scene = sphere_scene(Vec3::new(0, 0, 20 * S));
    let mut buffer = vec![9u8; 8 * 6 * 3];
    assert_eq!(render(&scene, 8, 6, &mut buffer), Ok(()));
    for px in buffer.chunks(3) {
        assert_eq!(px, &[0, 0, 255]);
    }
}

#[test]
fn small_buffer_is_rejected_untouched() {
    let scene = sphere_scene(Vec3::zero());
    let mut buffer = vec![7u8; 10 * 4 * 3 - 1];
    assert_eq!(render(&scene, 10, 4, &mut buffer), Err(RenderError::BufferTooSmall));
    assert!(buffer.iter().all(|&b| b == 7));
    assert_eq!(RenderError::BufferTooSmall.message(), "Buffer was too small");
}

#[test]
fn larger_buffer_keeps_its_tail() {
    let scene = sphere_scene(Vec3::zero());
    let mut buffer = vec![7u8; 4 * 4 * 3 + 5];
    assert_eq!(render(&scene, 4, 4, &mut buffer), Ok(()));
    assert!(buffer[48..].iter().all(|&b| b == 7));
}

#[test]
fn normal_at_surface_has_unit_length() {
    let o = unit_sphere();
    for dir in &[Vec3::new(0, 0, -S), Vec3::new(0, -S, 0), Vec3::new(-S, 0, 0)] {
        let eye = Vec3::new(-dir.x * 4, -dir.y * 4, -dir.z * 4);
        let d = ray_march(&o, eye, *dir).expect("hit");
        let p = eye.add(&dir.scale(d));
        let n = get_normal(&o, p);
        assert!((n.magnitude() - S).abs() <= S / 10_000);
        assert!(n.dot(&eye.normalize()) > 99 * S / 100);
    }
}

#[test]
fn normal_on_diagonal_surface_point_has_unit_length() {
    let o = unit_sphere();
    let p = Vec3::new(707_107, 707_107, 0);
    assert!(o.distance(p).abs() < EPSILON);
    let n = get_normal(&o, p);
    assert!((n.magnitude() - S).abs() <= S / 10_000);
    assert!((n.x - 707_107).abs() <= 100 && (n.y - 707_107).abs() <= 100 && n.z == 0);
}

#[test]
fn short_vectors_normalise_precisely() {
    for v in &[Vec3::new(1, 1, 0), Vec3::new(137, -59, 3), Vec3::new(0, 0, -7)] {
        assert!((v.normalize().magnitude() - S).abs() <= S / 10_000);
    }
    assert_eq!(Vec3::new(0, 0, -7).normalize(), Vec3::new(0, 0, -S));
}

#[test]
fn sphere_renders_lit_disc() {
    let scene = sphere_scene(Vec3::zero());
    let (w, h) = (64usize, 64usize);
    let mut buffer = vec![0u8; w * h * 3];
    assert_eq!(render(&scene, w, h, &mut buffer), Ok(()));
    let px = |x: usize, y: usize| {
        let i = (y * w + x) * 3;
        [buffer[i], buffer[i + 1], buffer[i + 2]]
    };
    let background = [0u8, 0, 255];
    assert_ne!(px(32, 32), background);
    for &(x, y) in &[(0, 0), (63, 0), (0, 63), (63, 63), (32, 2), (2, 32)] {
        assert_eq!(px(x, y), background);
    }
    let (mut n, mut sx, mut sy) = (0i64, 0i64, 0i64);
    let (mut left, mut right) = (0u64, 0u64);
    for y in 0..h {
        for x in 0..w {
            let c = px(x, y);
            if c != background {
                n += 1;
                sx += x as i64;
                sy += y as i64;
                if x < 32 {
                    left += c[0] as u64;
                } else {
                    right += c[0] as u64;
                }
            }
        }
    }
    assert!(n > 400 && n < 1200);
    assert!((sx / n - 32).abs() <= 1 && (sy / n - 32).abs() <= 1);
    // The basis maps image columns to world -x, so the light at +x brightens the left half.
    assert!(left > 2 * right);
}

#[test]
fn centre_pixel_looks_straight_ahead() {
    assert_eq!(get_direction(32, 32, 64, 64, TAN_HALF_45), Vec3::new(0, 0, -S));
    let d = get_direction(0, 32, 64, 64, S / 2);
    // Offset of 32 pixels against a focal length of 64 / (2 * 0.5) = 64 pixels.
    assert_eq!(d, Vec3::new(-32 * S, 0, -64 * S).normalize());
    assert!(d.x < 0 && d.y == 0 && d.z < 0);
}

#[test]
fn view_basis_of_camera_on_z_axis() {
    let b = get_view_matrix(Vec3::new(0, 0, 5 * S), Vec3::zero(), Vec3::new(0, -S, 0));
    assert_eq!(b.forward, Vec3::new(0, 0, -S));
    assert_eq!(b.right, Vec3::new(-S, 0, 0));
    assert_eq!(b.up, Vec3::new(0, -S, 0));
    assert_eq!(b.transform(Vec3::new(0, 0, -S)), Vec3::new(0, 0, -S));
    assert_eq!(b.transform(Vec3::new(S, 0, 0)), Vec3::new(-S, 0, 0));
}

#[test]
fn combined_field_is_least_distance() {
    let objs = vec![
        unit_sphere(),
        Object {
            position: Vec3::new(5 * S, 0, 0),
            material: Material::default(),
            geometry: Geometry::Sphere(Sphere { radius: 2 * S }),
        },
    ];
    assert_eq!(objs.field(Vec3::new(4 * S, 0, 0)), -S);
    assert_eq!(objs.field(Vec3::new(-3 * S, 0, 0)), 2 * S);
    let none: Vec<Object> = Vec::new();
    assert_eq!(none.field(Vec3::zero()), ray_marcher::maths::REAL_MAX);
}

#[test]
fn scene_validity() {
    let mut scene = sphere_scene(Vec3::zero());
    assert!(scene.is_valid());
    scene.objects.push(Object {
        position: Vec3::zero(),
        material: Material::default(),
        geometry: Geometry::Sphere(Sphere { radius: 0 }),
    });
    assert!(!scene.is_valid());
    let mut scene = sphere_scene(Vec3::zero());
    scene.camera.half_fov_tan = 0;
    assert!(!scene.is_valid());
}

#[test]
fn scene_defaults() {
    let e = Environment::default();
    assert_eq!(e.ambient_light, 0);
    assert_eq!(e.background_colour, Colour::rgb(0, 0, 0));
    let l = Light::new(Vec3::new(S, 2 * S, 3 * S));
    assert_eq!(l.strength, S);
}

#[test]
fn shadowed_point_is_dimmed() {
    // Pixel (1, 1) of a 2 by 2 image looks straight down the axis onto (0, 0, 1).
    let mut scene = sphere_scene(Vec3::zero());
    scene.light = Light { position: Vec3::new(4 * S, 0, 5 * S), strength: 40 * S };
    let mut lit = vec![0u8; 12];
    assert_eq!(render(&scene, 2, 2, &mut lit), Ok(()));
    // A ball halfway to the light, off the line of sight.
    scene.objects.push(Object {
        position: Vec3::new(2 * S, 0, 3 * S),
        material: Material::default(),
        geometry: Geometry::Sphere(Sphere { radius: S / 2 }),
    });
    let mut shaded = vec![0u8; 12];
    assert_eq!(render(&scene, 2, 2, &mut shaded), Ok(()));
    assert!(lit[9] > 100);
    assert_eq!((lit[10], lit[11]), (0, 0));
    let expected = (lit[9] as f64 * 0.8) as i32;
    assert!((shaded[9] as i32 - expected).abs() <= 1);
}

#[test]
fn sphere_silhouette_is_a_centred_disc() {
    // Camera with a 60 degree field of view: tan(30 degrees).
    let scene = Scene {
        camera: Camera {
            position: Vec3::new(0, 0, 5 * S),
            target: Vec3::zero(),
            half_fov_tan: 577_350,
        },
        environment: Environment { ambient_light: S / 10, background_colour: Colour::rgb(0, 0, 0) },
        light: Light::new(Vec3::new(4 * S, 0, 4 * S)),
        objects: vec![unit_sphere()],
    };
    let (w, h) = (64usize, 64usize);
    let mut buffer = vec![0u8; w * h * 3];
    assert_eq!(render(&scene, w, h, &mut buffer), Ok(()));
    let px = |x: usize, y: usize| {
        let i = (y * w + x) * 3;
        [buffer[i], buffer[i + 1], buffer[i + 2]]
    };
    assert!(px(32, 32)[0] > 0);
    for &(x, y) in &[(0, 0), (63, 0), (0, 63), (63, 63)] {
        assert_eq!(px(x, y), [0, 0, 0]);
    }
    let is_disc = |r: i64| {
        (0..h).all(|y| {
            (0..w).all(|x| {
                let d2 = (x as i64 - 32).pow(2) + (y as i64 - 32).pow(2);
                let lit = px(x, y) != [0, 0, 0];
                (d2 > (r - 1).pow(2) || lit) && (d2 < (r + 1).pow(2) || !lit)
            })
        })
    };
    assert!((2..31).any(is_disc));
    // Image columns run towards world -x, so the side facing the light at +x is on the left.
    let (mut left, mut nl, mut right, mut nr) = (0u64, 0u64, 0u64, 0u64);
    for y in 0..h {
        for x in 0..w {
            let c = px(x, y);
            if c != [0, 0, 0] {
                if x < 32 {
                    left += c[0] as u64;
                    nl += 1;
                } else {
                    right += c[0] as u64;
                    nr += 1;
                }
            }
        }
    }
    assert!(left * nr > right * nl);
}
