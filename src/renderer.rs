//! Sphere tracing, normal estimation, shading and the render loop.
use vstd::prelude::*;
use vstd::arithmetic::div_mod::lemma_fundamental_div_mod_converse;
use crate::maths::{
    clamp, fdiv, fmul, is_real, lemma_normalize_unit, lemma_sqrt_floor_unique, max, min, norm_sq,
    real_add, real_div, real_max, real_min, real_mul, real_sub, sat, sat_real, v3,
    vadd, vcross, vdot, vlen, vneg, vnormalize, vscale, vsub, Colour, Real, Vec3, V3, REAL_MAX,
    SCALE,
};
use crate::object::{object_distance, Geometry, Object, Sphere};
use crate::scene::Scene;

verus! {

/// Why a render could not run.
#[derive(Clone, Copy, PartialEq, Eq, Debug)]
pub enum RenderError {
    /// The output buffer holds fewer than `width * height * 3` bytes.
    BufferTooSmall,
}

impl RenderError {
    /// A sentence that describes the error.
    pub fn message(&self) -> (s: &'static str)
        ensures
            *self == RenderError::BufferTooSmall ==> s@ == "Buffer was too small"@,
    {
        proof {
            reveal_strlit("Buffer was too small");
        }
        match self {
            RenderError::BufferTooSmall => "Buffer was too small",
        }
    }
}

/// The depth at which marching starts.
pub const MIN_DISTANCE: Real = 100_000;

/// The depth at which marching gives up.
pub const MAX_DISTANCE: Real = 100_000_000;

/// The most steps a march takes.
pub const MAX_STEPS: usize = 100;

/// A field value below this counts as a hit; also the offset of normal estimation.
pub const EPSILON: Real = 100;

/// A signed distance field that can be marched.
pub trait DistanceField {
    spec fn field_wf(&self) -> bool;

    /// The field's value at `p`.
    spec fn field_at(&self, p: V3) -> int;

    fn field(&self, p: Vec3) -> (r: Real)
        requires
            self.field_wf(),
        ensures
            r == self.field_at(p@),
    ;
}

impl DistanceField for Object {
    open spec fn field_wf(&self) -> bool {
        self.wf()
    }

    open spec fn field_at(&self, p: V3) -> int {
        object_distance(*self, p)
    }

    fn field(&self, p: Vec3) -> (r: Real) {
        self.distance(p)
    }
}

/// The least distance over a sequence of objects; the largest real when there are none.
pub open spec fn objects_min(objs: Seq<Object>, p: V3) -> int
    decreases objs.len(),
{
    if objs.len() == 0 {
        REAL_MAX as int
    } else {
        min(objects_min(objs.drop_last(), p), object_distance(objs.last(), p))
    }
}

/// The objects of a scene together: the field is the least of their distances.
impl DistanceField for Vec<Object> {
    open spec fn field_wf(&self) -> bool {
        forall|i: int| 0 <= i < self@.len() ==> (#[trigger] self@[i]).wf()
    }

    open spec fn field_at(&self, p: V3) -> int {
        objects_min(self@, p)
    }

    fn field(&self, p: Vec3) -> (r: Real) {
        let mut m: Real = REAL_MAX;
        let mut i: usize = 0;
        while i < self.len()
            invariant
                i <= self@.len(),
                self.field_wf(),
                m == objects_min(self@.subrange(0, i as int), p@),
            decreases self@.len() - i,
        {
            proof {
                assert(self@.subrange(0, i as int + 1).drop_last() =~= self@.subrange(0, i as int));
            }
            m = real_min(m, self[i].distance(p));
            i += 1;
        }
        proof {
            assert(self@.subrange(0, i as int) =~= self@);
        }
        m
    }
}

/// Sphere tracing from `depth` with `steps` steps left: the depth of the hit, if any.
pub open spec fn march_from<F: DistanceField>(
    f: &F,
    eye: V3,
    direction: V3,
    depth: int,
    steps: nat,
) -> Option<int>
    decreases steps,
{
    if steps == 0 {
        None
    } else {
        let d = f.field_at(vadd(eye, vscale(direction, depth)));
        if d < EPSILON {
            Some(depth)
        } else {
            let next = sat(depth + d);
            if next >= MAX_DISTANCE {
                None
            } else {
                march_from(f, eye, direction, next, (steps - 1) as nat)
            }
        }
    }
}

/// Sphere tracing of a whole ray, from the least to the greatest depth.
pub open spec fn march<F: DistanceField>(f: &F, eye: V3, direction: V3) -> Option<int> {
    march_from(f, eye, direction, MIN_DISTANCE as int, MAX_STEPS as nat)
}

/// Marches from `eye` along `direction` through `field`: the depth of the
/// first point where the field drops below `EPSILON`, or `None` when the ray
/// reaches `MAX_DISTANCE` or the step budget runs out first.
pub fn ray_march<F: DistanceField>(field: &F, eye: Vec3, direction: Vec3) -> (r: Option<Real>)
    requires
        field.field_wf(),
    ensures
        r matches Some(d) ==> MIN_DISTANCE <= d < MAX_DISTANCE,
        (match r {
            Some(d) => march(field, eye@, direction@) == Some(d as int),
            None => march(field, eye@, direction@) is None,
        }),
{
    let mut depth: Real = MIN_DISTANCE;
    let mut i: usize = 0;
    while i < MAX_STEPS
        invariant
            i <= MAX_STEPS,
            MIN_DISTANCE <= depth < MAX_DISTANCE,
            field.field_wf(),
            march(field, eye@, direction@) == march_from(
                field,
                eye@,
                direction@,
                depth as int,
                (MAX_STEPS - i) as nat,
            ),
        decreases MAX_STEPS - i,
    {
        let dist = field.field(eye.add(&direction.scale(depth)));
        if dist < EPSILON {
            return Some(depth);
        }
        depth = real_add(depth, dist);
        if depth >= MAX_DISTANCE {
            return None;
        }
        i += 1;
    }
    None
}

/// The central differences of the field along each axis at `p`.
pub open spec fn central_difference<F: DistanceField>(f: &F, p: V3) -> V3 {
    let e = EPSILON as int;
    v3(
        sat(f.field_at(v3(sat(p.x + e), p.y, p.z)) - f.field_at(v3(sat(p.x - e), p.y, p.z))),
        sat(f.field_at(v3(p.x, sat(p.y + e), p.z)) - f.field_at(v3(p.x, sat(p.y - e), p.z))),
        sat(f.field_at(v3(p.x, p.y, sat(p.z + e))) - f.field_at(v3(p.x, p.y, sat(p.z - e)))),
    )
}

/// The estimated surface normal: the central differences, normalised.
pub open spec fn normal_at<F: DistanceField>(f: &F, p: V3) -> V3 {
    vnormalize(central_difference(f, p))
}

/// Wherever the central differences do not all vanish (in particular at a
/// point on a surface, where the field is below `EPSILON` in magnitude), the
/// estimated normal is one unit long, to within a ten-thousandth of a unit.
pub proof fn lemma_normal_is_unit<F: DistanceField>(f: &F, p: V3)
    requires
        central_difference(f, p) != v3(0, 0, 0),
    ensures
        SCALE - SCALE / 10_000 <= vlen(normal_at(f, p)) <= SCALE + SCALE / 10_000,
{
    lemma_normalize_unit(central_difference(f, p));
}

/// Estimates the surface normal of `field` at `p`.
pub fn get_normal<F: DistanceField>(field: &F, p: Vec3) -> (n: Vec3)
    requires
        field.field_wf(),
    ensures
        n@ == normal_at(field, p@),
{
    let x = real_sub(
        field.field(Vec3::new(real_add(p.x, EPSILON), p.y, p.z)),
        field.field(Vec3::new(real_sub(p.x, EPSILON), p.y, p.z)),
    );
    let y = real_sub(
        field.field(Vec3::new(p.x, real_add(p.y, EPSILON), p.z)),
        field.field(Vec3::new(p.x, real_sub(p.y, EPSILON), p.z)),
    );
    let z = real_sub(
        field.field(Vec3::new(p.x, p.y, real_add(p.z, EPSILON))),
        field.field(Vec3::new(p.x, p.y, real_sub(p.z, EPSILON))),
    );
    Vec3::new(x, y, z).normalize()
}

/// The fixed world up vector: image rows grow downwards, so up is `-y`.
pub open spec fn world_up() -> V3 {
    v3(0, -SCALE, 0)
}

/// An orthonormal look-at basis: `right`, `up`, and `forward` towards the target.
#[derive(Clone, Copy, Debug)]
pub struct ViewBasis {
    pub right: Vec3,
    pub up: Vec3,
    pub forward: Vec3,
}

pub open spec fn basis_forward(eye: V3, center: V3) -> V3 {
    vnormalize(vsub(center, eye))
}

pub open spec fn basis_right(eye: V3, center: V3, up: V3) -> V3 {
    vnormalize(vcross(basis_forward(eye, center), up))
}

pub open spec fn basis_up(eye: V3, center: V3, up: V3) -> V3 {
    vcross(basis_right(eye, center, up), basis_forward(eye, center))
}

/// A camera-space direction (`-z` looking forward) expressed in world space.
pub open spec fn to_world(eye: V3, center: V3, up: V3, d: V3) -> V3 {
    vnormalize(
        vadd(
            vadd(vscale(basis_right(eye, center, up), d.x), vscale(basis_up(eye, center, up), d.y)),
            vscale(vneg(basis_forward(eye, center)), d.z),
        ),
    )
}

/// Builds the look-at basis of a camera at `eye` facing `center`.
pub fn get_view_matrix(eye: Vec3, center: Vec3, up: Vec3) -> (b: ViewBasis)
    ensures
        b.forward@ == basis_forward(eye@, center@),
        b.right@ == basis_right(eye@, center@, up@),
        b.up@ == basis_up(eye@, center@, up@),
{
    let f = center.sub(&eye).normalize();
    let s = f.cross(&up).normalize();
    let u = s.cross(&f);
    ViewBasis { right: s, up: u, forward: f }
}

impl ViewBasis {
    /// The camera-space direction `d` in world space, normalised.
    pub fn transform(&self, d: Vec3) -> (r: Vec3)
        ensures
            r@ == vnormalize(
                vadd(
                    vadd(vscale(self.right@, d.x as int), vscale(self.up@, d.y as int)),
                    vscale(vneg(self.forward@), d.z as int),
                ),
            ),
    {
        self.right.scale(d.x).add(&self.up.scale(d.y)).add(&self.forward.neg().scale(d.z)).normalize()
    }
}

/// The camera-space direction through pixel `(x, y)` of a `width` by `height`
/// image: `normalize(x - width / 2, y - height / 2, -height / (2 tan(fov / 2)))`.
pub open spec fn camera_direction(x: int, y: int, width: int, height: int, half_fov_tan: int) -> V3 {
    let dx = sat(x * SCALE - (width * SCALE) / 2);
    let dy = sat(y * SCALE - (height * SCALE) / 2);
    let z = fdiv(sat(height * SCALE), sat(2 * half_fov_tan));
    vnormalize(v3(dx, dy, sat(-z)))
}

fn to_real(n: usize) -> (r: Real)
    ensures
        r == sat(n * SCALE),
{
    sat_real(n as i128 * SCALE as i128)
}

/// Computes the camera-space direction through a pixel.
pub fn get_direction(x: usize, y: usize, width: usize, height: usize, half_fov_tan: Real) -> (r: Vec3)
    requires
        half_fov_tan > 0,
    ensures
        r@ == camera_direction(x as int, y as int, width as int, height as int, half_fov_tan as int),
{
    let dx = sat_real(x as i128 * SCALE as i128 - (width as i128 * SCALE as i128) / 2);
    let dy = sat_real(y as i128 * SCALE as i128 - (height as i128 * SCALE as i128) / 2);
    let z = real_div(to_real(height), sat_real(2 * half_fov_tan as i128));
    Vec3::new(dx, dy, real_sub(0, z)).normalize()
}

/// The world-space ray through pixel `(x, y)` of the scene's camera.
pub open spec fn pixel_ray(scene: &Scene, width: int, height: int, x: int, y: int) -> V3 {
    let cam = scene.camera;
    to_world(
        cam.position@,
        cam.target@,
        world_up(),
        camera_direction(x, y, width, height, cam.half_fov_tan as int),
    )
}

/// The nearest hit among the objects, as (index, depth): each object is
/// marched on its own, and of equal depths the first object wins.
pub open spec fn nearest_hit(objs: Seq<Object>, eye: V3, direction: V3) -> Option<(int, int)>
    decreases objs.len(),
{
    if objs.len() == 0 {
        None
    } else {
        let before = nearest_hit(objs.drop_last(), eye, direction);
        match march(&objs.last(), eye, direction) {
            None => before,
            Some(d) => match before {
                Some(b) if b.1 <= d => before,
                _ => Some(((objs.len() - 1) as int, d)),
            },
        }
    }
}

/// The point is in shadow: marching the combined field of all objects from
/// it towards the light hits something before the light.
pub open spec fn in_shadow_at(scene: &Scene, p: V3) -> bool {
    let to_light = vsub(scene.light.position@, p);
    match march(&scene.objects, p, vnormalize(to_light)) {
        Some(d) => d < vlen(to_light),
        None => false,
    }
}

/// The dimming of a point in shadow: four fifths.
pub const SHADOW_FACTOR: Real = 800_000;

/// The colour of `object` at `p` with surface normal `normal`.
pub open spec fn shade_at(scene: &Scene, object: Object, p: V3, normal: V3) -> V3 {
    let shadow = if in_shadow_at(scene, p) { SHADOW_FACTOR as int } else { SCALE as int };
    let to_light = vsub(scene.light.position@, p);
    let distance = vlen(to_light);
    let attenuation = fdiv(SCALE as int, sat(SCALE + fmul(distance, distance)));
    let diffuse = clamp(
        fmul(fmul(max(vdot(normal, vnormalize(to_light)), 0), attenuation), scene.light.strength as int),
        0,
        SCALE as int,
    );
    let light = sat(scene.environment.ambient_light + diffuse);
    vscale(vscale(object.material.colour@, light), shadow)
}

fn in_shadow(scene: &Scene, p: Vec3) -> (r: bool)
    requires
        scene.wf(),
    ensures
        r == in_shadow_at(scene, p@),
{
    let to_light = scene.light.position.sub(&p);
    match ray_march(&scene.objects, p, to_light.normalize()) {
        Some(d) => d < to_light.magnitude(),
        None => false,
    }
}

fn shade(scene: &Scene, normal: Vec3, pixel_pos: Vec3, object: &Object) -> (c: Colour)
    requires
        scene.wf(),
    ensures
        c@ == shade_at(scene, *object, pixel_pos@, normal@),
{
    let shadow = if in_shadow(scene, pixel_pos) { SHADOW_FACTOR } else { SCALE };
    let to_light = scene.light.position.sub(&pixel_pos);
    let distance = to_light.magnitude();
    let light_dir = to_light.normalize();
    let attenuation = real_div(SCALE, real_add(SCALE, real_mul(distance, distance)));
    let lit = real_mul(real_mul(real_max(normal.dot(&light_dir), 0), attenuation), scene.light.strength);
    let diffuse = real_max(0, real_min(lit, SCALE));
    let light = real_add(scene.environment.ambient_light, diffuse);
    object.material.colour.mul(light).mul(shadow)
}

/// Marches every object of `objs` on its own and keeps the nearest hit.
fn find_nearest(objs: &Vec<Object>, eye: Vec3, direction: Vec3) -> (r: Option<(usize, Real)>)
    requires
        objs.field_wf(),
    ensures
        (match r {
            Some((i, d)) => nearest_hit(objs@, eye@, direction@) == Some((i as int, d as int))
                && i < objs@.len(),
            None => nearest_hit(objs@, eye@, direction@) is None,
        }),
{
    let mut best: Option<(usize, Real)> = None;
    let mut i: usize = 0;
    while i < objs.len()
        invariant
            i <= objs@.len(),
            objs.field_wf(),
            (match best {
                Some((k, d)) => nearest_hit(objs@.subrange(0, i as int), eye@, direction@) == Some(
                    (k as int, d as int),
                ) && k < i,
                None => nearest_hit(objs@.subrange(0, i as int), eye@, direction@) is None,
            }),
        decreases objs@.len() - i,
    {
        proof {
            let next = objs@.subrange(0, i as int + 1);
            assert(next.drop_last() =~= objs@.subrange(0, i as int));
            assert(next.last() == objs@[i as int]);
        }
        let o = &objs[i];
        match ray_march(o, eye, direction) {
            None => {},
            Some(d) => {
                let keep = match best {
                    Some((_, b)) => b <= d,
                    None => false,
                };
                if !keep {
                    best = Some((i, d));
                }
            },
        }
        i += 1;
    }
    proof {
        assert(objs@.subrange(0, i as int) =~= objs@);
    }
    best
}

/// The colour that pixel `(x, y)` takes: the shaded nearest surface, or the background.
pub open spec fn pixel_colour(scene: &Scene, width: int, height: int, x: int, y: int) -> V3 {
    let eye = scene.camera.position@;
    let direction = pixel_ray(scene, width, height, x, y);
    match nearest_hit(scene.objects@, eye, direction) {
        None => scene.environment.background_colour@,
        Some((i, d)) => {
            let object = scene.objects@[i];
            let p = vadd(eye, vscale(direction, d));
            shade_at(scene, object, p, normal_at(&object, p))
        },
    }
}

/// A channel as a byte: `round(clamp(c, 0, 1) * 255)`.
pub open spec fn channel_byte(c: int) -> int {
    (clamp(c, 0, SCALE as int) * 255 + SCALE / 2) / (SCALE as int)
}

/// The byte at offset `j` of the image: channel `j % 3` of pixel `j / 3`, row-major.
pub open spec fn image_byte(scene: &Scene, width: int, height: int, j: int) -> int {
    let k = j / 3;
    let c = pixel_colour(scene, width, height, k % width, k / width);
    if j % 3 == 0 {
        channel_byte(c.x)
    } else if j % 3 == 1 {
        channel_byte(c.y)
    } else {
        channel_byte(c.z)
    }
}

fn to_byte(c: Real) -> (b: u8)
    ensures
        b == channel_byte(c as int),
{
    let v: i64 = if c < 0 { 0 } else if c > SCALE { SCALE } else { c };
    ((v * 255 + SCALE / 2) / SCALE) as u8
}

/// Computes the colour of one pixel.
fn render_pixel(scene: &Scene, width: usize, height: usize, x: usize, y: usize) -> (c: Colour)
    requires
        scene.wf(),
    ensures
        c@ == pixel_colour(scene, width as int, height as int, x as int, y as int),
{
    let cam = &scene.camera;
    let basis = get_view_matrix(cam.position, cam.target, Vec3::new(0, -SCALE, 0));
    let direction = basis.transform(get_direction(x, y, width, height, cam.half_fov_tan));
    match find_nearest(&scene.objects, cam.position, direction) {
        None => scene.environment.background_colour,
        Some((i, d)) => {
            let object = &scene.objects[i];
            let p = cam.position.add(&direction.scale(d));
            let normal = get_normal(object, p);
            shade(scene, normal, p, object)
        },
    }
}

/// Renders `scene` into `buffer` as `width * height` RGB pixels, row-major.
///
/// Fails, leaving the buffer as it was, when it holds fewer than
/// `width * height * 3` bytes; otherwise writes every byte of the image and
/// leaves the bytes beyond it as they were.
pub fn render(scene: &Scene, width: usize, height: usize, buffer: &mut [u8]) -> (r: Result<(), RenderError>)
    requires
        scene.wf(),
    ensures
        final(buffer)@.len() == old(buffer)@.len(),
        r is Err <==> old(buffer)@.len() < width * height * 3,
        r is Err ==> r == Err::<(), RenderError>(RenderError::BufferTooSmall) && final(buffer)@ == old(buffer)@,
        r is Ok ==> forall|j: int| 0 <= j < old(buffer)@.len() ==> #[trigger] final(buffer)@[j] == if j < width * height * 3 {
            image_byte(scene, width as int, height as int, j) as u8
        } else {
            old(buffer)@[j]
        },
{
    let len: usize = buffer.len();
    let product: Option<usize> = width.checked_mul(height);
    let fits: bool = match product {
        Some(p) => p <= len / 3,
        None => false,
    };
    if !fits {
        assert(width * height * 3 > len) by (nonlinear_arith)
            requires
                width * height > usize::MAX || width * height > len / 3,
                len <= usize::MAX,
        ;
        return Err(RenderError::BufferTooSmall);
    }
    let n: usize = width * height;
    let mut k: usize = 0;
    while k < n
        invariant
            scene.wf(),
            n == width * height,
            3 * n <= buffer@.len() <= usize::MAX,
            buffer@.len() == old(buffer)@.len(),
            k <= n,
            forall|j: int| 0 <= j < buffer@.len() ==> #[trigger] buffer@[j] == if j < 3 * k {
                image_byte(scene, width as int, height as int, j) as u8
            } else {
                old(buffer)@[j]
            },
        decreases n - k,
    {
        let x: usize = k % width;
        let y: usize = k / width;
        let c = render_pixel(scene, width, height, x, y);
        let i: usize = 3 * k;
        buffer[i] = to_byte(c.r);
        buffer[i + 1] = to_byte(c.g);
        buffer[i + 2] = to_byte(c.b);
        proof {
            assert forall|j: int| 0 <= j < buffer@.len() implies #[trigger] buffer@[j] == if j < 3 * (k + 1) {
                image_byte(scene, width as int, height as int, j) as u8
            } else {
                old(buffer)@[j]
            } by {
                if 3 * k <= j < 3 * k + 3 {
                    assert(j / 3 == k);
                }
            }
        }
        k += 1;
    }
    Ok(())
}

/// The length of a vector along the z axis is its z component.
proof fn lemma_len_on_axis(z: int)
    requires
        0 <= z <= REAL_MAX,
    ensures
        vlen(v3(0, 0, z)) == z,
{
    assert(norm_sq(v3(0, 0, z)) == z * z);
    assert(z * z < (z + 1) * (z + 1)) by (nonlinear_arith)
        requires
            0 <= z,
    ;
    assert(z * z >= 0) by (nonlinear_arith);
    lemma_sqrt_floor_unique((z * z) as nat, z as nat);
}

/// A step of `t` down the z axis from `(0, 0, d)` lands on `(0, 0, d - t)`.
proof fn lemma_step_down_axis(d: int, t: int)
    requires
        0 <= t <= REAL_MAX,
        is_real(d),
        is_real(d - t),
    ensures
        vadd(v3(0, 0, d), vscale(v3(0, 0, -SCALE), t)) == v3(0, 0, d - t),
{
    let s = SCALE as int;
    assert((-s) * t == (-t) * s + 0) by (nonlinear_arith);
    lemma_fundamental_div_mod_converse((-s) * t, s, -t, 0);
    assert(fmul(-s, t) == -t);
    assert(fmul(0, t) == 0);
}

/// A ray from `(0, 0, d)` straight down the z axis towards a sphere of radius
/// `r` around the origin hits it at depth `d - r`, to within `EPSILON`.
pub proof fn lemma_march_hits_sphere(radius: Real, d: int)
    requires
        radius > 0,
        d <= REAL_MAX,
        MIN_DISTANCE <= d - radius < MAX_DISTANCE,
    ensures
        ({
            let o = Object {
                position: Vec3 { x: 0, y: 0, z: 0 },
                material: crate::object::Material { colour: Colour { r: SCALE, g: 0, b: 0 } },
                geometry: Geometry::Sphere(Sphere { radius }),
            };
            match march(&o, v3(0, 0, d), v3(0, 0, -SCALE)) {
                Some(t) => -EPSILON < t - (d - radius) < EPSILON,
                None => false,
            }
        }),
{
    let o = Object {
        position: Vec3 { x: 0, y: 0, z: 0 },
        material: crate::object::Material { colour: Colour { r: SCALE, g: 0, b: 0 } },
        geometry: Geometry::Sphere(Sphere { radius }),
    };
    let eye = v3(0, 0, d);
    let dir = v3(0, 0, -SCALE);
    let t0 = MIN_DISTANCE as int;
    lemma_step_down_axis(d, t0);
    let p0 = v3(0, 0, d - t0);
    assert(vsub(p0, o.position@) == p0);
    lemma_len_on_axis(d - t0);
    let d0 = object_distance(o, p0);
    assert(d0 == d - t0 - radius);
    if d0 >= EPSILON {
        let t1 = d - radius;
        assert(sat(t0 + d0) == t1);
        lemma_step_down_axis(d, t1);
        let p1 = v3(0, 0, radius as int);
        assert(vsub(p1, o.position@) == p1);
        lemma_len_on_axis(radius as int);
        assert(object_distance(o, p1) == 0);
        assert(march_from(&o, eye, dir, t1, (MAX_STEPS - 1) as nat) == Some(t1));
    }
}

/// A step of `t` up the z axis from `(0, 0, d)` lands on `(0, 0, d + t)`.
proof fn lemma_step_up_axis(d: int, t: int)
    requires
        0 <= t <= REAL_MAX,
        is_real(d),
        is_real(d + t),
    ensures
        vadd(v3(0, 0, d), vscale(v3(0, 0, SCALE as int), t)) == v3(0, 0, d + t),
{
    let s = SCALE as int;
    assert(s * t == t * s + 0) by (nonlinear_arith);
    lemma_fundamental_div_mod_converse(s * t, s, t, 0);
    assert(fmul(s, t) == t);
    assert(fmul(0, t) == 0);
}

/// Marching from any depth up the z axis, away from a sphere around the
/// origin that does not hold the start, finds nothing.
proof fn lemma_march_up_misses(o: Object, radius: Real, d: int, depth: int, steps: nat)
    requires
        o.position@ == v3(0, 0, 0),
        o.geometry == Geometry::Sphere(Sphere { radius }),
        radius > 0,
        radius <= d <= REAL_MAX - MAX_DISTANCE,
        MIN_DISTANCE <= depth < MAX_DISTANCE,
    ensures
        march_from(&o, v3(0, 0, d), v3(0, 0, SCALE as int), depth, steps) is None,
    decreases steps,
{
    if steps > 0 {
        lemma_step_up_axis(d, depth);
        let p = v3(0, 0, d + depth);
        assert(vsub(p, o.position@) == p);
        lemma_len_on_axis(d + depth);
        assert(object_distance(o, p) == d + depth - radius);
        let next = sat(depth + (d + depth - radius));
        if next < MAX_DISTANCE {
            lemma_march_up_misses(o, radius, d, next, (steps - 1) as nat);
        }
    }
}

/// A ray from outside a sphere around the origin, pointing up the z axis
/// away from it, misses it.
pub proof fn lemma_march_away_from_sphere_misses(o: Object, radius: Real, d: int)
    requires
        o.position@ == v3(0, 0, 0),
        o.geometry == Geometry::Sphere(Sphere { radius }),
        radius > 0,
        radius <= d <= REAL_MAX - MAX_DISTANCE,
    ensures
        march(&o, v3(0, 0, d), v3(0, 0, SCALE as int)) is None,
{
    lemma_march_up_misses(o, radius, d, MIN_DISTANCE as int, MAX_STEPS as nat);
}

/// Where no object reports a hit, there is no nearest hit.
proof fn lemma_no_hit(objs: Seq<Object>, eye: V3, direction: V3)
    requires
        forall|i: int| 0 <= i < objs.len() ==> (#[trigger] march(&objs[i], eye, direction)) is None,
    ensures
        nearest_hit(objs, eye, direction) is None,
    decreases objs.len(),
{
    if objs.len() > 0 {
        let rest = objs.drop_last();
        assert forall|i: int| 0 <= i < rest.len() implies (#[trigger] march(&rest[i], eye, direction)) is None by {
            assert(rest[i] == objs[i]);
        }
        lemma_no_hit(rest, eye, direction);
        assert(march(&objs[objs.len() - 1], eye, direction) is None);
    }
}

/// A pixel whose ray misses every object takes the background colour.
pub proof fn lemma_miss_gives_background(scene: &Scene, width: int, height: int, x: int, y: int)
    requires
        forall|i: int|
            0 <= i < scene.objects@.len() ==> (#[trigger] march(
                &scene.objects@[i],
                scene.camera.position@,
                pixel_ray(scene, width, height, x, y),
            )) is None,
    ensures
        pixel_colour(scene, width, height, x, y) == scene.environment.background_colour@,
{
    lemma_no_hit(scene.objects@, scene.camera.position@, pixel_ray(scene, width, height, x, y));
}

} // verus!
