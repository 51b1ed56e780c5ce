//! Signed distance fields: primitives, operators and positioned objects.
use vstd::prelude::*;
use vstd::arithmetic::div_mod::lemma_mod_multiples_vanish;
use crate::maths::{
    floor_mod, fmul, is_real,
    max, max_component, min, real_add, real_max, real_min, real_sub, sat, v3, vabs, vec3_abs,
    vec3_max, vec3_mod, vec3_ones, vadd, vlen, vmax, vmod, vscale, vsub, Colour, Real, Vec3, V3,
    SCALE,
};

verus! {

/// The appearance of an object.
#[derive(Clone, Copy, PartialEq, Eq, Debug)]
pub struct Material {
    pub colour: Colour,
}

impl Default for Material {
    /// Opaque red.
    fn default() -> (m: Material)
        ensures
            m.colour@ == v3(SCALE as int, 0, 0),
    {
        Material { colour: Colour::rgb(SCALE, 0, 0) }
    }
}

/// A geometry placed at `position` with a material.
#[derive(Debug)]
pub struct Object {
    pub position: Vec3,
    pub material: Material,
    pub geometry: Geometry,
}

/// A ball of the given radius around the origin.
#[derive(Debug)]
pub struct Sphere {
    pub radius: Real,
}

/// A box with the given half-extents around the origin.
#[derive(Debug)]
pub struct Cube {
    pub size: Vec3,
}

/// The child repeated in every cell of a grid with the given period.
#[derive(Debug)]
pub struct InfiniteRepetition {
    pub period: Vec3,
    pub child: Box<Object>,
}

/// Everything inside `a` or `b`.
#[derive(Debug)]
pub struct Union {
    pub a: Box<Object>,
    pub b: Box<Object>,
}

/// Everything inside `a` but not inside `b`.
#[derive(Debug)]
pub struct Subtraction {
    pub a: Box<Object>,
    pub b: Box<Object>,
}

/// Everything inside both `a` and `b`.
#[derive(Debug)]
pub struct Intersection {
    pub a: Box<Object>,
    pub b: Box<Object>,
}

/// A node of a distance-field tree.
#[derive(Debug)]
pub enum Geometry {
    Sphere(Sphere),
    Cube(Cube),
    InfiniteRepetition(InfiniteRepetition),
    Union(Union),
    Subtraction(Subtraction),
    Intersection(Intersection),
}

/// Every parameter is in its domain: radii and half-extents positive,
/// periods nonzero, and so for every node below.
pub open spec fn geometry_wf(g: Geometry) -> bool
    decreases g,
{
    match g {
        Geometry::Sphere(s) => s.radius > 0,
        Geometry::Cube(c) => c.size.x > 0 && c.size.y > 0 && c.size.z > 0,
        Geometry::InfiniteRepetition(r) => r.period.x != 0 && r.period.y != 0 && r.period.z
            != 0 && geometry_wf(r.child.geometry),
        Geometry::Union(u) => geometry_wf(u.a.geometry) && geometry_wf(u.b.geometry),
        Geometry::Subtraction(u) => geometry_wf(u.a.geometry) && geometry_wf(u.b.geometry),
        Geometry::Intersection(u) => geometry_wf(u.a.geometry) && geometry_wf(u.b.geometry),
    }
}

/// The point of the central cell that stands for `p`:
/// `mod(p + period / 2, period) - period / 2`, componentwise.
pub open spec fn repetition_cell(p: V3, period: V3) -> V3 {
    let half = vscale(period, SCALE / 2);
    vsub(vmod(vadd(p, half), period), half)
}

/// The signed distance from `p` to the surface of `g`.
pub open spec fn geometry_distance(g: Geometry, p: V3) -> int
    decreases g,
{
    match g {
        Geometry::Sphere(s) => sat(vlen(p) - s.radius),
        Geometry::Cube(c) => {
            let q = vsub(vabs(p), c.size@);
            sat(vlen(vmax(q, 0)) + min(max_component(q), 0))
        },
        Geometry::InfiniteRepetition(r) => geometry_distance(
            r.child.geometry,
            vsub(repetition_cell(p, r.period@), r.child.position@),
        ),
        Geometry::Union(u) => min(
            geometry_distance(u.a.geometry, vsub(p, u.a.position@)),
            geometry_distance(u.b.geometry, vsub(p, u.b.position@)),
        ),
        Geometry::Subtraction(u) => max(
            sat(-geometry_distance(u.b.geometry, vsub(p, u.b.position@))),
            geometry_distance(u.a.geometry, vsub(p, u.a.position@)),
        ),
        Geometry::Intersection(u) => max(
            geometry_distance(u.b.geometry, vsub(p, u.b.position@)),
            geometry_distance(u.a.geometry, vsub(p, u.a.position@)),
        ),
    }
}

/// The signed distance from `p` to the surface of `o`: its geometry seen from its position.
pub open spec fn object_distance(o: Object, p: V3) -> int {
    geometry_distance(o.geometry, vsub(p, o.position@))
}

impl Object {
    pub open spec fn wf(&self) -> bool {
        geometry_wf(self.geometry)
    }

    pub fn distance(&self, p: Vec3) -> (r: Real)
        requires
            self.wf(),
        ensures
            r == object_distance(*self, p@),
        decreases self,
    {
        self.geometry.distance(p.sub(&self.position))
    }
}

impl Geometry {
    /// Checks that every parameter of the tree is in its domain.
    pub fn is_valid(&self) -> (r: bool)
        ensures
            r == geometry_wf(*self),
        decreases self,
    {
        match self {
            Geometry::Sphere(s) => s.radius > 0,
            Geometry::Cube(c) => c.size.x > 0 && c.size.y > 0 && c.size.z > 0,
            Geometry::InfiniteRepetition(r) => r.period.x != 0 && r.period.y != 0 && r.period.z
                != 0 && r.child.geometry.is_valid(),
            Geometry::Union(u) => u.a.geometry.is_valid() && u.b.geometry.is_valid(),
            Geometry::Subtraction(u) => u.a.geometry.is_valid() && u.b.geometry.is_valid(),
            Geometry::Intersection(u) => u.a.geometry.is_valid() && u.b.geometry.is_valid(),
        }
    }

    pub fn distance(&self, p: Vec3) -> (r: Real)
        requires
            geometry_wf(*self),
        ensures
            r == geometry_distance(*self, p@),
        decreases self,
    {
        match self {
            Geometry::Sphere(s) => s.distance(p),
            Geometry::Cube(c) => c.distance(p),
            Geometry::InfiniteRepetition(r) => r.distance(p),
            Geometry::Union(u) => u.distance(p),
            Geometry::Subtraction(u) => u.distance(p),
            Geometry::Intersection(u) => u.distance(p),
        }
    }
}

impl Sphere {
    /// `|p| - radius`.
    pub fn distance(&self, p: Vec3) -> (r: Real)
        ensures
            r == sat(vlen(p@) - self.radius),
    {
        real_sub(p.magnitude(), self.radius)
    }
}

impl Cube {
    /// `|max(q, 0)| + min(max(q.x, q.y, q.z), 0)` where `q = abs(p) - size`.
    pub fn distance(&self, p: Vec3) -> (r: Real)
        ensures
            ({
                let q = vsub(vabs(p@), self.size@);
                r == sat(vlen(vmax(q, 0)) + min(max_component(q), 0))
            }),
    {
        let q = vec3_abs(p).sub(&self.size);
        let outside = vec3_max(q, 0).magnitude();
        let inside = real_min(real_max(q.x, real_max(q.y, q.z)), 0);
        real_add(outside, inside)
    }
}

impl InfiniteRepetition {
    /// The child's distance at the point of the central cell that stands for `p`.
    pub fn distance(&self, p: Vec3) -> (r: Real)
        requires
            geometry_wf(Geometry::InfiniteRepetition(*self)),
        ensures
            r == object_distance(*self.child, repetition_cell(p@, self.period@)),
        decreases self,
    {
        let half = self.period.scale(SCALE / 2);
        let cell = vec3_mod(p.add(&half), self.period).sub(&half);
        self.child.distance(cell)
    }
}

impl Union {
    /// `min(a, b)`.
    pub fn distance(&self, p: Vec3) -> (r: Real)
        requires
            geometry_wf(self.a.geometry) && geometry_wf(self.b.geometry),
        ensures
            r == min(object_distance(*self.a, p@), object_distance(*self.b, p@)),
        decreases self,
    {
        real_min(self.a.distance(p), self.b.distance(p))
    }
}

impl Subtraction {
    /// `max(-b, a)`.
    pub fn distance(&self, p: Vec3) -> (r: Real)
        requires
            geometry_wf(self.a.geometry) && geometry_wf(self.b.geometry),
        ensures
            r == max(sat(-object_distance(*self.b, p@)), object_distance(*self.a, p@)),
        decreases self,
    {
        real_max(real_sub(0, self.b.distance(p)), self.a.distance(p))
    }
}

impl Intersection {
    /// `max(b, a)`.
    pub fn distance(&self, p: Vec3) -> (r: Real)
        requires
            geometry_wf(self.a.geometry) && geometry_wf(self.b.geometry),
        ensures
            r == max(object_distance(*self.b, p@), object_distance(*self.a, p@)),
        decreases self,
    {
        real_max(self.b.distance(p), self.a.distance(p))
    }
}

/// The default period of a repetition: one unit on every axis.
pub fn default_period() -> (r: Vec3)
    ensures
        r@ == v3(SCALE as int, SCALE as int, SCALE as int),
{
    vec3_ones()
}

/// The distance to a union is the lesser of the distances to its two parts.
pub proof fn lemma_union_is_min(u: Union, p: V3)
    ensures
        geometry_distance(Geometry::Union(u), p) == min(
            object_distance(*u.a, p),
            object_distance(*u.b, p),
        ),
{
}

/// The distance to an intersection is the greater of the distances to its two parts.
pub proof fn lemma_intersection_is_max(u: Intersection, p: V3)
    ensures
        geometry_distance(Geometry::Intersection(u), p) == max(
            object_distance(*u.a, p),
            object_distance(*u.b, p),
        ),
{
}

/// Shifting `x` by `k` periods leaves its floor-based remainder unchanged.
pub proof fn lemma_floor_mod_periodic(x: int, k: int, period: int)
    requires
        period != 0,
    ensures
        floor_mod(x + k * period, period) == floor_mod(x, period),
{
    if period > 0 {
        lemma_mod_multiples_vanish(k, x, period);
        assert(period * k + x == x + k * period) by (nonlinear_arith);
    } else {
        lemma_mod_multiples_vanish(k, -x, -period);
        assert((-period) * k + (-x) == -(x + k * period)) by (nonlinear_arith);
    }
}

/// One coordinate `x` moved by `k` periods stays clear of saturation on the way
/// into the central cell.
pub open spec fn shift_in_range(x: int, k: int, period: int) -> bool {
    let half = fmul(period, SCALE / 2);
    &&& is_real(x + half)
    &&& is_real(x + k * period + half)
}

/// An infinite repetition takes the same distance at points that lie a whole
/// number of periods apart on every axis.
pub proof fn lemma_repetition_periodic(r: InfiniteRepetition, p: V3, k: V3)
    requires
        r.period.x != 0 && r.period.y != 0 && r.period.z != 0,
        shift_in_range(p.x, k.x, r.period.x as int),
        shift_in_range(p.y, k.y, r.period.y as int),
        shift_in_range(p.z, k.z, r.period.z as int),
    ensures
        geometry_distance(Geometry::InfiniteRepetition(r), p) == geometry_distance(
            Geometry::InfiniteRepetition(r),
            v3(
                p.x + k.x * r.period.x,
                p.y + k.y * r.period.y,
                p.z + k.z * r.period.z,
            ),
        ),
{
    let t = r.period@;
    let h = vscale(t, SCALE / 2);
    let q = v3(p.x + k.x * t.x, p.y + k.y * t.y, p.z + k.z * t.z);
    lemma_floor_mod_periodic(p.x + h.x, k.x, t.x);
    lemma_floor_mod_periodic(p.y + h.y, k.y, t.y);
    lemma_floor_mod_periodic(p.z + h.z, k.z, t.z);
    assert(p.x + h.x + k.x * t.x == q.x + h.x);
    assert(p.y + h.y + k.y * t.y == q.y + h.y);
    assert(p.z + h.z + k.z * t.z == q.z + h.z);
    assert(repetition_cell(p, t) == repetition_cell(q, t));
}

} // verus!
