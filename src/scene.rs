//! The scene: camera, light, environment and objects.
use vstd::prelude::*;
use crate::maths::{v3, Colour, Real, Vec3, SCALE};
use crate::object::Object;

verus! {

/// A pinhole camera at `position` looking at `target`.
///
/// The vertical field of view is held as the tangent of its half angle,
/// the one quantity of it that ray generation reads.
#[derive(Clone, Copy, Debug)]
pub struct Camera {
    pub position: Vec3,
    pub target: Vec3,
    pub half_fov_tan: Real,
}

/// Light that does not come from the scene's light, and the colour of empty space.
#[derive(Clone, Copy, Debug)]
pub struct Environment {
    pub ambient_light: Real,
    pub background_colour: Colour,
}

impl Default for Environment {
    /// No ambient light, on a black background.
    fn default() -> (e: Environment)
        ensures
            e.ambient_light == 0,
            e.background_colour@ == v3(0, 0, 0),
    {
        Environment { ambient_light: 0, background_colour: Colour::rgb(0, 0, 0) }
    }
}

/// A single point light.
#[derive(Clone, Copy, Debug)]
pub struct Light {
    pub position: Vec3,
    pub strength: Real,
}

impl Light {
    /// A light of unit strength.
    pub fn new(position: Vec3) -> (l: Light)
        ensures
            l.position == position,
            l.strength == SCALE,
    {
        Light { position, strength: SCALE }
    }
}

/// Everything a render reads.
#[derive(Debug)]
pub struct Scene {
    pub camera: Camera,
    pub environment: Environment,
    pub light: Light,
    pub objects: Vec<Object>,
}

impl Scene {
    /// The camera sees a nonempty angle and every object is well formed.
    pub open spec fn wf(&self) -> bool {
        &&& self.camera.half_fov_tan > 0
        &&& forall|i: int| 0 <= i < self.objects@.len() ==> (#[trigger] self.objects@[i]).wf()
    }

    /// Checks that the scene can be rendered: see `wf`.
    pub fn is_valid(&self) -> (r: bool)
        ensures
            r == self.wf(),
    {
        if self.camera.half_fov_tan <= 0 {
            return false;
        }
        let mut i: usize = 0;
        while i < self.objects.len()
            invariant
                i <= self.objects@.len(),
                forall|j: int| 0 <= j < i ==> (#[trigger] self.objects@[j]).wf(),
            decreases self.objects@.len() - i,
        {
            if !self.objects[i].geometry.is_valid() {
                return false;
            }
            i += 1;
        }
        true
    }
}

} // verus!
