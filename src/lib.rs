//! A sphere-tracing renderer for scenes built from signed distance fields.
//!
//! Reals are fixed-point integers (`maths`); geometry is a tree of distance
//! fields (`object`); a scene (`scene`) is rendered pixel by pixel by marching
//! rays, estimating normals and shading (`renderer`).
pub mod maths;
pub mod object;
pub mod renderer;
pub mod scene;
pub mod timing;
