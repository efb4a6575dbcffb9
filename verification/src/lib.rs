//! BVH motion capture: the skeleton and the frames of a file, the rest pose
//! and the pose of every frame.
//!
//! `parse` loads a text, by the model of the hierarchy in `hierarchy` and of
//! the frames in `motion`; `types` holds the skeleton and its laws; `euler`
//! makes rotations of angles, and `pose` the rest pose and the pose of every
//! frame, both over the arithmetic of their caller.

pub mod capture;
pub mod error;
pub mod euler;
pub mod hierarchy;
pub mod motion;
pub mod number;
pub mod parse;
pub mod pose;
pub mod reader;
pub mod text;
pub mod types;
