//! Why loading a file fails.

use vstd::prelude::*;

verus! {

/// The part of the load that an error belongs to.
#[derive(Clone, Copy, Debug, PartialEq, Eq, Structural)]
pub enum Stage {
    /// The structure of the skeleton.
    Hierarchy,
    /// The frames and how they fit the skeleton.
    Motion,
    /// A token that should be a number and is none.
    Numeric,
}

/// A failed load. Lines and frames are counted from 0; a frame is a line
/// after the `Frame Time:` line.
#[derive(Clone, Copy, Debug, PartialEq, Eq, Structural)]
pub enum BvhError {
    /// The text ends before any `Frame Time:` line.
    MissingFrameTime,
    /// A `ROOT` or `JOINT` line from which no name can be taken.
    UnnamedJoint { line: usize },
    /// A joint is declared where no earlier joint is one level above it.
    MissingParent { line: usize },
    /// A `}` without an open `{`.
    UnbalancedBrace { line: usize },
    /// A joint without an `OFFSET` of its own.
    MissingOffset { joint: usize },
    /// A joint with neither a child nor an end site.
    DanglingJoint { joint: usize },
    /// Frames are given, but the rotation order is none of the six
    /// orders of the three axes.
    InvalidRotationOrder,
    /// A number is missing or malformed on a line of the hierarchy.
    InvalidNumber { line: usize },
    /// A token of a frame is no number.
    InvalidSample { frame: usize },
    /// A frame beyond the declared count, or a frame for a skeleton
    /// without joints.
    UnexpectedFrame { frame: usize },
    /// A frame with fewer samples than the channels ask for.
    ShortFrame { frame: usize },
    /// Frames are given, but a joint has fewer than three rotational
    /// channels.
    MissingRotation { joint: usize },
}

impl BvhError {
    /// The stage that an error belongs to.
    pub open spec fn stage_of(self) -> Stage {
        match self {
            BvhError::MissingFrameTime
            | BvhError::UnnamedJoint { .. }
            | BvhError::MissingParent { .. }
            | BvhError::UnbalancedBrace { .. }
            | BvhError::MissingOffset { .. }
            | BvhError::DanglingJoint { .. }
            | BvhError::InvalidRotationOrder => Stage::Hierarchy,
            BvhError::InvalidNumber { .. } | BvhError::InvalidSample { .. } => Stage::Numeric,
            BvhError::UnexpectedFrame { .. }
            | BvhError::ShortFrame { .. }
            | BvhError::MissingRotation { .. } => Stage::Motion,
        }
    }

    /// The stage that this error belongs to.
    pub fn stage(&self) -> (r: Stage)
        ensures
            r == self.stage_of(),
    {
        match self {
            BvhError::MissingFrameTime => Stage::Hierarchy,
            BvhError::UnnamedJoint { .. } => Stage::Hierarchy,
            BvhError::MissingParent { .. } => Stage::Hierarchy,
            BvhError::UnbalancedBrace { .. } => Stage::Hierarchy,
            BvhError::MissingOffset { .. } => Stage::Hierarchy,
            BvhError::DanglingJoint { .. } => Stage::Hierarchy,
            BvhError::InvalidRotationOrder => Stage::Hierarchy,
            BvhError::InvalidNumber { .. } => Stage::Numeric,
            BvhError::InvalidSample { .. } => Stage::Numeric,
            BvhError::UnexpectedFrame { .. } => Stage::Motion,
            BvhError::ShortFrame { .. } => Stage::Motion,
            BvhError::MissingRotation { .. } => Stage::Motion,
        }
    }
}

} // verus!
