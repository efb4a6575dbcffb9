//! The motion section: the frames, each a line of samples, and how the
//! samples are assigned to the joints.

use crate::error::BvhError;
use crate::euler::{check_rotation_order, is_rotation_order, reorder, reorder_vector};
use crate::hierarchy::{all_numbers, HierarchyModel};
use crate::number::Number;
use crate::reader::{model_inv, number_models, read_numbers, HierarchyReader};
use crate::text::{rows, split_whitespace, tokens_of};
use crate::types::{zero_euler, zero_position, Euler, Identity, Position};
use vstd::prelude::*;

verus! {

/// One frame: where the root is and how each joint is turned, as written.
#[derive(Clone, Debug)]
pub struct Frame {
    pub root_position: Position<Number>,
    /// For each joint, its angles about the axes X, Y and Z.
    pub rotations: Vec<Euler<Number>>,
}

/// What a frame holds, as mathematical values.
pub struct FrameModel {
    pub root_position: Position<Seq<char>>,
    pub rotations: Seq<Euler<Seq<char>>>,
}

/// The views of a sequence of angles.
pub open spec fn euler_models(v: Seq<Euler<Number>>) -> Seq<Euler<Seq<char>>> {
    v.map_values(|e: Euler<Number>| e@)
}

impl View for Frame {
    type V = FrameModel;

    open spec fn view(&self) -> FrameModel {
        FrameModel {
            root_position: self.root_position@,
            rotations: euler_models(self.rotations@),
        }
    }
}

/// The views of a sequence of frames.
pub open spec fn frame_models(v: Seq<Frame>) -> Seq<FrameModel> {
    v.map_values(|f: Frame| f@)
}

/// The angles of joint `j` in a frame with the samples `tokens`: the
/// samples at the first three rotational columns of the joint, by axis.
pub open spec fn joint_rotation(h: HierarchyModel, tokens: Seq<Seq<char>>, frame: usize, j: int)
    -> Result<Euler<Seq<char>>, BvhError> {
    let c = h.rotational[j];
    if c.len() < 3 {
        Err(BvhError::MissingRotation { joint: j as usize })
    } else if c[0] >= tokens.len() || c[1] >= tokens.len() || c[2] >= tokens.len() {
        Err(BvhError::ShortFrame { frame })
    } else {
        Ok(reorder(tokens[c[0] as int], tokens[c[1] as int], tokens[c[2] as int], h.order))
    }
}

/// The angles of the first `n` joints, or the error of the first joint
/// that has one.
pub open spec fn rotations_upto(h: HierarchyModel, tokens: Seq<Seq<char>>, frame: usize, n: int)
    -> Result<Seq<Euler<Seq<char>>>, BvhError>
    decreases n,
{
    if n <= 0 {
        Ok(Seq::empty())
    } else {
        match rotations_upto(h, tokens, frame, n - 1) {
            Err(e) => Err(e),
            Ok(earlier) => match joint_rotation(h, tokens, frame, n - 1) {
                Err(e) => Err(e),
                Ok(r) => Ok(earlier.push(r)),
            },
        }
    }
}

/// Frame number `frame`, read from `line`. Every token must be a number;
/// the frame must be within the declared count and the skeleton must have a
/// joint; the first three samples are the position of the root; the
/// rotation order must name each axis once; and each joint needs three
/// rotational columns within the line.
pub open spec fn read_frame(h: HierarchyModel, line: Seq<char>, frame: usize) -> Result<
    FrameModel,
    BvhError,
> {
    let tokens = split_whitespace(line);
    if !all_numbers(tokens) {
        Err(BvhError::InvalidSample { frame })
    } else if frame >= h.num_frames || h.joints.len() == 0 {
        Err(BvhError::UnexpectedFrame { frame })
    } else if tokens.len() < 3 {
        Err(BvhError::ShortFrame { frame })
    } else if !is_rotation_order(h.order) {
        Err(BvhError::InvalidRotationOrder)
    } else {
        match rotations_upto(h, tokens, frame, h.joints.len() as int) {
            Err(e) => Err(e),
            Ok(rotations) => Ok(
                FrameModel {
                    root_position: Position { x: tokens[0], y: tokens[1], z: tokens[2] },
                    rotations,
                },
            ),
        }
    }
}

/// The first `n` frames, read from the lines from `start` on, or the error
/// of the first line that has one.
pub open spec fn frames_upto(h: HierarchyModel, lines: Seq<Seq<char>>, start: int, n: int)
    -> Result<Seq<FrameModel>, BvhError>
    decreases n,
{
    if n <= 0 {
        Ok(Seq::empty())
    } else {
        match frames_upto(h, lines, start, n - 1) {
            Err(e) => Err(e),
            Ok(earlier) => match read_frame(h, lines[start + n - 1], (n - 1) as usize) {
                Err(e) => Err(e),
                Ok(f) => Ok(earlier.push(f)),
            },
        }
    }
}

/// A frame in which nothing moves: the root at zero, every angle zero.
pub open spec fn zero_frame(joints: nat) -> FrameModel {
    FrameModel {
        root_position: zero_position(),
        rotations: Seq::new(joints, |i: int| zero_euler()),
    }
}

/// The frames of a file whose hierarchy ends before line `start`: one frame
/// for each further line, then frames in which nothing moves, up to the
/// declared count.
pub open spec fn read_motion(h: HierarchyModel, lines: Seq<Seq<char>>, start: int) -> Result<
    Seq<FrameModel>,
    BvhError,
> {
    match frames_upto(h, lines, start, lines.len() - start) {
        Err(e) => Err(e),
        Ok(frames) => Ok(
            frames + Seq::new(
                (h.num_frames - frames.len()) as nat,
                |i: int| zero_frame(h.joints.len()),
            ),
        ),
    }
}

/// Whether an executable result is what the model says.
pub open spec fn rotation_agrees(r: Result<Euler<Number>, BvhError>, m: Result<
    Euler<Seq<char>>,
    BvhError,
>) -> bool {
    match r {
        Ok(e) => m == Ok::<Euler<Seq<char>>, BvhError>(e@),
        Err(e) => m == Err::<Euler<Seq<char>>, BvhError>(e),
    }
}

/// Whether an executable result is what the model says.
pub open spec fn frame_agrees(r: Result<Frame, BvhError>, m: Result<FrameModel, BvhError>) -> bool {
    match r {
        Ok(f) => m == Ok::<FrameModel, BvhError>(f@),
        Err(e) => m == Err::<FrameModel, BvhError>(e),
    }
}

/// The angles of joint `j` in a frame with the samples `numbers`.
pub fn read_joint_rotation(h: &HierarchyReader, numbers: &Vec<Number>, frame: usize, j: usize)
    -> (r: Result<Euler<Number>, BvhError>)
    requires
        j < h.rotational.len(),
        is_rotation_order(h.order@),
    ensures
        rotation_agrees(r, joint_rotation(h@, number_models(numbers@), frame, j as int)),
{
    let columns = &h.rotational[j];
    if columns.len() < 3 {
        return Err(BvhError::MissingRotation { joint: j });
    }
    let c0 = columns[0];
    let c1 = columns[1];
    let c2 = columns[2];
    if c0 >= numbers.len() || c1 >= numbers.len() || c2 >= numbers.len() {
        return Err(BvhError::ShortFrame { frame });
    }
    let e1 = numbers[c0].duplicate();
    let e2 = numbers[c1].duplicate();
    let e3 = numbers[c2].duplicate();
    let ghost models = number_models(numbers@);
    proof {
        assert(e1@ == models[c0 as int]);
        assert(e2@ == models[c1 as int]);
        assert(e3@ == models[c2 as int]);
        assert(reorder(e1, e2, e3, h.order@)@ == reorder(e1@, e2@, e3@, h.order@));
    }
    reorder_vector(e1, e2, e3, &h.order)
}

/// Reads frame number `frame` from `line`.
pub fn read_frame_line(h: &HierarchyReader, line: &Vec<char>, frame: usize) -> (r: Result<
    Frame,
    BvhError,
>)
    requires
        model_inv(h@),
    ensures
        frame_agrees(r, read_frame(h@, line@, frame)),
        r is Ok ==> r->Ok_0.rotations.len() == h.joints.len(),
{
    let tokens = tokens_of(line);
    let numbers = match read_numbers(&tokens) {
        Some(numbers) => numbers,
        None => {
            return Err(BvhError::InvalidSample { frame });
        },
    };
    let n = h.joints.len();
    if frame >= h.num_frames || n == 0 {
        return Err(BvhError::UnexpectedFrame { frame });
    }
    if numbers.len() < 3 {
        return Err(BvhError::ShortFrame { frame });
    }
    if !check_rotation_order(&h.order) {
        return Err(BvhError::InvalidRotationOrder);
    }
    let ghost samples = number_models(numbers@);
    let mut rotations: Vec<Euler<Number>> = Vec::new();
    let mut j: usize = 0;
    proof {
        assert(euler_models(rotations@) =~= Seq::empty());
    }
    while j < n
        invariant
            j <= n,
            n > 0,
            samples == split_whitespace(line@),
            all_numbers(samples),
            samples.len() >= 3,
            frame < h.num_frames,
            n == h.joints.len(),
            model_inv(h@),
            is_rotation_order(h.order@),
            samples == number_models(numbers@),
            rotations.len() == j,
            rotations_upto(h@, samples, frame, j as int) == Ok::<
                Seq<Euler<Seq<char>>>,
                BvhError,
            >(euler_models(rotations@)),
        decreases n - j,
    {
        let ghost earlier = euler_models(rotations@);
        match read_joint_rotation(h, &numbers, frame, j) {
            Ok(rotation) => {
                let ghost model = rotation@;
                rotations.push(rotation);
                proof {
                    assert(euler_models(rotations@) =~= earlier.push(model));
                }
            },
            Err(e) => {
                proof {
                    lemma_rotations_fail(h@, samples, frame, j + 1, n as int);
                }
                return Err(e);
            },
        }
        j += 1;
    }
    let root_position = Position {
        x: numbers[0].duplicate(),
        y: numbers[1].duplicate(),
        z: numbers[2].duplicate(),
    };
    proof {
        assert(samples[0] == numbers@[0]@);
        assert(samples[1] == numbers@[1]@);
        assert(samples[2] == numbers@[2]@);
    }
    Ok(Frame { root_position, rotations })
}

/// Once the angles of some joint fail, the angles of more joints fail in
/// the same way.
pub proof fn lemma_rotations_fail(
    h: HierarchyModel,
    tokens: Seq<Seq<char>>,
    frame: usize,
    n: int,
    m: int,
)
    requires
        0 <= n <= m,
        rotations_upto(h, tokens, frame, n) is Err,
    ensures
        rotations_upto(h, tokens, frame, m) == rotations_upto(h, tokens, frame, n),
    decreases m - n,
{
    if n < m {
        lemma_rotations_fail(h, tokens, frame, n, m - 1);
    }
}

/// Once a frame fails, more frames fail in the same way.
pub proof fn lemma_frames_fail(
    h: HierarchyModel,
    lines: Seq<Seq<char>>,
    start: int,
    n: int,
    m: int,
)
    requires
        0 <= n <= m,
        frames_upto(h, lines, start, n) is Err,
    ensures
        frames_upto(h, lines, start, m) == frames_upto(h, lines, start, n),
    decreases m - n,
{
    if n < m {
        lemma_frames_fail(h, lines, start, n, m - 1);
    }
}

/// A frame in which nothing moves, for a skeleton of `joints` joints.
pub fn still_frame(joints: usize) -> (r: Frame)
    ensures
        r@ == zero_frame(joints as nat),
{
    let mut rotations: Vec<Euler<Number>> = Vec::new();
    let mut j: usize = 0;
    while j < joints
        invariant
            j <= joints,
            rotations.len() == j,
            forall|i: int| 0 <= i < j ==> (#[trigger] rotations@[i])@ == zero_euler(),
        decreases joints - j,
    {
        let e: Euler<Number> = Euler::identity();
        assert(e@ == zero_euler());
        rotations.push(e);
        j += 1;
    }
    let root_position: Position<Number> = Position::identity();
    assert(root_position@ == zero_position());
    proof {
        assert(euler_models(rotations@) =~= Seq::new(joints as nat, |i: int| zero_euler()));
    }
    Frame { root_position, rotations }
}

/// Reads the frames from the lines from `start` on.
pub fn read_motion_lines(h: &HierarchyReader, lines: &Vec<Vec<char>>, start: usize) -> (r: Result<
    Vec<Frame>,
    BvhError,
>)
    requires
        model_inv(h@),
        start <= lines.len(),
    ensures
        match r {
            Ok(frames) => read_motion(h@, rows(lines@), start as int) == Ok::<
                Seq<FrameModel>,
                BvhError,
            >(frame_models(frames@)) && frames.len() == h.num_frames,
            Err(e) => read_motion(h@, rows(lines@), start as int) == Err::<
                Seq<FrameModel>,
                BvhError,
            >(e),
        },
        r is Ok ==> forall|f: int|
            0 <= f < r->Ok_0.len() ==> (#[trigger] r->Ok_0[f]).rotations.len() == h.joints.len(),
{
    let count = lines.len() - start;
    let ghost all = rows(lines@);
    let mut frames: Vec<Frame> = Vec::new();
    let mut k: usize = 0;
    proof {
        assert(frame_models(frames@) =~= Seq::empty());
    }
    while k < count
        invariant
            k <= count,
            count == lines.len() - start,
            start <= lines.len(),
            all == rows(lines@),
            model_inv(h@),
            frames.len() == k,
            k <= h.num_frames,
            frames_upto(h@, all, start as int, k as int) == Ok::<Seq<FrameModel>, BvhError>(
                frame_models(frames@),
            ),
            forall|f: int|
                0 <= f < frames.len() ==> (#[trigger] frames[f]).rotations.len()
                    == h.joints.len(),
        decreases count - k,
    {
        let ghost earlier = frame_models(frames@);
        proof {
            assert(all[start + k] == lines@[start + k]@);
        }
        match read_frame_line(h, &lines[start + k], k) {
            Ok(frame) => {
                let ghost model = frame@;
                frames.push(frame);
                proof {
                    assert(frame_models(frames@) =~= earlier.push(model));
                }
            },
            Err(e) => {
                proof {
                    lemma_frames_fail(h@, all, start as int, k + 1, count as int);
                }
                return Err(e);
            },
        }
        k += 1;
    }
    let ghost read = frame_models(frames@);
    let n = h.joints.len();
    proof {
        assert(read + Seq::new(0nat, |i: int| zero_frame(n as nat)) =~= read);
    }
    while frames.len() < h.num_frames
        invariant
            n == h.joints.len(),
            read.len() <= frames.len() <= h.num_frames,
            frame_models(frames@) =~= read + Seq::new(
                (frames.len() - read.len()) as nat,
                |i: int| zero_frame(n as nat),
            ),
            forall|f: int|
                0 <= f < frames.len() ==> (#[trigger] frames[f]).rotations.len() == n,
        decreases h.num_frames - frames.len(),
    {
        let frame = still_frame(n);
        let ghost model = frame@;
        let ghost earlier = frame_models(frames@);
        assert(frame.rotations.len() == n) by {
            assert(frame@.rotations.len() == n);
        }
        frames.push(frame);
        proof {
            assert(frame_models(frames@) =~= earlier.push(model));
        }
    }
    Ok(frames)
}

} // verus!
