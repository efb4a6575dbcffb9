//! The hierarchy section as a mathematical model: the state of the reader
//! and what each kind of line does to it.

use crate::capture::regex_capture;
use crate::error::BvhError;
use crate::number::{is_letter, is_number, parse_usize};
use crate::text::{split_whitespace, trim};
use crate::types::{zero_position, JointModel, Position};
use vstd::prelude::*;

verus! {

/// What has been read of the hierarchy so far.
pub struct HierarchyModel {
    pub joints: Seq<JointModel>,
    /// For each joint, its own offset, once given.
    pub offsets: Seq<Option<Position<Seq<char>>>>,
    /// For each joint, the frame columns of its positional channels.
    pub positional: Seq<Seq<usize>>,
    /// For each joint, the frame columns of its rotational channels.
    pub rotational: Seq<Seq<usize>>,
    /// The letters of the rotation order; empty until it is known.
    pub order: Seq<char>,
    /// How many `{` are open.
    pub depth: nat,
    /// Whether the next offset belongs to an end site.
    pub in_endsite: bool,
    /// How many channels have been declared.
    pub channels: nat,
    pub num_frames: usize,
}

/// The state before the first line.
pub open spec fn initial() -> HierarchyModel {
    HierarchyModel {
        joints: Seq::empty(),
        offsets: Seq::empty(),
        positional: Seq::empty(),
        rotational: Seq::empty(),
        order: Seq::empty(),
        depth: 0,
        in_endsite: false,
        channels: 0,
        num_frames: 0,
    }
}

/// The kinds of line, by the start of the trimmed line. Where several fit,
/// the first in this order counts.
pub enum LineKind {
    Skip,
    Joint,
    EndSite,
    Open,
    Close,
    Offset,
    Channels,
    Frames,
    FrameTime,
    Other,
}

pub open spec fn starts_with_end(t: Seq<char>) -> bool {
    t.len() >= 3 && is_letter(t[0], 'e', 'E') && is_letter(t[1], 'n', 'N') && is_letter(
        t[2],
        'd',
        'D',
    )
}

pub open spec fn line_kind(t: Seq<char>) -> LineKind {
    if "HIERARCHY"@.is_prefix_of(t) || t.len() == 0 {
        LineKind::Skip
    } else if "ROOT"@.is_prefix_of(t) || "JOINT"@.is_prefix_of(t) {
        LineKind::Joint
    } else if starts_with_end(t) {
        LineKind::EndSite
    } else if t == "{"@ {
        LineKind::Open
    } else if t == "}"@ {
        LineKind::Close
    } else if "OFFSET"@.is_prefix_of(t) {
        LineKind::Offset
    } else if "CHANNELS"@.is_prefix_of(t) {
        LineKind::Channels
    } else if "Frames:"@.is_prefix_of(t) {
        LineKind::Frames
    } else if "Frame Time:"@.is_prefix_of(t) {
        LineKind::FrameTime
    } else {
        LineKind::Other
    }
}

/// The name on a `ROOT` or `JOINT` line.
pub open spec fn joint_name(t: Seq<char>) -> Option<Seq<char>> {
    regex_capture("(ROOT|JOINT) (\\w+)"@, 2, t)
}

/// What follows `OFFSET` and a space.
pub open spec fn offset_payload(t: Seq<char>) -> Option<Seq<char>> {
    regex_capture("OFFSET (.+)"@, 1, t)
}

/// What follows `CHANNELS`, one digit and a space.
pub open spec fn channels_payload(t: Seq<char>) -> Option<Seq<char>> {
    regex_capture("CHANNELS (\\d) (.+)"@, 2, t)
}

/// The nearest joint before place `n` that lies one level above `depth`,
/// or -1.
pub open spec fn find_parent(joints: Seq<JointModel>, depth: nat, n: int) -> int
    decreases n,
{
    if n <= 0 {
        -1
    } else if joints[n - 1].depth + 1 == depth {
        n - 1
    } else {
        find_parent(joints, depth, n - 1)
    }
}

/// A joint as it is when declared.
pub open spec fn fresh_joint(name: Seq<char>, index: int, parent: int, depth: nat) -> JointModel {
    JointModel {
        name,
        index: index as usize,
        parent_index: parent as isize,
        depth: depth as usize,
        children: Seq::empty(),
        is_leaf: false,
        endsite: None,
    }
}

/// The joint with one more child.
pub open spec fn with_child(j: JointModel, child: int) -> JointModel {
    JointModel { children: j.children.push(child as usize), is_leaf: false, ..j }
}

/// The joint with an end site at `offset`.
pub open spec fn with_endsite(j: JointModel, offset: Position<Seq<char>>) -> JointModel {
    JointModel { endsite: Some(offset), is_leaf: j.children.len() == 0, ..j }
}

/// The state with one more joint, with no offset and no channels yet.
pub open spec fn push_joint(s: HierarchyModel, joints: Seq<JointModel>) -> HierarchyModel {
    HierarchyModel {
        joints,
        offsets: s.offsets.push(None),
        positional: s.positional.push(Seq::empty()),
        rotational: s.rotational.push(Seq::empty()),
        ..s
    }
}

/// A `ROOT` or `JOINT` line, `name` being what was captured from it. The
/// first joint must stand at depth 0 and is the root; every later one needs
/// an earlier joint one level above it, whose index fits `isize`.
pub open spec fn declare_joint(s: HierarchyModel, name: Option<Seq<char>>, line: usize) -> Result<
    HierarchyModel,
    BvhError,
> {
    let n = s.joints.len() as int;
    let p = find_parent(s.joints, s.depth, n);
    match name {
        None => Err(BvhError::UnnamedJoint { line }),
        Some(name) => if n == 0 && s.depth == 0 {
            Ok(push_joint(s, seq![fresh_joint(name, 0, -1, 0)]))
        } else if p < 0 || p > isize::MAX {
            Err(BvhError::MissingParent { line })
        } else {
            Ok(
                push_joint(
                    s,
                    s.joints.update(p, with_child(s.joints[p], n)).push(
                        fresh_joint(name, n, p, s.depth),
                    ),
                ),
            )
        },
    }
}

/// An `End Site` line: the last joint gets an end site at the zero offset,
/// and the next offset is the end site's.
pub open spec fn mark_endsite(s: HierarchyModel) -> HierarchyModel {
    let n = s.joints.len() as int;
    HierarchyModel {
        in_endsite: true,
        joints: if n > 0 {
            s.joints.update(n - 1, with_endsite(s.joints[n - 1], zero_position()))
        } else {
            s.joints
        },
        ..s
    }
}

pub open spec fn all_numbers(tokens: Seq<Seq<char>>) -> bool {
    forall|k: int| 0 <= k < tokens.len() ==> is_number(#[trigger] tokens[k])
}

/// An `OFFSET` line, `payload` being what was captured from it. Without a
/// capture the line says nothing. Every token must be a number and there
/// must be three; the first three are the offset of the last joint, or of
/// its end site where one is awaited.
pub open spec fn read_offset(s: HierarchyModel, payload: Option<Seq<char>>, line: usize) -> Result<
    HierarchyModel,
    BvhError,
> {
    match payload {
        None => Ok(s),
        Some(p) => {
            let t = split_whitespace(p);
            let n = s.joints.len() as int;
            let offset = Position { x: t[0], y: t[1], z: t[2] };
            if !all_numbers(t) || t.len() < 3 {
                Err(BvhError::InvalidNumber { line })
            } else if n == 0 {
                Ok(s)
            } else if s.in_endsite {
                Ok(
                    HierarchyModel {
                        in_endsite: false,
                        joints: s.joints.update(n - 1, with_endsite(s.joints[n - 1], offset)),
                        ..s
                    },
                )
            } else {
                Ok(HierarchyModel { offsets: s.offsets.update(n - 1, Some(offset)), ..s })
            }
        },
    }
}

pub open spec fn is_position_name(t: Seq<char>) -> bool {
    t == "Xposition"@ || t == "Yposition"@ || t == "Zposition"@
}

pub open spec fn is_rotation_name(t: Seq<char>) -> bool {
    t == "Xrotation"@ || t == "Yrotation"@ || t == "Zrotation"@
}

/// The channels of one joint and the number of channels declared in all.
pub struct ChannelModel {
    pub positional: Seq<usize>,
    pub rotational: Seq<usize>,
    pub next: nat,
}

/// `start` after the first `n` of `names`: each positional and each
/// rotational name takes the next column; other names take none.
pub open spec fn assign_channels(names: Seq<Seq<char>>, n: int, start: ChannelModel) -> ChannelModel
    decreases n,
{
    if n <= 0 {
        start
    } else {
        let c = assign_channels(names, n - 1, start);
        if is_position_name(names[n - 1]) {
            ChannelModel { positional: c.positional.push(c.next as usize), next: c.next + 1, ..c }
        } else if is_rotation_name(names[n - 1]) {
            ChannelModel { rotational: c.rotational.push(c.next as usize), next: c.next + 1, ..c }
        } else {
            c
        }
    }
}

/// Whether `names` are three rotational channels.
pub open spec fn names_rotation_order(names: Seq<Seq<char>>) -> bool {
    names.len() == 3 && is_rotation_name(names[0]) && is_rotation_name(names[1])
        && is_rotation_name(names[2])
}

/// A `CHANNELS` line, `payload` being what was captured from it. The first
/// line that names exactly three rotational channels fixes the rotation
/// order, by their first letters. The channels go to the last joint.
pub open spec fn read_channels(s: HierarchyModel, payload: Option<Seq<char>>) -> HierarchyModel {
    match payload {
        None => s,
        Some(p) => {
            let names = split_whitespace(p);
            let n = s.joints.len() as int;
            let order = if s.order.len() == 0 && names_rotation_order(names) {
                seq![names[0][0], names[1][0], names[2][0]]
            } else {
                s.order
            };
            let c = assign_channels(
                names,
                names.len() as int,
                ChannelModel {
                    positional: s.positional[n - 1],
                    rotational: s.rotational[n - 1],
                    next: s.channels,
                },
            );
            if n == 0 {
                HierarchyModel { order, ..s }
            } else {
                HierarchyModel {
                    order,
                    positional: s.positional.update(n - 1, c.positional),
                    rotational: s.rotational.update(n - 1, c.rotational),
                    channels: c.next,
                    ..s
                }
            }
        },
    }
}

/// A `Frames:` line: its second token is the number of frames.
pub open spec fn read_frames(s: HierarchyModel, t: Seq<char>, line: usize) -> Result<
    HierarchyModel,
    BvhError,
> {
    let tokens = split_whitespace(t);
    if tokens.len() < 2 {
        Err(BvhError::InvalidNumber { line })
    } else {
        match parse_usize(tokens[1]) {
            None => Err(BvhError::InvalidNumber { line }),
            Some(n) => Ok(HierarchyModel { num_frames: n, ..s }),
        }
    }
}

/// The first joint from `i` on without an offset of its own.
pub open spec fn first_without_offset(offsets: Seq<Option<Position<Seq<char>>>>, i: int) -> Option<
    int,
>
    decreases offsets.len() - i,
{
    if i < 0 || i >= offsets.len() {
        None
    } else if offsets[i] is None {
        Some(i)
    } else {
        first_without_offset(offsets, i + 1)
    }
}

/// The first joint from `i` on with neither a child nor an end site.
pub open spec fn first_dangling(joints: Seq<JointModel>, i: int) -> Option<int>
    decreases joints.len() - i,
{
    if i < 0 || i >= joints.len() {
        None
    } else if joints[i].children.len() == 0 && joints[i].endsite is None {
        Some(i)
    } else {
        first_dangling(joints, i + 1)
    }
}

/// What a line leaves behind.
pub enum Step {
    /// The hierarchy goes on.
    Next(HierarchyModel),
    /// The hierarchy is complete; the frame time is given.
    Done(HierarchyModel, Seq<char>),
    Fail(BvhError),
}

/// A `Frame Time:` line: its third token is the frame time, and the
/// hierarchy ends. By then every joint must have an offset of its own, and a
/// child or an end site.
pub open spec fn read_frame_time(s: HierarchyModel, t: Seq<char>, line: usize) -> Step {
    let tokens = split_whitespace(t);
    if tokens.len() < 3 || !is_number(tokens[2]) {
        Step::Fail(BvhError::InvalidNumber { line })
    } else if first_without_offset(s.offsets, 0) is Some {
        Step::Fail(
            BvhError::MissingOffset { joint: first_without_offset(s.offsets, 0)->0 as usize },
        )
    } else if first_dangling(s.joints, 0) is Some {
        Step::Fail(BvhError::DanglingJoint { joint: first_dangling(s.joints, 0)->0 as usize })
    } else {
        Step::Done(s, tokens[2])
    }
}

pub open spec fn lift(r: Result<HierarchyModel, BvhError>) -> Step {
    match r {
        Ok(s) => Step::Next(s),
        Err(e) => Step::Fail(e),
    }
}

/// What the trimmed line `t`, line number `line`, does to the state `s`,
/// `name`, `offset` and `channels` being what was captured from it as the
/// name of a joint and as what an `OFFSET` and a `CHANNELS` line hold.
pub open spec fn step_with(
    s: HierarchyModel,
    t: Seq<char>,
    line: usize,
    name: Option<Seq<char>>,
    offset: Option<Seq<char>>,
    channels: Option<Seq<char>>,
) -> Step {
    match line_kind(t) {
        LineKind::Skip | LineKind::Other => Step::Next(s),
        LineKind::Joint => lift(declare_joint(s, name, line)),
        LineKind::EndSite => Step::Next(mark_endsite(s)),
        LineKind::Open => Step::Next(HierarchyModel { depth: s.depth + 1, ..s }),
        LineKind::Close => if s.depth == 0 {
            Step::Fail(BvhError::UnbalancedBrace { line })
        } else {
            Step::Next(HierarchyModel { depth: (s.depth - 1) as nat, ..s })
        },
        LineKind::Offset => lift(read_offset(s, offset, line)),
        LineKind::Channels => Step::Next(read_channels(s, channels)),
        LineKind::Frames => lift(read_frames(s, t, line)),
        LineKind::FrameTime => read_frame_time(s, t, line),
    }
}

/// What the trimmed line `t` does to the state `s`.
pub open spec fn step(s: HierarchyModel, t: Seq<char>, line: usize) -> Step {
    step_with(s, t, line, joint_name(t), offset_payload(t), channels_payload(t))
}

/// How far the reading of the hierarchy has come.
pub enum Scan {
    Running(HierarchyModel),
    /// Complete, with the frame time and the number of lines read.
    Finished(HierarchyModel, Seq<char>, int),
    Failed(BvhError),
}

/// The reading after the first `n` lines.
pub open spec fn scan(lines: Seq<Seq<char>>, n: int) -> Scan
    decreases n,
{
    if n <= 0 {
        Scan::Running(initial())
    } else {
        match scan(lines, n - 1) {
            Scan::Running(s) => match step(s, trim(lines[n - 1]), (n - 1) as usize) {
                Step::Next(s2) => Scan::Running(s2),
                Step::Done(s2, frame_time) => Scan::Finished(s2, frame_time, n),
                Step::Fail(e) => Scan::Failed(e),
            },
            other => other,
        }
    }
}

/// Once the reading has finished or failed, further lines change nothing.
pub proof fn lemma_scan_settles(lines: Seq<Seq<char>>, n: int, m: int)
    requires
        0 <= n <= m,
        !(scan(lines, n) is Running),
    ensures
        scan(lines, m) == scan(lines, n),
    decreases m - n,
{
    if n < m {
        lemma_scan_settles(lines, n, m - 1);
    }
}

} // verus!
