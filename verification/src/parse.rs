//! Loading a whole file: the hierarchy up to the `Frame Time:` line, then
//! the frames.

use crate::error::{BvhError, Stage};
use crate::hierarchy::{
    first_dangling, first_without_offset, lemma_scan_settles, line_kind, scan, HierarchyModel,
    Scan,
};
use crate::motion::{frame_models, read_motion, read_motion_lines, Frame, FrameModel};
use crate::number::{frame_rate, Number};
use crate::reader::{lemma_scan_outcome, model_inv, HierarchyReader};
use crate::text::{
    chars_of, lemma_lines_total, lines_of, rows, split_lines, string_of, total_len, trim,
};
use crate::types::{column_models, skeleton_wf, BvhMetadata, MetadataModel, Position};
use vstd::prelude::*;

verus! {

/// What a file says of the motion, as written: the offset of each joint,
/// the frame columns of its channels, the rotation order, and the frames.
#[derive(Clone, Debug)]
pub struct BvhMotion {
    pub rest_local_positions: Vec<Position<Number>>,
    pub positional_channels: Vec<Vec<usize>>,
    pub rotational_channels: Vec<Vec<usize>>,
    pub rotation_order: String,
    pub frames: Vec<Frame>,
}

/// What the motion holds, as mathematical values.
pub struct MotionModel {
    pub rest_local_positions: Seq<Position<Seq<char>>>,
    pub positional_channels: Seq<Seq<usize>>,
    pub rotational_channels: Seq<Seq<usize>>,
    pub rotation_order: Seq<char>,
    pub frames: Seq<FrameModel>,
}

/// The views of a sequence of offsets.
pub open spec fn position_models(v: Seq<Position<Number>>) -> Seq<Position<Seq<char>>> {
    v.map_values(|p: Position<Number>| p@)
}

impl View for BvhMotion {
    type V = MotionModel;

    open spec fn view(&self) -> MotionModel {
        MotionModel {
            rest_local_positions: position_models(self.rest_local_positions@),
            positional_channels: column_models(self.positional_channels@),
            rotational_channels: column_models(self.rotational_channels@),
            rotation_order: self.rotation_order@,
            frames: frame_models(self.frames@),
        }
    }
}

/// A loaded file.
pub struct Document {
    pub metadata: MetadataModel,
    pub motion: MotionModel,
}

/// The offsets, each of them given.
pub open spec fn given(offsets: Seq<Option<Position<Seq<char>>>>) -> Seq<Position<Seq<char>>> {
    offsets.map_values(|o: Option<Position<Seq<char>>>| o->0)
}

/// What a hierarchy, its frame time and its frames make.
pub open spec fn document(h: HierarchyModel, frame_time: Seq<char>, frames: Seq<FrameModel>)
    -> Document {
    Document {
        metadata: MetadataModel {
            joints: h.joints,
            num_frames: h.num_frames,
            frame_time,
            fps: frame_rate(frame_time),
        },
        motion: MotionModel {
            rest_local_positions: given(h.offsets),
            positional_channels: h.positional,
            rotational_channels: h.rotational,
            rotation_order: h.order,
            frames,
        },
    }
}

/// What the lines of a file hold. The hierarchy is read line by line up to
/// the `Frame Time:` line, without which the load fails; the lines after
/// it are the frames. The first error ends the load.
pub open spec fn parse_bvh(lines: Seq<Seq<char>>) -> Result<Document, BvhError> {
    match scan(lines, lines.len() as int) {
        Scan::Running(_) => Err(BvhError::MissingFrameTime),
        Scan::Failed(e) => Err(e),
        Scan::Finished(h, frame_time, next) => match read_motion(h, lines, next) {
            Err(e) => Err(e),
            Ok(frames) => Ok(document(h, frame_time, frames)),
        },
    }
}

/// What holds of every loaded file: the joints form a well-formed skeleton
/// in which every joint has a child or an end site; there is an offset and
/// there are channel columns for each joint; and there are as many frames
/// as declared, each with angles for each joint.
pub open spec fn document_wf(d: Document) -> bool {
    let n = d.metadata.joints.len();
    &&& skeleton_wf(d.metadata.joints)
    &&& first_dangling(d.metadata.joints, 0) is None
    &&& d.motion.rest_local_positions.len() == n
    &&& d.motion.positional_channels.len() == n
    &&& d.motion.rotational_channels.len() == n
    &&& d.motion.frames.len() == d.metadata.num_frames
    &&& forall|f: int|
        0 <= f < d.motion.frames.len() ==> (#[trigger] d.motion.frames[f]).rotations.len() == n
}

/// Whether an executable result is what the model says.
pub open spec fn loaded(r: Result<(BvhMetadata, BvhMotion), BvhError>, m: Result<
    Document,
    BvhError,
>) -> bool {
    match r {
        Ok((metadata, motion)) => m == Ok::<Document, BvhError>(
            Document { metadata: metadata@, motion: motion@ },
        ),
        Err(e) => m == Err::<Document, BvhError>(e),
    }
}

/// Where no offset is missing, every offset is given.
pub proof fn lemma_all_given(offsets: Seq<Option<Position<Seq<char>>>>, i: int, j: int)
    requires
        0 <= i <= j < offsets.len(),
        first_without_offset(offsets, i) is None,
    ensures
        offsets[j] is Some,
    decreases j - i,
{
    if i < j {
        lemma_all_given(offsets, i + 1, j);
    }
}

/// A file without a `Frame Time:` line fails to load: with the error of
/// the line on which the hierarchy fails, or else for want of the frame
/// time, which is an error of the hierarchy.
pub proof fn lemma_missing_frame_time(lines: Seq<Seq<char>>)
    requires
        forall|i: int| 0 <= i < lines.len() ==> !(line_kind(trim(#[trigger] lines[i])) is FrameTime),
    ensures
        parse_bvh(lines) is Err,
        match scan(lines, lines.len() as int) {
            Scan::Failed(e) => parse_bvh(lines) == Err::<Document, BvhError>(e),
            _ => parse_bvh(lines) == Err::<Document, BvhError>(BvhError::MissingFrameTime),
        },
        BvhError::MissingFrameTime.stage_of() == Stage::Hierarchy,
{
    lemma_never_finished(lines, lines.len() as int);
}

proof fn lemma_never_finished(lines: Seq<Seq<char>>, n: int)
    requires
        0 <= n <= lines.len(),
        forall|i: int| 0 <= i < lines.len() ==> !(line_kind(trim(#[trigger] lines[i])) is FrameTime),
    ensures
        !(scan(lines, n) is Finished),
    decreases n,
{
    if n > 0 {
        lemma_never_finished(lines, n - 1);
        assert(!(line_kind(trim(lines[n - 1])) is FrameTime));
    }
}

/// Makes the result of a load from the finished hierarchy and the frames.
fn finish(reader: HierarchyReader, frame_time: Number, frames: Vec<Frame>) -> (r: Result<
    (BvhMetadata, BvhMotion),
    BvhError,
>)
    requires
        model_inv(reader@),
        first_without_offset(reader@.offsets, 0) is None,
    ensures
        r is Ok,
        loaded(r, Ok(document(reader@, frame_time@, frame_models(frames@)))),
        r->Ok_0.1.frames == frames,
{
    let ghost h = reader@;
    let n = reader.offsets.len();
    let mut rest: Vec<Position<Number>> = Vec::new();
    let mut i: usize = 0;
    while i < n
        invariant
            i <= n,
            n == reader.offsets.len(),
            h == reader@,
            first_without_offset(h.offsets, 0) is None,
            position_models(rest@) =~= given(h.offsets).take(i as int),
        decreases n - i,
    {
        proof {
            lemma_all_given(h.offsets, 0, i as int);
            assert(h.offsets[i as int] is Some == reader.offsets@[i as int] is Some);
        }
        let ghost earlier = position_models(rest@);
        match &reader.offsets[i] {
            Some(p) => {
                let copy = Position { x: p.x.duplicate(), y: p.y.duplicate(), z: p.z.duplicate() };
                let ghost model = copy@;
                rest.push(copy);
                proof {
                    assert(model == given(h.offsets)[i as int]);
                    assert(position_models(rest@) =~= earlier.push(model));
                }
            },
            None => vstd::pervasive::unreached(),
        }
        i += 1;
    }
    proof {
        assert(given(h.offsets).take(n as int) =~= given(h.offsets));
    }
    let fps = frame_time.frame_rate();
    let rotation_order = string_of(&reader.order);
    let HierarchyReader { joints, positional, rotational, num_frames, .. } = reader;
    let metadata = BvhMetadata { joints, num_frames, frame_time, fps };
    let motion = BvhMotion {
        rest_local_positions: rest,
        positional_channels: positional,
        rotational_channels: rotational,
        rotation_order,
        frames,
    };
    Ok((metadata, motion))
}

/// Loads a file from its lines.
fn parse_lines(lines: &Vec<Vec<char>>) -> (r: Result<(BvhMetadata, BvhMotion), BvhError>)
    requires
        total_len(rows(lines@)) <= usize::MAX,
    ensures
        loaded(r, parse_bvh(rows(lines@))),
        r is Ok ==> document_wf(parse_bvh(rows(lines@))->Ok_0),
{
    let ghost all = rows(lines@);
    let mut reader = HierarchyReader::new();
    let mut i: usize = 0;
    proof {
        assert(all.skip(0) =~= all);
    }
    while i < lines.len()
        invariant
            i <= lines.len(),
            all == rows(lines@),
            model_inv(reader@),
            scan(all, i as int) == Scan::Running(reader@),
            reader.depth <= i,
            reader.channels + total_len(all.skip(i as int)) <= usize::MAX,
        decreases lines.len() - i,
    {
        let ghost before = reader@;
        proof {
            assert(all.skip(i as int)[0] == all[i as int]);
            assert(all.skip(i as int).drop_first() =~= all.skip(i + 1));
            assert(all[i as int] == lines@[i as int]@);
        }
        match reader.read_line(&lines[i], i) {
            Ok(None) => {},
            Ok(Some(frame_time)) => {
                proof {
                    lemma_scan_outcome(before, trim(all[i as int]), i);
                    lemma_scan_settles(all, i + 1, lines.len() as int);
                }
                let frames = match read_motion_lines(&reader, lines, i + 1) {
                    Ok(frames) => frames,
                    Err(e) => {
                        return Err(e);
                    },
                };
                return finish(reader, frame_time, frames);
            },
            Err(e) => {
                proof {
                    lemma_scan_settles(all, i + 1, lines.len() as int);
                }
                return Err(e);
            },
        }
        i += 1;
    }
    Err(BvhError::MissingFrameTime)
}

/// Loads a file from its text.
pub fn load_bvh_from_string(bvh_string: &str) -> (r: Result<(BvhMetadata, BvhMotion), BvhError>)
    ensures
        loaded(r, parse_bvh(split_lines(bvh_string@))),
        r is Ok ==> document_wf(parse_bvh(split_lines(bvh_string@))->Ok_0),
{
    let text = chars_of(bvh_string);
    let lines = lines_of(&text);
    let size = text.len();
    proof {
        lemma_lines_total(text@, 0, Seq::<char>::empty());
        assert(total_len(split_lines(text@)) <= size);
    }
    parse_lines(&lines)
}

} // verus!
