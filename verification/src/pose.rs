//! The passes over the skeleton that make the rest pose and the pose of
//! each frame. The passes own the order of the work and which values go
//! into each step; the arithmetic on positions and rotations is the
//! caller's, handed in as an `Arithmetic`.

use crate::error::BvhError;
use crate::euler::{check_rotation_order, from_euler_to_quat, is_rotation_of, is_rotation_order};
use crate::hierarchy::first_dangling;
use crate::motion::Frame;
use crate::number::Number;
use crate::parse::{
    document_wf, load_bvh_from_string, loaded, parse_bvh, BvhMotion, MotionModel,
};
use crate::text::{chars_of, split_lines};
use crate::types::{
    joint_models, joint_wf, skeleton_wf, BvhData, BvhMetadata, Joint, JointModel, MetadataModel,
    Position,
};
use vstd::prelude::*;

verus! {

/// How the direction of a bone lies to the axis along which a joint at
/// rest points.
#[derive(Clone, Copy, Debug, PartialEq, Eq)]
pub enum Alignment {
    /// As good as along the axis.
    Along,
    /// As good as against the axis.
    Against,
    /// Neither.
    Across,
}

/// The arithmetic on positions `P` and rotations `Q`: the values and the
/// operations that the passes take from their caller.
pub struct Arithmetic<P, Q, A, D, R, X, I, N, L, S> {
    /// The point from which positions are counted.
    pub origin: P,
    /// The rotation that turns nothing.
    pub upright: Q,
    /// The axis along which a joint at rest points.
    pub up: P,
    /// What stands for the rotation of a bone that points against `up`,
    /// where the least rotation is not one.
    pub half_turn: Q,
    /// The sum of two positions.
    pub plus: A,
    /// A position divided by a count.
    pub divide: D,
    /// A position turned by a rotation.
    pub rotate: R,
    /// The product of two rotations: the second is applied in the frame
    /// that the first has turned.
    pub times: X,
    /// The inverse of a rotation.
    pub inverse: I,
    /// Whether an offset has no length.
    pub is_null: N,
    /// How a direction lies to `up`.
    pub alignment: L,
    /// The least rotation that turns `up` onto a direction.
    pub swing: S,
}

impl<
    P, Q,
    A: Fn(P, P) -> P, D: Fn(P, usize) -> P, R: Fn(Q, P) -> P, X: Fn(Q, Q) -> Q,
    I: Fn(Q) -> Q, N: Fn(P) -> bool, L: Fn(P) -> Alignment, S: Fn(P) -> Q,
> Arithmetic<P, Q, A, D, R, X, I, N, L, S> {
    /// Every operation can be called on every value.
    pub open spec fn ready(&self) -> bool {
        &&& forall|a: P, b: P| call_requires(self.plus, (a, b))
        &&& forall|a: P, n: usize| call_requires(self.divide, (a, n))
        &&& forall|a: Q, b: P| call_requires(self.rotate, (a, b))
        &&& forall|a: Q, b: Q| call_requires(self.times, (a, b))
        &&& forall|a: Q| call_requires(self.inverse, (a,))
        &&& forall|a: P| call_requires(self.is_null, (a,))
        &&& forall|a: P| call_requires(self.alignment, (a,))
        &&& forall|a: P| call_requires(self.swing, (a,))
    }

    /// Whether `s` is the sum of the first `n` of `offsets`, added one by
    /// one to the origin.
    pub open spec fn is_sum(&self, offsets: Seq<P>, n: int, s: P) -> bool
        decreases n,
    {
        if n <= 0 {
            s == self.origin
        } else {
            let last = offsets[n - 1];
            exists|earlier: P|
                self.is_sum(offsets, n - 1, earlier) && #[trigger] call_ensures(
                    self.plus,
                    (earlier, last),
                    s,
                )
        }
    }

    /// One more offset added to a sum makes the sum of one more.
    pub proof fn lemma_sum_grows(&self, offsets: Seq<P>, n: int, earlier: P, s: P)
        requires
            0 <= n,
            self.is_sum(offsets, n, earlier),
            call_ensures(self.plus, (earlier, offsets[n]), s),
        ensures
            self.is_sum(offsets, n + 1, s),
    {
        let m = n + 1;
        assert(offsets[m - 1] == offsets[n]);
        assert(self.is_sum(offsets, m - 1, earlier));
        assert(call_ensures(self.plus, (earlier, offsets[m - 1]), s));
        assert(self.is_sum(offsets, m, s));
    }

    /// Whether `r` is the arithmetic mean of `offsets`: their sum, divided
    /// by their number.
    pub open spec fn is_mean(&self, offsets: Seq<P>, r: P) -> bool {
        exists|s: P|
            self.is_sum(offsets, offsets.len() as int, s) && call_ensures(
                self.divide,
                (s, offsets.len() as usize),
                r,
            )
    }

    /// Whether `tail` is the direction of the bone of a joint: the offset
    /// of its only child; the arithmetic mean of the offsets of its
    /// children, where it has several; the offset of its end site, where it
    /// has no child.
    pub open spec fn is_tail(
        &self,
        children: Seq<usize>,
        endsite: Option<P>,
        offsets: Seq<P>,
        tail: P,
    ) -> bool {
        if children.len() == 1 {
            tail == offsets[children[0] as int]
        } else if children.len() > 1 {
            self.is_mean(child_offsets(children, offsets), tail)
        } else {
            endsite == Some(tail)
        }
    }

    /// Whether `r` is the rotation at rest of a joint whose bone has the
    /// offset `tail`, the least rotation that turns the axis `up` onto the
    /// bone. A bone of no length points along `up`. For a bone as good as
    /// along the axis the rotation is `upright`; for one as good as against
    /// the axis it is the fixed `half_turn`; for any other it is what
    /// `swing` makes of the direction.
    pub open spec fn is_bone_rotation(&self, tail: P, r: Q) -> bool {
        exists|null: bool, lie: Alignment|
            {
                &&& #[trigger] call_ensures(self.is_null, (tail,), null)
                &&& #[trigger] call_ensures(
                    self.alignment,
                    (bone_direction(tail, self.up, null),),
                    lie,
                )
                &&& match lie {
                    Alignment::Along => r == self.upright,
                    Alignment::Against => r == self.half_turn,
                    Alignment::Across => call_ensures(
                        self.swing,
                        (bone_direction(tail, self.up, null),),
                        r,
                    ),
                }
            }
    }

    /// Whether `r` is the rotation `own` as seen from `parent`: the inverse
    /// of `parent`, times `own`.
    pub open spec fn is_relative(&self, parent: Q, own: Q, r: Q) -> bool {
        exists|back: Q|
            call_ensures(self.inverse, (parent,), back) && call_ensures(
                self.times,
                (back, own),
                r,
            )
    }

    /// Whether `r` is the pose `local` of a joint as seen from outside its
    /// parent, whose own pose is `parent`: the position of the parent plus
    /// the local position turned by the rotation of the parent, and the
    /// rotation of the parent times the local rotation.
    pub open spec fn is_composed(&self, parent: (P, Q), local: (P, Q), r: (P, Q)) -> bool {
        &&& exists|turned: P|
            call_ensures(self.rotate, (parent.1, local.0), turned) && call_ensures(
                self.plus,
                (parent.0, turned),
                r.0,
            )
        &&& call_ensures(self.times, (parent.1, local.1), r.1)
    }

    /// What the rest pose of joint `j` is made of, said of the arrays while
    /// they are made. The global position of the root is its offset; that
    /// of another joint is the global position of its parent plus its
    /// offset. The global rotation is the rotation at rest for the
    /// direction of its bone. The local rotation of the root is its global
    /// rotation; that of another joint is its global rotation as seen from
    /// its parent.
    pub open spec fn rest_pose_so_far(
        &self,
        joints: Seq<JointModel>,
        endsites: Seq<Option<P>>,
        offsets: Seq<P>,
        positions: Seq<P>,
        rotations: Seq<Q>,
        locals: Seq<Q>,
        j: int,
    ) -> bool {
        let p = joints[j].parent_index as int;
        &&& exists|tail: P|
            self.is_tail(joints[j].children, endsites[j], offsets, tail)
                && self.is_bone_rotation(tail, rotations[j])
        &&& if p == -1 {
            &&& positions[j] == offsets[j]
            &&& locals[j] == rotations[j]
        } else {
            &&& call_ensures(self.plus, (positions[p], offsets[j]), positions[j])
            &&& self.is_relative(rotations[p], rotations[j], locals[j])
        }
    }

    /// What the rest pose of joint `j` is made of: what `rest_pose_so_far`
    /// says, of the finished arrays.
    pub open spec fn rest_pose_of(
        &self,
        joints: Seq<JointModel>,
        endsites: Seq<Option<P>>,
        data: BvhData<P, Q>,
        j: int,
    ) -> bool {
        self.rest_pose_so_far(
            joints,
            endsites,
            data.rest_local_positions@,
            data.rest_global_positions@,
            data.rest_global_rotations@,
            data.rest_local_rotations@,
            j,
        )
    }

    /// What the global pose of joint `j` in frame `f` is made of: its local
    /// pose in that frame, composed with the global pose of its parent in
    /// that frame (with the origin, upright, for the root).
    pub open spec fn pose_of(
        &self,
        joints: Seq<JointModel>,
        local_positions: Seq<Vec<P>>,
        local_rotations: Seq<Vec<Q>>,
        positions: Seq<Vec<P>>,
        rotations: Seq<Vec<Q>>,
        j: int,
        f: int,
    ) -> bool {
        self.is_composed(
            pose_above(joints, positions, rotations, self.origin, self.upright, j, f),
            (local_positions[j][f], local_rotations[j][f]),
            (positions[j][f], rotations[j][f]),
        )
    }

    /// What holds of a joint while the arrays are made goes on to hold when
    /// later joints are added.
    proof fn lemma_rest_pose_stays(
        &self,
        joints: Seq<JointModel>,
        endsites: Seq<Option<P>>,
        offsets: Seq<P>,
        positions: Seq<P>,
        rotations: Seq<Q>,
        locals: Seq<Q>,
        longer_positions: Seq<P>,
        longer_rotations: Seq<Q>,
        longer_locals: Seq<Q>,
        j: int,
    )
        requires
            0 <= j < positions.len(),
            -1 <= joints[j].parent_index < j,
            positions.len() == rotations.len() == locals.len(),
            positions.is_prefix_of(longer_positions),
            rotations.is_prefix_of(longer_rotations),
            locals.is_prefix_of(longer_locals),
            self.rest_pose_so_far(joints, endsites, offsets, positions, rotations, locals, j),
        ensures
            self.rest_pose_so_far(
                joints,
                endsites,
                offsets,
                longer_positions,
                longer_rotations,
                longer_locals,
                j,
            ),
    {
        let p = joints[j].parent_index as int;
        assert(longer_positions[j] == positions[j]);
        assert(longer_rotations[j] == rotations[j]);
        assert(longer_locals[j] == locals[j]);
        if p != -1 {
            assert(longer_positions[p] == positions[p]);
            assert(longer_rotations[p] == rotations[p]);
        }
        let tail = choose|tail: P|
            self.is_tail(joints[j].children, endsites[j], offsets, tail)
                && self.is_bone_rotation(tail, rotations[j]);
        assert(self.is_tail(joints[j].children, endsites[j], offsets, tail)
            && self.is_bone_rotation(tail, longer_rotations[j]));
    }
}

impl<
    P: Copy, Q: Copy,
    A: Fn(P, P) -> P, D: Fn(P, usize) -> P, R: Fn(Q, P) -> P, X: Fn(Q, Q) -> Q,
    I: Fn(Q) -> Q, N: Fn(P) -> bool, L: Fn(P) -> Alignment, S: Fn(P) -> Q,
> Arithmetic<P, Q, A, D, R, X, I, N, L, S> {
    /// The arithmetic mean of `offsets`.
    pub fn mean_offset(&self, offsets: &Vec<P>) -> (r: P)
        requires
            self.ready(),
        ensures
            self.is_mean(offsets@, r),
    {
        let mut sum = self.origin;
        let mut i: usize = 0;
        while i < offsets.len()
            invariant
                i <= offsets.len(),
                self.ready(),
                self.is_sum(offsets@, i as int, sum),
            decreases offsets.len() - i,
        {
            let ghost earlier = sum;
            sum = (self.plus)(sum, offsets[i]);
            proof {
                self.lemma_sum_grows(offsets@, i as int, earlier, sum);
            }
            i += 1;
        }
        (self.divide)(sum, offsets.len())
    }

    /// The rotation at rest of a joint whose bone has the offset `tail`.
    pub fn bone_rotation(&self, tail: P) -> (r: Q)
        requires
            self.ready(),
        ensures
            self.is_bone_rotation(tail, r),
    {
        let null = (self.is_null)(tail);
        let direction = if null {
            self.up
        } else {
            tail
        };
        let lie = (self.alignment)(direction);
        proof {
            assert(direction == bone_direction(tail, self.up, null));
            assert(call_ensures(self.alignment, (bone_direction(tail, self.up, null),), lie));
        }
        match lie {
            Alignment::Along => self.upright,
            Alignment::Against => self.half_turn,
            Alignment::Across => (self.swing)(direction),
        }
    }

    /// The rotation `own` as seen from `parent`.
    pub fn relative_rotation(&self, parent: Q, own: Q) -> (r: Q)
        requires
            self.ready(),
        ensures
            self.is_relative(parent, own, r),
    {
        let back = (self.inverse)(parent);
        (self.times)(back, own)
    }

    /// The pose `local` of a joint as seen from outside its parent, whose
    /// own pose is `parent`.
    pub fn compose_pose(&self, parent: (P, Q), local: (P, Q)) -> (r: (P, Q))
        requires
            self.ready(),
        ensures
            self.is_composed(parent, local, r),
    {
        let turned = (self.rotate)(parent.1, local.0);
        let position = (self.plus)(parent.0, turned);
        let rotation = (self.times)(parent.1, local.1);
        (position, rotation)
    }
}

/// The offsets of the children of a joint, in the order of the children.
pub open spec fn child_offsets<P>(children: Seq<usize>, offsets: Seq<P>) -> Seq<P> {
    Seq::new(children.len(), |k: int| offsets[children[k] as int])
}

/// The direction that counts for a bone with the offset `tail`: `up` for a
/// bone of no length.
pub open spec fn bone_direction<P>(tail: P, up: P, null: bool) -> P {
    if null {
        up
    } else {
        tail
    }
}

/// The pose that the pose of joint `j` in frame `f` is composed with: the
/// global pose of its parent in that frame, or the origin, upright, for the
/// root.
pub open spec fn pose_above<P, Q>(
    joints: Seq<JointModel>,
    positions: Seq<Vec<P>>,
    rotations: Seq<Vec<Q>>,
    origin: P,
    upright: Q,
    j: int,
    f: int,
) -> (P, Q) {
    let p = joints[j].parent_index as int;
    if p == -1 {
        (origin, upright)
    } else {
        (positions[p][f], rotations[p][f])
    }
}

/// The direction of the bone of `joint`.
pub fn get_tail_offset<
    P: Copy, Q: Copy,
    A: Fn(P, P) -> P, D: Fn(P, usize) -> P, R: Fn(Q, P) -> P, X: Fn(Q, Q) -> Q,
    I: Fn(Q) -> Q, N: Fn(P) -> bool, L: Fn(P) -> Alignment, S: Fn(P) -> Q,
>(
    joint: &Joint,
    offsets: &Vec<P>,
    endsite: Option<P>,
    k: &Arithmetic<P, Q, A, D, R, X, I, N, L, S>,
) -> (r: Result<P, BvhError>)
    requires
        forall|i: int| 0 <= i < joint.children.len() ==> #[trigger] joint.children[i] < offsets.len(),
        k.ready(),
    ensures
        match r {
            Ok(tail) => k.is_tail(joint.children@, endsite, offsets@, tail),
            Err(e) => joint.children.len() == 0 && endsite is None && e == (
            BvhError::DanglingJoint { joint: joint.index }),
        },
{
    let count = joint.children.len();
    if count == 1 {
        Ok(offsets[joint.children[0]])
    } else if count > 1 {
        let mut gathered: Vec<P> = Vec::new();
        let mut i: usize = 0;
        while i < count
            invariant
                i <= count,
                count == joint.children.len(),
                forall|c: int|
                    0 <= c < joint.children.len() ==> #[trigger] joint.children[c]
                        < offsets.len(),
                gathered@ =~= child_offsets(joint.children@, offsets@).take(i as int),
            decreases count - i,
        {
            gathered.push(offsets[joint.children[i]]);
            i += 1;
        }
        proof {
            assert(gathered@ =~= child_offsets(joint.children@, offsets@));
        }
        Ok(k.mean_offset(&gathered))
    } else {
        match endsite {
            Some(tail) => Ok(tail),
            None => Err(BvhError::DanglingJoint { joint: joint.index }),
        }
    }
}

/// The first joint from `i` on with neither a child nor the offset of an
/// end site.
pub open spec fn first_tailless<P>(joints: Seq<JointModel>, endsites: Seq<Option<P>>, i: int)
    -> Option<int>
    decreases joints.len() - i,
{
    if i < 0 || i >= joints.len() {
        None
    } else if joints[i].children.len() == 0 && endsites[i] is None {
        Some(i)
    } else {
        first_tailless(joints, endsites, i + 1)
    }
}

/// Where no joint lacks a tail, every joint has a child or the offset of
/// an end site.
pub proof fn lemma_has_tail<P>(
    joints: Seq<JointModel>,
    endsites: Seq<Option<P>>,
    i: int,
    j: int,
)
    requires
        0 <= i <= j < joints.len(),
        first_tailless(joints, endsites, i) is None,
    ensures
        joints[j].children.len() > 0 || endsites[j] is Some,
    decreases j - i,
{
    if i < j {
        lemma_has_tail(joints, endsites, i + 1, j);
    }
}

/// Makes the rest pose: the global position and rotation and the local
/// rotation of every joint at rest, from the offsets of the joints and of
/// their end sites. Fails, and changes nothing, where a joint has neither a
/// child nor the offset of an end site.
pub fn calc_global_rest_pose<
    P: Copy, Q: Copy,
    A: Fn(P, P) -> P, D: Fn(P, usize) -> P, R: Fn(Q, P) -> P, X: Fn(Q, Q) -> Q,
    I: Fn(Q) -> Q, N: Fn(P) -> bool, L: Fn(P) -> Alignment, S: Fn(P) -> Q,
>(
    bvh: &BvhMetadata,
    endsites: &Vec<Option<P>>,
    data: &mut BvhData<P, Q>,
    k: &Arithmetic<P, Q, A, D, R, X, I, N, L, S>,
) -> (r: Result<(), BvhError>)
    requires
        skeleton_wf(bvh@.joints),
        endsites.len() == bvh.joints.len(),
        old(data).rest_local_positions.len() == bvh.joints.len(),
        k.ready(),
    ensures
        match r {
            Ok(()) => {
                &&& first_tailless(bvh@.joints, endsites@, 0) is None
                &&& final(data).rest_local_positions == old(data).rest_local_positions
                &&& final(data).pose_global_positions == old(data).pose_global_positions
                &&& final(data).pose_global_rotations == old(data).pose_global_rotations
                &&& final(data).pose_local_positions == old(data).pose_local_positions
                &&& final(data).pose_local_rotations == old(data).pose_local_rotations
                &&& final(data).rest_global_positions.len() == bvh.joints.len()
                &&& final(data).rest_global_rotations.len() == bvh.joints.len()
                &&& final(data).rest_local_rotations.len() == bvh.joints.len()
                &&& forall|j: int|
                    0 <= j < bvh.joints.len() ==> k.rest_pose_of(
                        bvh@.joints,
                        endsites@,
                        *final(data),
                        j,
                    )
            },
            Err(e) => {
                &&& first_tailless(bvh@.joints, endsites@, 0) is Some
                &&& e == (BvhError::DanglingJoint {
                    joint: first_tailless(bvh@.joints, endsites@, 0)->0 as usize,
                })
                &&& *final(data) == *old(data)
            },
        },
{
    let n = bvh.joints.len();
    let ghost joints = bvh@.joints;
    let mut i: usize = 0;
    while i < n
        invariant
            i <= n,
            n == bvh.joints.len(),
            n == endsites.len(),
            joints == bvh@.joints,
            first_tailless(joints, endsites@, 0) == first_tailless(joints, endsites@, i as int),
        decreases n - i,
    {
        proof {
            assert(joints[i as int] == bvh.joints@[i as int]@);
        }
        if bvh.joints[i].children.len() == 0 && endsites[i].is_none() {
            return Err(BvhError::DanglingJoint { joint: i });
        }
        i += 1;
    }
    let mut positions: Vec<P> = Vec::new();
    let mut rotations: Vec<Q> = Vec::new();
    let mut locals: Vec<Q> = Vec::new();
    let mut j: usize = 0;
    while j < n
        invariant
            j <= n,
            n == bvh.joints.len(),
            n == endsites.len(),
            n == data.rest_local_positions.len(),
            joints == bvh@.joints,
            skeleton_wf(joints),
            *data == *old(data),
            first_tailless(joints, endsites@, 0) is None,
            positions.len() == j,
            rotations.len() == j,
            locals.len() == j,
            k.ready(),
            forall|m: int|
                0 <= m < j ==> k.rest_pose_so_far(
                    joints,
                    endsites@,
                    data.rest_local_positions@,
                    positions@,
                    rotations@,
                    locals@,
                    m,
                ),
        decreases n - j,
    {
        let joint = &bvh.joints[j];
        proof {
            assert(joints[j as int] == bvh.joints@[j as int]@);
            assert(joint_wf(joints, j as int));
            lemma_has_tail(joints, endsites@, 0, j as int);
        }
        let tail = match get_tail_offset(joint, &data.rest_local_positions, endsites[j], k) {
            Ok(tail) => tail,
            Err(_) => vstd::pervasive::unreached(),
        };
        let rotation = k.bone_rotation(tail);
        let local = data.rest_local_positions[j];
        let ghost positions_before = positions@;
        let ghost rotations_before = rotations@;
        let ghost locals_before = locals@;
        if joint.parent_index == -1 {
            positions.push(local);
            rotations.push(rotation);
            locals.push(rotation);
        } else {
            let p = joint.parent_index as usize;
            positions.push((k.plus)(positions[p], local));
            locals.push(k.relative_rotation(rotations[p], rotation));
            rotations.push(rotation);
        }
        proof {
            assert forall|m: int| 0 <= m < j + 1 implies k.rest_pose_so_far(
                joints,
                endsites@,
                data.rest_local_positions@,
                positions@,
                rotations@,
                locals@,
                m,
            ) by {
                assert(joint_wf(joints, m));
                if m == j {
                    let p = joints[m].parent_index as int;
                    assert(k.is_tail(
                        joints[m].children,
                        endsites@[m],
                        data.rest_local_positions@,
                        tail,
                    ) && k.is_bone_rotation(tail, rotations@[m]));
                    if p != -1 {
                        assert(positions@[p] == positions_before[p]);
                        assert(rotations@[p] == rotations_before[p]);
                    }
                } else {
                    k.lemma_rest_pose_stays(
                        joints,
                        endsites@,
                        data.rest_local_positions@,
                        positions_before,
                        rotations_before,
                        locals_before,
                        positions@,
                        rotations@,
                        locals@,
                        m,
                    );
                }
            }
        }
        j += 1;
    }
    data.rest_global_positions = positions;
    data.rest_global_rotations = rotations;
    data.rest_local_rotations = locals;
    Ok(())
}

/// Whether a table has a row for each of `joints` joints, each with an
/// entry for each of `frames` frames.
pub open spec fn table_shape<T>(table: Seq<Vec<T>>, joints: nat, frames: nat) -> bool {
    &&& table.len() == joints
    &&& forall|j: int| 0 <= j < joints ==> (#[trigger] table[j]).len() == frames
}

/// Forward kinematics: makes the global position and rotation of every
/// joint in every frame from the local ones, parents before children.
pub fn calc_global_pose<
    P: Copy, Q: Copy,
    A: Fn(P, P) -> P, D: Fn(P, usize) -> P, R: Fn(Q, P) -> P, X: Fn(Q, Q) -> Q,
    I: Fn(Q) -> Q, N: Fn(P) -> bool, L: Fn(P) -> Alignment, S: Fn(P) -> Q,
>(bvh: &BvhMetadata, data: &mut BvhData<P, Q>, k: &Arithmetic<P, Q, A, D, R, X, I, N, L, S>)
    requires
        skeleton_wf(bvh@.joints),
        table_shape(
            old(data).pose_local_positions@,
            bvh.joints.len() as nat,
            bvh.num_frames as nat,
        ),
        table_shape(
            old(data).pose_local_rotations@,
            bvh.joints.len() as nat,
            bvh.num_frames as nat,
        ),
        k.ready(),
    ensures
        final(data).rest_local_positions == old(data).rest_local_positions,
        final(data).rest_local_rotations == old(data).rest_local_rotations,
        final(data).rest_global_positions == old(data).rest_global_positions,
        final(data).rest_global_rotations == old(data).rest_global_rotations,
        final(data).pose_local_positions == old(data).pose_local_positions,
        final(data).pose_local_rotations == old(data).pose_local_rotations,
        table_shape(
            final(data).pose_global_positions@,
            bvh.joints.len() as nat,
            bvh.num_frames as nat,
        ),
        table_shape(
            final(data).pose_global_rotations@,
            bvh.joints.len() as nat,
            bvh.num_frames as nat,
        ),
        forall|j: int, f: int|
            0 <= j < bvh.joints.len() && 0 <= f < bvh.num_frames ==> k.pose_of(
                bvh@.joints,
                final(data).pose_local_positions@,
                final(data).pose_local_rotations@,
                final(data).pose_global_positions@,
                final(data).pose_global_rotations@,
                j,
                f,
            ),
{
    let n = bvh.joints.len();
    let frames = bvh.num_frames;
    let ghost joints = bvh@.joints;
    let mut positions: Vec<Vec<P>> = Vec::new();
    let mut rotations: Vec<Vec<Q>> = Vec::new();
    let mut j: usize = 0;
    while j < n
        invariant
            j <= n,
            n == bvh.joints.len(),
            frames == bvh.num_frames,
            joints == bvh@.joints,
            skeleton_wf(joints),
            *data == *old(data),
            table_shape(data.pose_local_positions@, n as nat, frames as nat),
            table_shape(data.pose_local_rotations@, n as nat, frames as nat),
            table_shape(positions@, j as nat, frames as nat),
            table_shape(rotations@, j as nat, frames as nat),
            k.ready(),
            forall|m: int, f: int|
                0 <= m < j && 0 <= f < frames ==> k.pose_of(
                    joints,
                    data.pose_local_positions@,
                    data.pose_local_rotations@,
                    positions@,
                    rotations@,
                    m,
                    f,
                ),
        decreases n - j,
    {
        proof {
            assert(joints[j as int] == bvh.joints@[j as int]@);
            assert(joint_wf(joints, j as int));
        }
        let parent = bvh.joints[j].parent_index;
        let mut row_positions: Vec<P> = Vec::new();
        let mut row_rotations: Vec<Q> = Vec::new();
        let mut f: usize = 0;
        while f < frames
            invariant
                f <= frames,
                j < n,
                n == bvh.joints.len(),
                joints == bvh@.joints,
                parent == joints[j as int].parent_index,
                -1 <= parent < j,
                table_shape(data.pose_local_positions@, n as nat, frames as nat),
                table_shape(data.pose_local_rotations@, n as nat, frames as nat),
                table_shape(positions@, j as nat, frames as nat),
                table_shape(rotations@, j as nat, frames as nat),
                row_positions.len() == f,
                row_rotations.len() == f,
                k.ready(),
                forall|g: int|
                    0 <= g < f ==> k.is_composed(
                        pose_above(joints, positions@, rotations@, k.origin, k.upright, j as int, g),
                        (
                            data.pose_local_positions@[j as int][g],
                            data.pose_local_rotations@[j as int][g],
                        ),
                        (#[trigger] row_positions@[g], row_rotations@[g]),
                    ),
            decreases frames - f,
        {
            let local = (data.pose_local_positions[j][f], data.pose_local_rotations[j][f]);
            let above = if parent == -1 {
                (k.origin, k.upright)
            } else {
                let p = parent as usize;
                (positions[p][f], rotations[p][f])
            };
            let (position, rotation) = k.compose_pose(above, local);
            row_positions.push(position);
            row_rotations.push(rotation);
            f += 1;
        }
        let ghost positions_before = positions@;
        let ghost rotations_before = rotations@;
        positions.push(row_positions);
        rotations.push(row_rotations);
        proof {
            assert forall|m: int, g: int| 0 <= m < j + 1 && 0 <= g < frames implies k.pose_of(
                joints,
                data.pose_local_positions@,
                data.pose_local_rotations@,
                positions@,
                rotations@,
                m,
                g,
            ) by {
                assert(joint_wf(joints, m));
                let p = joints[m].parent_index as int;
                if p != -1 {
                    assert(positions@[p] == positions_before[p]);
                    assert(rotations@[p] == rotations_before[p]);
                }
                if m < j {
                    assert(k.pose_of(
                        joints,
                        data.pose_local_positions@,
                        data.pose_local_rotations@,
                        positions_before,
                        rotations_before,
                        m,
                        g,
                    ));
                    assert(positions@[m] == positions_before[m]);
                    assert(rotations@[m] == rotations_before[m]);
                } else {
                    assert(positions@[m]@[g] == row_positions@[g]);
                    assert(rotations@[m]@[g] == row_rotations@[g]);
                }
            }
        }
        j += 1;
    }
    data.pose_global_positions = positions;
    data.pose_global_rotations = rotations;
}

/// A frame at rest gives the rest pose. Let every joint be turned in frame
/// `f` as at rest, the root stand where it stands at rest and every other
/// joint at its offset. Let the arithmetic be exact: a sum has one value;
/// the origin plus a position is that position; the upright rotation turns
/// no position and, times a rotation, is that rotation; and a rotation,
/// times its inverse times another rotation, is that other rotation. And
/// let the rest rotation of each parent leave the offset of its child in
/// place. Then the global pose of joint `j` in frame `f` is its global rest
/// pose.
pub proof fn lemma_rest_frame_gives_rest_pose<
    P, Q,
    A: Fn(P, P) -> P, D: Fn(P, usize) -> P, R: Fn(Q, P) -> P, X: Fn(Q, Q) -> Q,
    I: Fn(Q) -> Q, N: Fn(P) -> bool, L: Fn(P) -> Alignment, S: Fn(P) -> Q,
>(
    joints: Seq<JointModel>,
    endsites: Seq<Option<P>>,
    data: BvhData<P, Q>,
    k: Arithmetic<P, Q, A, D, R, X, I, N, L, S>,
    f: int,
    j: int,
)
    requires
        skeleton_wf(joints),
        0 <= j < joints.len(),
        forall|m: int| 0 <= m < joints.len() ==> k.rest_pose_of(joints, endsites, data, m),
        forall|m: int|
            0 <= m < joints.len() ==> k.pose_of(
                joints,
                data.pose_local_positions@,
                data.pose_local_rotations@,
                data.pose_global_positions@,
                data.pose_global_rotations@,
                m,
                f,
            ),
        forall|m: int|
            0 <= m < joints.len() ==> #[trigger] data.pose_local_rotations[m][f]
                == data.rest_local_rotations[m],
        data.pose_local_positions[0][f] == data.rest_global_positions[0],
        forall|m: int|
            0 < m < joints.len() ==> #[trigger] data.pose_local_positions[m][f]
                == data.rest_local_positions[m],
        forall|a: P, b: P, x: P, y: P|
            call_ensures(k.plus, (a, b), x) && call_ensures(k.plus, (a, b), y) ==> x == y,
        forall|p: P, x: P| call_ensures(k.plus, (k.origin, p), x) ==> x == p,
        forall|p: P, x: P| call_ensures(k.rotate, (k.upright, p), x) ==> x == p,
        forall|q: Q, x: Q| call_ensures(k.times, (k.upright, q), x) ==> x == q,
        forall|a: Q, b: Q, back: Q, c: Q, x: Q|
            call_ensures(k.inverse, (a,), back) && call_ensures(k.times, (back, b), c)
                && call_ensures(k.times, (a, c), x) ==> x == b,
        forall|m: int, x: P|
            0 < m < joints.len() && call_ensures(
                k.rotate,
                (
                    data.rest_global_rotations[joints[m].parent_index as int],
                    data.rest_local_positions[m],
                ),
                x,
            ) ==> x == data.rest_local_positions[m],
    ensures
        data.pose_global_positions[j][f] == data.rest_global_positions[j],
        data.pose_global_rotations[j][f] == data.rest_global_rotations[j],
    decreases j,
{
    let p = joints[j].parent_index as int;
    assert(joint_wf(joints, j));
    assert(k.rest_pose_of(joints, endsites, data, j));
    assert(k.pose_of(
        joints,
        data.pose_local_positions@,
        data.pose_local_rotations@,
        data.pose_global_positions@,
        data.pose_global_rotations@,
        j,
        f,
    ));
    if p != -1 {
        lemma_rest_frame_gives_rest_pose(joints, endsites, data, k, f, p);
    }
}

/// The local position of every joint in every frame: the root is where the
/// frame puts it; every other joint stays at its offset.
pub fn local_positions<P: Copy>(root_positions: &Vec<P>, offsets: &Vec<P>) -> (r: Vec<Vec<P>>)
    ensures
        table_shape(r@, offsets.len() as nat, root_positions.len() as nat),
        forall|j: int, f: int|
            0 <= j < offsets.len() && 0 <= f < root_positions.len() ==> #[trigger] r[j][f] == (
            if j == 0 {
                root_positions[f]
            } else {
                offsets[j]
            }),
{
    let n = offsets.len();
    let frames = root_positions.len();
    let mut table: Vec<Vec<P>> = Vec::new();
    let mut j: usize = 0;
    while j < n
        invariant
            j <= n,
            n == offsets.len(),
            frames == root_positions.len(),
            table_shape(table@, j as nat, frames as nat),
            forall|k: int, f: int|
                0 <= k < j && 0 <= f < frames ==> #[trigger] table[k][f] == (if k == 0 {
                    root_positions[f]
                } else {
                    offsets[k]
                }),
        decreases n - j,
    {
        let mut row: Vec<P> = Vec::new();
        let mut f: usize = 0;
        while f < frames
            invariant
                f <= frames,
                j < n,
                n == offsets.len(),
                frames == root_positions.len(),
                row.len() == f,
                forall|g: int|
                    0 <= g < f ==> #[trigger] row[g] == (if j == 0 {
                        root_positions[g]
                    } else {
                        offsets[j as int]
                    }),
            decreases frames - f,
        {
            if j == 0 {
                row.push(root_positions[f]);
            } else {
                row.push(offsets[j]);
            }
            f += 1;
        }
        table.push(row);
        j += 1;
    }
    table
}

/// The local rotation of every joint in every frame: the rotation that the
/// angles which the frame has for the joint make with channels in `order`.
/// Fails where there is an angle to convert and `order` is no rotation
/// order.
pub fn local_rotations<Q, T: Fn(char, &Number) -> Q, X: Fn(Q, Q) -> Q>(
    frames: &Vec<Frame>,
    joints: usize,
    order: &Vec<char>,
    turn: &T,
    times: &X,
) -> (r: Result<Vec<Vec<Q>>, BvhError>)
    requires
        forall|f: int| 0 <= f < frames.len() ==> (#[trigger] frames[f]).rotations.len() == joints,
        forall|c: char, s: &Number| call_requires(*turn, (c, s)),
        forall|a: Q, b: Q| call_requires(*times, (a, b)),
    ensures
        match r {
            Ok(table) => {
                &&& is_rotation_order(order@) || joints == 0 || frames.len() == 0
                &&& table_shape(table@, joints as nat, frames.len() as nat)
                &&& forall|j: int, f: int|
                    0 <= j < joints && 0 <= f < frames.len() ==> is_rotation_of(
                        frames[f].rotations[j],
                        order@,
                        *turn,
                        *times,
                        #[trigger] table[j][f],
                    )
            },
            Err(e) => {
                &&& !is_rotation_order(order@)
                &&& joints > 0
                &&& frames.len() > 0
                &&& e == BvhError::InvalidRotationOrder
            },
        },
{
    let count = frames.len();
    if joints > 0 && count > 0 && !check_rotation_order(order) {
        return Err(BvhError::InvalidRotationOrder);
    }
    let mut table: Vec<Vec<Q>> = Vec::new();
    let mut j: usize = 0;
    while j < joints
        invariant
            j <= joints,
            count == frames.len(),
            is_rotation_order(order@) || count == 0 || joints == 0,
            forall|f: int|
                0 <= f < frames.len() ==> (#[trigger] frames[f]).rotations.len() == joints,
            forall|c: char, s: &Number| call_requires(*turn, (c, s)),
            forall|a: Q, b: Q| call_requires(*times, (a, b)),
            table_shape(table@, j as nat, count as nat),
            forall|k: int, f: int|
                0 <= k < j && 0 <= f < count ==> is_rotation_of(
                    frames[f].rotations[k],
                    order@,
                    *turn,
                    *times,
                    #[trigger] table[k][f],
                ),
        decreases joints - j,
    {
        let mut row: Vec<Q> = Vec::new();
        let mut f: usize = 0;
        while f < count
            invariant
                f <= count,
                j < joints,
                count == frames.len(),
                is_rotation_order(order@) || count == 0,
                forall|g: int|
                    0 <= g < frames.len() ==> (#[trigger] frames[g]).rotations.len() == joints,
                forall|c: char, s: &Number| call_requires(*turn, (c, s)),
                forall|a: Q, b: Q| call_requires(*times, (a, b)),
                row.len() == f,
                forall|g: int|
                    0 <= g < f ==> is_rotation_of(
                        frames[g].rotations[j as int],
                        order@,
                        *turn,
                        *times,
                        #[trigger] row[g],
                    ),
            decreases count - f,
        {
            assert(frames[f as int].rotations.len() == joints);
            match from_euler_to_quat(&frames[f].rotations[j], order, turn, times) {
                Ok(q) => {
                    row.push(q);
                },
                Err(_) => vstd::pervasive::unreached(),
            }
            f += 1;
        }
        table.push(row);
        j += 1;
    }
    Ok(table)
}

/// Whether `endsites` are the offsets of the end sites of `joints` as
/// `to_position` makes them.
pub open spec fn endsites_of<P, TP: Fn(&Position<Number>) -> P>(
    joints: Seq<Joint>,
    to_position: TP,
    endsites: Seq<Option<P>>,
) -> bool {
    &&& endsites.len() == joints.len()
    &&& forall|j: int|
        0 <= j < joints.len() ==> match (#[trigger] joints[j]).endsite {
            Some(e) => endsites[j] is Some && call_ensures(
                to_position,
                (&e.offset,),
                endsites[j]->0,
            ),
            None => endsites[j] is None,
        }
}

/// Whether `data` holds the local pose that a file gives: the offset of
/// each joint, the local position of each joint in each frame (the root
/// where the frame puts it, every other joint at its offset), and the local
/// rotation of each joint in each frame, as `to_position`, `turn` and
/// `times` make them of what is written.
pub open spec fn local_pose_of<P, Q, TP: Fn(&Position<Number>) -> P, T: Fn(char, &Number) -> Q, X: Fn(
    Q,
    Q,
) -> Q>(
    joints: nat,
    motion: BvhMotion,
    data: BvhData<P, Q>,
    to_position: TP,
    turn: T,
    times: X,
) -> bool {
    let frames = motion.frames.len() as nat;
    &&& data.rest_local_positions.len() == joints
    &&& table_shape(data.pose_local_positions@, joints, frames)
    &&& table_shape(data.pose_local_rotations@, joints, frames)
    &&& forall|j: int|
        0 <= j < joints ==> call_ensures(
            to_position,
            (&motion.rest_local_positions[j],),
            #[trigger] data.rest_local_positions[j],
        )
    &&& forall|j: int, f: int|
        0 < j < joints && 0 <= f < frames ==> #[trigger] data.pose_local_positions[j][f]
            == data.rest_local_positions[j]
    &&& forall|f: int|
        0 <= f < frames && joints > 0 ==> call_ensures(
            to_position,
            (&motion.frames[f].root_position,),
            #[trigger] data.pose_local_positions[0][f],
        )
    &&& forall|j: int, f: int|
        0 <= j < joints && 0 <= f < frames ==> is_rotation_of(
            motion.frames[f].rotations[j],
            motion.rotation_order@,
            turn,
            times,
            #[trigger] data.pose_local_rotations[j][f],
        )
}

/// What `to_position` makes of each of `positions`.
pub fn positions_of<P, TP: Fn(&Position<Number>) -> P>(
    positions: &Vec<Position<Number>>,
    to_position: &TP,
) -> (r: Vec<P>)
    requires
        forall|p: &Position<Number>| call_requires(*to_position, (p,)),
    ensures
        r.len() == positions.len(),
        forall|j: int|
            0 <= j < positions.len() ==> call_ensures(
                *to_position,
                (&positions[j],),
                #[trigger] r[j],
            ),
{
    let mut out: Vec<P> = Vec::new();
    let mut j: usize = 0;
    while j < positions.len()
        invariant
            j <= positions.len(),
            out.len() == j,
            forall|p: &Position<Number>| call_requires(*to_position, (p,)),
            forall|k: int|
                0 <= k < j ==> call_ensures(*to_position, (&positions[k],), #[trigger] out[k]),
        decreases positions.len() - j,
    {
        out.push(to_position(&positions[j]));
        j += 1;
    }
    out
}

/// Whether there is an angle to convert, a joint and a frame, while the
/// rotation order of the file is none.
pub open spec fn needs_rotation_order(bvh: MetadataModel, motion: MotionModel) -> bool {
    bvh.joints.len() > 0 && motion.frames.len() > 0 && !is_rotation_order(motion.rotation_order)
}

/// Whether `data` holds all pose arrays of a file: the local pose as the
/// file gives it, the rest pose, and the global pose of every frame.
pub open spec fn is_evaluation<
    P, Q, TP: Fn(&Position<Number>) -> P, T: Fn(char, &Number) -> Q,
    A: Fn(P, P) -> P, D: Fn(P, usize) -> P, R: Fn(Q, P) -> P, X: Fn(Q, Q) -> Q,
    I: Fn(Q) -> Q, N: Fn(P) -> bool, L: Fn(P) -> Alignment, S: Fn(P) -> Q,
>(
    bvh: BvhMetadata,
    motion: BvhMotion,
    data: BvhData<P, Q>,
    to_position: TP,
    turn: T,
    k: Arithmetic<P, Q, A, D, R, X, I, N, L, S>,
) -> bool {
    &&& local_pose_of(bvh.joints.len() as nat, motion, data, to_position, turn, k.times)
    &&& data.rest_global_positions.len() == bvh.joints.len()
    &&& data.rest_global_rotations.len() == bvh.joints.len()
    &&& data.rest_local_rotations.len() == bvh.joints.len()
    &&& exists|endsites: Seq<Option<P>>|
        endsites_of(bvh.joints@, to_position, endsites) && forall|j: int|
            0 <= j < bvh.joints.len() ==> k.rest_pose_of(bvh@.joints, endsites, data, j)
    &&& table_shape(data.pose_global_positions@, bvh.joints.len() as nat, bvh.num_frames as nat)
    &&& table_shape(data.pose_global_rotations@, bvh.joints.len() as nat, bvh.num_frames as nat)
    &&& forall|j: int, f: int|
        0 <= j < bvh.joints.len() && 0 <= f < bvh.num_frames ==> k.pose_of(
            bvh@.joints,
            data.pose_local_positions@,
            data.pose_local_rotations@,
            data.pose_global_positions@,
            data.pose_global_rotations@,
            j,
            f,
        )
}

/// Makes all pose arrays of a loaded file: the local pose as the file
/// gives it, the rest pose, and the global pose of every frame. Fails where
/// there is an angle to convert and the rotation order of the file is none,
/// and else where a joint has neither a child nor an end site.
pub fn evaluate<
    P: Copy, Q: Copy, TP: Fn(&Position<Number>) -> P, T: Fn(char, &Number) -> Q,
    A: Fn(P, P) -> P, D: Fn(P, usize) -> P, R: Fn(Q, P) -> P, X: Fn(Q, Q) -> Q,
    I: Fn(Q) -> Q, N: Fn(P) -> bool, L: Fn(P) -> Alignment, S: Fn(P) -> Q,
>(
    bvh: &BvhMetadata,
    motion: &BvhMotion,
    to_position: TP,
    turn: T,
    k: &Arithmetic<P, Q, A, D, R, X, I, N, L, S>,
) -> (r: Result<BvhData<P, Q>, BvhError>)
    requires
        skeleton_wf(bvh@.joints),
        motion.rest_local_positions.len() == bvh.joints.len(),
        motion.frames.len() == bvh.num_frames,
        forall|f: int|
            0 <= f < motion.frames.len() ==> (#[trigger] motion.frames[f]).rotations.len()
                == bvh.joints.len(),
        forall|p: &Position<Number>| call_requires(to_position, (p,)),
        forall|c: char, s: &Number| call_requires(turn, (c, s)),
        k.ready(),
    ensures
        match r {
            Ok(data) => {
                &&& !needs_rotation_order(bvh@, motion@)
                &&& first_dangling(bvh@.joints, 0) is None
                &&& is_evaluation(*bvh, *motion, data, to_position, turn, *k)
            },
            Err(e) => if needs_rotation_order(bvh@, motion@) {
                e == BvhError::InvalidRotationOrder
            } else {
                &&& first_dangling(bvh@.joints, 0) is Some
                &&& e == (BvhError::DanglingJoint {
                    joint: first_dangling(bvh@.joints, 0)->0 as usize,
                })
            },
        },
{
    let n = bvh.joints.len();
    let offsets = positions_of(&motion.rest_local_positions, &to_position);
    let mut endsites: Vec<Option<P>> = Vec::new();
    let mut j: usize = 0;
    while j < n
        invariant
            j <= n,
            n == bvh.joints.len(),
            endsites.len() == j,
            forall|p: &Position<Number>| call_requires(to_position, (p,)),
            forall|m: int|
                0 <= m < j ==> match (#[trigger] bvh.joints@[m]).endsite {
                    Some(e) => endsites@[m] is Some && call_ensures(
                        to_position,
                        (&e.offset,),
                        endsites@[m]->0,
                    ),
                    None => endsites@[m] is None,
                },
        decreases n - j,
    {
        match &bvh.joints[j].endsite {
            Some(e) => {
                endsites.push(Some(to_position(&e.offset)));
            },
            None => {
                endsites.push(None);
            },
        }
        j += 1;
    }
    let mut roots: Vec<P> = Vec::new();
    let mut f: usize = 0;
    while f < motion.frames.len()
        invariant
            f <= motion.frames.len(),
            roots.len() == f,
            forall|p: &Position<Number>| call_requires(to_position, (p,)),
            forall|g: int|
                0 <= g < f ==> call_ensures(
                    to_position,
                    (&motion.frames[g].root_position,),
                    #[trigger] roots[g],
                ),
        decreases motion.frames.len() - f,
    {
        roots.push(to_position(&motion.frames[f].root_position));
        f += 1;
    }
    let mut data: BvhData<P, Q> = BvhData {
        rest_local_positions: offsets,
        rest_local_rotations: Vec::new(),
        rest_global_positions: Vec::new(),
        rest_global_rotations: Vec::new(),
        pose_global_positions: Vec::new(),
        pose_global_rotations: Vec::new(),
        pose_local_rotations: Vec::new(),
        pose_local_positions: Vec::new(),
    };
    data.pose_local_positions = local_positions(&roots, &data.rest_local_positions);
    let order = chars_of(motion.rotation_order.as_str());
    data.pose_local_rotations = match local_rotations(&motion.frames, n, &order, &turn, &k.times) {
        Ok(table) => table,
        Err(e) => {
            return Err(e);
        },
    };
    proof {
        lemma_same_tailless(bvh.joints@, endsites@, 0);
    }
    match calc_global_rest_pose(bvh, &endsites, &mut data, k) {
        Ok(()) => {},
        Err(e) => {
            return Err(e);
        },
    }
    let ghost rest = data;
    calc_global_pose(bvh, &mut data, k);
    proof {
        assert(endsites_of(bvh.joints@, to_position, endsites@));
        assert forall|j: int| 0 <= j < bvh.joints.len() implies k.rest_pose_of(
            bvh@.joints,
            endsites@,
            data,
            j,
        ) by {
            assert(k.rest_pose_of(bvh@.joints, endsites@, rest, j));
        }
    }
    Ok(data)
}

/// Loads a file from its text and makes all its pose arrays. Fails where
/// the text does not load, and where it holds no rotation order for the
/// angles of its frames.
pub fn load_bvh_data_from_string<
    P: Copy, Q: Copy, TP: Fn(&Position<Number>) -> P, T: Fn(char, &Number) -> Q,
    A: Fn(P, P) -> P, D: Fn(P, usize) -> P, R: Fn(Q, P) -> P, X: Fn(Q, Q) -> Q,
    I: Fn(Q) -> Q, N: Fn(P) -> bool, L: Fn(P) -> Alignment, S: Fn(P) -> Q,
>(bvh_string: &str, to_position: TP, turn: T, k: &Arithmetic<P, Q, A, D, R, X, I, N, L, S>) -> (r: Result<
    (BvhMetadata, BvhMotion, BvhData<P, Q>),
    BvhError,
>)
    requires
        forall|p: &Position<Number>| call_requires(to_position, (p,)),
        forall|c: char, s: &Number| call_requires(turn, (c, s)),
        k.ready(),
    ensures
        match r {
            Ok((metadata, motion, data)) => {
                &&& loaded(
                    Ok::<(BvhMetadata, BvhMotion), BvhError>((metadata, motion)),
                    parse_bvh(split_lines(bvh_string@)),
                )
                &&& document_wf(parse_bvh(split_lines(bvh_string@))->Ok_0)
                &&& !needs_rotation_order(metadata@, motion@)
                &&& is_evaluation(metadata, motion, data, to_position, turn, *k)
            },
            Err(e) => match parse_bvh(split_lines(bvh_string@)) {
                Err(failure) => e == failure,
                Ok(d) => needs_rotation_order(d.metadata, d.motion) && e
                    == BvhError::InvalidRotationOrder,
            },
        },
{
    let (metadata, motion) = match load_bvh_from_string(bvh_string) {
        Ok(read) => read,
        Err(e) => {
            return Err(e);
        },
    };
    proof {
        let d = parse_bvh(split_lines(bvh_string@))->Ok_0;
        assert(d.metadata == metadata@);
        assert(d.motion == motion@);
        assert forall|f: int| 0 <= f < motion.frames.len() implies (
        #[trigger] motion.frames[f]).rotations.len() == metadata.joints.len() by {
            assert(d.motion.frames[f] == motion.frames[f]@);
        }
    }
    match evaluate(&metadata, &motion, to_position, turn, k) {
        Ok(data) => Ok((metadata, motion, data)),
        Err(e) => Err(e),
    }
}

/// Where the offsets of the end sites are given for the joints that have an
/// end site, and for no others, the first joint without a tail is the first
/// joint with neither a child nor an end site.
pub proof fn lemma_same_tailless<P>(joints: Seq<Joint>, endsites: Seq<Option<P>>, i: int)
    requires
        0 <= i,
        endsites.len() == joints.len(),
        forall|j: int|
            0 <= j < joints.len() ==> ((#[trigger] joints[j]).endsite is Some
                <==> endsites[j] is Some),
    ensures
        first_tailless(joint_models(joints), endsites, i)
            == first_dangling(joint_models(joints), i),
    decreases joints.len() - i,
{
    if i < joints.len() {
        assert(joint_models(joints)[i] == joints[i]@);
        lemma_same_tailless(joints, endsites, i + 1);
    }
}

} // verus!
