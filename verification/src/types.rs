//! The data model: joints, the skeleton with its timing, and the arrays of
//! poses.

use crate::number::Number;
use crate::text::{chars_of, equals};
use vstd::prelude::*;

verus! {

/// Three values, one for each of the axes X, Y and Z.
#[derive(Clone, Copy, Debug, PartialEq)]
pub struct Position<S> {
    pub x: S,
    pub y: S,
    pub z: S,
}

/// Three angles, one about each of the axes X, Y and Z.
#[derive(Clone, Copy, Debug, PartialEq)]
pub struct Euler<S> {
    pub x: S,
    pub y: S,
    pub z: S,
}

impl View for Position<Number> {
    type V = Position<Seq<char>>;

    open spec fn view(&self) -> Position<Seq<char>> {
        Position { x: self.x@, y: self.y@, z: self.z@ }
    }
}

impl View for Euler<Number> {
    type V = Euler<Seq<char>>;

    open spec fn view(&self) -> Euler<Seq<char>> {
        Euler { x: self.x@, y: self.y@, z: self.z@ }
    }
}

/// A value that stands for "nothing applied": no displacement, no rotation.
pub trait Identity: Sized {
    spec fn is_identity(&self) -> bool;

    fn identity() -> (r: Self)
        ensures
            r.is_identity(),
    ;
}

impl Identity for Number {
    open spec fn is_identity(&self) -> bool {
        self@ == seq!['0']
    }

    fn identity() -> (r: Number) {
        Number::zero()
    }
}

impl<S: Identity> Identity for Position<S> {
    open spec fn is_identity(&self) -> bool {
        self.x.is_identity() && self.y.is_identity() && self.z.is_identity()
    }

    fn identity() -> (r: Position<S>) {
        Position { x: S::identity(), y: S::identity(), z: S::identity() }
    }
}

impl<S: Identity> Identity for Euler<S> {
    open spec fn is_identity(&self) -> bool {
        self.x.is_identity() && self.y.is_identity() && self.z.is_identity()
    }

    fn identity() -> (r: Euler<S>) {
        Euler { x: S::identity(), y: S::identity(), z: S::identity() }
    }
}

/// The literal `0` on each axis.
pub open spec fn zero_position() -> Position<Seq<char>> {
    Position { x: seq!['0'], y: seq!['0'], z: seq!['0'] }
}

/// The literal `0` about each axis.
pub open spec fn zero_euler() -> Euler<Seq<char>> {
    Euler { x: seq!['0'], y: seq!['0'], z: seq!['0'] }
}

/// The tip of a joint without children.
#[derive(Clone, Debug)]
pub struct Endsite {
    pub offset: Position<Number>,
}

/// One node of the skeleton.
#[derive(Clone, Debug)]
pub struct Joint {
    pub name: String,
    pub index: usize,
    /// `-1` for the root.
    pub parent_index: isize,
    pub depth: usize,
    pub children: Vec<usize>,
    pub is_leaf: bool,
    pub endsite: Option<Endsite>,
}

/// What a joint holds, as mathematical values.
pub struct JointModel {
    pub name: Seq<char>,
    pub index: usize,
    pub parent_index: isize,
    pub depth: usize,
    pub children: Seq<usize>,
    pub is_leaf: bool,
    pub endsite: Option<Position<Seq<char>>>,
}

impl View for Joint {
    type V = JointModel;

    open spec fn view(&self) -> JointModel {
        JointModel {
            name: self.name@,
            index: self.index,
            parent_index: self.parent_index,
            depth: self.depth,
            children: self.children@,
            is_leaf: self.is_leaf,
            endsite: match self.endsite {
                Some(e) => Some(e.offset@),
                None => None,
            },
        }
    }
}

/// The views of a sequence of joints.
pub open spec fn joint_models(joints: Seq<Joint>) -> Seq<JointModel> {
    joints.map_values(|j: Joint| j@)
}

/// What must hold of joint `i` of a skeleton: its index is its place; its
/// parent comes before it, and only joint 0 has none; its depth is 0 exactly
/// if it has no parent, and else one more than its parent's; it is a leaf
/// exactly if it has an end site and no child; each of its children comes
/// after it and names it as parent; and its parent lists it as child.
pub open spec fn joint_wf(joints: Seq<JointModel>, i: int) -> bool {
    let j = joints[i];
    &&& j.index == i
    &&& -1 <= j.parent_index < i
    &&& (j.parent_index == -1 <==> i == 0)
    &&& (j.depth == 0 <==> j.parent_index == -1)
    &&& (j.parent_index != -1 ==> j.depth == joints[j.parent_index as int].depth + 1)
    &&& (j.is_leaf <==> j.endsite is Some && j.children.len() == 0)
    &&& (forall|k: int|
        0 <= k < j.children.len() ==> i < #[trigger] j.children[k] < joints.len()
            && joints[j.children[k] as int].parent_index == i)
    &&& (j.parent_index != -1 ==> joints[j.parent_index as int].children.contains(i as usize))
}

/// A well-formed skeleton: every joint is well formed in it.
pub open spec fn skeleton_wf(joints: Seq<JointModel>) -> bool {
    forall|i: int| 0 <= i < joints.len() ==> joint_wf(joints, i)
}

/// The skeleton and its timing.
#[derive(Clone, Debug)]
pub struct BvhMetadata {
    pub joints: Vec<Joint>,
    pub num_frames: usize,
    /// Seconds per frame, as written in the file.
    pub frame_time: Number,
    /// Frames per second, rounded to a whole number.
    pub fps: u32,
}

/// What the metadata hold, as mathematical values.
pub struct MetadataModel {
    pub joints: Seq<JointModel>,
    pub num_frames: usize,
    pub frame_time: Seq<char>,
    pub fps: u32,
}

impl View for BvhMetadata {
    type V = MetadataModel;

    open spec fn view(&self) -> MetadataModel {
        MetadataModel {
            joints: joint_models(self.joints@),
            num_frames: self.num_frames,
            frame_time: self.frame_time@,
            fps: self.fps,
        }
    }
}

/// The pose arrays of a loaded file, all indexed by joint; the arrays of
/// poses are indexed by joint, then by frame. `P` is the type of a position,
/// `Q` the type of a rotation.
#[derive(Clone, Debug)]
pub struct BvhData<P, Q> {
    pub rest_local_positions: Vec<P>,
    pub rest_local_rotations: Vec<Q>,
    pub rest_global_positions: Vec<P>,
    pub rest_global_rotations: Vec<Q>,
    pub pose_global_positions: Vec<Vec<P>>,
    pub pose_global_rotations: Vec<Vec<Q>>,
    pub pose_local_rotations: Vec<Vec<Q>>,
    pub pose_local_positions: Vec<Vec<P>>,
}

impl<P, Q> BvhData<P, Q> {
    /// Whether the arrays hold a global pose of joint `joint`: its rest
    /// pose where `rest` is set, and else its pose in frame `frame`.
    pub open spec fn has_global_pose(&self, joint: int, frame: int, rest: bool) -> bool {
        if rest {
            0 <= joint < self.rest_global_positions.len() && joint
                < self.rest_global_rotations.len()
        } else {
            &&& 0 <= joint < self.pose_global_positions.len()
            &&& joint < self.pose_global_rotations.len()
            &&& 0 <= frame < self.pose_global_positions[joint].len()
            &&& frame < self.pose_global_rotations[joint].len()
        }
    }

    /// The global position and rotation of a joint in a frame; in rest pose
    /// mode its global position and rotation at rest, whatever the frame.
    /// `None` where the arrays hold no such pose.
    pub fn get_global_position_rotation(
        &self,
        joint_index: usize,
        frame: usize,
        rest_pose_mode: bool,
    ) -> (r: Option<(&P, &Q)>)
        ensures
            match r {
                Some((position, rotation)) => {
                    &&& self.has_global_pose(joint_index as int, frame as int, rest_pose_mode)
                    &&& rest_pose_mode ==> *position
                        == self.rest_global_positions[joint_index as int] && *rotation
                        == self.rest_global_rotations[joint_index as int]
                    &&& !rest_pose_mode ==> *position
                        == self.pose_global_positions[joint_index as int][frame as int]
                        && *rotation
                        == self.pose_global_rotations[joint_index as int][frame as int]
                },
                None => !self.has_global_pose(joint_index as int, frame as int, rest_pose_mode),
            },
    {
        if rest_pose_mode {
            if joint_index < self.rest_global_positions.len() && joint_index
                < self.rest_global_rotations.len() {
                let position = &self.rest_global_positions[joint_index];
                let rotation = &self.rest_global_rotations[joint_index];
                Some((position, rotation))
            } else {
                None
            }
        } else if joint_index < self.pose_global_positions.len() && joint_index
            < self.pose_global_rotations.len() {
            let positions = &self.pose_global_positions[joint_index];
            let rotations = &self.pose_global_rotations[joint_index];
            if frame < positions.len() && frame < rotations.len() {
                Some((&positions[frame], &rotations[frame]))
            } else {
                None
            }
        } else {
            None
        }
    }
}

/// In a well-formed skeleton the root, and only the root, has depth 0; every
/// other joint lies one level below its parent.
pub proof fn lemma_depth_follows_parent(joints: Seq<JointModel>, i: int)
    requires
        skeleton_wf(joints),
        0 <= i < joints.len(),
    ensures
        joints[i].depth == 0 <==> joints[i].parent_index == -1,
        joints[i].parent_index != -1 ==> 0 <= joints[i].parent_index < joints.len()
            && joints[i].depth == joints[joints[i].parent_index as int].depth + 1,
{
    assert(joint_wf(joints, i));
}

/// In a well-formed skeleton the indices of the joints are `0..n` in order,
/// and a parent's index is less than its child's.
pub proof fn lemma_indices_dense(joints: Seq<JointModel>, i: int)
    requires
        skeleton_wf(joints),
        0 <= i < joints.len(),
    ensures
        joints[i].index == i,
        joints[i].parent_index < joints[i].index,
{
    assert(joint_wf(joints, i));
}

/// In a well-formed skeleton a joint is a leaf exactly if it has an end site
/// and no child; so a leaf has no child.
pub proof fn lemma_leaf_has_no_child(joints: Seq<JointModel>, i: int)
    requires
        skeleton_wf(joints),
        0 <= i < joints.len(),
    ensures
        joints[i].is_leaf <==> joints[i].endsite is Some && joints[i].children.len() == 0,
        joints[i].is_leaf ==> joints[i].children.len() == 0,
{
    assert(joint_wf(joints, i));
}

/// In a well-formed skeleton only joint 0 is a root.
pub proof fn lemma_single_root(joints: Seq<JointModel>, i: int)
    requires
        skeleton_wf(joints),
        0 <= i < joints.len(),
    ensures
        joints[i].parent_index == -1 <==> i == 0,
{
    assert(joint_wf(joints, i));
}

/// The views of the rows of a table of indices.
pub open spec fn column_models(v: Seq<Vec<usize>>) -> Seq<Seq<usize>> {
    v.map_values(|c: Vec<usize>| c@)
}

/// The place of the first joint from `i` on that is called `name`.
pub open spec fn first_named(joints: Seq<JointModel>, name: Seq<char>, i: int) -> Option<int>
    decreases joints.len() - i,
{
    if i < 0 || i >= joints.len() {
        None
    } else if joints[i].name == name {
        Some(i)
    } else {
        first_named(joints, name, i + 1)
    }
}

/// The place of the first joint from `i` on whose index is `index`.
pub open spec fn first_indexed(joints: Seq<JointModel>, index: usize, i: int) -> Option<int>
    decreases joints.len() - i,
{
    if i < 0 || i >= joints.len() {
        None
    } else if joints[i].index == index {
        Some(i)
    } else {
        first_indexed(joints, index, i + 1)
    }
}

/// The kinematic chains of the first `n` joints: walking the joints in
/// order, a joint whose depth is one more than that of the joint before it
/// goes on the chain of that joint; every other joint, the first of all
/// too, starts a chain. A chain holds the indices of its joints.
pub open spec fn chains_upto(joints: Seq<JointModel>, n: int) -> Seq<Seq<usize>>
    decreases n,
{
    if n <= 0 {
        Seq::empty()
    } else {
        let earlier = chains_upto(joints, n - 1);
        if n == 1 || joints[n - 1].depth != joints[n - 2].depth + 1 {
            earlier.push(seq![joints[n - 1].index])
        } else {
            earlier.update(earlier.len() - 1, earlier.last().push(joints[n - 1].index))
        }
    }
}

/// The kinematic chains of a skeleton.
pub open spec fn kinematic_chains(joints: Seq<JointModel>) -> Seq<Seq<usize>> {
    chains_upto(joints, joints.len() as int)
}

/// The chains laid end to end.
pub open spec fn concat_all(chains: Seq<Seq<usize>>) -> Seq<usize>
    decreases chains.len(),
{
    if chains.len() == 0 {
        Seq::empty()
    } else {
        concat_all(chains.drop_last()) + chains.last()
    }
}

/// The chains of a skeleton part its joints: no chain is empty, and laid
/// end to end the chains hold the index of every joint once, in the order
/// of the joints.
pub proof fn lemma_chains_part_the_joints(joints: Seq<JointModel>, n: int)
    requires
        0 <= n <= joints.len(),
    ensures
        concat_all(chains_upto(joints, n)) == joints.take(n).map_values(|j: JointModel| j.index),
        forall|c: int|
            0 <= c < chains_upto(joints, n).len() ==> (#[trigger] chains_upto(joints, n)[c]).len()
                > 0,
        n > 0 ==> chains_upto(joints, n).len() > 0,
    decreases n,
{
    let indices = |j: JointModel| j.index;
    if n > 0 {
        lemma_chains_part_the_joints(joints, n - 1);
        let earlier = chains_upto(joints, n - 1);
        let now = chains_upto(joints, n);
        let x = joints[n - 1].index;
        assert(joints.take(n).map_values(indices) =~= joints.take(n - 1).map_values(indices).push(
            x,
        ));
        if n == 1 || joints[n - 1].depth != joints[n - 2].depth + 1 {
            assert(now.drop_last() =~= earlier);
            assert(concat_all(now) =~= concat_all(earlier).push(x));
        } else {
            assert(now.drop_last() =~= earlier.drop_last());
            assert(concat_all(now) =~= concat_all(earlier).push(x));
        }
    } else {
        assert(joints.take(0).map_values(indices) =~= Seq::empty());
    }
}

impl BvhMetadata {
    /// The place of the first joint called `name`, if there is one.
    pub fn position_of_name(&self, name: &str) -> (r: Option<usize>)
        ensures
            match r {
                Some(i) => first_named(self@.joints, name@, 0) == Some(i as int),
                None => first_named(self@.joints, name@, 0) is None,
            },
    {
        let mut i: usize = 0;
        while i < self.joints.len()
            invariant
                i <= self.joints.len(),
                first_named(self@.joints, name@, 0) == first_named(self@.joints, name@, i as int),
            decreases self.joints.len() - i,
        {
            let chars = chars_of(self.joints[i].name.as_str());
            proof {
                assert(self@.joints[i as int].name == self.joints@[i as int].name@);
            }
            if equals(&chars, name) {
                return Some(i);
            }
            i += 1;
        }
        None
    }

    /// The place of the first joint whose index is `index`, if there is
    /// one.
    pub fn position_of_index(&self, index: usize) -> (r: Option<usize>)
        ensures
            match r {
                Some(i) => first_indexed(self@.joints, index, 0) == Some(i as int),
                None => first_indexed(self@.joints, index, 0) is None,
            },
    {
        let mut i: usize = 0;
        while i < self.joints.len()
            invariant
                i <= self.joints.len(),
                first_indexed(self@.joints, index, 0) == first_indexed(
                    self@.joints,
                    index,
                    i as int,
                ),
            decreases self.joints.len() - i,
        {
            proof {
                assert(self@.joints[i as int].index == self.joints@[i as int].index);
            }
            if self.joints[i].index == index {
                return Some(i);
            }
            i += 1;
        }
        None
    }

    /// The first joint called `name`. There must be one.
    pub fn find_joint_by_name(&self, name: &str) -> (r: &Joint)
        requires
            first_named(self@.joints, name@, 0) is Some,
        ensures
            0 <= first_named(self@.joints, name@, 0)->0 < self.joints.len(),
            *r == self.joints[first_named(self@.joints, name@, 0)->0],
            r.name@ == name@,
    {
        match self.position_of_name(name) {
            Some(i) => {
                proof {
                    lemma_first_named(self@.joints, name@, 0);
                    assert(self@.joints[i as int].name == self.joints@[i as int].name@);
                }
                &self.joints[i]
            },
            None => vstd::pervasive::unreached(),
        }
    }

    /// The first joint whose index is `index`. There must be one.
    pub fn find_joint_by_index(&self, index: usize) -> (r: &Joint)
        requires
            first_indexed(self@.joints, index, 0) is Some,
        ensures
            0 <= first_indexed(self@.joints, index, 0)->0 < self.joints.len(),
            *r == self.joints[first_indexed(self@.joints, index, 0)->0],
            r.index == index,
    {
        match self.position_of_index(index) {
            Some(i) => {
                proof {
                    lemma_first_indexed(self@.joints, index, 0);
                    assert(self@.joints[i as int].index == self.joints@[i as int].index);
                }
                &self.joints[i]
            },
            None => vstd::pervasive::unreached(),
        }
    }

    /// Whether joint `i` is well formed in the skeleton.
    pub fn joint_is_well_formed(&self, i: usize) -> (r: bool)
        requires
            i < self.joints.len(),
        ensures
            r == joint_wf(self@.joints, i as int),
    {
        let ghost joints = self@.joints;
        let n = self.joints.len();
        let joint = &self.joints[i];
        proof {
            assert(joints[i as int] == self.joints@[i as int]@);
        }
        let parent = joint.parent_index;
        if joint.index != i || parent < -1 || (parent >= 0 && parent as usize >= i) {
            return false;
        }
        if (parent == -1) != (i == 0) || (joint.depth == 0) != (parent == -1) {
            return false;
        }
        if joint.is_leaf != (joint.endsite.is_some() && joint.children.len() == 0) {
            return false;
        }
        if parent != -1 {
            let p = parent as usize;
            proof {
                assert(joints[p as int] == self.joints@[p as int]@);
            }
            let above = &self.joints[p];
            if above.depth == usize::MAX || joint.depth != above.depth + 1 {
                return false;
            }
            let mut listed = false;
            let mut k: usize = 0;
            while k < above.children.len() && !listed
                invariant
                    k <= above.children.len(),
                    listed ==> above.children@.contains(i),
                    !listed ==> forall|m: int| 0 <= m < k ==> above.children@[m] != i,
                decreases above.children.len() - k + (if listed {
                    0int
                } else {
                    1int
                }),
            {
                if above.children[k] == i {
                    listed = true;
                } else {
                    k += 1;
                }
            }
            if !listed {
                return false;
            }
        }
        let mut k: usize = 0;
        while k < joint.children.len()
            invariant
                k <= joint.children.len(),
                i < n,
                n == self.joints.len(),
                joints == self@.joints,
                joints[i as int].children == joint.children@,
                forall|m: int|
                    0 <= m < k ==> i < #[trigger] joint.children@[m] < n
                        && joints[joint.children@[m] as int].parent_index == i,
            decreases joint.children.len() - k,
        {
            let c = joint.children[k];
            if c <= i || c >= n {
                return false;
            }
            proof {
                assert(joints[c as int] == self.joints@[c as int]@);
            }
            let back = self.joints[c].parent_index;
            if back < 0 || back as usize != i {
                return false;
            }
            k += 1;
        }
        true
    }

    /// Whether the joints form a well-formed skeleton.
    pub fn is_well_formed(&self) -> (r: bool)
        ensures
            r == skeleton_wf(self@.joints),
    {
        let mut i: usize = 0;
        while i < self.joints.len()
            invariant
                i <= self.joints.len(),
                forall|k: int| 0 <= k < i ==> joint_wf(self@.joints, k),
            decreases self.joints.len() - i,
        {
            if !self.joint_is_well_formed(i) {
                return false;
            }
            i += 1;
        }
        true
    }

    /// The kinematic chains of the skeleton.
    pub fn get_kinematic_chains(&self) -> (r: Vec<Vec<usize>>)
        ensures
            column_models(r@) == kinematic_chains(self@.joints),
    {
        let n = self.joints.len();
        let mut chains: Vec<Vec<usize>> = Vec::new();
        let mut chain: Vec<usize> = Vec::new();
        let mut i: usize = 0;
        proof {
            assert(column_models(chains@) =~= Seq::empty());
        }
        while i < n
            invariant
                i <= n,
                n == self.joints.len(),
                i == 0 ==> chains@.len() == 0 && chain@.len() == 0,
                i > 0 ==> chains_upto(self@.joints, i as int) == column_models(chains@).push(
                    chain@,
                ),
            decreases n - i,
        {
            let ghost done = column_models(chains@);
            let ghost open = chain@;
            proof {
                assert(self@.joints[i as int] == self.joints@[i as int]@);
                if i > 0 {
                    assert(self@.joints[i - 1] == self.joints@[i - 1]@);
                }
            }
            let index = self.joints[i].index;
            if i == 0 {
                chain.push(index);
                proof {
                    assert(chain@ =~= seq![index]);
                    assert(column_models(chains@) =~= Seq::<Seq<usize>>::empty());
                    assert(chains_upto(self@.joints, 0) =~= Seq::<Seq<usize>>::empty());
                    assert(chains_upto(self@.joints, 1) == chains_upto(self@.joints, 0).push(
                        seq![index],
                    ));
                }
            } else if self.joints[i - 1].depth == usize::MAX || self.joints[i].depth
                != self.joints[i - 1].depth + 1 {
                chains.push(chain);
                chain = Vec::new();
                chain.push(index);
                proof {
                    assert(column_models(chains@) =~= done.push(open));
                    assert(chain@ =~= seq![index]);
                }
            } else {
                chain.push(index);
                proof {
                    let earlier = done.push(open);
                    assert(column_models(chains@).push(chain@) =~= earlier.update(
                        earlier.len() - 1,
                        earlier.last().push(index),
                    ));
                }
            }
            i += 1;
        }
        if n > 0 {
            let ghost done = column_models(chains@);
            let ghost open = chain@;
            chains.push(chain);
            proof {
                assert(column_models(chains@) =~= done.push(open));
            }
        }
        chains
    }
}

/// The first joint of a name, where there is one, bears the name.
pub proof fn lemma_first_named(joints: Seq<JointModel>, name: Seq<char>, i: int)
    requires
        0 <= i,
        first_named(joints, name, i) is Some,
    ensures
        i <= first_named(joints, name, i)->0 < joints.len(),
        joints[first_named(joints, name, i)->0].name == name,
    decreases joints.len() - i,
{
    if i < joints.len() && joints[i].name != name {
        lemma_first_named(joints, name, i + 1);
    }
}

/// The first joint of an index, where there is one, bears the index.
pub proof fn lemma_first_indexed(joints: Seq<JointModel>, index: usize, i: int)
    requires
        0 <= i,
        first_indexed(joints, index, i) is Some,
    ensures
        i <= first_indexed(joints, index, i)->0 < joints.len(),
        joints[first_indexed(joints, index, i)->0].index == index,
    decreases joints.len() - i,
{
    if i < joints.len() && joints[i].index != index {
        lemma_first_indexed(joints, index, i + 1);
    }
}

/// The kinematic chains of a skeleton.
pub fn get_kinematic_chains(bvh: &BvhMetadata) -> (r: Vec<Vec<usize>>)
    ensures
        column_models(r@) == kinematic_chains(bvh@.joints),
{
    bvh.get_kinematic_chains()
}

} // verus!
