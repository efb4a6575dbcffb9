//! The reader of the hierarchy section: the state machine that the model of
//! the hierarchy describes, as executable code.

use crate::capture::capture;
use crate::error::BvhError;
use crate::hierarchy::{
    all_numbers, assign_channels, declare_joint, find_parent, first_dangling,
    first_without_offset, fresh_joint, initial, is_position_name, is_rotation_name, line_kind,
    mark_endsite, push_joint, read_channels, read_frame_time, read_frames, read_offset, step,
    step_with, with_child, with_endsite, ChannelModel, HierarchyModel, LineKind, Step,
};
use crate::number::{is_number, read_usize, Number};
use crate::text::{
    chars_of, equals, lemma_tokens_count, lemma_trim_len, rows, split_whitespace, starts_with,
    string_of, tokens_of, trim, trimmed,
};
use crate::types::{
    column_models, joint_models, joint_wf, skeleton_wf, zero_position, Endsite, Identity, Joint,
    JointModel, Position,
};
use vstd::prelude::*;

verus! {

/// The state of the reader.
pub struct HierarchyReader {
    pub joints: Vec<Joint>,
    pub offsets: Vec<Option<Position<Number>>>,
    pub positional: Vec<Vec<usize>>,
    pub rotational: Vec<Vec<usize>>,
    pub order: Vec<char>,
    pub depth: usize,
    pub in_endsite: bool,
    pub channels: usize,
    pub num_frames: usize,
}

/// The views of the offsets read so far.
pub open spec fn offset_models(v: Seq<Option<Position<Number>>>) -> Seq<
    Option<Position<Seq<char>>>,
> {
    v.map_values(
        |o: Option<Position<Number>>|
            match o {
                Some(p) => Some(p@),
                None => None,
            },
    )
}

/// The view of a captured text.
pub open spec fn text_of(o: Option<String>) -> Option<Seq<char>> {
    match o {
        Some(s) => Some(s@),
        None => None,
    }
}

impl View for HierarchyReader {
    type V = HierarchyModel;

    open spec fn view(&self) -> HierarchyModel {
        HierarchyModel {
            joints: joint_models(self.joints@),
            offsets: offset_models(self.offsets@),
            positional: column_models(self.positional@),
            rotational: column_models(self.rotational@),
            order: self.order@,
            depth: self.depth as nat,
            in_endsite: self.in_endsite,
            channels: self.channels as nat,
            num_frames: self.num_frames,
        }
    }
}

/// What holds of every state of the reader: there is an offset slot and
/// there are channel columns for each joint, and the joints form a
/// well-formed skeleton.
pub open spec fn model_inv(s: HierarchyModel) -> bool {
    &&& s.offsets.len() == s.joints.len()
    &&& s.positional.len() == s.joints.len()
    &&& s.rotational.len() == s.joints.len()
    &&& skeleton_wf(s.joints)
}

/// What `find_parent` finds lies before `n`, one level above `depth`.
pub proof fn lemma_find_parent(joints: Seq<JointModel>, depth: nat, n: int)
    requires
        0 <= n <= joints.len(),
    ensures
        -1 <= find_parent(joints, depth, n) < n,
        find_parent(joints, depth, n) >= 0 ==> joints[find_parent(joints, depth, n)].depth + 1
            == depth,
    decreases n,
{
    if n > 0 && joints[n - 1].depth + 1 != depth {
        lemma_find_parent(joints, depth, n - 1);
    }
}

/// Declaring a joint below a parent that `find_parent` found keeps the
/// skeleton well formed.
pub proof fn lemma_declare_keeps_wf(
    joints: Seq<JointModel>,
    name: Seq<char>,
    p: int,
    depth: nat,
)
    requires
        skeleton_wf(joints),
        0 <= p < joints.len(),
        p <= isize::MAX,
        joints.len() <= usize::MAX,
        depth <= usize::MAX,
        joints[p].depth + 1 == depth,
    ensures
        skeleton_wf(
            joints.update(p, with_child(joints[p], joints.len() as int)).push(
                fresh_joint(name, joints.len() as int, p, depth),
            ),
        ),
{
    let n = joints.len() as int;
    let after = joints.update(p, with_child(joints[p], n)).push(fresh_joint(name, n, p, depth));
    assert forall|i: int| 0 <= i < after.len() implies joint_wf(after, i) by {
        if i == n {
            assert(after[p].children[after[p].children.len() - 1] == n as usize);
        } else {
            assert(joint_wf(joints, i));
            let q = joints[i].parent_index as int;
            if q != -1 {
                let k = choose|k: int|
                    0 <= k < joints[q].children.len() && joints[q].children[k] == i as usize;
                assert(after[q].children[k] == i as usize);
            }
            if i == p {
                assert forall|k: int| 0 <= k < after[i].children.len() implies i
                    < #[trigger] after[i].children[k] < after.len()
                    && after[after[i].children[k] as int].parent_index == i by {
                    if k < joints[i].children.len() {
                        assert(after[i].children[k] == joints[i].children[k]);
                    }
                }
            } else {
                assert forall|k: int| 0 <= k < after[i].children.len() implies i
                    < #[trigger] after[i].children[k] < after.len()
                    && after[after[i].children[k] as int].parent_index == i by {
                    assert(after[i].children[k] == joints[i].children[k]);
                }
            }
        }
    }
}

/// The nearest joint that lies one level above `joint_depth`.
pub fn find_parent_joint_index_by_depth(joint_depth: usize, joints: &Vec<Joint>) -> (r: Option<
    usize,
>)
    ensures
        match r {
            Some(p) => p == find_parent(
                joint_models(joints@),
                joint_depth as nat,
                joints.len() as int,
            ),
            None => find_parent(joint_models(joints@), joint_depth as nat, joints.len() as int)
                == -1,
        },
{
    let mut i: usize = joints.len();
    while i > 0
        invariant
            i <= joints.len(),
            find_parent(joint_models(joints@), joint_depth as nat, joints.len() as int)
                == find_parent(joint_models(joints@), joint_depth as nat, i as int),
        decreases i,
    {
        if joint_depth > 0 && joints[i - 1].depth == joint_depth - 1 {
            return Some(i - 1);
        }
        i -= 1;
    }
    None
}

/// The views of a sequence of literals.
pub open spec fn number_models(v: Seq<Number>) -> Seq<Seq<char>> {
    v.map_values(|n: Number| n@)
}

/// Giving the last joint an end site keeps the skeleton well formed.
pub proof fn lemma_endsite_keeps_wf(joints: Seq<JointModel>, offset: Position<Seq<char>>)
    requires
        skeleton_wf(joints),
        joints.len() > 0,
    ensures
        skeleton_wf(joints.update(joints.len() - 1, with_endsite(joints.last(), offset))),
{
    let n = joints.len() as int;
    let after = joints.update(n - 1, with_endsite(joints[n - 1], offset));
    assert forall|i: int| 0 <= i < after.len() implies joint_wf(after, i) by {
        assert(joint_wf(joints, i));
        let q = joints[i].parent_index as int;
        if q != -1 {
            let k = choose|k: int|
                0 <= k < joints[q].children.len() && joints[q].children[k] == i as usize;
            assert(after[q].children[k] == i as usize);
        }
        assert forall|k: int| 0 <= k < after[i].children.len() implies i
            < #[trigger] after[i].children[k] < after.len()
            && after[after[i].children[k] as int].parent_index == i by {
            assert(after[i].children[k] == joints[i].children[k]);
        }
    }
}

/// The literals that the tokens spell, if each of them spells one.
pub fn read_numbers(tokens: &Vec<Vec<char>>) -> (r: Option<Vec<Number>>)
    ensures
        r is Some <==> all_numbers(rows(tokens@)),
        r is Some ==> number_models(r->0@) == rows(tokens@),
{
    let mut out: Vec<Number> = Vec::new();
    let mut k: usize = 0;
    while k < tokens.len()
        invariant
            k <= tokens.len(),
            number_models(out@) == rows(tokens@).take(k as int),
            all_numbers(rows(tokens@).take(k as int)),
        decreases tokens.len() - k,
    {
        match Number::parse(&tokens[k]) {
            Some(number) => {
                let ghost earlier = number_models(out@);
                let ghost spelled = number@;
                out.push(number);
                proof {
                    assert(spelled == rows(tokens@)[k as int]);
                    assert(number_models(out@) =~= earlier.push(spelled));
                    assert(rows(tokens@).take(k + 1) =~= rows(tokens@).take(k as int).push(
                        spelled,
                    ));
                    assert forall|j: int| 0 <= j < k + 1 implies is_number(
                        #[trigger] rows(tokens@).take(k + 1)[j],
                    ) by {
                        if j < k {
                            assert(rows(tokens@).take(k as int)[j] == rows(tokens@).take(k + 1)[j]);
                        }
                    }
                }
            },
            None => {
                proof {
                    assert(rows(tokens@)[k as int] == tokens@[k as int]@);
                }
                return None;
            },
        }
        k += 1;
    }
    proof {
        assert(rows(tokens@).take(tokens.len() as int) =~= rows(tokens@));
    }
    Some(out)
}

/// Whether `token` names a positional channel.
pub fn names_position(token: &Vec<char>) -> (r: bool)
    ensures
        r == is_position_name(token@),
{
    equals(token, "Xposition") || equals(token, "Yposition") || equals(token, "Zposition")
}

/// Whether `token` names a rotational channel.
pub fn names_rotation(token: &Vec<char>) -> (r: bool)
    ensures
        r == is_rotation_name(token@),
        r ==> token@.len() > 0,
{
    proof {
        reveal_strlit("Xrotation");
        reveal_strlit("Yrotation");
        reveal_strlit("Zrotation");
    }
    equals(token, "Xrotation") || equals(token, "Yrotation") || equals(token, "Zrotation")
}

/// The kind of the trimmed line `t`.
pub fn classify(t: &Vec<char>) -> (r: LineKind)
    ensures
        r == line_kind(t@),
{
    if starts_with(t, "HIERARCHY") || t.len() == 0 {
        LineKind::Skip
    } else if starts_with(t, "ROOT") || starts_with(t, "JOINT") {
        LineKind::Joint
    } else if t.len() >= 3 && (t[0] == 'e' || t[0] == 'E') && (t[1] == 'n' || t[1] == 'N') && (t[2]
        == 'd' || t[2] == 'D') {
        LineKind::EndSite
    } else if equals(t, "{") {
        LineKind::Open
    } else if equals(t, "}") {
        LineKind::Close
    } else if starts_with(t, "OFFSET") {
        LineKind::Offset
    } else if starts_with(t, "CHANNELS") {
        LineKind::Channels
    } else if starts_with(t, "Frames:") {
        LineKind::Frames
    } else if starts_with(t, "Frame Time:") {
        LineKind::FrameTime
    } else {
        LineKind::Other
    }
}

/// The outcome of a line as the model sees it.
pub open spec fn outcome(before: HierarchyModel, after: HierarchyModel, r: Result<
    Option<Number>,
    BvhError,
>) -> Step {
    match r {
        Ok(None) => Step::Next(after),
        Ok(Some(frame_time)) => Step::Done(after, frame_time@),
        Err(e) => Step::Fail(e),
    }
}

/// A line that ends the hierarchy leaves the state as it was, with an
/// offset for every joint and a child or an end site for every joint.
pub proof fn lemma_scan_outcome(s: HierarchyModel, t: Seq<char>, line: usize)
    requires
        step(s, t, line) is Done,
    ensures
        step(s, t, line)->Done_0 == s,
        first_without_offset(s.offsets, 0) is None,
        first_dangling(s.joints, 0) is None,
{
}

impl HierarchyReader {
    /// The reader before the first line.
    pub fn new() -> (r: HierarchyReader)
        ensures
            r@ == initial(),
            model_inv(r@),
    {
        let r = HierarchyReader {
            joints: Vec::new(),
            offsets: Vec::new(),
            positional: Vec::new(),
            rotational: Vec::new(),
            order: Vec::new(),
            depth: 0,
            in_endsite: false,
            channels: 0,
            num_frames: 0,
        };
        proof {
            assert(r@.joints =~= Seq::<JointModel>::empty());
            assert(r@.offsets =~= Seq::empty());
            assert(r@.positional =~= Seq::empty());
            assert(r@.rotational =~= Seq::empty());
            assert(r@.order =~= Seq::<char>::empty());
        }
        r
    }

    /// Reads a `ROOT` or `JOINT` line, `name` being what was captured from
    /// it.
    pub fn declare_joint(&mut self, name: Option<String>, line: usize) -> (r: Result<(), BvhError>)
        requires
            model_inv(old(self)@),
        ensures
            model_inv(final(self)@),
            match declare_joint(old(self)@, text_of(name), line) {
                Ok(s) => r is Ok && final(self)@ == s,
                Err(e) => r == Err::<(), BvhError>(e) && final(self)@ == old(self)@,
            },
    {
        let name = match name {
            Some(name) => name,
            None => {
                return Err(BvhError::UnnamedJoint { line });
            },
        };
        let n = self.joints.len();
        let ghost before = self@;
        let found = find_parent_joint_index_by_depth(self.depth, &self.joints);
        proof {
            lemma_find_parent(before.joints, before.depth, n as int);
        }
        if n == 0 && self.depth == 0 {
            let ghost model = fresh_joint(name@, 0, -1, 0);
            self.joints.push(
                Joint {
                    name,
                    index: 0,
                    parent_index: -1,
                    depth: 0,
                    children: Vec::new(),
                    is_leaf: false,
                    endsite: None,
                },
            );
            self.offsets.push(None);
            self.positional.push(Vec::new());
            self.rotational.push(Vec::new());
            proof {
                assert(self@.joints =~= seq![model]);
                assert(self@.offsets =~= before.offsets.push(None));
                assert(self@.positional =~= before.positional.push(Seq::empty()));
                assert(self@.rotational =~= before.rotational.push(Seq::empty()));
                assert(self@ == push_joint(before, seq![model]));
                assert(joint_wf(self@.joints, 0));
            }
            return Ok(());
        }
        let p = match found {
            Some(p) => p,
            None => {
                return Err(BvhError::MissingParent { line });
            },
        };
        if p > isize::MAX as usize {
            return Err(BvhError::MissingParent { line });
        }
        let ghost model = fresh_joint(name@, n as int, p as int, self.depth as nat);
        let ghost parent = with_child(before.joints[p as int], n as int);
        self.joints[p].children.push(n);
        self.joints[p].is_leaf = false;
        self.joints.push(
            Joint {
                name,
                index: n,
                parent_index: p as isize,
                depth: self.depth,
                children: Vec::new(),
                is_leaf: false,
                endsite: None,
            },
        );
        self.offsets.push(None);
        self.positional.push(Vec::new());
        self.rotational.push(Vec::new());
        proof {
            assert(self@.joints =~= before.joints.update(p as int, parent).push(model));
            assert(self@.offsets =~= before.offsets.push(None));
            assert(self@.positional =~= before.positional.push(Seq::empty()));
            assert(self@.rotational =~= before.rotational.push(Seq::empty()));
            lemma_declare_keeps_wf(before.joints, model.name, p as int, before.depth);
        }
        Ok(())
    }

    /// Reads an `End Site` line.
    pub fn mark_endsite(&mut self)
        requires
            model_inv(old(self)@),
        ensures
            model_inv(final(self)@),
            final(self)@ == mark_endsite(old(self)@),
    {
        let ghost before = self@;
        let n = self.joints.len();
        self.in_endsite = true;
        if n > 0 {
            let offset: Position<Number> = Position::identity();
            let ghost model = with_endsite(before.joints[n - 1], zero_position());
            assert(offset@ == zero_position());
            self.joints[n - 1].endsite = Some(Endsite { offset });
            self.joints[n - 1].is_leaf = self.joints[n - 1].children.len() == 0;
            proof {
                assert(self@.joints =~= before.joints.update(n - 1, model));
                assert(self@.offsets =~= before.offsets);
                assert(self@.positional =~= before.positional);
                assert(self@.rotational =~= before.rotational);
                lemma_endsite_keeps_wf(before.joints, zero_position());
            }
        } else {
            proof {
                assert(self@.joints =~= before.joints);
            }
        }
    }

    /// Reads an `OFFSET` line, `payload` being what was captured from it.
    pub fn read_offset(&mut self, payload: Option<String>, line: usize) -> (r: Result<
        (),
        BvhError,
    >)
        requires
            model_inv(old(self)@),
        ensures
            model_inv(final(self)@),
            match read_offset(old(self)@, text_of(payload), line) {
                Ok(s) => r is Ok && final(self)@ == s,
                Err(e) => r == Err::<(), BvhError>(e) && final(self)@ == old(self)@,
            },
    {
        let ghost before = self@;
        let payload = match payload {
            Some(payload) => payload,
            None => {
                return Ok(());
            },
        };
        let chars = chars_of(payload.as_str());
        let tokens = tokens_of(&chars);
        let numbers = match read_numbers(&tokens) {
            Some(numbers) => numbers,
            None => {
                return Err(BvhError::InvalidNumber { line });
            },
        };
        if numbers.len() < 3 {
            return Err(BvhError::InvalidNumber { line });
        }
        let offset = Position {
            x: numbers[0].duplicate(),
            y: numbers[1].duplicate(),
            z: numbers[2].duplicate(),
        };
        proof {
            let t = rows(tokens@);
            assert(number_models(numbers@)[0] == t[0]);
            assert(number_models(numbers@)[1] == t[1]);
            assert(number_models(numbers@)[2] == t[2]);
            assert(offset@ == (Position { x: t[0], y: t[1], z: t[2] }));
        }
        let n = self.joints.len();
        if n == 0 {
            return Ok(());
        }
        if self.in_endsite {
            let ghost model = with_endsite(before.joints[n - 1], offset@);
            self.in_endsite = false;
            self.joints[n - 1].endsite = Some(Endsite { offset });
            self.joints[n - 1].is_leaf = self.joints[n - 1].children.len() == 0;
            proof {
                assert(self@.joints =~= before.joints.update(n - 1, model));
                assert(self@.offsets =~= before.offsets);
                assert(self@.positional =~= before.positional);
                assert(self@.rotational =~= before.rotational);
                lemma_endsite_keeps_wf(before.joints, model.endsite->0);
            }
        } else {
            let ghost model = offset@;
            self.offsets[n - 1] = Some(offset);
            proof {
                assert(self@.offsets =~= before.offsets.update(n - 1, Some(model)));
                assert(self@.joints =~= before.joints);
            }
        }
        Ok(())
    }

    /// Reads a `CHANNELS` line, `payload` being what was captured from it.
    pub fn read_channels(&mut self, payload: Option<String>)
        requires
            model_inv(old(self)@),
            payload is Some ==> old(self).channels + payload->0@.len() <= usize::MAX,
        ensures
            model_inv(final(self)@),
            final(self)@ == read_channels(old(self)@, text_of(payload)),
            payload is None ==> final(self).channels == old(self).channels,
            payload is Some ==> final(self).channels <= old(self).channels + payload->0@.len(),
    {
        let ghost before = self@;
        let payload = match payload {
            Some(payload) => payload,
            None => {
                return ;
            },
        };
        let chars = chars_of(payload.as_str());
        let names = tokens_of(&chars);
        proof {
            lemma_tokens_count(chars@, 0, Seq::empty());
        }
        let ghost all = rows(names@);
        if self.order.len() == 0 && names.len() == 3 && names_rotation(&names[0])
            && names_rotation(&names[1]) && names_rotation(&names[2]) {
            let mut order: Vec<char> = Vec::new();
            order.push(names[0][0]);
            order.push(names[1][0]);
            order.push(names[2][0]);
            proof {
                assert(order@ =~= seq![all[0][0], all[1][0], all[2][0]]);
            }
            self.order = order;
        }
        let n = self.joints.len();
        if n == 0 {
            return ;
        }
        let ghost start = ChannelModel {
            positional: before.positional[n - 1],
            rotational: before.rotational[n - 1],
            next: before.channels,
        };
        let ghost order = self.order@;
        let mut k: usize = 0;
        while k < names.len()
            invariant
                k <= names.len(),
                n == self.joints.len(),
                n > 0,
                all == rows(names@),
                model_inv(before),
                before.joints.len() == n,
                self.joints@ == old(self).joints@,
                self.offsets@ == old(self).offsets@,
                self.order@ == order,
                self.depth == old(self).depth,
                self.in_endsite == old(self).in_endsite,
                self.num_frames == old(self).num_frames,
                before == old(self)@,
                self.channels <= before.channels + k,
                before.channels + names.len() <= usize::MAX,
                self.positional@.len() == n,
                self.rotational@.len() == n,
                self@.positional =~= before.positional.update(
                    n - 1,
                    assign_channels(all, k as int, start).positional,
                ),
                self@.rotational =~= before.rotational.update(
                    n - 1,
                    assign_channels(all, k as int, start).rotational,
                ),
                self.channels as nat == assign_channels(all, k as int, start).next,
            decreases names.len() - k,
        {
            let ghost c = assign_channels(all, k as int, start);
            let ghost positional = self@.positional;
            let ghost rotational = self@.rotational;
            if names_position(&names[k]) {
                self.positional[n - 1].push(self.channels);
                self.channels += 1;
                proof {
                    assert(positional[n - 1] == c.positional);
                    assert(self@.positional[n - 1] == c.positional.push(c.next as usize));
                    assert forall|j: int| 0 <= j < n - 1 implies self@.positional[j]
                        == positional[j] by {}
                    assert(self@.positional =~= positional.update(
                        n - 1,
                        c.positional.push(c.next as usize),
                    ));
                    assert(self@.rotational =~= rotational);
                }
            } else if names_rotation(&names[k]) {
                self.rotational[n - 1].push(self.channels);
                self.channels += 1;
                proof {
                    assert(rotational[n - 1] == c.rotational);
                    assert(self@.rotational[n - 1] == c.rotational.push(c.next as usize));
                    assert forall|j: int| 0 <= j < n - 1 implies self@.rotational[j]
                        == rotational[j] by {}
                    assert(self@.rotational =~= rotational.update(
                        n - 1,
                        c.rotational.push(c.next as usize),
                    ));
                    assert(self@.positional =~= positional);
                }
            }
            k += 1;
        }
        proof {
            assert(self@.joints == before.joints);
            assert(self@.offsets == before.offsets);
        }
    }

    /// Reads a `Frames:` line.
    pub fn read_frames(&mut self, t: &Vec<char>, line: usize) -> (r: Result<(), BvhError>)
        ensures
            match read_frames(old(self)@, t@, line) {
                Ok(s) => r is Ok && final(self)@ == s,
                Err(e) => r == Err::<(), BvhError>(e) && final(self)@ == old(self)@,
            },
    {
        let tokens = tokens_of(t);
        if tokens.len() < 2 {
            return Err(BvhError::InvalidNumber { line });
        }
        match read_usize(&tokens[1]) {
            Some(n) => {
                self.num_frames = n;
                Ok(())
            },
            None => Err(BvhError::InvalidNumber { line }),
        }
    }

    /// Reads a `Frame Time:` line, which ends the hierarchy.
    pub fn read_frame_time(&self, t: &Vec<char>, line: usize) -> (r: Result<Number, BvhError>)
        requires
            model_inv(self@),
        ensures
            match read_frame_time(self@, t@, line) {
                Step::Done(s, frame_time) => r is Ok && r->Ok_0@ == frame_time && s == self@,
                Step::Fail(e) => r == Err::<Number, BvhError>(e),
                Step::Next(_) => false,
            },
    {
        let tokens = tokens_of(t);
        if tokens.len() < 3 {
            return Err(BvhError::InvalidNumber { line });
        }
        let frame_time = match Number::parse(&tokens[2]) {
            Some(frame_time) => frame_time,
            None => {
                return Err(BvhError::InvalidNumber { line });
            },
        };
        let n = self.joints.len();
        let mut i: usize = 0;
        while i < n
            invariant
                i <= n,
                n == self.joints.len(),
                n == self.offsets.len(),
                split_whitespace(t@).len() >= 3,
                is_number(split_whitespace(t@)[2]),
                first_without_offset(self@.offsets, 0) == first_without_offset(
                    self@.offsets,
                    i as int,
                ),
            decreases n - i,
        {
            proof {
                assert(self@.offsets[i as int] is None == self.offsets@[i as int] is None);
            }
            if self.offsets[i].is_none() {
                return Err(BvhError::MissingOffset { joint: i });
            }
            i += 1;
        }
        let mut i: usize = 0;
        while i < n
            invariant
                i <= n,
                n == self.joints.len(),
                split_whitespace(t@).len() >= 3,
                is_number(split_whitespace(t@)[2]),
                first_without_offset(self@.offsets, 0) is None,
                first_dangling(self@.joints, 0) == first_dangling(self@.joints, i as int),
            decreases n - i,
        {
            proof {
                assert(self@.joints[i as int] == self.joints@[i as int]@);
            }
            if self.joints[i].children.len() == 0 && self.joints[i].endsite.is_none() {
                return Err(BvhError::DanglingJoint { joint: i });
            }
            i += 1;
        }
        Ok(frame_time)
    }

    /// Reads the trimmed line `t`, `name`, `offset` and `channels` being
    /// what was captured from it as the name of a joint and as what an
    /// `OFFSET` and a `CHANNELS` line hold. Returns the frame time where
    /// the line ends the hierarchy.
    pub fn step(
        &mut self,
        t: &Vec<char>,
        line: usize,
        name: Option<String>,
        offset: Option<String>,
        channels: Option<String>,
    ) -> (r: Result<Option<Number>, BvhError>)
        requires
            model_inv(old(self)@),
            old(self).depth < usize::MAX,
            channels is Some ==> old(self).channels + channels->0@.len() <= usize::MAX,
        ensures
            model_inv(final(self)@),
            outcome(old(self)@, final(self)@, r) == step_with(
                old(self)@,
                t@,
                line,
                text_of(name),
                text_of(offset),
                text_of(channels),
            ),
            final(self).depth <= old(self).depth + 1,
            final(self).joints.len() <= old(self).joints.len() + 1,
            channels is None ==> final(self).channels == old(self).channels,
            channels is Some ==> final(self).channels <= old(self).channels + channels->0@.len(),
    {
        match classify(t) {
            LineKind::Skip => Ok(None),
            LineKind::Other => Ok(None),
            LineKind::Joint => match self.declare_joint(name, line) {
                Ok(()) => Ok(None),
                Err(e) => Err(e),
            },
            LineKind::EndSite => {
                self.mark_endsite();
                Ok(None)
            },
            LineKind::Open => {
                self.depth += 1;
                Ok(None)
            },
            LineKind::Close => {
                if self.depth == 0 {
                    Err(BvhError::UnbalancedBrace { line })
                } else {
                    self.depth -= 1;
                    Ok(None)
                }
            },
            LineKind::Offset => match self.read_offset(offset, line) {
                Ok(()) => Ok(None),
                Err(e) => Err(e),
            },
            LineKind::Channels => {
                self.read_channels(channels);
                Ok(None)
            },
            LineKind::Frames => match self.read_frames(t, line) {
                Ok(()) => Ok(None),
                Err(e) => Err(e),
            },
            LineKind::FrameTime => match self.read_frame_time(t, line) {
                Ok(frame_time) => Ok(Some(frame_time)),
                Err(e) => Err(e),
            },
        }
    }

    /// Reads line number `line` of the hierarchy. Returns the frame time
    /// where the line ends the hierarchy.
    pub fn read_line(&mut self, raw: &Vec<char>, line: usize) -> (r: Result<
        Option<Number>,
        BvhError,
    >)
        requires
            model_inv(old(self)@),
            old(self).depth < usize::MAX,
            old(self).channels + raw@.len() <= usize::MAX,
        ensures
            model_inv(final(self)@),
            outcome(old(self)@, final(self)@, r) == step(old(self)@, trim(raw@), line),
            final(self).depth <= old(self).depth + 1,
            final(self).joints.len() <= old(self).joints.len() + 1,
            final(self).channels <= old(self).channels + raw@.len(),
    {
        let t = trimmed(raw);
        proof {
            lemma_trim_len(raw@);
        }
        match classify(&t) {
            LineKind::Joint => {
                let text = string_of(&t);
                let name = capture("(ROOT|JOINT) (\\w+)", 2, text.as_str());
                self.step(&t, line, name, None, None)
            },
            LineKind::Offset => {
                let text = string_of(&t);
                let offset = capture("OFFSET (.+)", 1, text.as_str());
                self.step(&t, line, None, offset, None)
            },
            LineKind::Channels => {
                let text = string_of(&t);
                let channels = capture("CHANNELS (\\d) (.+)", 2, text.as_str());
                self.step(&t, line, None, None, channels)
            },
            _ => self.step(&t, line, None, None, None),
        }
    }
}

} // verus!
