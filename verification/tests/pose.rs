use bvh_anim_parser::error::BvhError;
use bvh_anim_parser::number::Number;
use bvh_anim_parser::parse::load_bvh_from_string;
use bvh_anim_parser::pose::{
    calc_global_pose, calc_global_rest_pose, evaluate, get_tail_offset, load_bvh_data_from_string,
    local_positions, local_rotations, positions_of, Alignment, Arithmetic,
};
use bvh_anim_parser::types::{BvhData, BvhMetadata};
use cgmath::{InnerSpace, One, Quaternion, Rad, Rotation, Rotation3, Vector3, Zero};

const TREE: &str = "HIERARCHY
ROOT Hips
{
  OFFSET 1 10 100
  CHANNELS 6 Xposition Yposition Zposition Xrotation Yrotation Zrotation
  JOINT Left
  {
    OFFSET 2 20 200
    CHANNELS 3 Xrotation Yrotation Zrotation
    End Site
    {
      OFFSET 3 30 300
    }
  }
  JOINT Right
  {
    OFFSET 4 40 400
    CHANNELS 3 Xrotation Yrotation Zrotation
    JOINT Foot
    {
      OFFSET 5 50 500
      CHANNELS 3 Xrotation Yrotation Zrotation
      End Site
      {
        OFFSET 6 60 600
      }
    }
  }
}
MOTION
Frames: 2
Frame Time: 0.1
7 70 700 1 2 3 4 5 6 7 8 9 10 11 12
8 80 800 2 3 4 5 6 7 8 9 10 11 12 13
";

fn empty<P, Q>(offsets: Vec<P>) -> BvhData<P, Q> {
    BvhData {
        rest_local_positions: offsets,
        rest_local_rotations: Vec::new(),
        rest_global_positions: Vec::new(),
        rest_global_rotations: Vec::new(),
        pose_global_positions: Vec::new(),
        pose_global_rotations: Vec::new(),
        pose_local_rotations: Vec::new(),
        pose_local_positions: Vec::new(),
    }
}

// Arithmetic in whole numbers: a position is a triple and a rotation is a
// number of quarter turns about the axis Z. No bone counts as lying along
// or against the axis, and a bone is swung by the third part of its
// direction.

type V = (i64, i64, i64);

const ORIGIN: V = (0, 0, 0);

fn whole(n: &Number) -> i64 {
    n.as_str().parse().unwrap()
}

fn triple(p: &bvh_anim_parser::types::Position<Number>) -> V {
    (whole(&p.x), whole(&p.y), whole(&p.z))
}

fn weighted(axis: char, angle: &Number) -> i64 {
    let weight = match axis {
        'X' => 100,
        'Y' => 10,
        _ => 1,
    };
    weight * whole(angle)
}

fn plus(a: V, b: V) -> V {
    (a.0 + b.0, a.1 + b.1, a.2 + b.2)
}

fn divided(a: V, n: usize) -> V {
    let n = n as i64;
    (a.0 / n, a.1 / n, a.2 / n)
}

fn quarter_turned(q: i64, v: V) -> V {
    match q.rem_euclid(4) {
        0 => v,
        1 => (-v.1, v.0, v.2),
        2 => (-v.0, -v.1, v.2),
        _ => (v.1, -v.0, v.2),
    }
}

fn quarters() -> Arithmetic<
    V,
    i64,
    impl Fn(V, V) -> V,
    impl Fn(V, usize) -> V,
    impl Fn(i64, V) -> V,
    impl Fn(i64, i64) -> i64,
    impl Fn(i64) -> i64,
    impl Fn(V) -> bool,
    impl Fn(V) -> Alignment,
    impl Fn(V) -> i64,
> {
    Arithmetic {
        origin: ORIGIN,
        upright: 0,
        up: (0, 1, 0),
        half_turn: 2,
        plus,
        divide: divided,
        rotate: quarter_turned,
        times: |a: i64, b: i64| (a + b).rem_euclid(4),
        inverse: |a: i64| (-a).rem_euclid(4),
        is_null: |_: V| false,
        alignment: |_: V| Alignment::Across,
        swing: |direction: V| direction.2.rem_euclid(4),
    }
}

// The same with rotations that are plain numbers, add up and turn no
// position, and with bones that are swung by the first part of their
// direction.

fn sum(a: i64, b: i64) -> i64 {
    a + b
}

fn numbers() -> Arithmetic<
    V,
    i64,
    impl Fn(V, V) -> V,
    impl Fn(V, usize) -> V,
    impl Fn(i64, V) -> V,
    impl Fn(i64, i64) -> i64,
    impl Fn(i64) -> i64,
    impl Fn(V) -> bool,
    impl Fn(V) -> Alignment,
    impl Fn(V) -> i64,
> {
    Arithmetic {
        origin: ORIGIN,
        upright: 0,
        up: (0, 1, 0),
        half_turn: 2,
        plus,
        divide: divided,
        rotate: |_: i64, position: V| position,
        times: sum,
        inverse: |a: i64| -a,
        is_null: |_: V| false,
        alignment: |_: V| Alignment::Across,
        swing: |direction: V| direction.0,
    }
}

fn tree() -> (BvhMetadata, BvhData<V, i64>, Vec<Option<V>>) {
    let (metadata, motion) = load_bvh_from_string(TREE).unwrap();
    let offsets: Vec<V> = motion.rest_local_positions.iter().map(triple).collect();
    let endsites: Vec<Option<V>> = metadata
        .joints
        .iter()
        .map(|j| j.endsite.as_ref().map(|e| triple(&e.offset)))
        .collect();
    let roots: Vec<V> = motion.frames.iter().map(|f| triple(&f.root_position)).collect();
    let mut data: BvhData<V, i64> = empty(offsets);
    data.pose_local_positions = local_positions(&roots, &data.rest_local_positions);
    let order: Vec<char> = motion.rotation_order.chars().collect();
    data.pose_local_rotations =
        local_rotations(&motion.frames, metadata.joints.len(), &order, &weighted, &sum).unwrap();
    (metadata, data, endsites)
}

#[test]
fn local_pose_tables() {
    let (_, data, _) = tree();
    assert_eq!(
        data.pose_local_positions,
        vec![
            vec![(7, 70, 700), (8, 80, 800)],
            vec![(2, 20, 200), (2, 20, 200)],
            vec![(4, 40, 400), (4, 40, 400)],
            vec![(5, 50, 500), (5, 50, 500)],
        ]
    );
    assert_eq!(
        data.pose_local_rotations,
        vec![vec![123, 234], vec![456, 567], vec![789, 900], vec![1122, 1233]]
    );
    let none: Vec<Vec<V>> = Vec::new();
    assert_eq!(local_positions(&vec![(1, 1, 1)], &Vec::new()), none);
    assert_eq!(local_positions(&Vec::new(), &vec![(1, 1, 1)]), vec![vec![]]);
}

#[test]
fn local_rotations_need_a_rotation_order() {
    let (metadata, motion) = load_bvh_from_string(TREE).unwrap();
    let n = metadata.joints.len();
    let none: Vec<char> = "XXZ".chars().collect();
    assert_eq!(
        local_rotations(&motion.frames, n, &none, &weighted, &sum),
        Err(BvhError::InvalidRotationOrder)
    );
    assert_eq!(local_rotations(&Vec::new(), n, &none, &weighted, &sum), Ok(vec![vec![]; n]));
    assert_eq!(local_rotations(&Vec::new(), 0, &none, &weighted, &sum), Ok(vec![]));
}

#[test]
fn mean_of_offsets() {
    let offsets = vec![(1, 2, 3), (5, 6, 7), (9, 13, -1)];
    assert_eq!(numbers().mean_offset(&offsets), (5, 7, 3));
    assert_eq!(numbers().mean_offset(&vec![(4, 5, 6)]), (4, 5, 6));
}

#[test]
fn tail_of_a_joint() {
    let (metadata, data, endsites) = tree();
    let offsets = &data.rest_local_positions;
    let k = numbers();
    let tail = |j: usize, endsite: Option<V>| {
        get_tail_offset(&metadata.joints[j], offsets, endsite, &k)
    };
    // Two children: the mean of their offsets.
    assert_eq!(tail(0, endsites[0]), Ok((3, 30, 300)));
    // No child: the end site.
    assert_eq!(tail(1, endsites[1]), Ok((3, 30, 300)));
    // One child: its offset.
    assert_eq!(tail(2, endsites[2]), Ok((5, 50, 500)));
    assert_eq!(tail(3, None), Err(BvhError::DanglingJoint { joint: 3 }));
}

#[test]
fn rest_pose_of_a_tree() {
    let (metadata, mut data, endsites) = tree();
    assert_eq!(
        calc_global_rest_pose(&metadata, &endsites, &mut data, &numbers()),
        Ok(())
    );
    assert_eq!(
        data.rest_global_positions,
        vec![(1, 10, 100), (3, 30, 300), (5, 50, 500), (10, 100, 1000)]
    );
    // The tails are the mean of 2 and 4, the end site 3, the child 5 and
    // the end site 6.
    assert_eq!(data.rest_global_rotations, vec![3, 3, 5, 6]);
    assert_eq!(data.rest_local_rotations, vec![3, 0, 2, 1]);
}

#[test]
fn rest_pose_needs_a_tail_for_every_joint() {
    let (metadata, mut data, mut endsites) = tree();
    endsites[1] = None;
    endsites[3] = None;
    let r = calc_global_rest_pose(&metadata, &endsites, &mut data, &numbers());
    assert_eq!(r, Err(BvhError::DanglingJoint { joint: 1 }));
    assert!(data.rest_global_positions.is_empty());
    assert!(data.rest_global_rotations.is_empty());
}

#[test]
fn forward_kinematics_of_a_tree() {
    let (metadata, mut data, _) = tree();
    calc_global_pose(&metadata, &mut data, &numbers());
    assert_eq!(
        data.pose_global_positions,
        vec![
            vec![(7, 70, 700), (8, 80, 800)],
            vec![(9, 90, 900), (10, 100, 1000)],
            vec![(11, 110, 1100), (12, 120, 1200)],
            vec![(16, 160, 1600), (17, 170, 1700)],
        ]
    );
    assert_eq!(
        data.pose_global_rotations,
        vec![
            vec![123, 234],
            vec![579, 801],
            vec![912, 1134],
            vec![2034, 2367],
        ]
    );
}

#[test]
fn global_pose_of_a_joint_in_a_frame() {
    let (metadata, mut data, endsites) = tree();
    assert_eq!(
        calc_global_rest_pose(&metadata, &endsites, &mut data, &numbers()),
        Ok(())
    );
    calc_global_pose(&metadata, &mut data, &numbers());
    assert_eq!(
        data.get_global_position_rotation(3, 0, false),
        Some((&(16, 160, 1600), &2034))
    );
    assert_eq!(
        data.get_global_position_rotation(3, 1, false),
        Some((&(17, 170, 1700), &2367))
    );
    assert_eq!(
        data.get_global_position_rotation(3, 1, true),
        Some((&(10, 100, 1000), &6))
    );
    // At rest the frame does not count.
    assert_eq!(
        data.get_global_position_rotation(0, 99, true),
        Some((&(1, 10, 100), &3))
    );
    assert_eq!(data.get_global_position_rotation(0, 2, false), None);
    assert_eq!(data.get_global_position_rotation(4, 0, false), None);
    assert_eq!(data.get_global_position_rotation(4, 0, true), None);
}

fn evaluated(metadata: &BvhMetadata, text: &str) -> Result<BvhData<V, i64>, BvhError> {
    let (_, motion) = load_bvh_from_string(text).unwrap();
    assert!(metadata.is_well_formed());
    evaluate(metadata, &motion, triple, weighted, &numbers())
}

#[test]
fn whole_file_is_evaluated() {
    let (metadata, motion) = load_bvh_from_string(TREE).unwrap();
    assert_eq!(
        positions_of(&motion.rest_local_positions, &triple),
        vec![(1, 10, 100), (2, 20, 200), (4, 40, 400), (5, 50, 500)]
    );
    let data = evaluated(&metadata, TREE).unwrap();
    let (_, by_hand, _) = tree();
    assert_eq!(data.rest_local_positions, by_hand.rest_local_positions);
    assert_eq!(data.pose_local_positions, by_hand.pose_local_positions);
    assert_eq!(data.pose_local_rotations, by_hand.pose_local_rotations);
    assert_eq!(
        data.rest_global_positions,
        vec![(1, 10, 100), (3, 30, 300), (5, 50, 500), (10, 100, 1000)]
    );
    assert_eq!(data.rest_global_rotations, vec![3, 3, 5, 6]);
    assert_eq!(data.rest_local_rotations, vec![3, 0, 2, 1]);
    assert_eq!(data.pose_global_positions[3], vec![(16, 160, 1600), (17, 170, 1700)]);
    assert_eq!(data.pose_global_rotations[3], vec![2034, 2367]);
}

#[test]
fn evaluation_needs_a_tail_for_every_joint() {
    let (mut metadata, _) = load_bvh_from_string(TREE).unwrap();
    metadata.joints[3].endsite = None;
    metadata.joints[3].is_leaf = false;
    assert_eq!(
        evaluated(&metadata, TREE).unwrap_err(),
        BvhError::DanglingJoint { joint: 3 }
    );
}

const NO_ORDER: &str = "HIERARCHY
ROOT Hips
{
  OFFSET 0 0 0
  CHANNELS 3 Xposition Yposition Zposition
  End Site
  {
    OFFSET 1 0 0
  }
}
MOTION
Frames: 2
Frame Time: 0.1
";

#[test]
fn evaluation_needs_a_rotation_order_to_convert_angles() {
    // Two frames in which nothing moves, and no channels that give an order.
    let (metadata, _) = load_bvh_from_string(NO_ORDER).unwrap();
    assert_eq!(
        evaluated(&metadata, NO_ORDER).unwrap_err(),
        BvhError::InvalidRotationOrder
    );
    // Without a frame there is no angle to convert.
    let still = NO_ORDER.replace("Frames: 2", "Frames: 0");
    let (metadata, _) = load_bvh_from_string(&still).unwrap();
    let data = evaluated(&metadata, &still).unwrap();
    assert_eq!(data.rest_global_positions, vec![ORIGIN]);
    assert_eq!(data.rest_global_rotations, vec![1]);
    assert_eq!(data.pose_local_rotations, vec![Vec::<i64>::new()]);
    assert_eq!(data.pose_global_rotations, vec![Vec::<i64>::new()]);
}

fn rest_and_pose(text: &str) -> BvhData<V, i64> {
    let (metadata, motion) = load_bvh_from_string(text).unwrap();
    let offsets: Vec<V> = motion.rest_local_positions.iter().map(triple).collect();
    let endsites: Vec<Option<V>> = metadata
        .joints
        .iter()
        .map(|j| j.endsite.as_ref().map(|e| triple(&e.offset)))
        .collect();
    let mut data: BvhData<V, i64> = empty(offsets);
    assert_eq!(
        calc_global_rest_pose(&metadata, &endsites, &mut data, &quarters()),
        Ok(())
    );
    // One frame, in which every joint is turned as at rest and the root
    // stands where it stands at rest.
    let roots = vec![data.rest_global_positions[0]];
    data.pose_local_positions = local_positions(&roots, &data.rest_local_positions);
    data.pose_local_rotations = data.rest_local_rotations.iter().map(|q| vec![*q]).collect();
    calc_global_pose(&metadata, &mut data, &quarters());
    data
}

fn chain(second: &str, third: &str) -> String {
    format!(
        "HIERARCHY
ROOT A
{{
  OFFSET 7 8 9
  CHANNELS 6 Xposition Yposition Zposition Zrotation Xrotation Yrotation
  JOINT B
  {{
    OFFSET {second}
    CHANNELS 3 Zrotation Xrotation Yrotation
    JOINT C
    {{
      OFFSET {third}
      CHANNELS 3 Zrotation Xrotation Yrotation
      End Site
      {{
        OFFSET 0 0 3
      }}
    }}
  }}
}}
MOTION
Frames: 1
Frame Time: 0.1
7 8 9 0 0 0 0 0 0 0 0 0
"
    )
}

#[test]
fn frame_at_rest_gives_the_rest_pose() {
    // The offsets lie along Z, which the turns about Z leave in place.
    let data = rest_and_pose(&chain("0 0 5", "0 0 2"));
    assert_eq!(data.rest_global_rotations, vec![1, 2, 3]);
    assert_eq!(data.rest_local_rotations, vec![1, 1, 1]);
    assert_eq!(data.rest_global_positions, vec![(7, 8, 9), (7, 8, 14), (7, 8, 16)]);
    for j in 0..3 {
        assert_eq!(data.pose_global_positions[j], vec![data.rest_global_positions[j]]);
        assert_eq!(data.pose_global_rotations[j], vec![data.rest_global_rotations[j]]);
    }
}

#[test]
fn frame_at_rest_turns_offsets_that_the_rest_rotation_moves() {
    // The offset of C lies across the axis about which B is turned at rest.
    let data = rest_and_pose(&chain("0 0 5", "1 0 2"));
    assert_eq!(data.rest_global_rotations, vec![1, 2, 3]);
    assert_eq!(data.rest_global_positions, vec![(7, 8, 9), (7, 8, 14), (8, 8, 16)]);
    assert_eq!(data.pose_global_positions[2], vec![(6, 8, 16)]);
    for j in 0..3 {
        assert_eq!(data.pose_global_rotations[j], vec![data.rest_global_rotations[j]]);
    }
}

// Arithmetic that writes down what it is asked for.

type Text = &'static str;

fn ink(s: String) -> Text {
    Box::leak(s.into_boxed_str())
}

fn written() -> Arithmetic<
    Text,
    Text,
    impl Fn(Text, Text) -> Text,
    impl Fn(Text, usize) -> Text,
    impl Fn(Text, Text) -> Text,
    impl Fn(Text, Text) -> Text,
    impl Fn(Text) -> Text,
    impl Fn(Text) -> bool,
    impl Fn(Text) -> Alignment,
    impl Fn(Text) -> Text,
> {
    Arithmetic {
        origin: "o",
        upright: "1",
        up: "up",
        half_turn: "half",
        plus: |a: Text, b: Text| ink(format!("({}+{})", a, b)),
        divide: |a: Text, n: usize| ink(format!("{}/{}", a, n)),
        rotate: |q: Text, p: Text| ink(format!("{}[{}]", q, p)),
        times: |a: Text, b: Text| ink(format!("{}*{}", a, b)),
        inverse: |a: Text| ink(format!("{}'", a)),
        is_null: |p: Text| p == "<0 0 0>",
        alignment: |d: Text| match d {
            "up" | "<0 1 0>" => Alignment::Along,
            "<0 -1 0>" => Alignment::Against,
            _ => Alignment::Across,
        },
        swing: |d: Text| ink(format!("swing{}", d)),
    }
}

#[test]
fn steps_of_the_arithmetic() {
    let k = written();
    // The sum starts at the origin and takes the offsets in order.
    assert_eq!(k.mean_offset(&vec!["a", "b", "c"]), "(((o+a)+b)+c)/3");
    assert_eq!(k.relative_rotation("p", "q"), "p'*q");
    assert_eq!(k.compose_pose(("P", "Q"), ("p", "q")), ("(P+Q[p])", "Q*q"));
}

#[test]
fn rest_rotation_takes_what_the_bone_is_found_to_be() {
    let k = written();
    // A bone of no length points up.
    assert_eq!(k.bone_rotation("<0 0 0>"), "1");
    assert_eq!(k.bone_rotation("<0 1 0>"), "1");
    assert_eq!(k.bone_rotation("<0 -1 0>"), "half");
    assert_eq!(k.bone_rotation("<1 2 3>"), "swing<1 2 3>");
}

const PAIR: &str = "HIERARCHY
ROOT Hips
{
  OFFSET 1 2 3
  CHANNELS 6 Xposition Yposition Zposition Zrotation Xrotation Yrotation
  JOINT Spine
  {
    OFFSET 4 5 6
    CHANNELS 3 Zrotation Xrotation Yrotation
    End Site
    {
      OFFSET 0 -1 0
    }
  }
}
MOTION
Frames: 1
Frame Time: 0.04
7 8 9 10 20 30 40 50 60
";

fn noted(p: &bvh_anim_parser::types::Position<Number>) -> Text {
    ink(format!("<{} {} {}>", p.x.as_str(), p.y.as_str(), p.z.as_str()))
}

fn named(axis: char, angle: &Number) -> Text {
    ink(format!("{}{}", axis, angle.as_str()))
}

#[test]
fn what_goes_into_every_pose() {
    let (metadata, motion) = load_bvh_from_string(PAIR).unwrap();
    let data = evaluate(&metadata, &motion, noted, named, &written()).unwrap();
    assert_eq!(data.rest_local_positions, vec!["<1 2 3>", "<4 5 6>"]);
    assert_eq!(data.rest_global_positions, vec!["<1 2 3>", "(<1 2 3>+<4 5 6>)"]);
    // The bone of the hips points to the spine, that of the spine to its
    // end site, against the axis.
    assert_eq!(data.rest_global_rotations, vec!["swing<4 5 6>", "half"]);
    assert_eq!(data.rest_local_rotations, vec!["swing<4 5 6>", "swing<4 5 6>'*half"]);
    assert_eq!(data.pose_local_positions, vec![vec!["<7 8 9>"], vec!["<4 5 6>"]]);
    assert_eq!(
        data.pose_local_rotations,
        vec![vec!["Z10*X20*Y30"], vec!["Z40*X50*Y60"]]
    );
    assert_eq!(
        data.pose_global_positions,
        vec![
            vec!["(o+1[<7 8 9>])"],
            vec!["((o+1[<7 8 9>])+1*Z10*X20*Y30[<4 5 6>])"],
        ]
    );
    assert_eq!(
        data.pose_global_rotations,
        vec![vec!["1*Z10*X20*Y30"], vec!["1*Z10*X20*Y30*Z40*X50*Y60"]]
    );
}

#[test]
fn text_is_loaded_and_evaluated_in_one() {
    let (metadata, motion, data) =
        load_bvh_data_from_string(PAIR, noted, named, &written()).unwrap();
    assert_eq!(metadata.joints.len(), 2);
    assert_eq!(metadata.fps, 25);
    assert_eq!(motion.rotation_order, "ZXY");
    let by_steps = evaluate(&metadata, &motion, noted, named, &written()).unwrap();
    assert_eq!(data.rest_global_positions, by_steps.rest_global_positions);
    assert_eq!(data.rest_global_rotations, by_steps.rest_global_rotations);
    assert_eq!(data.rest_local_rotations, by_steps.rest_local_rotations);
    assert_eq!(data.pose_global_positions, by_steps.pose_global_positions);
    assert_eq!(data.pose_global_rotations, by_steps.pose_global_rotations);
    assert_eq!(
        data.pose_global_rotations[1],
        vec!["1*Z10*X20*Y30*Z40*X50*Y60"]
    );
    // A text that does not load fails as it fails to load.
    let broken = PAIR.replace("Frame Time: 0.04", "");
    assert_eq!(
        load_bvh_data_from_string(&broken, noted, named, &written()).unwrap_err(),
        BvhError::MissingFrameTime
    );
    // Frames in which nothing moves, and no rotation order for them.
    assert_eq!(
        load_bvh_data_from_string(NO_ORDER, noted, named, &written()).unwrap_err(),
        BvhError::InvalidRotationOrder
    );
}

// Double precision.

type Point = Vector3<f64>;
type Turn = Quaternion<f64>;

fn point(p: &bvh_anim_parser::types::Position<Number>) -> Point {
    let f = |n: &Number| -> f64 { n.as_str().parse().unwrap() };
    Vector3::new(f(&p.x), f(&p.y), f(&p.z))
}

fn up() -> Point {
    Vector3::new(0.0, 1.0, 0.0)
}

fn half_turn() -> Turn {
    Quaternion::new(0.0, 0.0, 0.0, 1.0)
}

fn doubles() -> Arithmetic<
    Point,
    Turn,
    impl Fn(Point, Point) -> Point,
    impl Fn(Point, usize) -> Point,
    impl Fn(Turn, Point) -> Point,
    impl Fn(Turn, Turn) -> Turn,
    impl Fn(Turn) -> Turn,
    impl Fn(Point) -> bool,
    impl Fn(Point) -> Alignment,
    impl Fn(Point) -> Turn,
> {
    Arithmetic {
        origin: Vector3::zero(),
        upright: Quaternion::one(),
        up: up(),
        half_turn: half_turn(),
        plus: |a: Point, b: Point| a + b,
        divide: |a: Point, n: usize| a / n as f64,
        rotate: |q: Turn, p: Point| q.rotate_vector(p),
        times: |a: Turn, b: Turn| a * b,
        inverse: |a: Turn| a.invert(),
        is_null: |p: Point| p == Vector3::zero(),
        alignment: |direction: Point| {
            let dot = direction.normalize().dot(up());
            if dot < -0.9999 {
                Alignment::Against
            } else if dot > 0.9999 {
                Alignment::Along
            } else {
                Alignment::Across
            }
        },
        swing: |direction: Point| {
            let direction = direction.normalize();
            Quaternion::from_axis_angle(
                up().cross(direction).normalize(),
                Rad(direction.dot(up()).acos()),
            )
        },
    }
}

#[test]
fn rest_rotation_by_the_direction_of_the_bone() {
    let k = doubles();
    let orient = |tail: Point| k.bone_rotation(tail);
    // A bone of no length points up.
    assert_eq!(orient(Vector3::zero()), Quaternion::one());
    assert_eq!(orient(Vector3::new(0.0, 3.0, 0.0)), Quaternion::one());
    assert_eq!(orient(Vector3::new(0.001, 1.0, -0.001)), Quaternion::one());
    assert_eq!(orient(Vector3::new(0.0, -2.0, 0.0)), half_turn());
    assert_eq!(orient(Vector3::new(0.001, -1.0, 0.001)), half_turn());
    // A quarter turn about Z brings the axis Y onto -X.
    let aside = orient(Vector3::new(-4.0, 0.0, 0.0));
    let turned = aside.rotate_vector(up());
    assert!((turned - Vector3::new(-1.0, 0.0, 0.0)).magnitude() < 1e-12);
    // Just outside the thresholds the bone is swung onto its direction.
    let nearly = Vector3::new(0.02, 1.0, 0.0);
    assert_ne!(orient(nearly), Quaternion::one());
    assert!((orient(nearly).rotate_vector(up()) - nearly.normalize()).magnitude() < 1e-12);
}

const UPRIGHT: &str = "HIERARCHY
ROOT Hips
{
  OFFSET 0.5 1.0 -2.0
  CHANNELS 6 Xposition Yposition Zposition Zrotation Xrotation Yrotation
  JOINT Spine
  {
    OFFSET 0.0 2.5 0.0
    CHANNELS 3 Zrotation Xrotation Yrotation
    JOINT Head
    {
      OFFSET 0.0 1.25 0.0
      CHANNELS 3 Zrotation Xrotation Yrotation
      End Site
      {
        OFFSET 0.0 0.5 0.0
      }
    }
  }
}
MOTION
Frames: 1
Frame Time: 0.008333
0.5 1.0 -2.0 0 0 0 0 0 0 0 0 0
";

#[test]
fn upright_chain_at_rest_is_reproduced() {
    let (metadata, motion) = load_bvh_from_string(UPRIGHT).unwrap();
    let offsets: Vec<Point> = motion.rest_local_positions.iter().map(point).collect();
    let endsites: Vec<Option<Point>> = metadata
        .joints
        .iter()
        .map(|j| j.endsite.as_ref().map(|e| point(&e.offset)))
        .collect();
    let k = doubles();
    let mut data: BvhData<Point, Turn> = empty(offsets);
    assert_eq!(calc_global_rest_pose(&metadata, &endsites, &mut data, &k), Ok(()));
    assert_eq!(
        data.rest_global_positions,
        vec![
            Vector3::new(0.5, 1.0, -2.0),
            Vector3::new(0.5, 3.5, -2.0),
            Vector3::new(0.5, 4.75, -2.0),
        ]
    );
    assert!(data.rest_global_rotations.iter().all(|q| *q == Quaternion::one()));
    // The pose of frame 0, in which every joint keeps its rest rotation
    // and the root stands at its rest position.
    let roots: Vec<Point> = motion.frames.iter().map(|f| point(&f.root_position)).collect();
    data.pose_local_positions = local_positions(&roots, &data.rest_local_positions);
    let rest = data.rest_local_rotations.clone();
    data.pose_local_rotations = rest.iter().map(|q| vec![*q]).collect();
    calc_global_pose(&metadata, &mut data, &k);
    for j in 0..3 {
        assert_eq!(data.pose_global_positions[j][0], data.rest_global_positions[j]);
        assert_eq!(data.pose_global_rotations[j][0], data.rest_global_rotations[j]);
    }
}
