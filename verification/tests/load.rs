use bvh_anim_parser::error::{BvhError, Stage};
use bvh_anim_parser::parse::load_bvh_from_string;

const SMALL: &str = "HIERARCHY
ROOT Hips
{
  OFFSET 0.0 1.0 0.0
  CHANNELS 6 Xposition Yposition Zposition Zrotation Xrotation Yrotation
  JOINT Spine
  {
    OFFSET 0.0 2.5 0.0
    CHANNELS 3 Zrotation Xrotation Yrotation
    End Site
    {
      OFFSET 0.0 1.5 0.0
    }
  }
}
MOTION
Frames: 2
Frame Time: 0.008333
1.0 2.0 3.0 10.0 20.0 30.0 40.0 50.0 60.0
4.0 5.0 6.0 11.0 21.0 31.0 41.0 51.0 61.0
";

const BRANCHED: &str = "HIERARCHY
ROOT Hips
{
  OFFSET 0 0 0
  CHANNELS 3 Xrotation Yrotation Zrotation
  JOINT LeftLeg
  {
    OFFSET 1 0 0
    CHANNELS 3 Xrotation Yrotation Zrotation
    JOINT LeftFoot
    {
      OFFSET 0 -1 0
      CHANNELS 3 Xrotation Yrotation Zrotation
      End Site
      {
        OFFSET 0 0 1
      }
    }
  }
  JOINT RightLeg
  {
    OFFSET -1 0 0
    CHANNELS 3 Xrotation Yrotation Zrotation
    JOINT RightFoot
    {
      OFFSET 0 -1 0
      CHANNELS 3 Xrotation Yrotation Zrotation
      JOINT RightToe
      {
        OFFSET 0 0 1
        CHANNELS 3 Xrotation Yrotation Zrotation
        End Site
        {
          OFFSET 0 0 0.5
        }
      }
    }
  }
}
MOTION
Frames: 1
Frame Time: 0.04
";

#[test]
fn small_file_loads() {
    let (metadata, motion) = load_bvh_from_string(SMALL).unwrap();
    assert_eq!(metadata.fps, 120);
    assert_eq!(metadata.num_frames, 2);
    assert_eq!(metadata.frame_time.as_str(), "0.008333");
    assert_eq!(metadata.joints.len(), 2);
    assert_eq!(metadata.joints[0].name, "Hips");
    assert_eq!(metadata.joints[0].index, 0);
    assert_eq!(metadata.joints[0].parent_index, -1);
    assert_eq!(metadata.joints[0].depth, 0);
    assert_eq!(metadata.joints[0].children, vec![1]);
    assert!(!metadata.joints[0].is_leaf);
    assert!(metadata.joints[0].endsite.is_none());
    assert_eq!(metadata.joints[1].name, "Spine");
    assert_eq!(metadata.joints[1].index, 1);
    assert_eq!(metadata.joints[1].parent_index, 0);
    assert_eq!(metadata.joints[1].depth, 1);
    assert!(metadata.joints[1].children.is_empty());
    assert!(metadata.joints[1].is_leaf);
    let tip = &metadata.joints[1].endsite.as_ref().unwrap().offset;
    assert_eq!(
        (tip.x.as_str(), tip.y.as_str(), tip.z.as_str()),
        ("0.0", "1.5", "0.0")
    );
}

#[test]
fn small_file_motion() {
    let (_, motion) = load_bvh_from_string(SMALL).unwrap();
    assert_eq!(motion.rotation_order, "ZXY");
    assert_eq!(motion.positional_channels, vec![vec![0, 1, 2], vec![]]);
    assert_eq!(
        motion.rotational_channels,
        vec![vec![3, 4, 5], vec![6, 7, 8]]
    );
    assert_eq!(motion.rest_local_positions.len(), 2);
    assert_eq!(motion.rest_local_positions[0].y.as_str(), "1.0");
    assert_eq!(motion.rest_local_positions[1].y.as_str(), "2.5");
    assert_eq!(motion.frames.len(), 2);
    assert_eq!(motion.frames[0].root_position.x.as_str(), "1.0");
    assert_eq!(motion.frames[0].root_position.y.as_str(), "2.0");
    assert_eq!(motion.frames[1].root_position.z.as_str(), "6.0");
    // The channels Z, X, Y of the root hold 10, 20, 30.
    assert_eq!(motion.frames[0].rotations[0].x.as_str(), "20.0");
    assert_eq!(motion.frames[0].rotations[0].y.as_str(), "30.0");
    assert_eq!(motion.frames[0].rotations[0].z.as_str(), "10.0");
    // Those of the spine hold 41, 51, 61 in the second frame.
    assert_eq!(motion.frames[1].rotations[1].x.as_str(), "51.0");
    assert_eq!(motion.frames[1].rotations[1].y.as_str(), "61.0");
    assert_eq!(motion.frames[1].rotations[1].z.as_str(), "41.0");
}

#[test]
fn branched_skeleton_structure() {
    let (metadata, motion) = load_bvh_from_string(BRANCHED).unwrap();
    let joints = &metadata.joints;
    assert_eq!(joints.len(), 6);
    let depths: Vec<usize> = joints.iter().map(|j| j.depth).collect();
    assert_eq!(depths, vec![0, 1, 2, 1, 2, 3]);
    let parents: Vec<isize> = joints.iter().map(|j| j.parent_index).collect();
    assert_eq!(parents, vec![-1, 0, 1, 0, 3, 4]);
    assert_eq!(joints[0].children, vec![1, 3]);
    assert_eq!(joints[3].children, vec![4]);
    let leaves: Vec<bool> = joints.iter().map(|j| j.is_leaf).collect();
    assert_eq!(leaves, vec![false, false, true, false, false, true]);
    assert_eq!(metadata.fps, 25);
    // One frame is declared and none is given: nothing moves in it.
    assert_eq!(motion.frames.len(), 1);
    assert_eq!(motion.frames[0].rotations.len(), 6);
    assert_eq!(motion.frames[0].root_position.x.as_str(), "0");
    assert_eq!(motion.frames[0].rotations[5].z.as_str(), "0");
    assert_eq!(
        metadata.get_kinematic_chains(),
        vec![vec![0, 1, 2], vec![3, 4, 5]]
    );
}

#[test]
fn skeleton_laws_hold_of_loaded_file() {
    let (metadata, _) = load_bvh_from_string(BRANCHED).unwrap();
    for (i, joint) in metadata.joints.iter().enumerate() {
        assert_eq!(joint.index, i);
        assert!(joint.parent_index < i as isize);
        assert_eq!(joint.depth == 0, joint.parent_index == -1);
        if joint.parent_index != -1 {
            let parent = &metadata.joints[joint.parent_index as usize];
            assert_eq!(joint.depth, parent.depth + 1);
            assert!(parent.children.contains(&i));
        }
        assert_eq!(
            joint.is_leaf,
            joint.endsite.is_some() && joint.children.is_empty()
        );
    }
}

#[test]
fn end_site_with_children_is_no_leaf() {
    let text = "ROOT a
{
OFFSET 0 0 0
CHANNELS 3 Xrotation Yrotation Zrotation
End Site
{
OFFSET 0 1 0
}
JOINT b
{
OFFSET 0 1 0
CHANNELS 3 Xrotation Yrotation Zrotation
End Site
{
OFFSET 0 1 0
}
}
}
Frames: 0
Frame Time: 1
";
    let (metadata, _) = load_bvh_from_string(text).unwrap();
    assert!(metadata.joints[0].endsite.is_some());
    assert!(!metadata.joints[0].is_leaf);
    assert!(metadata.joints[1].is_leaf);
    assert_eq!(metadata.fps, 1);
}

#[test]
fn lines_are_trimmed_and_unknown_lines_ignored() {
    let text = "HIERARCHY\r\n  ROOT   Hips  \r\n{\r\n\tOFFSET\t1 2 3\r\n  CHANNELS 3 Yrotation Xrotation Zrotation\r\n  End Site\r\n  {\r\n    OFFSET 0 1 0\r\n  }\r\n}\r\nMOTION\r\nsomething else\r\nFrames: 1\r\nFrame Time: 0.5\r\n7 8 9\r\n";
    let loaded = load_bvh_from_string(text);
    // `ROOT   Hips` has no name one space after `ROOT`.
    assert_eq!(loaded.unwrap_err(), BvhError::UnnamedJoint { line: 1 });
    let text = text.replace("ROOT   Hips", "ROOT Hips");
    // A tab after `OFFSET` leaves the line without an offset.
    assert_eq!(
        load_bvh_from_string(&text).unwrap_err(),
        BvhError::MissingOffset { joint: 0 }
    );
    let text = text.replace("OFFSET\t", "OFFSET ");
    let (metadata, motion) = load_bvh_from_string(&text).unwrap();
    assert_eq!(metadata.joints[0].name, "Hips");
    assert_eq!(metadata.fps, 2);
    assert_eq!(motion.rotation_order, "YXZ");
    assert_eq!(motion.frames[0].rotations[0].x.as_str(), "8");
    assert_eq!(motion.frames[0].rotations[0].y.as_str(), "7");
    assert_eq!(motion.frames[0].rotations[0].z.as_str(), "9");
}

#[test]
fn missing_frame_time_fails() {
    let text = SMALL.replace("Frame Time: 0.008333\n", "");
    let e = load_bvh_from_string(&text).unwrap_err();
    assert_eq!(e, BvhError::MissingFrameTime);
    assert_eq!(e.stage(), Stage::Hierarchy);
    assert_eq!(
        load_bvh_from_string("").unwrap_err(),
        BvhError::MissingFrameTime
    );
}

#[test]
fn unnamed_joint_fails() {
    let text = SMALL.replace("JOINT Spine", "JOINT");
    let e = load_bvh_from_string(&text).unwrap_err();
    assert_eq!(e, BvhError::UnnamedJoint { line: 5 });
    assert_eq!(e.stage(), Stage::Hierarchy);
}

#[test]
fn missing_parent_fails() {
    // A second joint at depth 0.
    let text = "ROOT a\nJOINT b\n";
    assert_eq!(
        load_bvh_from_string(text).unwrap_err(),
        BvhError::MissingParent { line: 1 }
    );
    // A first joint below depth 0.
    let text = "{\nROOT a\n";
    assert_eq!(
        load_bvh_from_string(text).unwrap_err(),
        BvhError::MissingParent { line: 1 }
    );
    // A joint two levels below the one before it.
    let text = "ROOT a\n{\n{\nJOINT b\n";
    assert_eq!(
        load_bvh_from_string(text).unwrap_err(),
        BvhError::MissingParent { line: 3 }
    );
}

#[test]
fn unbalanced_brace_fails() {
    let e = load_bvh_from_string("HIERARCHY\n}\n").unwrap_err();
    assert_eq!(e, BvhError::UnbalancedBrace { line: 1 });
    assert_eq!(e.stage(), Stage::Hierarchy);
}

#[test]
fn missing_offset_fails() {
    let text = SMALL.replace("    OFFSET 0.0 2.5 0.0\n", "");
    assert_eq!(
        load_bvh_from_string(&text).unwrap_err(),
        BvhError::MissingOffset { joint: 1 }
    );
}

#[test]
fn dangling_joint_fails() {
    let text = "ROOT a
{
OFFSET 0 0 0
CHANNELS 3 Xrotation Yrotation Zrotation
}
Frames: 0
Frame Time: 1
";
    let e = load_bvh_from_string(text).unwrap_err();
    assert_eq!(e, BvhError::DanglingJoint { joint: 0 });
    assert_eq!(e.stage(), Stage::Hierarchy);
}

#[test]
fn invalid_number_fails() {
    let text = SMALL.replace("OFFSET 0.0 2.5 0.0", "OFFSET 0.0 two 0.0");
    let e = load_bvh_from_string(&text).unwrap_err();
    assert_eq!(e, BvhError::InvalidNumber { line: 7 });
    assert_eq!(e.stage(), Stage::Numeric);
    let text = SMALL.replace("OFFSET 0.0 2.5 0.0", "OFFSET 0.0 2.5");
    assert_eq!(
        load_bvh_from_string(&text).unwrap_err(),
        BvhError::InvalidNumber { line: 7 }
    );
    let text = SMALL.replace("Frames: 2", "Frames: two");
    assert_eq!(
        load_bvh_from_string(&text).unwrap_err(),
        BvhError::InvalidNumber { line: 16 }
    );
    let text = SMALL.replace("Frames: 2", "Frames: -2");
    assert_eq!(
        load_bvh_from_string(&text).unwrap_err(),
        BvhError::InvalidNumber { line: 16 }
    );
    let text = SMALL.replace("Frame Time: 0.008333", "Frame Time: fast");
    assert_eq!(
        load_bvh_from_string(&text).unwrap_err(),
        BvhError::InvalidNumber { line: 17 }
    );
    let text = SMALL.replace("Frame Time: 0.008333", "Frame Time:");
    assert_eq!(
        load_bvh_from_string(&text).unwrap_err(),
        BvhError::InvalidNumber { line: 17 }
    );
}

#[test]
fn invalid_sample_fails() {
    let text = SMALL.replace("4.0 5.0 6.0", "4.0 oops 6.0");
    let e = load_bvh_from_string(&text).unwrap_err();
    assert_eq!(e, BvhError::InvalidSample { frame: 1 });
    assert_eq!(e.stage(), Stage::Numeric);
}

#[test]
fn unexpected_frame_fails() {
    let text = SMALL.replace("Frames: 2", "Frames: 1");
    let e = load_bvh_from_string(&text).unwrap_err();
    assert_eq!(e, BvhError::UnexpectedFrame { frame: 1 });
    assert_eq!(e.stage(), Stage::Motion);
    // A frame for a skeleton without joints.
    let text = "Frames: 1\nFrame Time: 1\n1 2 3\n";
    assert_eq!(
        load_bvh_from_string(text).unwrap_err(),
        BvhError::UnexpectedFrame { frame: 0 }
    );
}

#[test]
fn short_frame_fails() {
    let text = SMALL.replace(" 41.0 51.0 61.0", " 41.0 51.0");
    let e = load_bvh_from_string(&text).unwrap_err();
    assert_eq!(e, BvhError::ShortFrame { frame: 1 });
    assert_eq!(e.stage(), Stage::Motion);
    // An empty line among the frames is a frame without samples.
    let text = format!("{}\n", SMALL.replace("Frames: 2", "Frames: 3"));
    assert_eq!(
        load_bvh_from_string(&text).unwrap_err(),
        BvhError::ShortFrame { frame: 2 }
    );
}

#[test]
fn missing_rotation_fails() {
    let text = SMALL
        .replace(
            "CHANNELS 6 Xposition Yposition Zposition Zrotation Xrotation Yrotation",
            "CHANNELS 3 Zrotation Xrotation Yrotation",
        )
        .replace("    CHANNELS 3 Zrotation Xrotation Yrotation\n", "");
    let e = load_bvh_from_string(&text).unwrap_err();
    assert_eq!(e, BvhError::MissingRotation { joint: 1 });
    assert_eq!(e.stage(), Stage::Motion);
}

#[test]
fn invalid_rotation_order_fails() {
    let text = SMALL.replace(
        "CHANNELS 3 Zrotation Xrotation Yrotation",
        "CHANNELS 3 Zrotation Zrotation Yrotation",
    );
    let e = load_bvh_from_string(&text).unwrap_err();
    assert_eq!(e, BvhError::InvalidRotationOrder);
    assert_eq!(e.stage(), Stage::Hierarchy);
    // No line names exactly three rotational channels.
    let text = SMALL.replace(
        "CHANNELS 3 Zrotation Xrotation Yrotation",
        "CHANNELS 6 Xposition Yposition Zposition Zrotation Xrotation Yrotation",
    );
    assert_eq!(
        load_bvh_from_string(&text).unwrap_err(),
        BvhError::InvalidRotationOrder
    );
}

#[test]
fn rotation_order_is_set_once() {
    let text = BRANCHED.replacen(
        "CHANNELS 3 Xrotation Yrotation Zrotation\n  JOINT RightLeg",
        "CHANNELS 3 Zrotation Yrotation Xrotation\n  JOINT RightLeg",
        1,
    );
    let (_, motion) = load_bvh_from_string(&text).unwrap();
    assert_eq!(motion.rotation_order, "XYZ");
    let text = BRANCHED.replace(
        "      CHANNELS 3 Xrotation Yrotation Zrotation\n      End Site\n      {\n        OFFSET 0 0 1",
        "      CHANNELS 3 Zrotation Yrotation Xrotation\n      End Site\n      {\n        OFFSET 0 0 1",
    );
    let (_, motion) = load_bvh_from_string(&text).unwrap();
    assert_eq!(motion.rotation_order, "XYZ");
}

#[test]
fn unknown_channel_names_take_no_column() {
    let text = SMALL.replace(
        "CHANNELS 6 Xposition Yposition Zposition Zrotation Xrotation Yrotation",
        "CHANNELS 7 Xposition Yposition Zposition Xscale Zrotation Xrotation Yrotation",
    );
    let (_, motion) = load_bvh_from_string(&text).unwrap();
    assert_eq!(motion.positional_channels[0], vec![0, 1, 2]);
    assert_eq!(motion.rotational_channels[0], vec![3, 4, 5]);
    assert_eq!(motion.rotational_channels[1], vec![6, 7, 8]);
}
