use bvh_anim_parser::error::BvhError;
use bvh_anim_parser::euler::{check_rotation_order, reorder_vector};
use bvh_anim_parser::number::Number;
use bvh_anim_parser::types::{
    get_kinematic_chains, BvhMetadata, Euler, Identity, Joint, Position,
};

fn joint(name: &str, index: usize, parent_index: isize, depth: usize) -> Joint {
    Joint {
        name: name.to_string(),
        index,
        parent_index,
        depth,
        children: Vec::new(),
        is_leaf: false,
        endsite: None,
    }
}

fn skeleton(depths: &[usize]) -> BvhMetadata {
    let joints = depths
        .iter()
        .enumerate()
        .map(|(i, d)| joint(&format!("j{}", i), i, i as isize - 1, *d))
        .collect();
    BvhMetadata {
        joints,
        num_frames: 0,
        frame_time: Number::zero(),
        fps: 0,
    }
}

#[test]
fn kinematic_chains_of_two_branches() {
    let bvh = skeleton(&[0, 1, 2, 1, 2, 3]);
    let expected: Vec<Vec<usize>> = vec![vec![0, 1, 2], vec![3, 4, 5]];
    assert_eq!(bvh.get_kinematic_chains(), expected);
    assert_eq!(get_kinematic_chains(&bvh), expected);
}

#[test]
fn kinematic_chains_edge_cases() {
    let none: Vec<Vec<usize>> = Vec::new();
    assert_eq!(skeleton(&[]).get_kinematic_chains(), none);
    assert_eq!(skeleton(&[0]).get_kinematic_chains(), vec![vec![0]]);
    assert_eq!(
        skeleton(&[0, 1, 2, 3]).get_kinematic_chains(),
        vec![vec![0, 1, 2, 3]]
    );
    assert_eq!(
        skeleton(&[0, 1, 1, 1]).get_kinematic_chains(),
        vec![vec![0, 1], vec![2], vec![3]]
    );
    // A step of two levels starts a chain too.
    assert_eq!(
        skeleton(&[0, 2, 3, 3]).get_kinematic_chains(),
        vec![vec![0], vec![1, 2], vec![3]]
    );
    assert_eq!(
        skeleton(&[usize::MAX, 0]).get_kinematic_chains(),
        vec![vec![0], vec![1]]
    );
}

#[test]
fn kinematic_chains_part_the_joints() {
    let bvh = skeleton(&[0, 1, 2, 3, 1, 2, 2, 3, 4, 1]);
    let chains = bvh.get_kinematic_chains();
    assert!(chains.iter().all(|c| !c.is_empty()));
    let all: Vec<usize> = chains.concat();
    assert_eq!(all, (0..10).collect::<Vec<usize>>());
    assert_eq!(chains.len(), 4);
}

#[test]
fn chains_hold_the_indices_of_the_joints() {
    let mut bvh = skeleton(&[0, 1, 0]);
    bvh.joints[0].index = 7;
    bvh.joints[1].index = 8;
    bvh.joints[2].index = 9;
    assert_eq!(bvh.get_kinematic_chains(), vec![vec![7, 8], vec![9]]);
}

#[test]
fn joints_are_found_by_name() {
    let mut bvh = skeleton(&[0, 1, 2]);
    bvh.joints[1].name = "Spine".to_string();
    bvh.joints[2].name = "Spine".to_string();
    assert_eq!(bvh.position_of_name("Spine"), Some(1));
    assert_eq!(bvh.position_of_name("j0"), Some(0));
    assert_eq!(bvh.position_of_name("Head"), None);
    assert_eq!(bvh.position_of_name(""), None);
    // The first of two joints of one name is the one found.
    assert_eq!(bvh.find_joint_by_name("Spine").index, 1);
    assert_eq!(bvh.find_joint_by_name("j0").index, 0);
}

#[test]
fn joints_are_found_by_index() {
    let mut bvh = skeleton(&[0, 1, 2]);
    bvh.joints[2].index = 1;
    assert_eq!(bvh.position_of_index(0), Some(0));
    assert_eq!(bvh.position_of_index(1), Some(1));
    assert_eq!(bvh.position_of_index(2), None);
    assert_eq!(bvh.find_joint_by_index(1).name, "j1");
    assert_eq!(bvh.find_joint_by_index(0).name, "j0");
}

#[test]
fn angles_go_to_the_axes_that_the_order_names() {
    let e = |order: &str| Euler::new(1, 2, 3, order).unwrap();
    assert_eq!(e("XYZ"), Euler { x: 1, y: 2, z: 3 });
    assert_eq!(e("XZY"), Euler { x: 1, y: 3, z: 2 });
    assert_eq!(e("YXZ"), Euler { x: 2, y: 1, z: 3 });
    assert_eq!(e("YZX"), Euler { x: 3, y: 1, z: 2 });
    assert_eq!(e("ZXY"), Euler { x: 2, y: 3, z: 1 });
    assert_eq!(e("ZYX"), Euler { x: 3, y: 2, z: 1 });
}

#[test]
fn single_angle_goes_to_its_axis_in_every_order() {
    // The angle given for X stands where the order has its X.
    assert_eq!(Euler::new(0.0, 0.0, 0.0, "ZYX"), Ok(Euler { x: 0.0, y: 0.0, z: 0.0 }));
    assert_eq!(Euler::new(0.5, 0.0, 0.0, "XYZ").unwrap().x, 0.5);
    assert_eq!(Euler::new(0.0, 0.5, 0.0, "YXZ").unwrap().x, 0.5);
    assert_eq!(Euler::new(0.0, 0.0, 0.5, "ZYX").unwrap().x, 0.5);
    assert_eq!(Euler::new(0.5, 0.0, 0.0, "ZXY").unwrap().z, 0.5);
}

#[test]
fn other_order_tags_are_refused() {
    for tag in ["", "XY", "XYZW", "XXY", "xyz", "XYA", "ZZZ", " XYZ"] {
        assert_eq!(
            Euler::new(1, 2, 3, tag),
            Err(BvhError::InvalidRotationOrder),
            "{}",
            tag
        );
        let order: Vec<char> = tag.chars().collect();
        assert!(!check_rotation_order(&order));
        assert_eq!(
            reorder_vector(1, 2, 3, &order),
            Err(BvhError::InvalidRotationOrder)
        );
    }
    assert!(check_rotation_order(&vec!['Y', 'Z', 'X']));
    assert_eq!(
        reorder_vector('a', 'b', 'c', &vec!['Y', 'Z', 'X']),
        Ok(Euler { x: 'c', y: 'a', z: 'b' })
    );
}

#[test]
fn identities_are_zero() {
    let n: Number = Number::identity();
    assert_eq!(n.as_str(), "0");
    let p: Position<Number> = Position::identity();
    assert_eq!((p.x.as_str(), p.y.as_str(), p.z.as_str()), ("0", "0", "0"));
    let e: Euler<Number> = Euler::identity();
    assert_eq!((e.x.as_str(), e.y.as_str(), e.z.as_str()), ("0", "0", "0"));
}

fn family() -> BvhMetadata {
    // 0 is the parent of 1 and 3; 1 is the parent of 2.
    let mut bvh = skeleton(&[0, 1, 2, 1]);
    bvh.joints[3].parent_index = 0;
    bvh.joints[0].children = vec![1, 3];
    bvh.joints[1].children = vec![2];
    bvh
}

#[test]
fn well_formed_skeletons_are_told_apart() {
    assert!(skeleton(&[]).is_well_formed());
    assert!(skeleton(&[0]).is_well_formed());
    assert!(family().is_well_formed());
    for i in 0..4 {
        assert!(family().joint_is_well_formed(i));
    }
    let broken: Vec<fn(&mut BvhMetadata)> = vec![
        |b| b.joints[2].index = 3,
        |b| b.joints[0].parent_index = 0,
        |b| b.joints[1].parent_index = -1,
        |b| b.joints[1].parent_index = -2,
        |b| b.joints[1].parent_index = 1,
        |b| b.joints[2].parent_index = 3,
        |b| b.joints[2].depth = 3,
        |b| b.joints[0].depth = 1,
        |b| b.joints[3].depth = 0,
        |b| b.joints[2].is_leaf = true,
        |b| b.joints[0].children = vec![1],
        |b| b.joints[0].children = vec![1, 2, 3],
        |b| b.joints[2].children = vec![3],
        |b| b.joints[1].children = vec![2, 4],
        |b| b.joints[1].children = vec![2, 1],
    ];
    for (k, change) in broken.iter().enumerate() {
        let mut bvh = family();
        change(&mut bvh);
        assert!(!bvh.is_well_formed(), "{}", k);
    }
    let mut bvh = family();
    bvh.joints[2].endsite = Some(bvh_anim_parser::types::Endsite {
        offset: Position::identity(),
    });
    assert!(!bvh.is_well_formed());
    bvh.joints[2].is_leaf = true;
    assert!(bvh.is_well_formed());
    // An end site beside a child does not make a leaf.
    bvh.joints[1].endsite = Some(bvh_anim_parser::types::Endsite {
        offset: Position::identity(),
    });
    assert!(bvh.is_well_formed());
    bvh.joints[1].is_leaf = true;
    assert!(!bvh.is_well_formed());
}
