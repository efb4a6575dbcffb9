//! The order of the rotation channels, and how three angles given in that
//! order are assigned to the axes.

use crate::error::BvhError;
use crate::text::chars_of;
use crate::types::Euler;
use vstd::prelude::*;

verus! {

pub open spec fn is_axis(c: char) -> bool {
    c == 'X' || c == 'Y' || c == 'Z'
}

/// A rotation order names each of the three axes once.
pub open spec fn is_rotation_order(order: Seq<char>) -> bool {
    &&& order.len() == 3
    &&& is_axis(order[0]) && is_axis(order[1]) && is_axis(order[2])
    &&& order[0] != order[1] && order[1] != order[2] && order[0] != order[2]
}

/// The place of `axis` in `order`.
pub open spec fn place_of(order: Seq<char>, axis: char) -> int {
    if order[0] == axis {
        0
    } else if order[1] == axis {
        1
    } else {
        2
    }
}

/// The value at place `i` of three.
pub open spec fn pick<S>(e1: S, e2: S, e3: S, i: int) -> S {
    if i == 0 {
        e1
    } else if i == 1 {
        e2
    } else {
        e3
    }
}

/// Three angles given in the order of the channels, by axis: each axis gets
/// the angle that stands at its place in `order`.
pub open spec fn reorder<S>(e1: S, e2: S, e3: S, order: Seq<char>) -> Euler<S> {
    Euler {
        x: pick(e1, e2, e3, place_of(order, 'X')),
        y: pick(e1, e2, e3, place_of(order, 'Y')),
        z: pick(e1, e2, e3, place_of(order, 'Z')),
    }
}

/// Assigns three angles, given in the order of the channels, to the axes.
pub fn reorder_vector<S>(e1: S, e2: S, e3: S, order: &Vec<char>) -> (r: Result<Euler<S>, BvhError>)
    ensures
        is_rotation_order(order@) ==> r == Ok::<Euler<S>, BvhError>(reorder(e1, e2, e3, order@)),
        !is_rotation_order(order@) ==> r == Err::<Euler<S>, BvhError>(
            BvhError::InvalidRotationOrder,
        ),
{
    if order.len() != 3 {
        return Err(BvhError::InvalidRotationOrder);
    }
    let a = order[0];
    let b = order[1];
    let c = order[2];
    if a == 'X' && b == 'Y' && c == 'Z' {
        Ok(Euler { x: e1, y: e2, z: e3 })
    } else if a == 'X' && b == 'Z' && c == 'Y' {
        Ok(Euler { x: e1, y: e3, z: e2 })
    } else if a == 'Y' && b == 'X' && c == 'Z' {
        Ok(Euler { x: e2, y: e1, z: e3 })
    } else if a == 'Y' && b == 'Z' && c == 'X' {
        Ok(Euler { x: e3, y: e1, z: e2 })
    } else if a == 'Z' && b == 'X' && c == 'Y' {
        Ok(Euler { x: e2, y: e3, z: e1 })
    } else if a == 'Z' && b == 'Y' && c == 'X' {
        Ok(Euler { x: e3, y: e2, z: e1 })
    } else {
        Err(BvhError::InvalidRotationOrder)
    }
}

/// Whether `order` names each of the three axes once.
pub fn check_rotation_order(order: &Vec<char>) -> (r: bool)
    ensures
        r == is_rotation_order(order@),
{
    if order.len() != 3 {
        return false;
    }
    let a = order[0];
    let b = order[1];
    let c = order[2];
    (a == 'X' || a == 'Y' || a == 'Z') && (b == 'X' || b == 'Y' || b == 'Z') && (c == 'X' || c
        == 'Y' || c == 'Z') && a != b && b != c && a != c
}

impl<S> Euler<S> {
    /// Three angles, given in the order of the channels, by axis. The
    /// order tag is one of `XYZ`, `XZY`, `YXZ`, `YZX`, `ZXY` and `ZYX`.
    pub fn new(x: S, y: S, z: S, order: &str) -> (r: Result<Euler<S>, BvhError>)
        ensures
            is_rotation_order(order@) ==> r == Ok::<Euler<S>, BvhError>(reorder(x, y, z, order@)),
            !is_rotation_order(order@) ==> r == Err::<Euler<S>, BvhError>(
                BvhError::InvalidRotationOrder,
            ),
    {
        let order = chars_of(order);
        reorder_vector(x, y, z, &order)
    }
}

/// Each angle goes to the axis that its place in the order names.
pub proof fn lemma_reorder_by_name<S>(e1: S, e2: S, e3: S, order: Seq<char>)
    requires
        is_rotation_order(order),
    ensures
        axis_of(reorder(e1, e2, e3, order), order[0]) == e1,
        axis_of(reorder(e1, e2, e3, order), order[1]) == e2,
        axis_of(reorder(e1, e2, e3, order), order[2]) == e3,
{
}

/// The angle about `axis`.
pub open spec fn axis_of<S>(e: Euler<S>, axis: char) -> S {
    if axis == 'X' {
        e.x
    } else if axis == 'Y' {
        e.y
    } else {
        e.z
    }
}

/// Whether `r` is the rotation that the angles `e` make with channels in
/// `order`: the turn about the first axis of the order, times the turn
/// about the second, times the turn about the third. `turn` makes the
/// rotation about an axis by an angle; `times` makes of two rotations the
/// one in which the second is applied in the frame that the first has
/// turned.
pub open spec fn is_rotation_of<S, Q, T: Fn(char, &S) -> Q, M: Fn(Q, Q) -> Q>(
    e: Euler<S>,
    order: Seq<char>,
    turn: T,
    times: M,
    r: Q,
) -> bool {
    exists|q1: Q, q2: Q, q3: Q, q12: Q|
        #![trigger call_ensures(times, (q1, q2), q12), call_ensures(times, (q12, q3), r)]
        {
            &&& call_ensures(turn, (order[0], &axis_of(e, order[0])), q1)
            &&& call_ensures(turn, (order[1], &axis_of(e, order[1])), q2)
            &&& call_ensures(turn, (order[2], &axis_of(e, order[2])), q3)
            &&& call_ensures(times, (q1, q2), q12)
            &&& call_ensures(times, (q12, q3), r)
        }
}

/// The rotation that the angles `e` make with channels in `order`.
pub fn from_euler_to_quat<S, Q, T: Fn(char, &S) -> Q, M: Fn(Q, Q) -> Q>(
    e: &Euler<S>,
    order: &Vec<char>,
    turn: &T,
    times: &M,
) -> (r: Result<Q, BvhError>)
    requires
        forall|c: char, s: &S| call_requires(*turn, (c, s)),
        forall|a: Q, b: Q| call_requires(*times, (a, b)),
    ensures
        match r {
            Ok(q) => is_rotation_order(order@) && is_rotation_of(*e, order@, *turn, *times, q),
            Err(error) => !is_rotation_order(order@) && error == BvhError::InvalidRotationOrder,
        },
{
    if !check_rotation_order(order) {
        return Err(BvhError::InvalidRotationOrder);
    }
    let q1 = turn(order[0], e.angle(order[0]));
    let q2 = turn(order[1], e.angle(order[1]));
    let q3 = turn(order[2], e.angle(order[2]));
    let q12 = times(q1, q2);
    let q = times(q12, q3);
    Ok(q)
}

impl<S> Euler<S> {
    /// The angle about `axis`.
    pub fn angle(&self, axis: char) -> (r: &S)
        ensures
            *r == axis_of(*self, axis),
    {
        if axis == 'X' {
            &self.x
        } else if axis == 'Y' {
            &self.y
        } else {
            &self.z
        }
    }

    /// The rotation that these angles make with channels in `order`, one
    /// of `XYZ`, `XZY`, `YXZ`, `YZX`, `ZXY` and `ZYX`.
    pub fn to_quat<Q, T: Fn(char, &S) -> Q, M: Fn(Q, Q) -> Q>(
        &self,
        order: &str,
        turn: &T,
        times: &M,
    ) -> (r: Result<Q, BvhError>)
        requires
            forall|c: char, s: &S| call_requires(*turn, (c, s)),
            forall|a: Q, b: Q| call_requires(*times, (a, b)),
        ensures
            match r {
                Ok(q) => is_rotation_order(order@) && is_rotation_of(
                    *self,
                    order@,
                    *turn,
                    *times,
                    q,
                ),
                Err(error) => !is_rotation_order(order@) && error
                    == BvhError::InvalidRotationOrder,
            },
    {
        let order = chars_of(order);
        from_euler_to_quat(self, &order, turn, times)
    }
}

/// Angles of zero turn nothing. Where the turn by `zero` about any axis is
/// `one`, and `one` times `one` is `one`, three angles of zero make `one`,
/// whatever the order.
pub proof fn lemma_zero_angles_turn_nothing<S, Q, T: Fn(char, &S) -> Q, M: Fn(Q, Q) -> Q>(
    zero: S,
    one: Q,
    order: Seq<char>,
    turn: T,
    times: M,
    r: Q,
)
    requires
        forall|c: char, q: Q| call_ensures(turn, (c, &zero), q) ==> q == one,
        forall|q: Q| call_ensures(times, (one, one), q) ==> q == one,
        is_rotation_of((Euler { x: zero, y: zero, z: zero }), order, turn, times, r),
    ensures
        r == one,
{
}

/// A single angle turns about its own axis. Where the turn by `zero` about
/// any axis is `one`, and `one` times a rotation and a rotation times `one`
/// are that rotation, angles of which all but the one about `axis` are
/// `zero` make the turn about `axis` by that angle, wherever `axis` stands
/// in the order.
pub proof fn lemma_single_angle_turns_about_its_axis<S, Q, T: Fn(char, &S) -> Q, M: Fn(
    Q,
    Q,
) -> Q>(e: Euler<S>, axis: char, zero: S, one: Q, order: Seq<char>, turn: T, times: M, r: Q)
    requires
        is_rotation_order(order),
        is_axis(axis),
        forall|c: char| is_axis(c) && c != axis ==> axis_of(e, c) == zero,
        forall|c: char, q: Q| call_ensures(turn, (c, &zero), q) ==> q == one,
        forall|a: Q, q: Q| call_ensures(times, (one, a), q) ==> q == a,
        forall|a: Q, q: Q| call_ensures(times, (a, one), q) ==> q == a,
        is_rotation_of(e, order, turn, times, r),
    ensures
        call_ensures(turn, (axis, &axis_of(e, axis)), r),
{
}

} // verus!
