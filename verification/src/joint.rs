//! Joint axes and which coordinate of a body's pose a joint reads.

use vstd::prelude::*;

verus! {

/// An axis along or around which a joint moves.
#[derive(Debug, Clone, Copy, PartialEq, Eq, Hash, Structural)]
pub enum KeskoAxis {
    X,
    NegX,
    Y,
    NegY,
    Z,
    NegZ,
    AngX,
    AngY,
    AngZ,
}

/// A coordinate of a vector or of a set of Euler angles.
#[derive(Debug, Clone, Copy, PartialEq, Eq, Hash, Structural)]
pub enum Component {
    X,
    Y,
    Z,
}

/// The kinds of joints.
#[derive(Debug, Clone, Copy, PartialEq, Eq, Hash, Structural)]
pub enum JointType {
    Fixed,
    Revolute,
    Prismatic,
    Spherical,
}

/// The coordinate of a translation that gives a prismatic joint's position,
/// and whether it is negated; angular axes give none.
pub open spec fn prismatic_reading_spec(axis: KeskoAxis) -> Option<(Component, bool)> {
    match axis {
        KeskoAxis::X => Some((Component::X, false)),
        KeskoAxis::NegX => Some((Component::X, true)),
        KeskoAxis::Y => Some((Component::Y, false)),
        KeskoAxis::NegY => Some((Component::Y, true)),
        KeskoAxis::Z => Some((Component::Z, false)),
        KeskoAxis::NegZ => Some((Component::Z, true)),
        _ => None,
    }
}

/// Which coordinate of the translation of its link a prismatic joint reads
/// its position from, and whether it negates it; `None` for an angular axis,
/// which a prismatic joint cannot have.
pub fn prismatic_reading(axis: KeskoAxis) -> (r: Option<(Component, bool)>)
    ensures
        r == prismatic_reading_spec(axis),
{
    match axis {
        KeskoAxis::X => Some((Component::X, false)),
        KeskoAxis::NegX => Some((Component::X, true)),
        KeskoAxis::Y => Some((Component::Y, false)),
        KeskoAxis::NegY => Some((Component::Y, true)),
        KeskoAxis::Z => Some((Component::Z, false)),
        KeskoAxis::NegZ => Some((Component::Z, true)),
        _ => None,
    }
}

/// The Euler angle (in XYZ order) that gives a revolute joint's rotation.
pub open spec fn revolute_reading_spec(axis: KeskoAxis) -> Option<Component> {
    match axis {
        KeskoAxis::X | KeskoAxis::NegX => Some(Component::X),
        KeskoAxis::Y | KeskoAxis::NegY => Some(Component::Y),
        KeskoAxis::Z | KeskoAxis::NegZ => Some(Component::Z),
        _ => None,
    }
}

/// Which Euler angle (XYZ order) of its link's local rotation a revolute
/// joint reads its rotation from; an angular axis leaves it unchanged.
pub fn revolute_reading(axis: KeskoAxis) -> (r: Option<Component>)
    ensures
        r == revolute_reading_spec(axis),
{
    match axis {
        KeskoAxis::X | KeskoAxis::NegX => Some(Component::X),
        KeskoAxis::Y | KeskoAxis::NegY => Some(Component::Y),
        KeskoAxis::Z | KeskoAxis::NegZ => Some(Component::Z),
        _ => None,
    }
}

/// The column of the joint table of the multibody window in which a joint's
/// current value is shown: only the positive linear axes have one.
pub fn display_column(axis: KeskoAxis) -> (r: Option<Component>)
    ensures
        r == (match axis {
            KeskoAxis::X => Some(Component::X),
            KeskoAxis::Y => Some(Component::Y),
            KeskoAxis::Z => Some(Component::Z),
            _ => None,
        }),
{
    match axis {
        KeskoAxis::X => Some(Component::X),
        KeskoAxis::Y => Some(Component::Y),
        KeskoAxis::Z => Some(Component::Z),
        _ => None,
    }
}

/// The kind under which a link's joint is listed in the multibody window: a
/// revolute joint first, else a prismatic one, else a spherical one; a link
/// with none of them is not listed.
pub fn listed_joint_type(revolute: bool, prismatic: bool, spherical: bool) -> (r: Option<JointType>)
    ensures
        r == (if revolute {
            Some(JointType::Revolute)
        } else if prismatic {
            Some(JointType::Prismatic)
        } else if spherical {
            Some(JointType::Spherical)
        } else {
            None
        }),
{
    if revolute {
        Some(JointType::Revolute)
    } else if prismatic {
        Some(JointType::Prismatic)
    } else if spherical {
        Some(JointType::Spherical)
    } else {
        None
    }
}

/// A joint's state in the serializable state: revolute joints report an
/// angle, prismatic joints a position; other kinds report nothing.
pub fn reported_joint_type(revolute: bool, prismatic: bool) -> (r: Option<JointType>)
    ensures
        r == (if revolute {
            Some(JointType::Revolute)
        } else if prismatic {
            Some(JointType::Prismatic)
        } else {
            None
        }),
{
    if revolute {
        Some(JointType::Revolute)
    } else if prismatic {
        Some(JointType::Prismatic)
    } else {
        None
    }
}

/// A link of a multibody as the joint table sees it: its name in the link
/// map, its entity, and which kinds of joint it holds.
pub struct LinkJoints {
    pub name: String,
    pub entity: u64,
    pub revolute: bool,
    pub prismatic: bool,
    pub spherical: bool,
}

/// The kind a link is listed under (see `listed_joint_type`).
pub open spec fn listed_kind(l: LinkJoints) -> Option<JointType> {
    if l.revolute {
        Some(JointType::Revolute)
    } else if l.prismatic {
        Some(JointType::Prismatic)
    } else if l.spherical {
        Some(JointType::Spherical)
    } else {
        None
    }
}

/// The rows of the joint table: each link that holds a revolute, prismatic
/// or spherical joint, in the order of the links, with its name, entity and
/// the kind it is listed under.
pub open spec fn joint_rows(links: Seq<LinkJoints>) -> Seq<(Seq<char>, u64, JointType)>
    decreases links.len(),
{
    if links.len() == 0 {
        Seq::empty()
    } else {
        let rest = joint_rows(links.drop_last());
        let l = links.last();
        match listed_kind(l) {
            Some(k) => rest.push((l.name@, l.entity, k)),
            None => rest,
        }
    }
}

/// The rows of the joint table of the multibody window for the links of a
/// multibody, in the order of the links.
pub fn joint_table(links: Vec<LinkJoints>) -> (r: Vec<(String, u64, JointType)>)
    ensures
        r@.map_values(|x: (String, u64, JointType)| (x.0@, x.1, x.2)) == joint_rows(links@),
{
    let ghost all = links@;
    let mut links = links;
    let mut r: Vec<(String, u64, JointType)> = Vec::new();
    let mut k: usize = 0;
    assert(all.len() == links.len());
    assert(all.take(0) == Seq::<LinkJoints>::empty());
    while links.len() > 0
        invariant
            k + links@.len() == all.len(),
            all.len() <= usize::MAX,
            links@ == all.skip(k as int),
            r@.map_values(|x: (String, u64, JointType)| (x.0@, x.1, x.2)) == joint_rows(all.take(k as int)),
        decreases links.len(),
    {
        let l = links.remove(0);
        proof {
            assert(all[k as int] == l);
            assert(all.take(k + 1).drop_last() == all.take(k as int));
            assert(all.take(k + 1).last() == all[k as int]);
        }
        let ghost before = r@;
        if let Some(kind) = listed_joint_type(l.revolute, l.prismatic, l.spherical) {
            r.push((l.name, l.entity, kind));
            assert(r@.map_values(|x: (String, u64, JointType)| (x.0@, x.1, x.2)) =~= before.map_values(
                |x: (String, u64, JointType)| (x.0@, x.1, x.2),
            ).push((all[k as int].name@, all[k as int].entity, kind)));
        }
        k = k + 1;
        assert(links@ == all.skip(k as int));
    }
    assert(all.take(k as int) == all);
    r
}

} // verus!
