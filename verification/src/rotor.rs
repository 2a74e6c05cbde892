//! The arm's five joints and how they hang together.
use vstd::prelude::*;

verus! {

/// The joints of the arm, from the base to the tool: shoulder about y,
/// shoulder about z, elbow about z, wrist about z, wrist about y. The
/// variants are declared in that order, which is also their order as values.
#[derive(PartialEq, Eq, Structural, Clone, Copy, Debug, PartialOrd, Ord, Hash)]
pub enum Rotor {
    Sy,
    Sz,
    Ez,
    Wz,
    Wy,
}

/// The axis, in the parent joint's frame, about which a joint turns.
#[derive(PartialEq, Eq, Structural, Clone, Copy, Debug)]
pub enum Axis {
    Y,
    Z,
}

/// The number of joints.
pub const ROTOR_COUNT: usize = 5;

impl Rotor {
    /// Position of the joint along the arm, from the base: 0 to 4.
    pub open spec fn rank(self) -> int {
        match self {
            Rotor::Sy => 0,
            Rotor::Sz => 1,
            Rotor::Ez => 2,
            Rotor::Wz => 3,
            Rotor::Wy => 4,
        }
    }

    /// The joint at a position along the arm.
    pub open spec fn at_rank(k: int) -> Rotor
        recommends
            0 <= k < 5,
    {
        if k == 0 {
            Rotor::Sy
        } else if k == 1 {
            Rotor::Sz
        } else if k == 2 {
            Rotor::Ez
        } else if k == 3 {
            Rotor::Wz
        } else {
            Rotor::Wy
        }
    }

    pub open spec fn spec_axis(self) -> Axis {
        match self {
            Rotor::Sy | Rotor::Wy => Axis::Y,
            _ => Axis::Z,
        }
    }

    /// Position of the joint along the arm, from the base.
    pub fn index(&self) -> (i: usize)
        ensures
            i == self.rank(),
            i < ROTOR_COUNT,
    {
        match self {
            Rotor::Sy => 0,
            Rotor::Sz => 1,
            Rotor::Ez => 2,
            Rotor::Wz => 3,
            Rotor::Wy => 4,
        }
    }

    /// All joints, from the base to the tool.
    pub fn all() -> (v: Vec<Rotor>)
        ensures
            v.len() == ROTOR_COUNT,
            forall|k: int| 0 <= k < ROTOR_COUNT ==> (#[trigger] v[k]).rank() == k,
    {
        vec![Rotor::Sy, Rotor::Sz, Rotor::Ez, Rotor::Wz, Rotor::Wy]
    }

    /// The axis about which the joint turns: y for the two `..y` joints, z
    /// for the others.
    pub fn axis(&self) -> (a: Axis)
        ensures
            a == self.spec_axis(),
    {
        match self {
            Rotor::Sy | Rotor::Wy => Axis::Y,
            _ => Axis::Z,
        }
    }

    /// The joint carried by this one, the next towards the tool; the last
    /// wrist joint carries none.
    pub fn child(&self) -> (c: Option<Rotor>)
        ensures
            self.rank() < 4 ==> c == Some(Rotor::at_rank(self.rank() + 1)),
            self.rank() == 4 ==> c is None,
    {
        match self {
            Rotor::Sy => Some(Rotor::Sz),
            Rotor::Sz => Some(Rotor::Ez),
            Rotor::Ez => Some(Rotor::Wz),
            Rotor::Wz => Some(Rotor::Wy),
            Rotor::Wy => None,
        }
    }

    /// The model file of the arm link that the joint turns.
    pub fn mesh_file(&self) -> (f: &'static str)
        ensures
            *self == Rotor::Sy ==> f@ == "link1g.obj"@,
            *self == Rotor::Sz ==> f@ == "link2g2 (2).obj"@,
            *self == Rotor::Ez ==> f@ == "link3g.obj"@,
            *self == Rotor::Wz ==> f@ == "link4g.obj"@,
            *self == Rotor::Wy ==> f@ == "link5g.obj"@,
    {
        match self {
            Rotor::Sy => "link1g.obj",
            Rotor::Sz => "link2g2 (2).obj",
            Rotor::Ez => "link3g.obj",
            Rotor::Wz => "link4g.obj",
            Rotor::Wy => "link5g.obj",
        }
    }
}

/// The joints are numbered from the base to the tool in their declared
/// order, each position holds exactly one joint, and the two `..y` joints
/// turn about y while the others turn about z.
pub proof fn lemma_joint_order(r: Rotor)
    ensures
        Rotor::Sy.rank() < Rotor::Sz.rank() < Rotor::Ez.rank() < Rotor::Wz.rank() < Rotor::Wy.rank(),
        Rotor::Sy.rank() == 0 && Rotor::Wy.rank() == 4,
        0 <= r.rank() < 5,
        Rotor::at_rank(r.rank()) == r,
        Rotor::Sy.spec_axis() == Axis::Y && Rotor::Wy.spec_axis() == Axis::Y,
        Rotor::Sz.spec_axis() == Axis::Z && Rotor::Ez.spec_axis() == Axis::Z
            && Rotor::Wz.spec_axis() == Axis::Z,
{
}

} // verus!
