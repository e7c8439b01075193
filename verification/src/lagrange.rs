//! The Lagrange points of the Earth-Moon system.

use vstd::prelude::*;

verus! {

/// One of the five Lagrange points.
#[derive(Clone, Copy, PartialEq, Eq, Structural, Debug)]
pub enum LagrangeId {
    L1,
    L2,
    L3,
    L4,
    L5,
}

/// How a Lagrange point is found from the position of the Moon.
#[derive(Clone, Copy, PartialEq, Eq, Structural, Debug)]
pub enum Placement {
    /// On the line from Earth to the Moon, short of the Moon.
    BeforeMoon,
    /// On the line from Earth to the Moon, beyond the Moon.
    BeyondMoon,
    /// On that line, on the far side of Earth.
    OppositeMoon,
    /// As far as the Moon, ahead of it in its orbit by so many degrees.
    Ahead(u32),
    /// As far as the Moon, behind it in its orbit by so many degrees.
    Behind(u32),
}

impl LagrangeId {
    /// The name of the point.
    pub open spec fn name(self) -> Seq<char> {
        match self {
            LagrangeId::L1 => "EML1"@,
            LagrangeId::L2 => "EML2"@,
            LagrangeId::L3 => "EML3"@,
            LagrangeId::L4 => "EML4"@,
            LagrangeId::L5 => "EML5"@,
        }
    }

    /// The name of the point.
    pub fn label(&self) -> (r: &'static str)
        ensures
            r@ == self.name(),
    {
        match self {
            LagrangeId::L1 => "EML1",
            LagrangeId::L2 => "EML2",
            LagrangeId::L3 => "EML3",
            LagrangeId::L4 => "EML4",
            LagrangeId::L5 => "EML5",
        }
    }

    /// All points, in order.
    pub open spec fn every() -> Seq<LagrangeId> {
        seq![LagrangeId::L1, LagrangeId::L2, LagrangeId::L3, LagrangeId::L4, LagrangeId::L5]
    }

    /// All points, in order.
    pub fn all() -> (r: [LagrangeId; 5])
        ensures
            r@ == LagrangeId::every(),
    {
        [LagrangeId::L1, LagrangeId::L2, LagrangeId::L3, LagrangeId::L4, LagrangeId::L5]
    }

    /// How the point is found from the position of the Moon.
    pub fn placement(&self) -> (r: Placement)
        ensures
            r == (match *self {
                LagrangeId::L1 => Placement::BeforeMoon,
                LagrangeId::L2 => Placement::BeyondMoon,
                LagrangeId::L3 => Placement::OppositeMoon,
                LagrangeId::L4 => Placement::Ahead(60),
                LagrangeId::L5 => Placement::Behind(60),
            }),
    {
        match self {
            LagrangeId::L1 => Placement::BeforeMoon,
            LagrangeId::L2 => Placement::BeyondMoon,
            LagrangeId::L3 => Placement::OppositeMoon,
            LagrangeId::L4 => Placement::Ahead(60),
            LagrangeId::L5 => Placement::Behind(60),
        }
    }
}

/// The list of all points names each of them, once, and no two share a name.
pub proof fn lemma_every_point_once(id: LagrangeId)
    ensures
        exists|i: int| 0 <= i < 5 && #[trigger] LagrangeId::every()[i] == id,
        forall|i: int, j: int|
            0 <= i < j < 5 ==> #[trigger] LagrangeId::every()[i].name()
                != #[trigger] LagrangeId::every()[j].name(),
{
    let every = LagrangeId::every();
    match id {
        LagrangeId::L1 => assert(every[0] == id),
        LagrangeId::L2 => assert(every[1] == id),
        LagrangeId::L3 => assert(every[2] == id),
        LagrangeId::L4 => assert(every[3] == id),
        LagrangeId::L5 => assert(every[4] == id),
    }
    reveal_strlit("EML1");
    reveal_strlit("EML2");
    reveal_strlit("EML3");
    reveal_strlit("EML4");
    reveal_strlit("EML5");
    assert forall|i: int, j: int| 0 <= i < j < 5 implies #[trigger] every[i].name()
        != #[trigger] every[j].name() by {
        assert(every[i].name()[3] != every[j].name()[3]);
    }
}

/// A point is named by its number, and stands in the list at the place of it.
pub proof fn lemma_points_are_named_by_number(place: int)
    requires
        0 <= place < 5,
    ensures
        LagrangeId::every().len() == 5,
        LagrangeId::every()[place].name() == seq!['E', 'M', 'L', ('1' as int + place) as char],
        LagrangeId::every()[0] is L1 && LagrangeId::every()[1] is L2 && LagrangeId::every()[2] is L3
            && LagrangeId::every()[3] is L4 && LagrangeId::every()[4] is L5,
{
    reveal_strlit("EML1");
    reveal_strlit("EML2");
    reveal_strlit("EML3");
    reveal_strlit("EML4");
    reveal_strlit("EML5");
    assert("EML1"@ =~= seq!['E', 'M', 'L', '1']);
    assert("EML2"@ =~= seq!['E', 'M', 'L', '2']);
    assert("EML3"@ =~= seq!['E', 'M', 'L', '3']);
    assert("EML4"@ =~= seq!['E', 'M', 'L', '4']);
    assert("EML5"@ =~= seq!['E', 'M', 'L', '5']);
}

} // verus!
