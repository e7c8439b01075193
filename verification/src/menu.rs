//! The menu of bodies that can be added.

use crate::lagrange::LagrangeId;
use crate::orbit::{orbit_label, preset_label};
use vstd::prelude::*;
use vstd::string::StringExecFns;

verus! {

/// An entry of the menu.
#[derive(Clone, Copy, PartialEq, Eq, Structural, Debug)]
pub enum AddBodyEntry {
    /// A body on one of the orbits by name.
    Orbit(usize),
    /// Six bodies at a Lagrange point, pushed along the axes.
    LagrangeGrid(LagrangeId),
    /// Bodies at a Lagrange point, pushed all around.
    LagrangeFan(LagrangeId),
    /// Bodies launched all around from a point of the Moon.
    LunarFan,
}

/// How many entries the menu has.
pub const ENTRY_COUNT: usize = 17;

/// The entry at a place on the menu: six orbits, then a grid and a fan for each
/// Lagrange point, then the fan from the Moon.
pub open spec fn entry_at(place: int) -> AddBodyEntry {
    if place < 6 {
        AddBodyEntry::Orbit(place as usize)
    } else if place < 16 {
        let id = LagrangeId::every()[(place - 6) / 2];
        if place % 2 == 0 {
            AddBodyEntry::LagrangeGrid(id)
        } else {
            AddBodyEntry::LagrangeFan(id)
        }
    } else {
        AddBodyEntry::LunarFan
    }
}

impl AddBodyEntry {
    /// The name of the entry.
    pub open spec fn name(self) -> Seq<char> {
        match self {
            AddBodyEntry::Orbit(i) => preset_label(i as int),
            AddBodyEntry::LagrangeGrid(id) => id.name() + " Grid"@,
            AddBodyEntry::LagrangeFan(id) => id.name() + " Fan"@,
            AddBodyEntry::LunarFan => "Lunar Surface Fan"@,
        }
    }

    /// The name of the entry.
    pub fn label(&self) -> (r: String)
        ensures
            r@ == self.name(),
    {
        match self {
            AddBodyEntry::Orbit(i) => String::from_str(orbit_label(*i)),
            AddBodyEntry::LagrangeGrid(id) => {
                let mut out: String = String::from_str(id.label());
                out.append(" Grid");
                out
            },
            AddBodyEntry::LagrangeFan(id) => {
                let mut out: String = String::from_str(id.label());
                out.append(" Fan");
                out
            },
            AddBodyEntry::LunarFan => String::from_str("Lunar Surface Fan"),
        }
    }

    /// Whether the number of bodies and their speed can be chosen.
    pub fn has_fan_config(&self) -> (r: bool)
        ensures
            r == (self is LagrangeFan || self is LunarFan),
    {
        match self {
            AddBodyEntry::LagrangeFan(_) => true,
            AddBodyEntry::LunarFan => true,
            _ => false,
        }
    }

    /// Whether the point of the Moon can be chosen.
    pub fn has_lunar_config(&self) -> (r: bool)
        ensures
            r == (self is LunarFan),
    {
        match self {
            AddBodyEntry::LunarFan => true,
            _ => false,
        }
    }

    /// The speed, in metres per second, that is taken unless told otherwise.
    pub fn default_speed_m_s(&self) -> (r: u32)
        ensures
            r == (match *self {
                AddBodyEntry::LagrangeFan(_) => 100int,
                AddBodyEntry::LunarFan => 2335,
                _ => 0,
            }),
    {
        match self {
            AddBodyEntry::LagrangeFan(_) => 100,
            AddBodyEntry::LunarFan => 2335,
            _ => 0,
        }
    }

    /// The entry at a place on the menu.
    pub fn at(place: usize) -> (r: AddBodyEntry)
        requires
            place < ENTRY_COUNT,
        ensures
            r == entry_at(place as int),
    {
        if place < 6 {
            AddBodyEntry::Orbit(place)
        } else if place < 16 {
            let points: [LagrangeId; 5] = LagrangeId::all();
            let id: LagrangeId = points[(place - 6) / 2];
            if place % 2 == 0 {
                AddBodyEntry::LagrangeGrid(id)
            } else {
                AddBodyEntry::LagrangeFan(id)
            }
        } else {
            AddBodyEntry::LunarFan
        }
    }

    /// All entries, in the order of the menu.
    pub fn all() -> (r: Vec<AddBodyEntry>)
        ensures
            r@.len() == ENTRY_COUNT,
            forall|i: int| 0 <= i < ENTRY_COUNT ==> #[trigger] r@[i] == entry_at(i),
    {
        let mut out: Vec<AddBodyEntry> = Vec::new();
        let mut i: usize = 0;
        while i < ENTRY_COUNT
            invariant
                i <= ENTRY_COUNT,
                out@.len() == i,
                forall|k: int| 0 <= k < i ==> #[trigger] out@[k] == entry_at(k),
            decreases ENTRY_COUNT - i,
        {
            out.push(AddBodyEntry::at(i));
            i = i + 1;
        }
        out
    }
}

/// Each place on the menu has an entry of its own, and none is an orbit that is
/// not there.
pub proof fn lemma_entries_differ(i: int, j: int)
    requires
        0 <= i < j < ENTRY_COUNT,
    ensures
        entry_at(i) != entry_at(j),
        entry_at(i) matches AddBodyEntry::Orbit(k) ==> k < crate::orbit::PRESET_COUNT,
{
    let points = LagrangeId::every();
    if 6 <= i && j < 16 && i % 2 == j % 2 {
        let a = (i - 6) / 2;
        let b = (j - 6) / 2;
        assert(0 <= a < b < 5);
        assert(points[a] != points[b]);
    }
}

/// What is chosen on the menu.
#[derive(Clone, Copy, PartialEq, Eq, Structural, Debug)]
pub struct AddBodyMenuState {
    pub selected: usize,
    pub fan_count: u32,
    /// Speed of the bodies, in metres per second, before it is edited.
    pub fan_speed_m_s: u32,
    /// The point of the Moon, in degrees, before it is edited.
    pub lunar_az_deg: u32,
    pub lunar_el_deg: u32,
}

impl Default for AddBodyMenuState {
    /// The first orbit; for the fan from the Moon 36 bodies at 2335 m/s.
    fn default() -> (r: AddBodyMenuState)
        ensures
            r == (AddBodyMenuState {
                selected: 0,
                fan_count: 36,
                fan_speed_m_s: 2335,
                lunar_az_deg: 150,
                lunar_el_deg: 0,
            }),
    {
        AddBodyMenuState {
            selected: 0,
            fan_count: 36,
            fan_speed_m_s: 2335,
            lunar_az_deg: 150,
            lunar_el_deg: 0,
        }
    }
}

impl AddBodyMenuState {
    /// Selects an entry, which brings its speed along.
    pub fn select(&mut self, place: usize)
        requires
            place < ENTRY_COUNT,
        ensures
            *final(self) == (AddBodyMenuState {
                selected: place,
                fan_speed_m_s: final(self).fan_speed_m_s,
                ..*old(self)
            }),
            final(self).fan_speed_m_s == (match entry_at(place as int) {
                AddBodyEntry::LagrangeFan(_) => 100int,
                AddBodyEntry::LunarFan => 2335,
                _ => 0,
            }),
    {
        self.selected = place;
        self.fan_speed_m_s = AddBodyEntry::at(place).default_speed_m_s();
    }

    /// The entry that is selected; beyond the end it is the last one.
    pub fn entry(&self) -> (r: AddBodyEntry)
        ensures
            r == (if self.selected < ENTRY_COUNT {
                entry_at(self.selected as int)
            } else {
                AddBodyEntry::LunarFan
            }),
    {
        if self.selected < ENTRY_COUNT {
            AddBodyEntry::at(self.selected)
        } else {
            AddBodyEntry::at(ENTRY_COUNT - 1)
        }
    }
}

/// One of the three axes at a Lagrange point.
#[derive(Clone, Copy, PartialEq, Eq, Structural, Debug)]
pub enum Axis {
    X,
    Y,
    Z,
}

/// A push along an axis, with the name of the body that gets it.
pub struct Push {
    pub name: String,
    pub axis: Axis,
    pub positive: bool,
}

/// The name of a direction along an axis.
pub open spec fn direction_name(axis: Axis, positive: bool) -> Seq<char> {
    match axis {
        Axis::X => if positive {
            "+X"@
        } else {
            "-X"@
        },
        Axis::Y => if positive {
            "+Y"@
        } else {
            "-Y"@
        },
        Axis::Z => if positive {
            "+Z"@
        } else {
            "-Z"@
        },
    }
}

/// The axis of one of the six pushes of a grid.
pub open spec fn push_axis(place: int) -> Axis {
    if place < 2 {
        Axis::X
    } else if place < 4 {
        Axis::Y
    } else {
        Axis::Z
    }
}

/// The six pushes of a grid at a Lagrange point: forward and back along each axis.
pub fn grid_pushes(id: LagrangeId) -> (r: Vec<Push>)
    ensures
        r@.len() == 6,
        forall|i: int|
            0 <= i < 6 ==> (#[trigger] r@[i]).axis == push_axis(i) && r@[i].positive == (i % 2
                == 0) && r@[i].name@ == id.name() + " "@ + direction_name(
                push_axis(i),
                i % 2 == 0,
            ),
{
    let mut out: Vec<Push> = Vec::new();
    let mut i: usize = 0;
    while i < 6
        invariant
            i <= 6,
            out@.len() == i,
            forall|k: int|
                0 <= k < i ==> (#[trigger] out@[k]).axis == push_axis(k) && out@[k].positive == (k
                    % 2 == 0) && out@[k].name@ == id.name() + " "@ + direction_name(
                    push_axis(k),
                    k % 2 == 0,
                ),
        decreases 6 - i,
    {
        let positive: bool = i % 2 == 0;
        let axis: Axis = if i < 2 {
            Axis::X
        } else if i < 4 {
            Axis::Y
        } else {
            Axis::Z
        };
        let direction: &'static str = match axis {
            Axis::X => if positive {
                "+X"
            } else {
                "-X"
            },
            Axis::Y => if positive {
                "+Y"
            } else {
                "-Y"
            },
            Axis::Z => if positive {
                "+Z"
            } else {
                "-Z"
            },
        };
        let mut name: String = String::from_str(id.label());
        name.append(" ");
        name.append(direction);
        out.push(Push { name, axis, positive });
        i = i + 1;
    }
    out
}

/// The menu has the six orbits first. Then each Lagrange point has two entries, its
/// grid and behind it its fan, the points in the order of their numbers. The fan
/// from the Moon comes last.
pub proof fn lemma_entries_by_place(orbit: int, point: int)
    requires
        0 <= orbit < 6,
        0 <= point < 5,
    ensures
        entry_at(orbit) == AddBodyEntry::Orbit(orbit as usize),
        ({
            let id = if point == 0 {
                LagrangeId::L1
            } else if point == 1 {
                LagrangeId::L2
            } else if point == 2 {
                LagrangeId::L3
            } else if point == 3 {
                LagrangeId::L4
            } else {
                LagrangeId::L5
            };
            &&& entry_at(6 + 2 * point) == AddBodyEntry::LagrangeGrid(id)
            &&& entry_at(7 + 2 * point) == AddBodyEntry::LagrangeFan(id)
        }),
        entry_at(16) == AddBodyEntry::LunarFan,
{
    assert((6 + 2 * point - 6) / 2 == point);
    assert((7 + 2 * point - 6) / 2 == point);
}

/// An entry at a Lagrange point is named by the point and by what it adds there, and
/// one of the orbits as the orbit is.
pub proof fn lemma_entries_are_named_by_their_point(id: LagrangeId, orbit: usize)
    ensures
        AddBodyEntry::LagrangeGrid(id).name() == id.name() + seq![' ', 'G', 'r', 'i', 'd'],
        AddBodyEntry::LagrangeFan(id).name() == id.name() + seq![' ', 'F', 'a', 'n'],
        AddBodyEntry::Orbit(orbit).name() == preset_label(orbit as int),
        AddBodyEntry::LunarFan.name() == "Lunar Surface Fan"@,
{
    reveal_strlit(" Grid");
    reveal_strlit(" Fan");
    assert(" Grid"@ =~= seq![' ', 'G', 'r', 'i', 'd']);
    assert(" Fan"@ =~= seq![' ', 'F', 'a', 'n']);
}

/// The pushes of a grid come in pairs, forward and back along one axis, and each of
/// the three axes has a pair. A direction is named by its sign and its axis.
pub proof fn lemma_pushes_come_in_pairs(pair: int, axis: Axis, positive: bool)
    requires
        0 <= pair < 3,
    ensures
        push_axis(2 * pair) == push_axis(2 * pair + 1),
        push_axis(0) is X && push_axis(2) is Y && push_axis(4) is Z,
        direction_name(axis, positive) == seq![
            if positive {
                '+'
            } else {
                '-'
            },
            match axis {
                Axis::X => 'X',
                Axis::Y => 'Y',
                Axis::Z => 'Z',
            },
        ],
{
    reveal_strlit("+X");
    reveal_strlit("-X");
    reveal_strlit("+Y");
    reveal_strlit("-Y");
    reveal_strlit("+Z");
    reveal_strlit("-Z");
    assert("+X"@ =~= seq!['+', 'X']);
    assert("-X"@ =~= seq!['-', 'X']);
    assert("+Y"@ =~= seq!['+', 'Y']);
    assert("-Y"@ =~= seq!['-', 'Y']);
    assert("+Z"@ =~= seq!['+', 'Z']);
    assert("-Z"@ =~= seq!['-', 'Z']);
}

} // verus!
