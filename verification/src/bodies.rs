//! Bodies that the user has added, and the analysis of one of them.

use crate::epoch::UtcInstant;
use crate::orbit::AnalysisRef;
use crate::scalar::Scalar;
use crate::trail::TrailPoint;
use vstd::prelude::*;

verus! {

/// How many colors bodies have.
pub const BODY_COLORS: usize = 6;

/// The color of a body.
#[derive(Clone, Copy, PartialEq, Eq, Structural, Debug)]
pub enum BodyColor {
    /// One of the colors of bodies.
    Palette(usize),
    /// One of the colors of the equator optimizer.
    Equator(usize),
    /// One of the colors of the pole optimizer.
    Pole(usize),
}

/// A body that the user has added. `C` is the craft, `S` a state of motion.
pub struct UserBody<C, S> {
    pub name: String,
    pub craft: Option<C>,
    pub trail: Vec<TrailPoint<S>>,
    pub color: BodyColor,
    /// When it was added, in seconds of running time.
    pub spawned: Scalar,
}

/// Where a propagation has brought a craft.
pub struct Moved<C, S> {
    pub craft: C,
    pub epoch: UtcInstant,
    pub state: S,
}

/// The bodies that the user has added.
pub struct UserBodies<C, S> {
    pub bodies: Vec<UserBody<C, S>>,
}

/// The trail of a body that has just been added: its state, where it is known.
pub open spec fn first_trail<S>(epoch: UtcInstant, state: Option<S>) -> Seq<TrailPoint<S>> {
    match state {
        Some(state) => seq![TrailPoint { epoch, state }],
        None => Seq::empty(),
    }
}

impl<C, S> UserBodies<C, S> {
    /// No bodies.
    pub fn new() -> (r: Self)
        ensures
            r.bodies@.len() == 0,
    {
        UserBodies { bodies: Vec::new() }
    }

    /// The color that the next body from the menu gets.
    pub fn next_color(&self) -> (r: BodyColor)
        ensures
            r == BodyColor::Palette((self.bodies@.len() % BODY_COLORS as nat) as usize),
    {
        BodyColor::Palette(self.bodies.len() % BODY_COLORS)
    }

    /// Adds a body; tells its place.
    pub fn add(
        &mut self,
        name: String,
        craft: Option<C>,
        color: BodyColor,
        epoch: UtcInstant,
        state: Option<S>,
        now: Scalar,
    ) -> (place: usize)
        ensures
            place == old(self).bodies@.len(),
            final(self).bodies@.len() == old(self).bodies@.len() + 1,
            forall|i: int|
                0 <= i < old(self).bodies@.len() ==> #[trigger] final(self).bodies@[i] == old(
                    self,
                ).bodies@[i],
            ({
                let body = final(self).bodies@.last();
                &&& body.name@ == name@
                &&& body.craft == craft
                &&& body.color == color
                &&& body.spawned == now
                &&& body.trail@ == first_trail(epoch, state)
                &&& body.trail@.len() == (if state is Some {
                    1int
                } else {
                    0
                })
                &&& state is Some ==> body.trail@[0].epoch == epoch && body.trail@[0].state
                    == state->0
            }),
    {
        let place: usize = self.bodies.len();
        let mut trail: Vec<TrailPoint<S>> = Vec::new();
        match state {
            Some(state) => {
                trail.push(TrailPoint { epoch, state });
            },
            None => {},
        }
        assert(trail@ =~= first_trail(epoch, state));
        self.bodies.push(UserBody { name, craft, trail, color, spawned: now });
        place
    }

    /// Drops the trails of all bodies, and nothing else of them.
    pub fn clear_trails(&mut self)
        ensures
            final(self).bodies@.len() == old(self).bodies@.len(),
            forall|i: int|
                0 <= i < final(self).bodies@.len() ==> (
                #[trigger] final(self).bodies@[i]).is_without_trail(old(self).bodies@[i]),
    {
        let ghost all = self.bodies@;
        let n: usize = self.bodies.len();
        let mut i: usize = 0;
        while i < n
            invariant
                i <= n,
                n == all.len(),
                self.bodies@.len() == n,
                forall|k: int| i <= k < n ==> #[trigger] self.bodies@[k] == all[k],
                forall|k: int|
                    0 <= k < i ==> (#[trigger] self.bodies@[k]).is_without_trail(all[k]),
            decreases n - i,
        {
            let body: &mut UserBody<C, S> = &mut self.bodies[i];
            body.trail.clear();
            i = i + 1;
        }
    }

    /// Whether each propagation that has been found is of a body with a craft.
    pub open spec fn can_take(self, found: Seq<Option<Moved<C, S>>>) -> bool {
        &&& found.len() == self.bodies@.len()
        &&& forall|i: int|
            0 <= i < found.len() && (#[trigger] found[i]) is Some ==> self.bodies@[i].craft is Some
    }

    /// Takes each body on to where a propagation has brought it. One whose
    /// propagation has found nothing stays as it is.
    pub fn take_on(&mut self, found: Vec<Option<Moved<C, S>>>)
        requires
            old(self).can_take(found@),
        ensures
            final(self).bodies@.len() == old(self).bodies@.len(),
            forall|i: int|
                0 <= i < final(self).bodies@.len() ==> old(self).bodies@[i].goes_on_to(
                    #[trigger] final(self).bodies@[i],
                    found@[i],
                ),
    {
        let ghost all = self.bodies@;
        let ghost moves = found@;
        let mut rest: Vec<Option<Moved<C, S>>> = found;
        while rest.len() > 0
            invariant
                rest@.len() <= all.len(),
                moves.len() == all.len(),
                self.bodies@.len() == all.len(),
                rest@ == moves.take(rest@.len() as int),
                forall|i: int|
                    0 <= i < moves.len() && (#[trigger] moves[i]) is Some ==> all[i].craft is Some,
                forall|i: int| 0 <= i < rest@.len() ==> #[trigger] self.bodies@[i] == all[i],
                forall|i: int|
                    rest@.len() <= i < all.len() ==> all[i].goes_on_to(
                        #[trigger] self.bodies@[i],
                        moves[i],
                    ),
            decreases rest@.len(),
        {
            match rest.pop() {
                Some(Some(m)) => {
                    let i: usize = rest.len();
                    assert(moves[i as int] == Some(m));
                    let body: &mut UserBody<C, S> = &mut self.bodies[i];
                    body.moved(m.craft, m.epoch, m.state);
                },
                Some(None) => {
                    assert(moves[rest@.len() as int] is None);
                },
                None => {},
            }
        }
    }
}

impl<C, S> UserBody<C, S> {
    /// Whether this is a body whose trail has been dropped.
    pub open spec fn is_without_trail(self, before: UserBody<C, S>) -> bool {
        &&& self.trail@.len() == 0
        &&& self.name == before.name
        &&& self.craft == before.craft
        &&& self.color == before.color
        &&& self.spawned == before.spawned
    }

    /// Whether the body goes on to another state where a propagation has brought
    /// it, or stays as it is where none has.
    pub open spec fn goes_on_to(self, after: UserBody<C, S>, found: Option<Moved<C, S>>) -> bool {
        match found {
            Some(m) => {
                &&& after.craft == Some(m.craft)
                &&& after.trail@ == self.trail@.push(
                    (TrailPoint { epoch: m.epoch, state: m.state }),
                )
                &&& after.name == self.name
                &&& after.color == self.color
                &&& after.spawned == self.spawned
            },
            None => after == self,
        }
    }

    /// Takes the body on to where a propagation has brought it.
    pub fn moved(&mut self, craft: C, epoch: UtcInstant, state: S)
        requires
            old(self).craft is Some,
        ensures
            final(self).craft == Some(craft),
            final(self).trail@ == old(self).trail@.push((TrailPoint { epoch, state })),
            final(self).name == old(self).name,
            final(self).color == old(self).color,
            final(self).spawned == old(self).spawned,
    {
        self.trail.push(TrailPoint { epoch, state });
        self.craft = Some(craft);
    }
}

/// How the state of the body under analysis is shown.
#[derive(Clone, Copy, PartialEq, Eq, Structural, Debug)]
pub enum OrbitalDisplay {
    Keplerian,
    Euclidean,
}

/// The analysis of a body. `A` is what is known of its closest approach.
pub struct AnalysisState<A> {
    pub selected_body: Option<usize>,
    pub reference: AnalysisRef,
    pub display: OrbitalDisplay,
    pub closest_approach: Option<A>,
}

impl<A> AnalysisState<A> {
    /// Nothing selected, seen from Earth.
    pub fn new() -> (r: Self)
        ensures
            r == (AnalysisState::<A> {
                selected_body: None,
                reference: AnalysisRef::Earth,
                display: OrbitalDisplay::Keplerian,
                closest_approach: None,
            }),
    {
        AnalysisState {
            selected_body: None,
            reference: AnalysisRef::Earth,
            display: OrbitalDisplay::Keplerian,
            closest_approach: None,
        }
    }

    /// Whether the selection names one of so many bodies.
    pub open spec fn selects_one_of(self, bodies: int) -> bool {
        self.selected_body is Some && self.selected_body->0 < bodies
    }

    /// Sees to it that one of the bodies is selected: the first where none is,
    /// the last where the selection is beyond them.
    pub fn settle(&mut self, bodies: usize)
        requires
            bodies > 0,
        ensures
            final(self).selects_one_of(bodies as int),
            *final(self) == (AnalysisState {
                selected_body: match old(self).selected_body {
                    None => Some(0),
                    Some(i) => if i < bodies {
                        Some(i)
                    } else {
                        Some((bodies - 1) as usize)
                    },
                },
                ..*old(self)
            }),
    {
        match self.selected_body {
            None => {
                self.selected_body = Some(0);
            },
            Some(i) => {
                if i >= bodies {
                    self.selected_body = Some(bodies - 1);
                }
            },
        }
    }

    /// Selects a body. The closest approach of another one is dropped.
    pub fn select(&mut self, body: usize)
        ensures
            *final(self) == (AnalysisState {
                selected_body: Some(body),
                closest_approach: if old(self).selected_body == Some(body) {
                    old(self).closest_approach
                } else {
                    None
                },
                ..*old(self)
            }),
    {
        let same: bool = match self.selected_body {
            Some(i) => i == body,
            None => false,
        };
        if !same {
            self.selected_body = Some(body);
            self.closest_approach = None;
        }
    }

    /// Takes a click on the trails: a body that was hit is selected, a miss
    /// changes nothing.
    pub fn clicked(&mut self, hit: Option<usize>)
        ensures
            match hit {
                Some(body) => *final(self) == (AnalysisState {
                    selected_body: Some(body),
                    closest_approach: if old(self).selected_body == Some(body) {
                        old(self).closest_approach
                    } else {
                        None
                    },
                    ..*old(self)
                }),
                None => *final(self) == *old(self),
            },
    {
        match hit {
            Some(body) => {
                self.select(body);
            },
            None => {},
        }
    }

    /// Refers the analysis to a body. What was found for the other one is dropped.
    pub fn refer_to(&mut self, reference: AnalysisRef)
        ensures
            *final(self) == (AnalysisState {
                reference,
                closest_approach: if reference == old(self).reference {
                    old(self).closest_approach
                } else {
                    None
                },
                ..*old(self)
            }),
    {
        if reference != self.reference {
            self.reference = reference;
            self.closest_approach = None;
        }
    }

    /// Takes what a search through the trail of the selected body has found.
    pub fn found(&mut self, approach: Option<A>)
        ensures
            *final(self) == (AnalysisState { closest_approach: approach, ..*old(self) }),
    {
        self.closest_approach = approach;
    }

    /// Takes the body with the closest approach of all. Without one nothing
    /// changes.
    pub fn found_best(&mut self, best: Option<(usize, A)>)
        ensures
            match best {
                Some(b) => *final(self) == (AnalysisState {
                    selected_body: Some(b.0),
                    closest_approach: Some(b.1),
                    ..*old(self)
                }),
                None => *final(self) == *old(self),
            },
    {
        match best {
            Some(b) => {
                self.selected_body = Some(b.0);
                self.closest_approach = Some(b.1);
            },
            None => {},
        }
    }

    /// Forgets the selection, when all bodies are dropped.
    pub fn forget(&mut self)
        ensures
            *final(self) == (AnalysisState {
                selected_body: None,
                closest_approach: None,
                ..*old(self)
            }),
    {
        self.selected_body = None;
        self.closest_approach = None;
    }
}

/// A body goes on with the craft that its propagation gave and with one more point on
/// its trail, where the propagation ended; without a propagation it stays. A body
/// whose trail has been dropped has its craft still. Of either nothing else changes.
pub proof fn lemma_bodies_stay_themselves<C, S>(
    before: UserBody<C, S>,
    moved: UserBody<C, S>,
    found: Option<Moved<C, S>>,
    dropped: UserBody<C, S>,
)
    requires
        before.goes_on_to(moved, found),
        dropped.is_without_trail(before),
    ensures
        moved.name == before.name && moved.color == before.color && moved.spawned == before.spawned,
        found is None ==> moved == before,
        found matches Some(m) ==> {
            &&& moved.craft == Some(m.craft)
            &&& moved.trail@.len() == before.trail@.len() + 1
            &&& moved.trail@.drop_last() == before.trail@
            &&& moved.trail@.last().epoch == m.epoch && moved.trail@.last().state == m.state
        },
        dropped.trail@.len() == 0,
        dropped.name == before.name && dropped.color == before.color && dropped.spawned
            == before.spawned && dropped.craft == before.craft,
{
}

} // verus!
