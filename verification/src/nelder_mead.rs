//! The downhill simplex search of Nelder and Mead on a triangle of points.
//!
//! The search decides which trial point to evaluate next and which points to
//! keep. Where the trial points lie and what they cost is for the caller to
//! compute: the coefficients are 1 for the reflection, 2 for the expansion and
//! one half for the contraction and for the shrinking.

use crate::ranking::{better, is_better, picked, ranks};
use crate::scalar::{lemma_value_by_bits, Scalar};
use vstd::arithmetic::power2::pow2;
use vstd::prelude::*;

verus! {

/// Bits of the angle, a tenth of a degree, under which a triangle is small.
pub const SMALL_ANGLE_BITS: u64 = 0x3FB9_9999_9999_999A;

/// Bits of the speed, a metre per second, under which a triangle is small.
pub const SMALL_SPEED_BITS: u64 = 0x3F50_624D_D2F1_A9FC;

/// A point with its cost, and with what its evaluation gave.
pub struct Vertex<P, R> {
    pub point: P,
    pub cost: Scalar,
    pub result: Option<R>,
}

/// What the search waits for.
pub enum Phase<P, R> {
    /// Leave to start another round.
    Begin,
    /// The reflection of the worst vertex in the middle of the other two.
    Reflect,
    /// The point twice as far out as this reflection.
    Expand(Vertex<P, R>),
    /// The point half way from the worst vertex to the middle of the other two.
    Contract,
    /// The points half way from the best vertex to the other two.
    Shrink,
    /// The extent of the triangle.
    Measure,
    /// Nothing: the search is over.
    Done,
}

/// What a search is told.
pub enum Event<P, R> {
    Begun { cancelled: bool },
    Reflected(Vertex<P, R>),
    Expanded(Vertex<P, R>),
    Contracted(Vertex<P, R>),
    Shrunk(Vertex<P, R>, Vertex<P, R>),
    Measured { small: bool },
}

/// A triangle on its way downhill.
pub struct Search<P, R> {
    pub best: Vertex<P, R>,
    pub middle: Vertex<P, R>,
    pub worst: Vertex<P, R>,
    pub phase: Phase<P, R>,
    pub iteration: usize,
    pub limit: usize,
}

/// Three vertices from the best to the worst, equal ones in the order given.
pub open spec fn sorted<P, R>(
    a: Vertex<P, R>,
    b: Vertex<P, R>,
    c: Vertex<P, R>,
) -> (Vertex<P, R>, Vertex<P, R>, Vertex<P, R>) {
    let (x, y) = if better(b.cost, a.cost) {
        (b, a)
    } else {
        (a, b)
    };
    if better(c.cost, x.cost) {
        (c, x, y)
    } else if better(c.cost, y.cost) {
        (x, c, y)
    } else {
        (x, y, c)
    }
}

/// Sorting three vertices ranks them by their cost.
pub proof fn lemma_sorted_ranks<P, R>(a: Vertex<P, R>, b: Vertex<P, R>, c: Vertex<P, R>)
    ensures
        ({
            let (x, y, z) = sorted(a, b, c);
            let costs = seq![a.cost, b.cost, c.cost];
            exists|order: Seq<int>| #[trigger]
                ranks(costs, order) && seq![x, y, z] == picked(seq![a, b, c], order)
        }),
{
    let costs = seq![a.cost, b.cost, c.cost];
    let given = seq![a, b, c];
    let (x, y, z) = sorted(a, b, c);
    let (i, j): (int, int) = if better(b.cost, a.cost) {
        (1, 0)
    } else {
        (0, 1)
    };
    let order = if better(c.cost, given[i].cost) {
        seq![2, i, j]
    } else if better(c.cost, given[j].cost) {
        seq![i, 2, j]
    } else {
        seq![i, j, 2]
    };
    assert(order[0] != order[1] && order[1] != order[2] && order[0] != order[2]);
    assert forall|k: int| 0 <= k < 3 implies #[trigger] order.contains(k) by {
        if order[0] == k {
        } else if order[1] == k {
        } else {
            assert(order[2] == k);
        }
    }
    assert(ranks(costs, order));
    assert(seq![x, y, z] =~= picked(given, order));
}

impl<P, R> Search<P, R> {
    /// Whether the vertices stand from the best to the worst.
    pub open spec fn in_order(self) -> bool {
        !better(self.middle.cost, self.best.cost) && !better(self.worst.cost, self.middle.cost)
    }

    pub open spec fn wf(self) -> bool {
        &&& self.iteration <= self.limit
        &&& match self.phase {
            Phase::Begin => true,
            Phase::Measure => self.iteration < self.limit,
            Phase::Expand(v) => self.in_order() && self.iteration < self.limit && v.cost.lt(
                self.best.cost,
            ),
            Phase::Done => self.in_order(),
            _ => self.in_order() && self.iteration < self.limit,
        }
    }

    /// Whether the search waits for such an event.
    pub open spec fn awaits(self, event: Event<P, R>) -> bool {
        match event {
            Event::Begun { .. } => self.phase is Begin,
            Event::Reflected(_) => self.phase is Reflect,
            Event::Expanded(_) => self.phase is Expand,
            Event::Contracted(_) => self.phase is Contract,
            Event::Shrunk(_, _) => self.phase is Shrink,
            Event::Measured { .. } => self.phase is Measure,
        }
    }

    /// The search with another worst vertex, about to be measured.
    pub open spec fn with_worst(self, v: Vertex<P, R>) -> Search<P, R> {
        Search { worst: v, phase: Phase::Measure, ..self }
    }

    /// The search after an event that it waits for.
    pub open spec fn step(self, event: Event<P, R>) -> Search<P, R> {
        match event {
            Event::Begun { cancelled } => {
                let (best, middle, worst) = sorted(self.best, self.middle, self.worst);
                let phase = if cancelled || self.iteration >= self.limit {
                    Phase::Done
                } else {
                    Phase::Reflect
                };
                Search { best, middle, worst, phase, ..self }
            },
            Event::Reflected(v) => if v.cost.lt(self.best.cost) {
                Search { phase: Phase::Expand(v), ..self }
            } else if v.cost.lt(self.middle.cost) {
                self.with_worst(v)
            } else {
                Search { phase: Phase::Contract, ..self }
            },
            Event::Expanded(v) => if v.cost.lt(self.phase->Expand_0.cost) {
                self.with_worst(v)
            } else {
                self.with_worst(self.phase->Expand_0)
            },
            Event::Contracted(v) => if v.cost.lt(self.worst.cost) {
                self.with_worst(v)
            } else {
                Search { phase: Phase::Shrink, ..self }
            },
            Event::Shrunk(v, w) => Search { middle: v, worst: w, phase: Phase::Measure, ..self },
            Event::Measured { small } => if small {
                let (best, middle, worst) = sorted(self.best, self.middle, self.worst);
                Search { best, middle, worst, phase: Phase::Done, ..self }
            } else {
                Search { phase: Phase::Begin, iteration: (self.iteration + 1) as usize, ..self }
            },
        }
    }

    /// A search that starts on three vertices.
    pub fn new(a: Vertex<P, R>, b: Vertex<P, R>, c: Vertex<P, R>, limit: usize) -> (r: Search<P, R>)
        ensures
            r.wf(),
            r == (Search { best: a, middle: b, worst: c, phase: Phase::Begin, iteration: 0, limit }),
    {
        Search { best: a, middle: b, worst: c, phase: Phase::Begin, iteration: 0, limit }
    }

    /// Starts a round, unless the rounds are used up or the search is cancelled.
    pub fn begun(self, cancelled: bool) -> (r: Search<P, R>)
        requires
            self.wf(),
            self.phase is Begin,
        ensures
            r.wf(),
            r == self.step(Event::Begun { cancelled }),
    {
        let phase: Phase<P, R> = if cancelled || self.iteration >= self.limit {
            Phase::Done
        } else {
            Phase::Reflect
        };
        let (best, middle, worst) = sort_vertices(self.best, self.middle, self.worst);
        Search { best, middle, worst, phase, iteration: self.iteration, limit: self.limit }
    }

    /// Takes the reflection: one better than the best is worth an expansion, one
    /// better than the middle vertex takes the place of the worst, and any other
    /// calls for a contraction.
    pub fn reflected(self, v: Vertex<P, R>) -> (r: Search<P, R>)
        requires
            self.wf(),
            self.phase is Reflect,
        ensures
            r.wf(),
            r == self.step(Event::Reflected(v)),
    {
        if v.cost.less(&self.best.cost) {
            self.in_phase(Phase::Expand(v))
        } else if v.cost.less(&self.middle.cost) {
            self.replace_worst(v)
        } else {
            self.in_phase(Phase::Contract)
        }
    }

    /// Takes the expansion: the better one of it and the reflection takes the
    /// place of the worst vertex.
    pub fn expanded(self, v: Vertex<P, R>) -> (r: Search<P, R>)
        requires
            self.wf(),
            self.phase is Expand,
        ensures
            r.wf(),
            r == self.step(Event::Expanded(v)),
    {
        let Search { best, middle, worst, phase, iteration, limit } = self;
        match phase {
            Phase::Expand(w) => {
                let kept: Vertex<P, R> = if v.cost.less(&w.cost) {
                    v
                } else {
                    w
                };
                Search { best, middle, worst: kept, phase: Phase::Measure, iteration, limit }
            },
            other => Search { best, middle, worst, phase: other, iteration, limit },
        }
    }

    /// Takes the contraction: it takes the place of the worst vertex if it is
    /// better, else the triangle is to shrink.
    pub fn contracted(self, v: Vertex<P, R>) -> (r: Search<P, R>)
        requires
            self.wf(),
            self.phase is Contract,
        ensures
            r.wf(),
            r == self.step(Event::Contracted(v)),
    {
        if v.cost.less(&self.worst.cost) {
            self.replace_worst(v)
        } else {
            self.in_phase(Phase::Shrink)
        }
    }

    /// Takes the two vertices that a shrunk triangle has beside its best one.
    pub fn shrunk(self, v: Vertex<P, R>, w: Vertex<P, R>) -> (r: Search<P, R>)
        requires
            self.wf(),
            self.phase is Shrink,
        ensures
            r.wf(),
            r == self.step(Event::Shrunk(v, w)),
    {
        let Search { best, middle: _, worst: _, phase: _, iteration, limit } = self;
        Search { best, middle: v, worst: w, phase: Phase::Measure, iteration, limit }
    }

    /// Takes the extent of the triangle from its best to its worst vertex: below
    /// both bounds the search is over, else another round is due.
    pub fn measured(
        self,
        angle: Scalar,
        speed: Scalar,
        small_angle: Scalar,
        small_speed: Scalar,
    ) -> (r: Search<P, R>)
        requires
            self.wf(),
            self.phase is Measure,
        ensures
            r.wf(),
            r == self.step(
                Event::Measured { small: angle.lt(small_angle) && speed.lt(small_speed) },
            ),
    {
        if angle.less(&small_angle) && speed.less(&small_speed) {
            let (best, middle, worst) = sort_vertices(self.best, self.middle, self.worst);
            Search {
                best,
                middle,
                worst,
                phase: Phase::Done,
                iteration: self.iteration,
                limit: self.limit,
            }
        } else {
            let Search { best, middle, worst, phase: _, iteration, limit } = self;
            Search { best, middle, worst, phase: Phase::Begin, iteration: iteration + 1, limit }
        }
    }

    /// The best vertex of a search that is over.
    pub fn finish(self) -> (r: Vertex<P, R>)
        requires
            self.wf(),
            self.phase is Done,
        ensures
            r == self.best,
    {
        self.best
    }

    fn in_phase(self, phase: Phase<P, R>) -> (r: Search<P, R>)
        ensures
            r == (Search { phase, ..self }),
    {
        let Search { best, middle, worst, phase: _, iteration, limit } = self;
        Search { best, middle, worst, phase, iteration, limit }
    }

    fn replace_worst(self, v: Vertex<P, R>) -> (r: Search<P, R>)
        ensures
            r == self.with_worst(v),
    {
        let Search { best, middle, worst: _, phase: _, iteration, limit } = self;
        Search { best, middle, worst: v, phase: Phase::Measure, iteration, limit }
    }

    /// Whether some vertex of the triangle is as good as a cost.
    pub open spec fn reaches(self, cost: Scalar) -> bool {
        !better(cost, self.best.cost) || !better(cost, self.middle.cost) || !better(
            cost,
            self.worst.cost,
        )
    }

    /// How many events the search can still take, at most.
    pub open spec fn patience(self) -> int {
        let due: int = match self.phase {
            Phase::Begin => 5,
            Phase::Reflect => 4,
            Phase::Contract => 3,
            Phase::Expand(_) => 2,
            Phase::Shrink => 2,
            Phase::Measure => 1,
            Phase::Done => 0,
        };
        if self.phase is Done {
            0
        } else {
            6 * (self.limit - self.iteration) + due
        }
    }
}

/// Three vertices from the best to the worst, equal ones in the order given.
fn sort_vertices<P, R>(a: Vertex<P, R>, b: Vertex<P, R>, c: Vertex<P, R>) -> (r: (
    Vertex<P, R>,
    Vertex<P, R>,
    Vertex<P, R>,
))
    ensures
        r == sorted(a, b, c),
{
    let (x, y) = if is_better(&b.cost, &a.cost) {
        (b, a)
    } else {
        (a, b)
    };
    if is_better(&c.cost, &x.cost) {
        (c, x, y)
    } else if is_better(&c.cost, &y.cost) {
        (x, c, y)
    } else {
        (x, y, c)
    }
}

/// Whether a search waits for each of a series of events in turn.
pub open spec fn plays<P, R>(s: Search<P, R>, events: Seq<Event<P, R>>) -> bool
    decreases events.len(),
{
    events.len() == 0 || (plays(s, events.drop_last()) && played(s, events.drop_last()).awaits(
        events.last(),
    ))
}

/// A search after a series of events.
pub open spec fn played<P, R>(s: Search<P, R>, events: Seq<Event<P, R>>) -> Search<P, R>
    decreases events.len(),
{
    if events.len() == 0 {
        s
    } else {
        played(s, events.drop_last()).step(events.last())
    }
}

/// A step keeps the search well formed, brings it nearer to its end, and gives
/// up no cost that it had reached.
pub proof fn lemma_step<P, R>(s: Search<P, R>, event: Event<P, R>, cost: Scalar)
    requires
        s.wf(),
        s.awaits(event),
    ensures
        s.step(event).wf(),
        0 <= s.step(event).patience() < s.patience(),
        s.reaches(cost) ==> s.step(event).reaches(cost),
{
}

/// A search ends: it takes at most six events a round, and five more.
pub proof fn lemma_search_ends<P, R>(s: Search<P, R>, events: Seq<Event<P, R>>)
    requires
        s.wf(),
        plays(s, events),
    ensures
        played(s, events).wf(),
        events.len() + played(s, events).patience() <= s.patience() <= 6 * s.limit + 5,
    decreases events.len(),
{
    if events.len() > 0 {
        lemma_search_ends(s, events.drop_last());
        lemma_step(played(s, events.drop_last()), events.last(), s.best.cost);
    }
}

/// A search never loses ground: the triangle keeps a vertex as good as any that
/// it had.
pub proof fn lemma_search_keeps_the_best<P, R>(
    s: Search<P, R>,
    events: Seq<Event<P, R>>,
    cost: Scalar,
)
    requires
        s.wf(),
        plays(s, events),
        s.reaches(cost),
    ensures
        played(s, events).wf(),
        played(s, events).reaches(cost),
    decreases events.len(),
{
    if events.len() > 0 {
        lemma_search_keeps_the_best(s, events.drop_last(), cost);
        lemma_step(played(s, events.drop_last()), events.last(), cost);
    }
}

/// What a search ends with is as good as each of the vertices that it started on.
pub proof fn lemma_result_is_no_worse_than_the_start<P, R>(
    s: Search<P, R>,
    events: Seq<Event<P, R>>,
)
    requires
        s.wf(),
        plays(s, events),
        played(s, events).phase is Done,
    ensures
        !better(s.best.cost, played(s, events).best.cost),
        !better(s.middle.cost, played(s, events).best.cost),
        !better(s.worst.cost, played(s, events).best.cost),
{
    lemma_search_keeps_the_best(s, events, s.best.cost);
    lemma_search_keeps_the_best(s, events, s.middle.cost);
    lemma_search_keeps_the_best(s, events, s.worst.cost);
}

/// Sorting three vertices keeps all three, puts a lesser cost before a greater one
/// and what is not a number last, and leaves alone what is in order.
pub proof fn lemma_sorting_keeps_the_vertices<P, R>(
    a: Vertex<P, R>,
    b: Vertex<P, R>,
    c: Vertex<P, R>,
)
    ensures
        ({
            let s = sorted(a, b, c);
            &&& s == (a, b, c) || s == (a, c, b) || s == (b, a, c) || s == (b, c, a) || s == (
                c,
                a,
                b,
            ) || s == (c, b, a)
            &&& !s.1.cost.lt(s.0.cost) && !s.2.cost.lt(s.1.cost) && !s.2.cost.lt(s.0.cost)
            &&& s.0.cost.is_nan() ==> s.1.cost.is_nan()
            &&& s.1.cost.is_nan() ==> s.2.cost.is_nan()
        }),
        !b.cost.is_nan() && a.cost.le(b.cost) && b.cost.le(c.cost) ==> sorted(a, b, c) == (a, b, c),
{
}

/// A round starts on the sorted vertices, unless the search was cancelled or its
/// rounds are used up: then it is over.
pub proof fn lemma_round_starts<P, R>(s: Search<P, R>, cancelled: bool)
    ensures
        ({
            let r = s.step(Event::Begun { cancelled });
            &&& (r.best, r.middle, r.worst) == sorted(s.best, s.middle, s.worst)
            &&& r.iteration == s.iteration && r.limit == s.limit
            &&& r.phase is Done <==> cancelled || s.iteration >= s.limit
            &&& r.phase is Reflect <==> !cancelled && s.iteration < s.limit
        }),
{
}

/// A reflection less than the best cost is worth an expansion. One that is not, but
/// less than the middle cost, takes the place of the worst vertex. Any other calls
/// for a contraction. Nothing else changes.
pub proof fn lemma_reflection<P, R>(s: Search<P, R>, v: Vertex<P, R>)
    ensures
        ({
            let r = s.step(Event::Reflected(v));
            &&& r.best == s.best && r.middle == s.middle
            &&& r.iteration == s.iteration && r.limit == s.limit
            &&& v.cost.lt(s.best.cost) ==> r.phase == Phase::Expand(v) && r.worst == s.worst
            &&& !v.cost.lt(s.best.cost) && v.cost.lt(s.middle.cost) ==> r.phase is Measure
                && r.worst == v
            &&& !v.cost.lt(s.best.cost) && !v.cost.lt(s.middle.cost) ==> r.phase is Contract
                && r.worst == s.worst
        }),
{
}

/// Of a reflection worth an expansion and its expansion the one with the lesser
/// cost takes the place of the worst vertex, the reflection where they are equal.
pub proof fn lemma_expansion<P, R>(s: Search<P, R>, reflection: Vertex<P, R>, v: Vertex<P, R>)
    requires
        s.phase == Phase::Expand(reflection),
    ensures
        ({
            let r = s.step(Event::Expanded(v));
            &&& r.best == s.best && r.middle == s.middle
            &&& r.iteration == s.iteration && r.limit == s.limit
            &&& r.phase is Measure
            &&& v.cost.lt(reflection.cost) ==> r.worst == v
            &&& !v.cost.lt(reflection.cost) ==> r.worst == reflection
        }),
{
}

/// A contraction less than the worst cost takes the place of the worst vertex.
/// After any other the triangle is to shrink.
pub proof fn lemma_contraction<P, R>(s: Search<P, R>, v: Vertex<P, R>)
    ensures
        ({
            let r = s.step(Event::Contracted(v));
            &&& r.best == s.best && r.middle == s.middle
            &&& r.iteration == s.iteration && r.limit == s.limit
            &&& v.cost.lt(s.worst.cost) ==> r.phase is Measure && r.worst == v
            &&& !v.cost.lt(s.worst.cost) ==> r.phase is Shrink && r.worst == s.worst
        }),
{
}

/// A triangle that shrinks keeps its best vertex and gets two others.
pub proof fn lemma_shrinking<P, R>(s: Search<P, R>, v: Vertex<P, R>, w: Vertex<P, R>)
    ensures
        ({
            let r = s.step(Event::Shrunk(v, w));
            &&& r.best == s.best && r.middle == v && r.worst == w
            &&& r.iteration == s.iteration && r.limit == s.limit
            &&& r.phase is Measure
        }),
{
}

/// A small triangle ends the search on its sorted vertices. Any other leads to
/// another round, on the vertices as they are.
pub proof fn lemma_measuring<P, R>(s: Search<P, R>, small: bool)
    requires
        s.iteration < usize::MAX,
    ensures
        ({
            let r = s.step(Event::Measured { small });
            &&& r.limit == s.limit
            &&& small ==> r.phase is Done && r.iteration == s.iteration && (
                r.best,
                r.middle,
                r.worst,
            ) == sorted(s.best, s.middle, s.worst)
            &&& !small ==> r.phase is Begin && r.iteration == s.iteration + 1 && r.best == s.best
                && r.middle == s.middle && r.worst == s.worst
        }),
{
}

/// A search ends only when it was cancelled, when its rounds are used up, or when
/// the triangle was measured to be small, and then it does end.
pub proof fn lemma_search_ends_only_for_a_reason<P, R>(s: Search<P, R>, event: Event<P, R>)
    ensures
        s.step(event).phase is Done <==> match event {
            Event::Begun { cancelled } => cancelled || s.iteration >= s.limit,
            Event::Measured { small } => small,
            _ => false,
        },
{
}

/// A search that goes on waits for the one kind of event that its phase calls for,
/// and one that is over for none.
pub proof fn lemma_one_kind_of_event_is_awaited<P, R>(s: Search<P, R>, event: Event<P, R>)
    ensures
        s.awaits(event) <==> match s.phase {
            Phase::Begin => event is Begun,
            Phase::Reflect => event is Reflected,
            Phase::Expand(_) => event is Expanded,
            Phase::Contract => event is Contracted,
            Phase::Shrink => event is Shrunk,
            Phase::Measure => event is Measured,
            Phase::Done => false,
        },
{
}

/// A round of a search that is neither cancelled nor small leaves one round less,
/// whatever trial points it took: the search goes on until its rounds are used up.
pub proof fn lemma_rounds_are_counted<P, R>(s: Search<P, R>, event: Event<P, R>)
    requires
        s.iteration < s.limit,
    ensures
        s.step(event).limit == s.limit,
        s.step(event).iteration == (match event {
            Event::Measured { small } => if small {
                s.iteration as int
            } else {
                s.iteration + 1
            },
            _ => s.iteration as int,
        }),
{
}

/// The bits of the small angle and of the small speed stand for the least numbers
/// that are not less than a tenth and a thousandth.
pub proof fn lemma_small_extents()
    ensures
        10 * (Scalar { bits: SMALL_ANGLE_BITS }).value() >= pow2(1074),
        10 * (Scalar { bits: (SMALL_ANGLE_BITS - 1) as u64 }).value() < pow2(1074),
        1000 * (Scalar { bits: SMALL_SPEED_BITS }).value() >= pow2(1074),
        1000 * (Scalar { bits: (SMALL_SPEED_BITS - 1) as u64 }).value() < pow2(1074),
{
    lemma_value_by_bits(1019, 0x9_9999_9999_999A);
    lemma_value_by_bits(1019, 0x9_9999_9999_9999);
    lemma_value_by_bits(1013, 0x0_624D_D2F1_A9FC);
    lemma_value_by_bits(1013, 0x0_624D_D2F1_A9FB);
    vstd::arithmetic::power2::lemma2_to64();
    vstd::arithmetic::power2::lemma2_to64_rest();
    vstd::arithmetic::power2::lemma_pow2_adds(56, 1018);
    vstd::arithmetic::power2::lemma_pow2_adds(62, 1012);
    vstd::arithmetic::power2::lemma_pow2_pos(1018);
    vstd::arithmetic::power2::lemma_pow2_pos(1012);
    let a = pow2(1018) as int;
    let b = pow2(1012) as int;
    assert(pow2(56) == 0x100_0000_0000_0000);
    assert(pow2(62) == 0x4000_0000_0000_0000);
    assert(10 * (0x19_9999_9999_999A * a) >= 0x100_0000_0000_0000 * a) by (nonlinear_arith)
        requires
            a > 0,
    ;
    assert(10 * (0x19_9999_9999_9999 * a) < 0x100_0000_0000_0000 * a) by (nonlinear_arith)
        requires
            a > 0,
    ;
    assert(1000 * (0x10_624D_D2F1_A9FC * b) >= 0x4000_0000_0000_0000 * b) by (nonlinear_arith)
        requires
            b > 0,
    ;
    assert(1000 * (0x10_624D_D2F1_A9FB * b) < 0x4000_0000_0000_0000 * b) by (nonlinear_arith)
        requires
            b > 0,
    ;
}

} // verus!
