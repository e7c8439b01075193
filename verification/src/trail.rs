//! Trails: where bodies have been, and what is looked up in them.

use crate::epoch::UtcInstant;
use crate::ranking::{nearest_at, none_near, Nearest};
use crate::scalar::{lemma_value_by_bits, Scalar, MAX_BITS};
use vstd::arithmetic::power2::pow2;
use vstd::prelude::*;

verus! {

/// Reference frame in which trails are shown.
#[derive(Clone, Copy, PartialEq, Eq, Structural, Debug)]
pub enum TrailFrame {
    /// Centred on Earth and inertial: trails as they are.
    J2000,
    /// Centred on the Moon and inertial.
    MoonCentered,
    /// Turning with the Moon.
    Synodic,
    /// Turning with the Moon and scaled by its distance.
    Pulsating,
}

/// A point of a trail: where and how fast something was at an epoch.
pub struct TrailPoint<S> {
    pub epoch: UtcInstant,
    pub state: S,
}

/// The epochs of a trail.
pub open spec fn epochs<S>(trail: Seq<TrailPoint<S>>) -> Seq<int> {
    trail.map_values(|p: TrailPoint<S>| p.epoch.utc_nanos as int)
}

/// Whether the epochs never go back.
pub open spec fn in_time_order(e: Seq<int>) -> bool {
    forall|i: int, j: int| 0 <= i <= j < e.len() ==> #[trigger] e[i] <= #[trigger] e[j]
}

/// Whether the epochs always go forward.
pub open spec fn strictly_in_time_order(e: Seq<int>) -> bool {
    forall|i: int, j: int| 0 <= i < j < e.len() ==> #[trigger] e[i] < #[trigger] e[j]
}

/// The place reached from a hint by going forward as long as the next point is
/// not later than the time looked for.
pub open spec fn place_from(e: Seq<int>, time: int, hint: int) -> int
    decreases e.len() - hint,
{
    if hint + 1 < e.len() && e[hint + 1] <= time {
        place_from(e, time, hint + 1)
    } else {
        hint
    }
}

/// Looks up a time in a trail, going forward from the hint and leaving the hint
/// where it stopped. There is nothing to find in an empty trail.
pub fn lookup_body_trail<S>(trail: &Vec<TrailPoint<S>>, time: UtcInstant, hint: &mut usize) -> (r:
    Option<usize>)
    requires
        trail@.len() > 0 ==> *old(hint) < trail@.len(),
    ensures
        trail@.len() == 0 ==> r is None && *final(hint) == *old(hint),
        trail@.len() > 0 ==> r == Some(*final(hint)) && *final(hint) < trail@.len()
            && *final(hint) == place_from(
            epochs(trail@),
            time.utc_nanos as int,
            *old(hint) as int,
        ),
        trail@.len() > 0 ==> *old(hint) <= *final(hint),
        *final(hint) + 1 < trail@.len() ==> trail@[*final(hint) + 1].epoch.utc_nanos
            > time.utc_nanos,
        forall|i: int|
            *old(hint) < i <= *final(hint) ==> (#[trigger] trail@[i]).epoch.utc_nanos
                <= time.utc_nanos,
{
    let n: usize = trail.len();
    if n == 0 {
        return None;
    }
    let ghost e = epochs(trail@);
    let ghost start = *hint as int;
    while *hint < n - 1 && trail[*hint + 1].epoch.utc_nanos <= time.utc_nanos
        invariant
            n == trail@.len(),
            n > 0,
            *hint < n,
            e == epochs(trail@),
            place_from(e, time.utc_nanos as int, start) == place_from(
                e,
                time.utc_nanos as int,
                *hint as int,
            ),
            start <= *hint,
            forall|i: int|
                start < i <= *hint ==> (#[trigger] trail@[i]).epoch.utc_nanos <= time.utc_nanos,
        decreases n - *hint,
    {
        *hint = *hint + 1;
    }
    Some(*hint)
}

/// In a trail in time order the lookup from the start finds the last point that
/// is not later than the time, or the first point where all are later.
pub proof fn lemma_lookup_finds_the_last_not_later(e: Seq<int>, time: int, hint: int)
    requires
        in_time_order(e),
        0 <= hint < e.len(),
        hint == 0 || e[hint] <= time,
    ensures
        hint <= place_from(e, time, hint) < e.len(),
        forall|i: int| place_from(e, time, hint) < i < e.len() ==> #[trigger] e[i] > time,
        place_from(e, time, hint) > 0 ==> e[place_from(e, time, hint)] <= time,
    decreases e.len() - hint,
{
    if hint + 1 < e.len() && e[hint + 1] <= time {
        lemma_lookup_finds_the_last_not_later(e, time, hint + 1);
    }
}

/// In a trail in time order a hint that is not too late only saves work: the
/// lookup ends where it would end from the start.
pub proof fn lemma_hint_only_saves_work(e: Seq<int>, time: int, hint: int)
    requires
        in_time_order(e),
        0 <= hint < e.len(),
        hint == 0 || e[hint] <= time,
    ensures
        place_from(e, time, hint) == place_from(e, time, 0),
{
    lemma_lookup_finds_the_last_not_later(e, time, hint);
    lemma_lookup_finds_the_last_not_later(e, time, 0);
    let a = place_from(e, time, hint);
    let b = place_from(e, time, 0);
    if a < b {
        assert(e[b] > time);
    }
    if b < a {
        assert(e[a] > time);
    }
}

/// Going through times in order, the hint left by one lookup serves the next.
pub proof fn lemma_hint_serves_the_next_lookup(e: Seq<int>, earlier: int, later: int)
    requires
        in_time_order(e),
        e.len() > 0,
        earlier <= later,
    ensures
        place_from(e, later, place_from(e, earlier, 0)) == place_from(e, later, 0),
{
    lemma_lookup_finds_the_last_not_later(e, earlier, 0);
    lemma_hint_only_saves_work(e, later, place_from(e, earlier, 0));
}

/// For each point of a trail the place in a reference trail to hold it against,
/// found going forward through both. An empty reference has no places.
pub fn reference_places<S>(trail: &Vec<TrailPoint<S>>, reference: &Vec<TrailPoint<S>>) -> (r: Vec<
    Option<usize>,
>)
    ensures
        r@.len() == trail@.len(),
        reference@.len() == 0 ==> forall|i: int| 0 <= i < r@.len() ==> #[trigger] r@[i] is None,
        reference@.len() > 0 ==> forall|i: int|
            0 <= i < r@.len() ==> (#[trigger] r@[i]) is Some && r@[i]->0 < reference@.len()
                && r@[i]->0 as int == carried_place(epochs(reference@), epochs(trail@), i + 1),
{
    let mut out: Vec<Option<usize>> = Vec::new();
    let mut hint: usize = 0;
    let mut i: usize = 0;
    while i < trail.len()
        invariant
            i <= trail@.len(),
            out@.len() == i,
            reference@.len() > 0 ==> hint < reference@.len() && hint as int == carried_place(
                epochs(reference@),
                epochs(trail@),
                i as int,
            ),
            reference@.len() == 0 ==> forall|k: int| 0 <= k < i ==> #[trigger] out@[k] is None,
            reference@.len() > 0 ==> forall|k: int|
                0 <= k < i ==> (#[trigger] out@[k]) is Some && out@[k]->0 < reference@.len()
                    && out@[k]->0 as int == carried_place(
                    epochs(reference@),
                    epochs(trail@),
                    k + 1,
                ),
        decreases trail@.len() - i,
    {
        assert(epochs(trail@)[i as int] == trail@[i as int].epoch.utc_nanos as int);
        let place: Option<usize> = lookup_body_trail(reference, trail[i].epoch, &mut hint);
        out.push(place);
        i = i + 1;
    }
    out
}

/// The place in a reference trail after looking up the first times in turn, each
/// from where the one before stopped.
pub open spec fn carried_place(reference: Seq<int>, times: Seq<int>, count: int) -> int
    decreases count,
{
    if count <= 0 {
        0
    } else {
        place_from(reference, times[count - 1], carried_place(reference, times, count - 1))
    }
}

/// With both trails in time order each point is held against the last reference
/// point that is not later, or against the first.
pub proof fn lemma_reference_places_match(reference: Seq<int>, times: Seq<int>, count: int)
    requires
        in_time_order(reference),
        in_time_order(times),
        reference.len() > 0,
        0 < count <= times.len(),
    ensures
        carried_place(reference, times, count) == place_from(reference, times[count - 1], 0),
    decreases count,
{
    if count > 1 {
        lemma_reference_places_match(reference, times, count - 1);
        lemma_hint_serves_the_next_lookup(reference, times[count - 2], times[count - 1]);
    } else {
        assert(carried_place(reference, times, 0) == 0);
    }
}

/// Distances, each of which is there.
pub open spec fn offered(distances: Seq<Scalar>) -> Seq<Option<Scalar>> {
    distances.map_values(|d: Scalar| Some(d))
}

/// The place and the distance of the closest of a series of approaches. Where
/// none is nearer than the greatest finite number, the first stands for all.
pub fn closest_place(distances: &Vec<Scalar>) -> (r: Option<(usize, Scalar)>)
    ensures
        r is None <==> distances@.len() == 0,
        r matches Some(c) ==> (none_near(offered(distances@)) ==> c.0 == 0 && c.1.bits == MAX_BITS),
        r matches Some(c) ==> (!none_near(offered(distances@)) ==> nearest_at(
            offered(distances@),
            c.0 as int,
        ) && c.1 == distances@[c.0 as int]),
        r matches Some(c) ==> c.0 < distances@.len() && forall|i: int|
            0 <= i < distances@.len() ==> !(#[trigger] distances@[i]).lt(c.1),
        r matches Some(c) ==> forall|i: int|
            0 <= i < c.0 ==> !(#[trigger] distances@[i]).le(c.1),
{
    if distances.len() == 0 {
        return None;
    }
    let mut nearest: Nearest = Nearest::new();
    let mut i: usize = 0;
    while i < distances.len()
        invariant
            i <= distances@.len(),
            nearest.wf(),
            nearest.seen() == offered(distances@).take(i as int),
        decreases distances@.len() - i,
    {
        let _closer: bool = nearest.offer(i, Some(distances[i]));
        assert(offered(distances@).take(i as int).push(Some(distances@[i as int]))
            =~= offered(distances@).take(i + 1));
        i = i + 1;
    }
    assert(offered(distances@).take(i as int) =~= offered(distances@));
    match nearest.result() {
        Some(found) => {
            assert(offered(distances@)[found.0 as int] == Some(distances@[found.0 as int]));
            assert(!none_near(offered(distances@)));
            assert forall|k: int| 0 <= k < distances@.len() implies !(
            #[trigger] distances@[k]).lt(found.1) && (k < found.0 ==> !distances@[k].le(
                found.1,
            )) by {
                assert(offered(distances@)[k] == Some(distances@[k]));
            }
            Some(found)
        },
        None => {
            assert forall|k: int| 0 <= k < distances@.len() implies !(
            #[trigger] distances@[k]).lt(Scalar { bits: MAX_BITS }) by {
                assert(offered(distances@)[k] == Some(distances@[k]));
            }
            Some((0, Scalar::max_finite()))
        },
    }
}

/// The first body whose distance is least, among those that have one.
pub fn best_body(distances: &Vec<Option<Scalar>>) -> (r: Option<usize>)
    requires
        forall|i: int|
            0 <= i < distances@.len() && (#[trigger] distances@[i]) is Some
                ==> !distances@[i]->0.is_nan(),
    ensures
        r is None <==> forall|i: int| 0 <= i < distances@.len() ==> #[trigger] distances@[i] is None,
        r matches Some(b) ==> b < distances@.len() && distances@[b as int] is Some,
        r matches Some(b) ==> forall|i: int|
            0 <= i < distances@.len() && (#[trigger] distances@[i]) is Some
                ==> distances@[b as int]->0.le(distances@[i]->0),
        r matches Some(b) ==> forall|i: int|
            0 <= i < b && (#[trigger] distances@[i]) is Some ==> distances@[b as int]->0.lt(
                distances@[i]->0,
            ),
{
    let mut best: Option<usize> = None;
    let mut i: usize = 0;
    while i < distances.len()
        invariant
            i <= distances@.len(),
            forall|k: int|
                0 <= k < distances@.len() && (#[trigger] distances@[k]) is Some
                    ==> !distances@[k]->0.is_nan(),
            best is None ==> forall|k: int| 0 <= k < i ==> #[trigger] distances@[k] is None,
            best matches Some(b) ==> b < i && distances@[b as int] is Some,
            best matches Some(b) ==> forall|k: int|
                0 <= k < i && (#[trigger] distances@[k]) is Some ==> distances@[b as int]->0.le(
                    distances@[k]->0,
                ),
            best matches Some(b) ==> forall|k: int|
                0 <= k < b && (#[trigger] distances@[k]) is Some ==> distances@[b as int]->0.lt(
                    distances@[k]->0,
                ),
        decreases distances@.len() - i,
    {
        match distances[i] {
            Some(d) => {
                let better: bool = match best {
                    None => true,
                    Some(b) => match distances[b] {
                        Some(least) => d.less(&least),
                        None => true,
                    },
                };
                if better {
                    best = Some(i);
                }
            },
            None => {},
        }
        i = i + 1;
    }
    best
}

/// Whether a point is to be looked at: every so many points, and not before a
/// time.
pub open spec fn looked_at(e: Seq<int>, cutoff: int, step: int, i: int) -> bool {
    0 <= i < e.len() && i % step == 0 && e[i] >= cutoff
}

/// The places of a trail to be looked at: every so many points, and none before
/// the cutoff.
pub fn places_since<S>(trail: &Vec<TrailPoint<S>>, cutoff: UtcInstant, step: usize) -> (r: Vec<
    usize,
>)
    requires
        step > 0,
    ensures
        forall|k: int|
            0 <= k < r@.len() ==> looked_at(
                epochs(trail@),
                cutoff.utc_nanos as int,
                step as int,
                #[trigger] r@[k] as int,
            ),
        forall|i: int|
            looked_at(epochs(trail@), cutoff.utc_nanos as int, step as int, i) ==> exists|k: int|
                0 <= k < r@.len() && #[trigger] r@[k] == i,
        forall|k: int, l: int| 0 <= k < l < r@.len() ==> #[trigger] r@[k] < #[trigger] r@[l],
        forall|k: int|
            0 <= k < r@.len() ==> (#[trigger] r@[k]) < trail@.len() && r@[k] % step == 0
                && trail@[r@[k] as int].epoch.utc_nanos >= cutoff.utc_nanos,
        forall|i: int|
            0 <= i < trail@.len() && i % (step as int) == 0 && (#[trigger] trail@[i]).epoch.utc_nanos
                >= cutoff.utc_nanos ==> r@.contains(i as usize),
{
    let mut out: Vec<usize> = Vec::new();
    let ghost e = epochs(trail@);
    let ghost c = cutoff.utc_nanos as int;
    let mut i: usize = 0;
    while i < trail.len()
        invariant
            i <= trail@.len(),
            step > 0,
            e == epochs(trail@),
            c == cutoff.utc_nanos as int,
            forall|k: int|
                0 <= k < out@.len() ==> looked_at(e, c, step as int, #[trigger] out@[k] as int)
                    && out@[k] < i,
            forall|j: int|
                j < i && looked_at(e, c, step as int, j) ==> exists|k: int|
                    0 <= k < out@.len() && #[trigger] out@[k] == j,
            forall|k: int, l: int|
                0 <= k < l < out@.len() ==> #[trigger] out@[k] < #[trigger] out@[l],
        decreases trail@.len() - i,
    {
        let ghost before = out@;
        if i % step == 0 && trail[i].epoch.utc_nanos >= cutoff.utc_nanos {
            out.push(i);
            proof {
                assert forall|j: int| j < i + 1 && looked_at(e, c, step as int, j) implies exists|
                    k: int,
                | 0 <= k < out@.len() && #[trigger] out@[k] == j by {
                    if j == i {
                        assert(out@[before.len() as int] == j);
                    } else {
                        let k = choose|k: int| 0 <= k < before.len() && #[trigger] before[k] == j;
                        assert(out@[k] == j);
                    }
                }
            }
        }
        i = i + 1;
    }
    proof {
        assert forall|k: int| 0 <= k < out@.len() implies (#[trigger] out@[k]) < trail@.len()
            && out@[k] % step == 0 && trail@[out@[k] as int].epoch.utc_nanos >= cutoff.utc_nanos by {
            assert(looked_at(e, c, step as int, out@[k] as int));
        }
        assert forall|j: int|
            0 <= j < trail@.len() && j % (step as int) == 0 && (#[trigger] trail@[j]).epoch.utc_nanos
                >= cutoff.utc_nanos implies out@.contains(j as usize) by {
            assert(e[j] == trail@[j].epoch.utc_nanos as int);
            assert(looked_at(e, c, step as int, j));
            let k = choose|k: int| 0 <= k < out@.len() && #[trigger] out@[k] == j;
            assert(out@[k] == j as usize);
        }
    }
    out
}

/// How many points of a trail are passed over when looking for the one clicked.
pub fn click_step(points: usize) -> (r: usize)
    ensures
        r == (if points > 1000 {
            10int
        } else {
            1
        }),
{
    if points > 1000 {
        10
    } else {
        1
    }
}

/// How many points of a trail are passed over while the cursor hovers.
pub fn hover_step(points: usize) -> (r: usize)
    ensures
        r == (if points > 500 {
            20int
        } else {
            3
        }),
{
    if points > 500 {
        20
    } else {
        3
    }
}

/// Distance from the cursor, in pixels, below which a trail is hit.
pub const HIT_PIXELS: u32 = 30;

/// Drag distance, in pixels, above which a press of the button is no click.
pub const CLICK_PIXELS: u32 = 5;

/// Whether a distance from the cursor hits a trail.
pub fn hits(distance: Scalar) -> (r: bool)
    ensures
        r == distance.under(HIT_PIXELS as int, 0),
        r == distance.under(30, 0),
{
    distance.is_under(HIT_PIXELS, 0)
}

/// Whether the drag distance still makes a click: it does not exceed the limit.
pub fn is_click(drag: Scalar) -> (r: bool)
    ensures
        r <==> drag.is_nan() || !Scalar::exceeds(drag, CLICK_PIXELS as int),
        r <==> !Scalar::exceeds(drag, 5),
{
    let limit: Scalar = Scalar::of_parts(CLICK_PIXELS, 0);
    proof {
        Scalar::lemma_exceeds(drag, limit, CLICK_PIXELS as int);
    }
    !limit.less(&drag)
}

/// Whether the release of the button picks among the trails: they are on, and the
/// drag distance still makes a click. Where it does not, nothing is picked.
pub fn click_picks(duration_s: u32, drag: Scalar) -> (r: bool)
    ensures
        r <==> duration_s > 0 && (drag.is_nan() || !Scalar::exceeds(drag, CLICK_PIXELS as int)),
{
    duration_s > 0 && is_click(drag)
}

/// Whether the cursor can hover over a trail: trails are on, and there are bodies.
pub fn can_hover(duration_s: u32, bodies: usize) -> (r: bool)
    ensures
        r == (duration_s > 0 && bodies > 0),
{
    duration_s > 0 && bodies > 0
}

/// Whether the cursor hovers over a trail: a point is near enough. The distances
/// are those of all points looked at; a point out of view has none.
pub fn hovers(distances: &Vec<Option<Scalar>>) -> (r: bool)
    ensures
        r <==> exists|i: int|
            0 <= i < distances@.len() && (#[trigger] distances@[i]) is Some
                && distances@[i]->0.under(HIT_PIXELS as int, 0),
{
    let mut i: usize = 0;
    while i < distances.len()
        invariant
            i <= distances@.len(),
            forall|k: int|
                0 <= k < i && (#[trigger] distances@[k]) is Some ==> !distances@[k]->0.under(
                    HIT_PIXELS as int,
                    0,
                ),
        decreases distances@.len() - i,
    {
        let near: bool = match distances[i] {
            Some(d) => hits(d),
            None => false,
        };
        if near {
            assert(distances@[i as int] is Some);
            return true;
        }
        i = i + 1;
    }
    false
}

/// The body hit by a click: the one with the trail point nearest to the cursor,
/// the first of equal ones, if that is near enough. The distances are those of
/// all points looked at, body by body; a point out of view has none.
pub fn clicked_body(distances: &Vec<Option<Scalar>>, bodies: &Vec<usize>) -> (r: Option<usize>)
    requires
        distances@.len() == bodies@.len(),
    ensures
        r is Some <==> exists|i: int|
            0 <= i < distances@.len() && (#[trigger] distances@[i]) is Some
                && distances@[i]->0.under(HIT_PIXELS as int, 0),
        r matches Some(b) ==> exists|i: int| #[trigger]
            nearest_at(distances@, i) && bodies@[i] == b,
        r matches Some(b) ==> exists|i: int|
            0 <= i < distances@.len() && (#[trigger] distances@[i]) is Some && bodies@[i] == b
                && distances@[i]->0.under(30, 0) && forall|k: int|
                0 <= k < distances@.len() && (#[trigger] distances@[k]) is Some
                    ==> !distances@[k]->0.lt(distances@[i]->0) && (k < i ==> !distances@[k]->0.le(
                    distances@[i]->0,
                )),
{
    let mut nearest: Nearest = Nearest::new();
    let mut i: usize = 0;
    while i < distances.len()
        invariant
            i <= distances@.len(),
            nearest.wf(),
            nearest.seen() == distances@.take(i as int),
        decreases distances@.len() - i,
    {
        let _closer: bool = nearest.offer(i, distances[i]);
        assert(distances@.take(i as int).push(distances@[i as int]) =~= distances@.take(i + 1));
        i = i + 1;
    }
    assert(distances@.take(i as int) =~= distances@);
    proof {
        Scalar::lemma_under_is_finite(HIT_PIXELS);
    }
    match nearest.result() {
        Some(found) => {
            let ghost p = found.0 as int;
            if hits(found.1) {
                assert(nearest_at(distances@, p));
                assert(distances@[p] is Some);
                Some(bodies[found.0])
            } else {
                proof {
                    assert forall|k: int|
                        0 <= k < distances@.len() && (
                        #[trigger] distances@[k]) is Some implies !distances@[k]->0.under(
                        HIT_PIXELS as int,
                        0,
                    ) by {
                        assert(!distances@[k]->0.lt(found.1));
                        Scalar::lemma_under_is_downward(
                            distances@[k]->0,
                            found.1,
                            HIT_PIXELS as int,
                            0,
                        );
                    }
                }
                None
            }
        },
        None => {
            proof {
                assert forall|k: int|
                    0 <= k < distances@.len() && (
                    #[trigger] distances@[k]) is Some implies !distances@[k]->0.under(
                    HIT_PIXELS as int,
                    0,
                ) by {
                    let far = Scalar { bits: MAX_BITS };
                    assert(!distances@[k]->0.lt(far));
                    Scalar::lemma_under_is_downward(
                        distances@[k]->0,
                        far,
                        HIT_PIXELS as int,
                        0,
                    );
                }
            }
            None
        },
    }
}

/// How a point of a trail is brought into a frame.
#[derive(Clone, Copy, PartialEq, Eq, Structural, Debug)]
pub enum TrailTransform {
    /// It stays where it is.
    AsIs,
    /// It goes with the Moon from where the Moon was to where it is.
    Shift,
    /// It turns with the direction of the Moon.
    Turn,
    /// It turns with the direction of the Moon and grows with its distance.
    TurnAndScale,
}

/// How a point is brought into a frame, by the distance, in kilometres, that the
/// Moon had and the one that it has. Without a distance there is no direction.
pub fn trail_transform(frame: TrailFrame, distance_then: Scalar, distance_now: Scalar) -> (r:
    TrailTransform)
    ensures
        r == (match frame {
            TrailFrame::J2000 => TrailTransform::AsIs,
            TrailFrame::MoonCentered => TrailTransform::Shift,
            _ => if distance_then.under(1, 0) || distance_now.under(1, 0) {
                TrailTransform::AsIs
            } else if frame is Synodic {
                TrailTransform::Turn
            } else {
                TrailTransform::TurnAndScale
            },
        }),
{
    match frame {
        TrailFrame::J2000 => TrailTransform::AsIs,
        TrailFrame::MoonCentered => TrailTransform::Shift,
        _ => if distance_then.is_under(1, 0) || distance_now.is_under(1, 0) {
            TrailTransform::AsIs
        } else if frame == TrailFrame::Synodic {
            TrailTransform::Turn
        } else {
            TrailTransform::TurnAndScale
        },
    }
}

/// Bits of the sine, a trillionth, of the least turn that has an axis.
pub const LEAST_SINE_BITS: u64 = 0x3D71_9799_812D_EA11;

/// How far a direction has turned.
#[derive(Clone, Copy, PartialEq, Eq, Structural, Debug)]
pub enum TurnKind {
    /// Not at all: what turns with it stays.
    NoTurn,
    /// To the opposite one, so that the two directions give no axis.
    HalfTurn,
    /// By an angle about an axis that the two directions give.
    AboutAxis,
}

/// How far a direction has turned, by the sine and the cosine of the angle.
pub fn turn_kind(sine: Scalar, cosine: Scalar) -> (r: TurnKind)
    ensures
        r == (if !sine.lt(Scalar { bits: LEAST_SINE_BITS }) {
            TurnKind::AboutAxis
        } else if !cosine.is_nan() && cosine.value() < 0 {
            TurnKind::HalfTurn
        } else {
            TurnKind::NoTurn
        }),
{
    let least: Scalar = Scalar { bits: LEAST_SINE_BITS };
    let zero: Scalar = Scalar { bits: 0 };
    proof {
        crate::scalar::lemma_magnitude_zero();
    }
    if !sine.less(&least) {
        TurnKind::AboutAxis
    } else if cosine.less(&zero) {
        TurnKind::HalfTurn
    } else {
        TurnKind::NoTurn
    }
}

/// How the cursor changes when it comes near a trail or leaves it.
pub fn hover_change(hovering: bool, near: bool) -> (r: Option<bool>)
    ensures
        r == (if hovering == near {
            None::<bool>
        } else {
            Some(near)
        }),
{
    if hovering == near {
        None
    } else {
        Some(near)
    }
}

/// Whether the trail of a body is drawn: trails are on, it has two points, and
/// the body is at least a second old.
pub fn trail_drawn(duration_s: u32, points: usize, age: Scalar) -> (r: bool)
    ensures
        r == (duration_s > 0 && points >= 2 && !age.under(1, 0)),
{
    duration_s > 0 && points >= 2 && !age.is_under(1, 0)
}

/// Whether the trail of a body is dimmed: another body is selected.
pub fn trail_dimmed(selected: Option<usize>, body: usize) -> (r: bool)
    ensures
        r == (selected is Some && selected != Some(body)),
{
    match selected {
        Some(s) => s != body,
        None => false,
    }
}

/// The trails of Earth and Moon, for changes of frame.
pub struct BodyTrails<S> {
    pub earth: Vec<TrailPoint<S>>,
    pub moon: Vec<TrailPoint<S>>,
}

impl<S> BodyTrails<S> {
    /// Whether the trail of the Moon always goes forward in time.
    pub open spec fn wf(self) -> bool {
        strictly_in_time_order(epochs(self.moon@))
    }

    /// Whether the last point of the Moon's trail is later than an epoch.
    pub open spec fn is_ahead_of(self, epoch: UtcInstant) -> bool {
        self.moon@.len() > 0 && self.moon@.last().epoch.utc_nanos > epoch.utc_nanos
    }

    /// Whether an epoch is later than the last point of the Moon's trail.
    pub open spec fn is_behind(self, epoch: UtcInstant) -> bool {
        self.moon@.len() > 0 ==> self.moon@.last().epoch.utc_nanos < epoch.utc_nanos
    }

    /// Whether recording an epoch leads to other trails: Earth is added, and the
    /// Moon where it is known.
    pub open spec fn records_to(
        self,
        after: BodyTrails<S>,
        epoch: UtcInstant,
        earth: S,
        moon: Option<S>,
    ) -> bool {
        &&& after.earth@ == self.earth@.push((TrailPoint { epoch, state: earth }))
        &&& match moon {
            Some(state) => after.moon@ == self.moon@.push((TrailPoint { epoch, state })),
            None => after.moon@ == self.moon@,
        }
    }

    /// No trails yet.
    pub fn new() -> (r: Self)
        ensures
            r.wf(),
            r.earth@.len() == 0,
            r.moon@.len() == 0,
    {
        BodyTrails { earth: Vec::new(), moon: Vec::new() }
    }

    /// Drops both trails.
    pub fn clear(&mut self)
        ensures
            final(self).wf(),
            final(self).earth@.len() == 0,
            final(self).moon@.len() == 0,
    {
        self.earth.clear();
        self.moon.clear();
    }

    /// Drops both trails if time went back; tells whether it did.
    pub fn rewind(&mut self, epoch: UtcInstant) -> (r: bool)
        requires
            old(self).wf(),
        ensures
            final(self).wf(),
            r == old(self).is_ahead_of(epoch),
            r <==> old(self).moon@.len() > 0 && old(self).moon@.last().epoch.utc_nanos
                > epoch.utc_nanos,
            r ==> final(self).earth@.len() == 0 && final(self).moon@.len() == 0,
            !r ==> *final(self) == *old(self),
            !final(self).is_ahead_of(epoch),
    {
        let n: usize = self.moon.len();
        if n > 0 && self.moon[n - 1].epoch.utc_nanos > epoch.utc_nanos {
            self.clear();
            true
        } else {
            false
        }
    }

    /// Whether an epoch is to be recorded: it is later than all that is there.
    pub fn wants(&self, epoch: UtcInstant) -> (r: bool)
        ensures
            r == self.is_behind(epoch),
            r <==> self.moon@.len() == 0 || self.moon@.last().epoch.utc_nanos < epoch.utc_nanos,
    {
        let n: usize = self.moon.len();
        n == 0 || self.moon[n - 1].epoch.utc_nanos < epoch.utc_nanos
    }

    /// Records an epoch. Where the Moon is not known, only Earth is recorded.
    pub fn record(&mut self, epoch: UtcInstant, earth: S, moon: Option<S>)
        requires
            old(self).wf(),
            old(self).is_behind(epoch),
        ensures
            final(self).wf(),
            old(self).records_to(*final(self), epoch, earth, moon),
    {
        let ghost before = self.moon@;
        self.earth.push(TrailPoint { epoch, state: earth });
        match moon {
            Some(state) => {
                self.moon.push(TrailPoint { epoch, state });
                proof {
                    let e = epochs(before);
                    let f = epochs(self.moon@);
                    assert forall|i: int, j: int| 0 <= i < j < f.len() implies #[trigger] f[i]
                        < #[trigger] f[j] by {
                        assert(f[i] == e[i]);
                        if j < e.len() {
                            assert(f[j] == e[j]);
                        } else {
                            let l = e.len() - 1;
                            assert(e[l] == before.last().epoch.utc_nanos as int);
                            if i < l {
                                assert(e[i] < e[l]);
                            }
                        }
                    }
                }
            },
            None => {},
        }
    }
}

/// As long as the Moon is always known, both trails have the same epochs.
pub proof fn lemma_trails_stay_together<S>(
    before: BodyTrails<S>,
    after: BodyTrails<S>,
    epoch: UtcInstant,
    earth: S,
    moon: S,
)
    requires
        epochs(before.earth@) == epochs(before.moon@),
        before.records_to(after, epoch, earth, Some(moon)),
    ensures
        epochs(after.earth@) == epochs(after.moon@),
{
    let e = epochs(after.earth@);
    let m = epochs(after.moon@);
    assert(epochs(before.earth@).len() == before.earth@.len());
    assert(epochs(before.moon@).len() == before.moon@.len());
    assert forall|i: int| 0 <= i < e.len() implies e[i] == m[i] by {
        if i < before.earth@.len() {
            assert(e[i] == epochs(before.earth@)[i]);
            assert(m[i] == epochs(before.moon@)[i]);
        }
    }
    assert(e =~= m);
}

/// The times between which a trail is shown start so many seconds back.
pub fn trail_cutoff(now: UtcInstant, duration_s: u32) -> (r: UtcInstant)
    ensures
        r.utc_nanos == now.earlier(duration_s as int),
        now.utc_nanos - duration_s * 1_000_000_000 >= crate::epoch::EARLIEST_NANOS ==> r.utc_nanos
            == now.utc_nanos - duration_s * 1_000_000_000,
{
    now.minus_seconds(duration_s)
}

/// A lookup goes forward from its hint over all points that are not later than the
/// time, and stops before the first that is.
pub proof fn lemma_lookup_stops_before_later_points(e: Seq<int>, time: int, hint: int)
    requires
        0 <= hint < e.len(),
    ensures
        hint <= place_from(e, time, hint) < e.len(),
        forall|i: int| hint < i <= place_from(e, time, hint) ==> #[trigger] e[i] <= time,
        place_from(e, time, hint) + 1 < e.len() ==> e[place_from(e, time, hint) + 1] > time,
    decreases e.len() - hint,
{
    if hint + 1 < e.len() && e[hint + 1] <= time {
        lemma_lookup_stops_before_later_points(e, time, hint + 1);
    }
}

/// Each lookup of a series starts where the one before stopped, and the first at the
/// start of the reference trail.
pub proof fn lemma_lookups_are_carried_on(reference: Seq<int>, times: Seq<int>, count: int)
    requires
        reference.len() > 0,
        0 <= count < times.len(),
    ensures
        carried_place(reference, times, 0) == 0,
        0 <= carried_place(reference, times, count) < reference.len(),
        carried_place(reference, times, count) <= carried_place(reference, times, count + 1)
            < reference.len(),
        forall|i: int|
            carried_place(reference, times, count) < i <= carried_place(reference, times, count + 1)
                ==> #[trigger] reference[i] <= times[count],
        carried_place(reference, times, count + 1) + 1 < reference.len() ==> reference[carried_place(
            reference,
            times,
            count + 1,
        ) + 1] > times[count],
    decreases count,
{
    if count > 0 {
        lemma_lookups_are_carried_on(reference, times, count - 1);
    }
    lemma_lookup_stops_before_later_points(
        reference,
        times[count],
        carried_place(reference, times, count),
    );
}

/// The epochs of a trail are those of its points, one for one. They are in time
/// order just if none is later than one behind it, and strictly so if each is
/// earlier.
pub proof fn lemma_epochs_of_a_trail<S>(trail: Seq<TrailPoint<S>>, i: int, j: int)
    requires
        0 <= i < j < trail.len(),
    ensures
        epochs(trail).len() == trail.len(),
        epochs(trail)[i] == trail[i].epoch.utc_nanos,
        in_time_order(epochs(trail)) ==> trail[i].epoch.utc_nanos <= trail[j].epoch.utc_nanos,
        strictly_in_time_order(epochs(trail)) ==> trail[i].epoch.utc_nanos
            < trail[j].epoch.utc_nanos,
{
    let e = epochs(trail);
    assert(e[i] == trail[i].epoch.utc_nanos as int && e[j] == trail[j].epoch.utc_nanos as int);
}

/// Trails of Earth and Moon are ahead of an epoch that the last point of the Moon is
/// later than, and behind one that is later than all of them. Recording adds one
/// point to the trail of Earth, and one to that of the Moon where it is known.
pub proof fn lemma_trails_and_epochs<S>(
    trails: BodyTrails<S>,
    after: BodyTrails<S>,
    epoch: UtcInstant,
    earth: S,
    moon: Option<S>,
)
    requires
        trails.records_to(after, epoch, earth, moon),
    ensures
        trails.is_ahead_of(epoch) <==> trails.moon@.len() > 0
            && trails.moon@.last().epoch.utc_nanos > epoch.utc_nanos,
        trails.is_behind(epoch) <==> trails.moon@.len() == 0
            || trails.moon@.last().epoch.utc_nanos < epoch.utc_nanos,
        after.earth@.len() == trails.earth@.len() + 1,
        after.earth@.drop_last() == trails.earth@,
        after.earth@.last() == (TrailPoint { epoch, state: earth }),
        moon is None ==> after.moon@ == trails.moon@,
        moon matches Some(state) ==> after.moon@.len() == trails.moon@.len() + 1
            && after.moon@.drop_last() == trails.moon@ && after.moon@.last() == (TrailPoint {
            epoch,
            state,
        }),
{
}

/// The bits of the least sine that has an axis stand for the greatest number that is
/// not more than a trillionth.
pub proof fn lemma_least_sine()
    ensures
        1_000_000_000_000 * (Scalar { bits: LEAST_SINE_BITS }).value() <= pow2(1074),
        1_000_000_000_000 * (Scalar { bits: (LEAST_SINE_BITS + 1) as u64 }).value() > pow2(1074),
{
    lemma_value_by_bits(983, 0x1_9799_812D_EA11);
    lemma_value_by_bits(983, 0x1_9799_812D_EA12);
    vstd::arithmetic::power2::lemma2_to64();
    vstd::arithmetic::power2::lemma2_to64_rest();
    vstd::arithmetic::power2::lemma_pow2_adds(60, 32);
    vstd::arithmetic::power2::lemma_pow2_adds(92, 982);
    vstd::arithmetic::power2::lemma_pow2_pos(982);
    let a = pow2(982) as int;
    assert(pow2(92) == 0x1000_0000_0000_0000 * 0x1_0000_0000);
    assert(1_000_000_000_000 * (0x11_9799_812D_EA11 * a) <= (0x1000_0000_0000_0000 * 0x1_0000_0000)
        * a) by (nonlinear_arith)
        requires
            a > 0,
    ;
    assert(1_000_000_000_000 * (0x11_9799_812D_EA12 * a) > (0x1000_0000_0000_0000 * 0x1_0000_0000)
        * a) by (nonlinear_arith)
        requires
            a > 0,
    ;
}

} // verus!
