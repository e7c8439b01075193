//! Ranking by cost: the order of results, and the nearest of a series.

use crate::scalar::Scalar;
use vstd::prelude::*;

verus! {

/// Whether a cost is better than another. What is not a number is worst.
pub open spec fn better(x: Scalar, y: Scalar) -> bool {
    x.lt(y) || (!x.is_nan() && y.is_nan())
}

/// Whether a cost is better than another. What is not a number is worst.
pub fn is_better(x: &Scalar, y: &Scalar) -> (r: bool)
    ensures
        r == better(*x, *y),
{
    x.less(y) || (!x.not_a_number() && y.not_a_number())
}

/// Something with a cost.
pub struct Scored<R> {
    pub cost: Scalar,
    pub item: R,
}

/// The costs of scored items.
pub open spec fn costs<R>(s: Seq<Scored<R>>) -> Seq<Scalar> {
    s.map_values(|x: Scored<R>| x.cost)
}

/// Whether one place ranks ahead of another: by the better cost, and among equal
/// costs by the earlier place.
pub open spec fn ahead(c: Seq<Scalar>, i: int, j: int) -> bool {
    better(c[i], c[j]) || (!better(c[j], c[i]) && i < j)
}

/// Whether a list of places names each place once and ranks them all.
pub open spec fn ranks(c: Seq<Scalar>, order: Seq<int>) -> bool {
    &&& order.len() == c.len()
    &&& forall|a: int| 0 <= a < order.len() ==> 0 <= #[trigger] order[a] < c.len()
    &&& forall|i: int| 0 <= i < c.len() ==> #[trigger] order.contains(i)
    &&& forall|a: int, b: int|
        0 <= a < b < order.len() ==> ahead(c, #[trigger] order[a], #[trigger] order[b])
}

/// The items at the given places.
pub open spec fn picked<A>(s: Seq<A>, order: Seq<int>) -> Seq<A> {
    Seq::new(order.len(), |a: int| s[order[a]])
}

/// A list can be ranked in one way only.
pub proof fn lemma_ranking_is_unique(c: Seq<Scalar>, first: Seq<int>, second: Seq<int>)
    requires
        ranks(c, first),
        ranks(c, second),
    ensures
        first == second,
{
    assert forall|k: int| 0 <= k < c.len() implies first[k] == second[k] by {
        lemma_same_up_to(c, first, second, k);
    }
    assert(first =~= second);
}

proof fn lemma_same_up_to(c: Seq<Scalar>, first: Seq<int>, second: Seq<int>, k: int)
    requires
        ranks(c, first),
        ranks(c, second),
        0 <= k < c.len(),
    ensures
        first[k] == second[k],
    decreases k,
{
    assert forall|j: int| 0 <= j < k implies first[j] == second[j] by {
        lemma_same_up_to(c, first, second, j);
    }
    assert(second.contains(first[k]));
    let p = choose|p: int| 0 <= p < second.len() && second[p] == first[k];
    assert(first.contains(second[k]));
    let q = choose|q: int| 0 <= q < first.len() && first[q] == second[k];
    if p < k {
        assert(ahead(c, first[p], first[k]));
    }
    if q < k {
        assert(ahead(c, second[q], second[k]));
    }
    if p > k && q > k {
        assert(ahead(c, second[k], second[p]));
        assert(ahead(c, first[k], first[q]));
    }
}

/// Whether a list is in ranked order: no item is better than one before it.
pub open spec fn in_order(c: Seq<Scalar>) -> bool {
    forall|a: int, b: int| 0 <= a < b < c.len() ==> !better(#[trigger] c[b], #[trigger] c[a])
}

/// Ranking a list puts it in order, and its first item is a best one.
pub proof fn lemma_ranked_is_in_order(c: Seq<Scalar>, order: Seq<int>)
    requires
        ranks(c, order),
    ensures
        in_order(picked(c, order)),
        c.len() > 0 ==> forall|i: int|
            0 <= i < c.len() ==> !better(#[trigger] c[i], picked(c, order)[0]),
{
    assert forall|i: int| c.len() > 0 && 0 <= i < c.len() implies !better(
        #[trigger] c[i],
        picked(c, order)[0],
    ) by {
        assert(order.contains(i));
        let p = choose|p: int| 0 <= p < order.len() && order[p] == i;
        if p > 0 {
            assert(ahead(c, order[0], order[p]));
        }
    }
}

/// The place at which a cost joins a list in order, behind those equal to it.
fn joining_place<R>(sorted: &Vec<Scored<R>>, cost: Scalar) -> (place: usize)
    requires
        in_order(costs(sorted@)),
    ensures
        place <= sorted@.len(),
        forall|a: int| 0 <= a < place ==> !better(cost, #[trigger] sorted@[a].cost),
        forall|a: int|
            place <= a < sorted@.len() ==> better(cost, #[trigger] sorted@[a].cost),
{
    let ghost c = costs(sorted@);
    let mut low: usize = 0;
    let mut high: usize = sorted.len();
    while low < high
        invariant
            low <= high <= sorted@.len(),
            c == costs(sorted@),
            in_order(c),
            forall|a: int| 0 <= a < low ==> !better(cost, #[trigger] sorted@[a].cost),
            forall|a: int|
                high <= a < sorted@.len() ==> better(cost, #[trigger] sorted@[a].cost),
        decreases high - low,
    {
        let mid: usize = low + (high - low) / 2;
        assert(c[mid as int] == sorted@[mid as int].cost);
        if is_better(&cost, &sorted[mid].cost) {
            assert forall|a: int| mid <= a < sorted@.len() implies better(
                cost,
                #[trigger] sorted@[a].cost,
            ) by {
                assert(c[a] == sorted@[a].cost);
                if a > mid {
                    assert(!better(c[a], c[mid as int]));
                }
            }
            high = mid;
        } else {
            assert forall|a: int| 0 <= a <= mid implies !better(
                cost,
                #[trigger] sorted@[a].cost,
            ) by {
                assert(c[a] == sorted@[a].cost);
                if a < mid {
                    assert(!better(c[mid as int], c[a]));
                }
            }
            low = mid + 1;
        }
    }
    low
}

proof fn lemma_insert_ranks(c: Seq<Scalar>, order: Seq<int>, cost: Scalar, place: int)
    requires
        ranks(c, order),
        0 <= place <= c.len(),
        forall|a: int| 0 <= a < place ==> !better(cost, c[#[trigger] order[a]]),
        forall|a: int| place <= a < c.len() ==> better(cost, c[#[trigger] order[a]]),
    ensures
        ranks(c.push(cost), order.insert(place, c.len() as int)),
{
    let n = c.len() as int;
    let d = c.push(cost);
    let next = order.insert(place, n);
    assert forall|i: int| 0 <= i < d.len() implies #[trigger] next.contains(i) by {
        if i == n {
            assert(next[place] == n);
        } else {
            assert(order.contains(i));
            let p = choose|p: int| 0 <= p < order.len() && order[p] == i;
            if p < place {
                assert(next[p] == i);
            } else {
                assert(next[p + 1] == i);
            }
        }
    }
    assert forall|a: int| 0 <= a < next.len() implies 0 <= #[trigger] next[a] < d.len() by {
        if a < place {
            assert(next[a] == order[a]);
        } else if a > place {
            assert(next[a] == order[a - 1]);
        }
    }
    assert forall|a: int, b: int| 0 <= a < b < next.len() implies ahead(
        d,
        #[trigger] next[a],
        #[trigger] next[b],
    ) by {
        let x = if a < place {
            a
        } else {
            a - 1
        };
        let y = if b < place {
            b
        } else {
            b - 1
        };
        if a != place && b != place {
            assert(next[a] == order[x] && next[b] == order[y]);
            assert(ahead(c, order[x], order[y]));
        } else if a == place {
            assert(next[b] == order[y]);
            assert(better(cost, c[order[y]]));
        } else {
            assert(next[a] == order[x]);
            assert(!better(cost, c[order[x]]));
        }
    }
}

/// The items from the best cost to the worst, equal costs in the order given.
pub fn sort_by_cost<R>(items: Vec<Scored<R>>) -> (sorted: Vec<Scored<R>>)
    ensures
        exists|order: Seq<int>|
            ranks(costs(items@), order) && sorted@ == #[trigger] picked(items@, order),
        in_order(costs(sorted@)),
        sorted@.len() == items@.len(),
        sorted@.to_multiset() == items@.to_multiset(),
        forall|a: int, b: int|
            0 <= a < b < sorted@.len() ==> !(#[trigger] sorted@[b]).cost.lt(
                (#[trigger] sorted@[a]).cost,
            ) && (sorted@[a].cost.is_nan() ==> sorted@[b].cost.is_nan()),
{
    let mut rest: Vec<Scored<R>> = items;
    let mut given: Vec<Scored<R>> = Vec::new();
    let ghost all = rest@;
    while rest.len() > 0
        invariant
            rest@.len() + given@.len() == all.len(),
            rest@ == all.take(rest@.len() as int),
            forall|a: int|
                0 <= a < given@.len() ==> #[trigger] given@[a] == all[all.len() - 1 - a],
        decreases rest@.len(),
    {
        match rest.pop() {
            Some(x) => {
                given.push(x);
            },
            None => {},
        }
    }
    let mut sorted: Vec<Scored<R>> = Vec::new();
    let ghost mut order: Seq<int> = Seq::empty();
    let ghost mut done: int = 0;
    assert(costs(all.take(0)) =~= Seq::<Scalar>::empty());
    while given.len() > 0
        invariant
            done + given@.len() == all.len(),
            0 <= done,
            forall|a: int|
                0 <= a < given@.len() ==> #[trigger] given@[a] == all[all.len() - 1 - a],
            ranks(costs(all.take(done)), order),
            sorted@ == picked(all, order),
        decreases given@.len(),
    {
        let ghost c = costs(all.take(done));
        proof {
            lemma_ranked_is_in_order(c, order);
            assert(picked(c, order) =~= costs(sorted@));
        }
        match given.pop() {
            Some(x) => {
                let place: usize = joining_place(&sorted, x.cost);
                proof {
                    assert(x == all[done]);
                    assert forall|a: int| 0 <= a < place implies !better(
                        x.cost,
                        c[#[trigger] order[a]],
                    ) by {
                        assert(sorted@[a].cost == c[order[a]]);
                    }
                    assert forall|a: int| place <= a < c.len() implies better(
                        x.cost,
                        c[#[trigger] order[a]],
                    ) by {
                        assert(sorted@[a].cost == c[order[a]]);
                    }
                    lemma_insert_ranks(c, order, x.cost, place as int);
                    let next = order.insert(place as int, done);
                    assert(c.push(x.cost) =~= costs(all.take(done + 1)));
                    assert(picked(all, order).insert(place as int, x) =~= picked(all, next));
                    order = next;
                    done = done + 1;
                }
                sorted.insert(place, x);
            },
            None => {},
        }
    }
    proof {
        assert(all.take(done) =~= all);
        lemma_ranked_is_in_order(costs(all), order);
        assert(picked(costs(all), order) =~= costs(sorted@));
        lemma_picking_keeps_the_items(all, costs(all), order);
        assert forall|a: int, b: int| 0 <= a < b < sorted@.len() implies !(
        #[trigger] sorted@[b]).cost.lt((#[trigger] sorted@[a]).cost) && (
        sorted@[a].cost.is_nan() ==> sorted@[b].cost.is_nan()) by {
            assert(!better(costs(sorted@)[b], costs(sorted@)[a]));
        }
    }
    sorted
}

/// The nearest of a series of distances: the first that none after it undercuts,
/// among those less than the greatest finite number.
pub struct Nearest {
    distance: Scalar,
    place: usize,
    found: bool,
    seen: Ghost<Seq<Option<Scalar>>>,
}

/// Whether a place holds the nearest distance of a series: below the greatest
/// finite number, undercut by none, and undercutting all before it.
pub open spec fn nearest_at(seen: Seq<Option<Scalar>>, place: int) -> bool {
    &&& 0 <= place < seen.len()
    &&& seen[place] is Some
    &&& seen[place]->0.lt(Scalar { bits: crate::scalar::MAX_BITS })
    &&& forall|i: int|
        0 <= i < seen.len() && (#[trigger] seen[i]) is Some ==> !seen[i]->0.lt(seen[place]->0)
    &&& forall|i: int|
        0 <= i < place && (#[trigger] seen[i]) is Some ==> !seen[i]->0.le(seen[place]->0)
}

/// Whether every distance of a series that is there is as far as can be, or not
/// a number.
pub open spec fn none_near(seen: Seq<Option<Scalar>>) -> bool {
    forall|i: int|
        0 <= i < seen.len() && (#[trigger] seen[i]) is Some ==> !seen[i]->0.lt(
            Scalar { bits: crate::scalar::MAX_BITS },
        )
}

impl Nearest {
    /// The distances offered so far; one that could not be had is `None`.
    pub closed spec fn seen(self) -> Seq<Option<Scalar>> {
        self.seen@
    }

    pub closed spec fn wf(self) -> bool {
        &&& !self.distance.is_nan()
        &&& self.found ==> nearest_at(self.seen@, self.place as int) && self.seen@[self.place as int]
            == Some(self.distance)
        &&& !self.found ==> none_near(self.seen@) && self.distance.bits
            == crate::scalar::MAX_BITS
    }

    /// Nothing offered yet.
    pub fn new() -> (r: Nearest)
        ensures
            r.wf(),
            r.seen() == Seq::<Option<Scalar>>::empty(),
    {
        Nearest {
            distance: Scalar::max_finite(),
            place: 0,
            found: false,
            seen: Ghost(Seq::empty()),
        }
    }

    /// Takes the next distance into account; tells whether it is the nearest so far.
    pub fn offer(&mut self, place: usize, distance: Option<Scalar>) -> (r: bool)
        requires
            old(self).wf(),
            place == old(self).seen().len(),
        ensures
            final(self).wf(),
            final(self).seen() == old(self).seen().push(distance),
            r == nearest_at(final(self).seen(), place as int),
    {
        let ghost before = self.seen@;
        let ghost after = self.seen@.push(distance);
        self.seen = Ghost(after);
        proof {
            assert(forall|i: int| 0 <= i < before.len() ==> after[i] == #[trigger] before[i]);
        }
        let mut closer: bool = false;
        if let Some(d) = distance {
            if d.less(&self.distance) {
                closer = true;
                self.distance = d;
                self.place = place;
                self.found = true;
            }
        }
        proof {
            let far = Scalar { bits: crate::scalar::MAX_BITS };
            if closer {
                let d = distance->0;
                assert(nearest_at(after, place as int)) by {
                    assert forall|i: int|
                        0 <= i < after.len() && (#[trigger] after[i]) is Some implies !after[i]->0.lt(
                        d,
                    ) by {
                        if i < place {
                            assert(after[i] == before[i]);
                        }
                    }
                    assert forall|i: int|
                        0 <= i < place && (#[trigger] after[i]) is Some implies !after[i]->0.le(
                        d,
                    ) by {
                        assert(after[i] == before[i]);
                    }
                }
            } else {
                if old(self).found {
                    let p = self.place as int;
                    assert(after[p] == before[p]);
                    assert(nearest_at(after, p));
                    if nearest_at(after, place as int) {
                        assert(after[place as int] == distance);
                        assert(!after[p]->0.le(after[place as int]->0));
                    }
                } else {
                    assert(none_near(after));
                    assert(!nearest_at(after, place as int));
                }
            }
        }
        closer
    }

    /// The place and the distance of the nearest, where one is near at all.
    pub fn result(&self) -> (r: Option<(usize, Scalar)>)
        requires
            self.wf(),
        ensures
            match r {
                Some(n) => nearest_at(self.seen(), n.0 as int) && self.seen()[n.0 as int] == Some(
                    n.1,
                ),
                None => none_near(self.seen()),
            },
    {
        if self.found {
            Some((self.place, self.distance))
        } else {
            None
        }
    }

    /// The distance of the nearest, or the greatest finite number.
    pub fn distance(&self) -> (r: Scalar)
        requires
            self.wf(),
        ensures
            none_near(self.seen()) ==> r.bits == crate::scalar::MAX_BITS,
            forall|p: int| #[trigger] nearest_at(self.seen(), p) ==> self.seen()[p] == Some(r),
    {
        proof {
            assert forall|p: int| #[trigger] nearest_at(self.seen(), p) implies self.seen()[p]
                == Some(self.distance) by {
                if self.found {
                    lemma_nearest_is_unique(self.seen(), p, self.place as int);
                }
            }
        }
        self.distance
    }
}

/// A series has its nearest distance at one place only.
pub proof fn lemma_nearest_is_unique(seen: Seq<Option<Scalar>>, p: int, q: int)
    requires
        nearest_at(seen, p),
        nearest_at(seen, q),
    ensures
        p == q,
{
}

proof fn lemma_picking_keeps_the_items<A>(s: Seq<A>, c: Seq<Scalar>, order: Seq<int>)
    requires
        s.len() == c.len(),
        ranks(c, order),
    ensures
        picked(s, order).to_multiset() == s.to_multiset(),
{
    assert forall|a: int, b: int| 0 <= a < b < order.len() implies #[trigger] order[a]
        != #[trigger] order[b] by {
        assert(ahead(c, order[a], order[b]));
    }
    lemma_permuted(s, order);
}

proof fn lemma_permuted<A>(s: Seq<A>, order: Seq<int>)
    requires
        order.len() == s.len(),
        forall|a: int| 0 <= a < order.len() ==> 0 <= #[trigger] order[a] < s.len(),
        forall|i: int| 0 <= i < s.len() ==> #[trigger] order.contains(i),
        forall|a: int, b: int|
            0 <= a < b < order.len() ==> #[trigger] order[a] != #[trigger] order[b],
    ensures
        picked(s, order).to_multiset() == s.to_multiset(),
    decreases s.len(),
{
    broadcast use vstd::seq_lib::group_to_multiset_ensures;

    let t = picked(s, order);
    if s.len() == 0 {
        assert(t =~= s);
    } else {
        let n = s.len() - 1;
        assert(order.contains(n));
        let p = choose|p: int| 0 <= p < order.len() && order[p] == n;
        let shorter = s.drop_last();
        let rest = order.remove(p);
        assert forall|a: int| 0 <= a < rest.len() implies 0 <= #[trigger] rest[a] < shorter.len() by {
            let k = if a < p {
                a
            } else {
                a + 1
            };
            assert(rest[a] == order[k]);
            assert(order[k] != order[p]);
        }
        assert forall|i: int| 0 <= i < shorter.len() implies #[trigger] rest.contains(i) by {
            assert(order.contains(i));
            let k = choose|k: int| 0 <= k < order.len() && order[k] == i;
            if k < p {
                assert(rest[k] == i);
            } else {
                assert(rest[k - 1] == i);
            }
        }
        assert forall|a: int, b: int| 0 <= a < b < rest.len() implies #[trigger] rest[a]
            != #[trigger] rest[b] by {
            let k = if a < p {
                a
            } else {
                a + 1
            };
            let l = if b < p {
                b
            } else {
                b + 1
            };
            assert(rest[a] == order[k] && rest[b] == order[l]);
            assert(order[k] != order[l]);
        }
        lemma_permuted(shorter, rest);
        assert(picked(shorter, rest) =~= t.remove(p));
        assert(t.remove(p).insert(p, t[p]) =~= t);
        assert(t.remove(p).to_multiset().insert(t[p]) =~= t.to_multiset());
        assert(shorter.push(s[n]) =~= s);
        assert(shorter.to_multiset().insert(s[n]) =~= s.to_multiset());
    }
}

/// A cost is better than another just if it is less, or if it is a number and the
/// other is not.
pub proof fn lemma_better_by_value(x: Scalar, y: Scalar)
    ensures
        !x.is_nan() && !y.is_nan() ==> (better(x, y) <==> x.value() < y.value()),
        x.is_nan() ==> !better(x, y),
        !x.is_nan() && y.is_nan() ==> better(x, y),
{
}

/// A ranking names each place once. Of two places it names the one with the better
/// cost first, and of equal ones the earlier.
pub proof fn lemma_ranking_by_value(c: Seq<Scalar>, order: Seq<int>, a: int, b: int)
    requires
        ranks(c, order),
        0 <= a < b < c.len(),
    ensures
        order.len() == c.len(),
        0 <= order[a] < c.len() && 0 <= order[b] < c.len() && order[a] != order[b],
        !better(c[order[b]], c[order[a]]),
        !better(c[order[a]], c[order[b]]) ==> order[a] < order[b],
{
    assert(ahead(c, order[a], order[b]));
}

/// Picking takes the items at the places named, in that order, and the costs of
/// items are theirs.
pub proof fn lemma_picking_by_place<R>(s: Seq<Scored<R>>, order: Seq<int>, a: int)
    requires
        0 <= a < order.len(),
        0 <= order[a] < s.len(),
    ensures
        picked(s, order).len() == order.len(),
        picked(s, order)[a] == s[order[a]],
        costs(s).len() == s.len(),
        costs(s)[order[a]] == s[order[a]].cost,
{
}

/// The nearest of a series is one that is there, less than the greatest finite
/// number; no other is less, and none before it is as near. Where any is that near,
/// there is a nearest one.
pub proof fn lemma_nearest_is_the_first_least(seen: Seq<Option<Scalar>>, place: int, i: int)
    requires
        0 <= i < seen.len(),
        seen[i] is Some,
    ensures
        nearest_at(seen, place) ==> 0 <= place < seen.len() && seen[place] is Some
            && !seen[place]->0.is_nan() && (!seen[i]->0.is_nan() ==> seen[place]->0.value()
            <= seen[i]->0.value()),
        nearest_at(seen, place) && i < place && !seen[i]->0.is_nan() ==> seen[place]->0.value()
            < seen[i]->0.value(),
        seen[i]->0.lt(Scalar { bits: 0x7FEF_FFFF_FFFF_FFFF }) ==> !none_near(seen) && exists|p: int|
            #[trigger] nearest_at(seen, p),
        nearest_at(seen, place) ==> !none_near(seen),
{
    if seen[i]->0.lt(Scalar { bits: 0x7FEF_FFFF_FFFF_FFFF }) {
        lemma_some_nearest(seen, i);
    }
}

proof fn lemma_some_nearest(seen: Seq<Option<Scalar>>, i: int)
    requires
        0 <= i < seen.len(),
        seen[i] is Some,
        seen[i]->0.lt(Scalar { bits: crate::scalar::MAX_BITS }),
    ensures
        exists|p: int| #[trigger] nearest_at(seen, p),
    decreases seen.len(),
{
    let before = seen.drop_last();
    let last = seen.len() - 1;
    if exists|k: int|
        0 <= k < before.len() && (#[trigger] before[k]) is Some && before[k]->0.lt(
            Scalar { bits: crate::scalar::MAX_BITS },
        ) {
        let k = choose|k: int|
            0 <= k < before.len() && (#[trigger] before[k]) is Some && before[k]->0.lt(
                Scalar { bits: crate::scalar::MAX_BITS },
            );
        lemma_some_nearest(before, k);
        let p = choose|p: int| #[trigger] nearest_at(before, p);
        assert(seen[p] == before[p]);
        if seen[last] is Some && seen[last]->0.lt(seen[p]->0) {
            assert forall|j: int|
                0 <= j < last && (#[trigger] seen[j]) is Some implies !seen[j]->0.le(
                seen[last]->0,
            ) by {
                assert(before[j] == seen[j]);
            }
            assert(nearest_at(seen, last));
        } else {
            assert forall|j: int|
                0 <= j < seen.len() && (#[trigger] seen[j]) is Some implies !seen[j]->0.lt(
                seen[p]->0,
            ) by {
                if j < last {
                    assert(before[j] == seen[j]);
                }
            }
            assert forall|j: int|
                0 <= j < p && (#[trigger] seen[j]) is Some implies !seen[j]->0.le(seen[p]->0) by {
                assert(before[j] == seen[j]);
            }
            assert(nearest_at(seen, p));
        }
    } else {
        if i < last {
            assert(before[i] == seen[i]);
        }
        assert(i == last);
        assert forall|j: int|
            0 <= j < last && (#[trigger] seen[j]) is Some implies !seen[j]->0.le(seen[last]->0)
            && !seen[j]->0.lt(seen[last]->0) by {
            assert(before[j] == seen[j]);
        }
        assert(nearest_at(seen, last));
    }
}

} // verus!
