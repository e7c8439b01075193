//! Where a search looks: grids, brackets, cached samples and arms of a map.

use crate::scalar::Scalar;
use vstd::prelude::*;

verus! {

/// A place on a range of values.
#[derive(Clone, Copy, PartialEq, Eq, Structural, Debug)]
pub enum Node {
    /// The lower end of the range.
    Start,
    /// The middle of the range.
    Middle,
    /// So many of so many equal parts into the range.
    Part { index: usize, of: usize },
}

/// The place of one of a number of evenly spread nodes. A node without company
/// stands where the caller says.
pub open spec fn node(index: int, count: int, alone: Node) -> Node {
    if count <= 1 {
        alone
    } else {
        Node::Part { index: index as usize, of: (count - 1) as usize }
    }
}

/// The place of one of a number of evenly spread nodes.
pub fn node_at(index: usize, count: usize, alone: Node) -> (r: Node)
    requires
        index < count,
    ensures
        r == node(index as int, count as int, alone),
        count > 1 ==> r is Part && r->index <= r->of && r->of > 0,
        count > 1 ==> r->index == index && r->of == count - 1,
        count <= 1 ==> r == alone,
{
    if count <= 1 {
        alone
    } else {
        Node::Part { index, of: count - 1 }
    }
}

/// All nodes of a grid, row by row: each row's node with each column's.
pub fn grid(rows: usize, columns: usize, alone: Node) -> (r: Vec<(Node, Node)>)
    requires
        rows * columns <= usize::MAX,
    ensures
        r@.len() == rows * columns,
        forall|i: int, j: int|
            0 <= i < rows && 0 <= j < columns ==> #[trigger] r@[i * columns + j] == (
                node(i, rows as int, alone),
                node(j, columns as int, alone),
            ),
{
    let mut out: Vec<(Node, Node)> = Vec::new();
    let mut row: usize = 0;
    while row < rows
        invariant
            row <= rows,
            out@.len() == row * columns,
            forall|i: int, j: int|
                0 <= i < row && 0 <= j < columns ==> #[trigger] out@[i * columns + j] == (
                    node(i, rows as int, alone),
                    node(j, columns as int, alone),
                ),
        decreases rows - row,
    {
        let mut column: usize = 0;
        while column < columns
            invariant
                row < rows,
                column <= columns,
                out@.len() == row * columns + column,
                forall|i: int, j: int|
                    0 <= i < row && 0 <= j < columns ==> #[trigger] out@[i * columns + j] == (
                        node(i, rows as int, alone),
                        node(j, columns as int, alone),
                    ),
                forall|j: int|
                    0 <= j < column ==> #[trigger] out@[row * columns + j] == (
                        node(row as int, rows as int, alone),
                        node(j, columns as int, alone),
                    ),
            decreases columns - column,
        {
            let ghost before = out@;
            out.push((node_at(row, rows, alone), node_at(column, columns, alone)));
            proof {
                assert forall|i: int, j: int|
                    0 <= i < row && 0 <= j < columns implies #[trigger] out@[i * columns + j] == (
                    node(i, rows as int, alone),
                    node(j, columns as int, alone),
                ) by {
                    lemma_cell(i, j, row as int, columns as int);
                    assert(out@[i * columns + j] == before[i * columns + j]);
                }
            }
            column = column + 1;
        }
        proof {
            assert((row + 1) * columns == row * columns + columns) by (nonlinear_arith);
            assert forall|i: int, j: int|
                0 <= i < row + 1 && 0 <= j < columns implies #[trigger] out@[i * columns + j] == (
                node(i, rows as int, alone),
                node(j, columns as int, alone),
            ) by {
                if i == row {
                    assert(i * columns + j == row * columns + j);
                }
            }
        }
        row = row + 1;
    }
    out
}

proof fn lemma_cell(i: int, j: int, row: int, columns: int)
    requires
        0 <= i < row,
        0 <= j < columns,
    ensures
        0 <= i * columns + j < row * columns,
{
    assert(0 <= i * columns + j < row * columns) by (nonlinear_arith)
        requires
            0 <= i < row,
            0 <= j < columns,
    ;
}

/// A grid holds each pair of nodes at one place, and nothing else.
pub proof fn lemma_grid_cells(place: int, rows: int, columns: int)
    requires
        0 <= place < rows * columns,
        0 <= rows,
        0 <= columns,
    ensures
        0 <= place / columns < rows,
        0 <= place % columns < columns,
        (place / columns) * columns + place % columns == place,
        forall|i: int, j: int|
            0 <= i < rows && 0 <= j < columns && #[trigger] (i * columns + j) == place ==> i == place
                / columns && j == place % columns,
{
    assert(columns > 0) by (nonlinear_arith)
        requires
            0 <= place < rows * columns,
            0 <= columns,
    ;
    vstd::arithmetic::div_mod::lemma_fundamental_div_mod(place, columns);
    assert((place / columns) * columns == columns * (place / columns)) by (nonlinear_arith);
    assert(0 <= place / columns < rows) by (nonlinear_arith)
        requires
            0 <= place < rows * columns,
            columns > 0,
            (place / columns) * columns + place % columns == place,
            0 <= place % columns < columns,
    ;
    assert forall|i: int, j: int|
        0 <= i < rows && 0 <= j < columns && #[trigger] (i * columns + j) == place implies i == place
        / columns && j == place % columns by {
        vstd::arithmetic::div_mod::lemma_fundamental_div_mod_converse(place, columns, i, j);
    }
}

/// What a grid scan calls for.
#[derive(Clone, Copy, PartialEq, Eq, Structural, Debug)]
pub enum AfterGrid {
    /// Nothing: the scan was cancelled, or found nothing.
    Stop,
    /// A refinement that starts on the three best points.
    Refine,
    /// The best point as it is.
    Keep,
}

/// What a grid scan with so many results calls for.
pub fn after_grid(cancelled: bool, results: usize) -> (r: AfterGrid)
    ensures
        r is Stop <==> cancelled || results == 0,
        r is Refine <==> !cancelled && results >= 3,
{
    if cancelled || results == 0 {
        AfterGrid::Stop
    } else if results >= 3 {
        AfterGrid::Refine
    } else {
        AfterGrid::Keep
    }
}

/// What an optimization ends with: the refined result where there is one, else
/// the best of the grid.
pub fn final_choice<R>(refined: Option<R>, best_of_grid: R) -> (r: R)
    ensures
        r == (match refined {
            Some(x) => x,
            None => best_of_grid,
        }),
{
    match refined {
        Some(x) => x,
        None => best_of_grid,
    }
}

/// How many hours are scanned for a number of perigees: 29 days for each, and
/// five more.
pub open spec fn scanned_hours(count: int) -> int {
    (count * 29 + 5) * 24
}

/// How many hours are scanned for a number of perigees.
pub fn hours_to_scan(count: usize) -> (r: usize)
    requires
        scanned_hours(count as int) <= usize::MAX,
    ensures
        r == scanned_hours(count as int),
        r == count * 696 + 120,
{
    (count * 29 + 5) * 24
}

/// Whether a sample is less than those on both sides of it.
pub open spec fn dips(samples: Seq<Scalar>, i: int) -> bool {
    0 < i < samples.len() - 1 && samples[i].lt(samples[i - 1]) && samples[i].lt(samples[i + 1])
}

/// The samples, up to an end, that are less than those on both sides of them.
pub open spec fn dips_before(samples: Seq<Scalar>, end: int) -> Seq<int>
    decreases end,
{
    if end <= 0 {
        Seq::empty()
    } else if dips(samples, end - 1) {
        dips_before(samples, end - 1).push(end - 1)
    } else {
        dips_before(samples, end - 1)
    }
}

/// The first dips of a series of samples, as many as are asked for: each is the
/// middle of the three samples between which a perigee lies.
pub fn first_dips(samples: &Vec<Scalar>, count: usize) -> (r: Vec<usize>)
    ensures
        r@.len() <= count,
        ({
            let all = dips_before(samples@, samples@.len() as int);
            &&& r@.len() == (if all.len() < count as int {
                all.len() as int
            } else {
                count as int
            })
            &&& forall|k: int| 0 <= k < r@.len() ==> #[trigger] r@[k] as int == all[k]
        }),
        forall|k: int|
            0 <= k < r@.len() ==> 0 < (#[trigger] r@[k]) < samples@.len() - 1
                && samples@[r@[k] as int].lt(samples@[r@[k] - 1]) && samples@[r@[k] as int].lt(
                samples@[r@[k] + 1],
            ),
        forall|k: int, l: int| 0 <= k < l < r@.len() ==> #[trigger] r@[k] < #[trigger] r@[l],
        forall|i: int|
            0 < i < samples@.len() - 1 && (#[trigger] samples@[i]).lt(samples@[i - 1])
                && samples@[i].lt(samples@[i + 1]) && (r@.len() < count || (r@.len() > 0 && i
                <= r@.last())) ==> r@.contains(i as usize),
{
    let mut out: Vec<usize> = Vec::new();
    let mut i: usize = 1;
    let ghost n = samples@.len() as int;
    proof {
        if n > 0 {
            assert(dips_before(samples@, 1) =~= Seq::empty()) by {
                reveal_with_fuel(dips_before, 2);
            }
        }
    }
    while i < samples.len() && i + 1 < samples.len() && out.len() < count
        invariant
            n == samples@.len(),
            1 <= i,
            i <= n || n == 0,
            out@.len() <= count,
            n > 0 ==> out@.len() == dips_before(samples@, i as int).len(),
            n > 0 ==> forall|k: int|
                0 <= k < out@.len() ==> #[trigger] out@[k] as int == dips_before(
                    samples@,
                    i as int,
                )[k],
            n == 0 ==> out@.len() == 0,
        decreases samples@.len() - i,
    {
        if samples[i].less(&samples[i - 1]) && samples[i].less(&samples[i + 1]) {
            out.push(i);
        }
        i = i + 1;
    }
    proof {
        if n > 0 {
            lemma_dips_continue(samples@, i as int, n);
        } else {
            assert(dips_before(samples@, 0) =~= Seq::empty());
        }
        if n > 0 && out@.len() < count {
            lemma_no_dips(samples@, i as int);
        }
        let all = dips_before(samples@, n);
        lemma_dips(samples@, n);
        assert forall|k: int| 0 <= k < out@.len() implies dips(
            samples@,
            #[trigger] out@[k] as int,
        ) by {
            assert(out@[k] as int == all[k]);
        }
        assert forall|k: int, l: int| 0 <= k < l < out@.len() implies #[trigger] out@[k]
            < #[trigger] out@[l] by {
            assert(all[k] + 2 <= all[l]);
        }
        assert forall|j: int|
            0 < j < samples@.len() - 1 && (#[trigger] samples@[j]).lt(samples@[j - 1])
                && samples@[j].lt(samples@[j + 1]) && (out@.len() < count || (out@.len() > 0 && j
                <= out@.last())) implies out@.contains(j as usize) by {
            assert(dips(samples@, j));
            assert(all.contains(j));
            let k = choose|k: int| 0 <= k < all.len() && all[k] == j;
            if k < out@.len() {
                assert(out@[k] == j as usize);
            } else if out@.len() > 0 {
                assert(all[out@.len() - 1] + 2 <= all[k]);
                assert(out@.last() as int == all[out@.len() - 1]);
            }
        }
    }
    out
}

proof fn lemma_dips_continue(samples: Seq<Scalar>, from: int, to: int)
    requires
        from <= to,
    ensures
        dips_before(samples, from).len() <= dips_before(samples, to).len(),
        forall|k: int|
            0 <= k < dips_before(samples, from).len() ==> #[trigger] dips_before(samples, from)[k]
                == dips_before(samples, to)[k],
    decreases to - from,
{
    if from < to {
        lemma_dips_continue(samples, from, to - 1);
    }
}

proof fn lemma_no_dips(samples: Seq<Scalar>, i: int)
    requires
        samples.len() - 1 <= i <= samples.len(),
        0 < i,
    ensures
        dips_before(samples, samples.len() as int) == dips_before(samples, i),
{
}

/// The dips of a series are all its dips, in order, and no two of them are
/// neighbours.
pub proof fn lemma_dips(samples: Seq<Scalar>, end: int)
    ensures
        forall|k: int|
            0 <= k < dips_before(samples, end).len() ==> dips(
                samples,
                #[trigger] dips_before(samples, end)[k],
            ) && dips_before(samples, end)[k] < end,
        forall|i: int|
            dips(samples, i) && i < end ==> #[trigger] dips_before(samples, end).contains(i),
        forall|k: int, l: int|
            0 <= k < l < dips_before(samples, end).len() ==> #[trigger] dips_before(samples, end)[k]
                + 2 <= #[trigger] dips_before(samples, end)[l],
    decreases end,
{
    if end > 0 {
        lemma_dips(samples, end - 1);
        let before = dips_before(samples, end - 1);
        let all = dips_before(samples, end);
        if dips(samples, end - 1) {
            assert(all[before.len() as int] == end - 1);
            assert forall|i: int| dips(samples, i) && i < end implies #[trigger] all.contains(i) by {
                if i < end - 1 {
                    assert(before.contains(i));
                    let k = choose|k: int| 0 <= k < before.len() && before[k] == i;
                    assert(all[k] == i);
                }
            }
            assert forall|k: int, l: int| 0 <= k < l < all.len() implies #[trigger] all[k] + 2
                <= #[trigger] all[l] by {
                assert(all[k] == before[k]);
                assert(dips(samples, before[k]));
                if l == before.len() {
                    if all[k] == end - 2 {
                        assert(samples[end - 2].lt(samples[end - 1]));
                        assert(samples[end - 1].lt(samples[end - 2]));
                    }
                } else {
                    assert(all[l] == before[l]);
                }
            }
        }
    }
}

/// A bracket around a minimum.
pub struct Bracket<E> {
    pub low: E,
    pub high: E,
}

impl<E> Bracket<E> {
    /// The bracket without the part beyond the worse one of two inner points.
    pub fn narrowed(self, inner_low: E, inner_high: E, at_low: Scalar, at_high: Scalar) -> (r: Self)
        ensures
            at_low.lt(at_high) ==> r.low == self.low && r.high == inner_high,
            !at_low.lt(at_high) ==> r.low == inner_low && r.high == self.high,
    {
        if at_low.less(&at_high) {
            Bracket { low: self.low, high: inner_high }
        } else {
            Bracket { low: inner_low, high: self.high }
        }
    }
}

/// Where a value lies among samples taken at even distances.
#[derive(Clone, Copy, PartialEq, Eq, Structural, Debug)]
pub enum Slot {
    /// There are no samples.
    Empty,
    /// At this sample or beyond it: it is the last one.
    Last(usize),
    /// From this sample on to the next.
    Between(usize),
}

/// The slot of a value that lies in the given step.
pub fn cached_slot(step: usize, samples: usize) -> (r: Slot)
    ensures
        r is Empty <==> samples == 0,
        r is Between <==> step + 1 < samples,
        r matches Slot::Last(i) ==> i == samples - 1,
        r matches Slot::Between(i) ==> i == step,
{
    if samples == 0 {
        Slot::Empty
    } else if step < samples - 1 {
        Slot::Between(step)
    } else {
        Slot::Last(samples - 1)
    }
}

/// Where a phase lies among the perigees. Its integer part tells the perigee; a
/// phase beyond the last perigee lies nowhere.
pub fn phase_slot(index: usize, perigees: usize) -> (r: Option<Slot>)
    ensures
        r is None <==> index >= perigees,
        index + 1 < perigees ==> r == Some(Slot::Between(index)),
        index + 1 == perigees ==> r == Some(Slot::Last(index)),
{
    if index >= perigees {
        None
    } else {
        Some(cached_slot(index, perigees))
    }
}

/// The last value that is there, of a seed and a series behind it.
pub open spec fn last_found<V>(seed: Option<V>, found: Seq<Option<V>>) -> Option<V>
    decreases found.len(),
{
    if found.len() == 0 {
        seed
    } else if found.last() is Some {
        found.last()
    } else {
        last_found(seed, found.drop_last())
    }
}

/// One arm of a map: solutions found step by step, each from the last one before.
pub struct Arm<V> {
    start: Option<V>,
    found: Vec<Option<V>>,
    seed: Ghost<Option<V>>,
}

impl<V: Copy> Arm<V> {
    pub closed spec fn seed(self) -> Option<V> {
        self.seed@
    }

    /// What the steps so far have found.
    pub closed spec fn found(self) -> Seq<Option<V>> {
        self.found@
    }

    pub closed spec fn wf(self) -> bool {
        &&& self.start == last_found(self.seed@, self.found@)
        &&& self.seed@ is None ==> forall|i: int|
            0 <= i < self.found@.len() ==> #[trigger] self.found@[i] is None
    }

    /// An arm that has not left its seed.
    pub fn new(seed: Option<V>) -> (r: Self)
        ensures
            r.wf(),
            r.seed() == seed,
            r.found() == Seq::<Option<V>>::empty(),
    {
        Arm { start: seed, found: Vec::new(), seed: Ghost(seed) }
    }

    /// The solution from which the next step is to start; without one the step
    /// finds nothing.
    pub fn start(&self) -> (r: Option<V>)
        requires
            self.wf(),
        ensures
            r == last_found(self.seed(), self.found()),
            self.found().len() == 0 ==> r == self.seed(),
            self.found().len() > 0 && self.found().last() is Some ==> r == self.found().last(),
    {
        self.start
    }

    /// Takes what a step has found.
    pub fn record(&mut self, result: Option<V>)
        requires
            old(self).wf(),
            last_found(old(self).seed(), old(self).found()) is None ==> result is None,
        ensures
            final(self).wf(),
            final(self).seed() == old(self).seed(),
            final(self).found() == old(self).found().push(result),
            last_found(final(self).seed(), final(self).found()) == (match result {
                Some(v) => Some(v),
                None => last_found(old(self).seed(), old(self).found()),
            }),
    {
        let ghost before = self.found@;
        proof {
            lemma_last_found(self.seed@, before);
        }
        self.found.push(result);
        assert(self.found@.drop_last() =~= before);
        match result {
            Some(v) => {
                self.start = Some(v);
            },
            None => {},
        }
    }

    /// The solutions of all steps.
    pub fn into_found(self) -> (r: Vec<Option<V>>)
        ensures
            r@ == self.found(),
    {
        self.found
    }
}

/// Without a seed an arm finds nothing.
pub proof fn lemma_no_seed_no_solution<V: Copy>(arm: Arm<V>)
    requires
        arm.wf(),
        arm.seed() is None,
    ensures
        forall|i: int| 0 <= i < arm.found().len() ==> #[trigger] arm.found()[i] is None,
{
}

/// The last value found is one of the series, or the seed where the series has
/// none.
pub proof fn lemma_last_found<V>(seed: Option<V>, found: Seq<Option<V>>)
    ensures
        last_found(seed, found) == seed || found.contains(last_found(seed, found)),
        (forall|i: int| 0 <= i < found.len() ==> #[trigger] found[i] is None) ==> last_found(
            seed,
            found,
        ) == seed,
        last_found(seed, found) is None ==> seed is None && forall|i: int|
            0 <= i < found.len() ==> #[trigger] found[i] is None,
    decreases found.len(),
{
    if found.len() > 0 {
        let before = found.drop_last();
        lemma_last_found(seed, before);
        assert(found.last() == found[found.len() - 1]);
        if found.last() is None {
            assert forall|i: int| 0 <= i < before.len() implies before[i] == found[i] by {}
            if before.contains(last_found(seed, before)) {
                let k = choose|k: int|
                    0 <= k < before.len() && before[k] == last_found(seed, before);
                assert(found[k] == last_found(seed, found));
            }
            if last_found(seed, found) is None {
                assert forall|i: int| 0 <= i < found.len() implies #[trigger] found[i] is None by {
                    if i < before.len() {
                        assert(before[i] is None);
                    }
                }
            }
        } else {
            assert(found.contains(found.last()));
        }
    }
}

/// The launches found at one point of a map, to the east and to the west.
pub struct DualResult<V> {
    pub east: Option<V>,
    pub west: Option<V>,
}

/// The place on a map of a step away from its seed, in either direction.
pub open spec fn arm_place(steps: int, step: int, forward: bool) -> int {
    if forward {
        steps + step
    } else {
        steps - step
    }
}

/// A map out of its seed and its four arms, from the far end of the backward
/// arms to the far end of the forward ones.
pub fn join_arms<V: Copy>(
    seed: DualResult<V>,
    east_forward: &Vec<Option<V>>,
    east_backward: &Vec<Option<V>>,
    west_forward: &Vec<Option<V>>,
    west_backward: &Vec<Option<V>>,
) -> (map: Vec<DualResult<V>>)
    requires
        east_forward@.len() == east_backward@.len(),
        east_forward@.len() == west_forward@.len(),
        east_forward@.len() == west_backward@.len(),
        2 * east_forward@.len() + 1 <= usize::MAX,
    ensures
        ({
            let steps = east_forward@.len() as int;
            &&& map@.len() == 2 * steps + 1
            &&& map@[steps] == seed
            &&& forall|i: int|
                1 <= i <= steps ==> (#[trigger] map@[arm_place(steps, i, true)]).east
                    == east_forward@[i - 1] && map@[arm_place(steps, i, true)].west
                    == west_forward@[i - 1]
            &&& forall|i: int|
                1 <= i <= steps ==> (#[trigger] map@[arm_place(steps, i, false)]).east
                    == east_backward@[i - 1] && map@[arm_place(steps, i, false)].west
                    == west_backward@[i - 1]
            &&& forall|k: int|
                0 <= k < steps ==> (#[trigger] map@[k]).east == east_backward@[steps - 1 - k]
                    && map@[k].west == west_backward@[steps - 1 - k]
            &&& forall|k: int|
                steps < k <= 2 * steps ==> (#[trigger] map@[k]).east == east_forward@[k - steps - 1]
                    && map@[k].west == west_forward@[k - steps - 1]
        }),
{
    let steps: usize = east_forward.len();
    let mut map: Vec<DualResult<V>> = Vec::new();
    let mut left: usize = steps;
    while left > 0
        invariant
            steps == east_forward@.len(),
            steps == east_backward@.len(),
            steps == west_backward@.len(),
            left <= steps,
            map@.len() == steps - left,
            forall|k: int|
                0 <= k < map@.len() ==> (#[trigger] map@[k]).east == east_backward@[steps - 1 - k]
                    && map@[k].west == west_backward@[steps - 1 - k],
        decreases left,
    {
        left = left - 1;
        map.push(DualResult { east: east_backward[left], west: west_backward[left] });
    }
    let ghost backward = map@;
    map.push(seed);
    let mut step: usize = 0;
    while step < steps
        invariant
            steps == east_forward@.len(),
            steps == west_forward@.len(),
            steps == backward.len(),
            2 * steps + 1 <= usize::MAX,
            step <= steps,
            map@.len() == steps + 1 + step,
            forall|k: int| 0 <= k < steps ==> #[trigger] map@[k] == backward[k],
            map@[steps as int] == seed,
            forall|k: int|
                steps < k < map@.len() ==> (#[trigger] map@[k]).east == east_forward@[k - steps - 1]
                    && map@[k].west == west_forward@[k - steps - 1],
        decreases steps - step,
    {
        map.push(DualResult { east: east_forward[step], west: west_forward[step] });
        step = step + 1;
    }
    map
}

/// Nodes with company spread evenly: the first stands at the start of the range,
/// the last at its end, and from each to the next it is one part.
pub proof fn lemma_nodes_spread_evenly(index: int, count: int, alone: Node)
    requires
        0 <= index < count <= usize::MAX,
    ensures
        count == 1 ==> node(index, count, alone) == alone,
        count > 1 ==> {
            let n = node(index, count, alone);
            &&& n is Part && n->of == count - 1 && n->index == index
            &&& node(0, count, alone)->index == 0
            &&& node(count - 1, count, alone)->index == n->of
            &&& index + 1 < count ==> node(index + 1, count, alone)->index == n->index + 1
                && node(index + 1, count, alone)->of == n->of
        },
{
}

/// Each further perigee has 29 more days scanned, and five days are scanned for none.
pub proof fn lemma_scan_grows_by_a_month(count: int)
    ensures
        scanned_hours(0) == 5 * 24,
        scanned_hours(count + 1) - scanned_hours(count) == 29 * 24,
{
}

/// A sample less than those on both sides of it is among the dips of the series, and
/// no other is.
pub proof fn lemma_every_low_sample_is_a_dip(samples: Seq<Scalar>, i: int)
    ensures
        dips_before(samples, samples.len() as int).contains(i) <==> 0 < i < samples.len() - 1
            && samples[i].lt(samples[i - 1]) && samples[i].lt(samples[i + 1]),
{
    lemma_dips(samples, samples.len() as int);
    let all = dips_before(samples, samples.len() as int);
    if all.contains(i) {
        let k = choose|k: int| 0 <= k < all.len() && all[k] == i;
        assert(dips(samples, all[k]));
    }
    if 0 < i < samples.len() - 1 && samples[i].lt(samples[i - 1]) && samples[i].lt(samples[i + 1]) {
        assert(dips(samples, i));
    }
}

/// The next step of an arm starts from the latest solution: one that was just found
/// is it, and a step that found nothing leaves it.
pub proof fn lemma_latest_solution_is_the_start<V>(seed: Option<V>, found: Seq<Option<V>>, v: V)
    ensures
        last_found(seed, Seq::empty()) == seed,
        last_found(seed, found.push(Some(v))) == Some(v),
        last_found(seed, found.push(None)) == last_found(seed, found),
{
    assert(found.push(None).drop_last() =~= found);
}

/// Behind the latest solution of an arm its steps have found nothing.
pub proof fn lemma_nothing_behind_the_latest_solution<V>(
    seed: Option<V>,
    found: Seq<Option<V>>,
    i: int,
)
    requires
        0 <= i < found.len(),
        found[i] is Some,
        forall|k: int| i < k < found.len() ==> #[trigger] found[k] is None,
    ensures
        last_found(seed, found) == found[i],
    decreases found.len(),
{
    if i < found.len() - 1 {
        assert(found[found.len() - 1] is None);
        let before = found.drop_last();
        assert forall|k: int| i < k < before.len() implies #[trigger] before[k] is None by {
            assert(found[k] is None);
        }
        lemma_nothing_behind_the_latest_solution(seed, before, i);
    }
}

/// Forward steps of an arm lead up a map and backward steps down, one place each,
/// from the place of the seed.
pub proof fn lemma_arms_leave_the_seed(steps: int, step: int)
    ensures
        arm_place(steps, 0, true) == steps && arm_place(steps, 0, false) == steps,
        arm_place(steps, step + 1, true) == arm_place(steps, step, true) + 1,
        arm_place(steps, step + 1, false) == arm_place(steps, step, false) - 1,
        arm_place(steps, step, true) + arm_place(steps, step, false) == 2 * steps,
{
}

} // verus!
