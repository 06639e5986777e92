//! The mathematical model: the integer lattice, its Moore neighbourhoods and
//! the rule that takes one generation to the next.
//!
//! Everything here is stated over unbounded integers. The executable engine
//! stores coordinates as `i32`; the part of the lattice it can hold is the
//! [`window`].

use vstd::prelude::*;

verus! {

/// A cell of the infinite lattice.
pub type Cell = (int, int);

/// A cell as the engine stores it.
pub type Point = (i32, i32);

/// The lattice cell that a stored point stands for.
pub open spec fn cell_of(p: Point) -> Cell {
    (p.0 as int, p.1 as int)
}

/// The lattice cell with the given pair of wide coordinates.
pub open spec fn cell_at(q: (i64, i64)) -> Cell {
    (q.0 as int, q.1 as int)
}

/// The cells that a list of points names.
pub open spec fn cells(points: Seq<Point>) -> Set<Cell> {
    Set::new(|c: Cell| exists|i: int| 0 <= i < points.len() && cell_of(#[trigger] points[i]) == c)
}

/// The cells that a list of wide coordinate pairs names.
pub open spec fn cells_at(around: Seq<(i64, i64)>) -> Set<Cell> {
    Set::new(|c: Cell| exists|i: int| 0 <= i < around.len() && cell_at(#[trigger] around[i]) == c)
}

/// The cell has coordinates that a `Point` can hold.
pub open spec fn in_window(c: Cell) -> bool {
    &&& i32::MIN <= c.0 <= i32::MAX
    &&& i32::MIN <= c.1 <= i32::MAX
}

/// All cells that a `Point` can name.
pub open spec fn window() -> Set<Cell> {
    Set::new(|c: Cell| in_window(c))
}

/// No live cell lies on the rim of the window, so every cell that touches a
/// live one is inside the window.
pub open spec fn clear_of_rim(live: Set<Cell>) -> bool {
    forall|c: Cell| #[trigger]
        live.contains(c) ==> i32::MIN < c.0 < i32::MAX && i32::MIN < c.1 < i32::MAX
}

/// Two distinct cells touch: each coordinate differs by at most one.
pub open spec fn adjacent(a: Cell, b: Cell) -> bool {
    &&& a != b
    &&& -1 <= a.0 - b.0 <= 1
    &&& -1 <= a.1 - b.1 <= 1
}

/// The Moore neighbourhood of a cell: the cells that touch it.
pub open spec fn neighbourhood(c: Cell) -> Set<Cell> {
    Set::new(|d: Cell| adjacent(c, d))
}

/// How many cells of the neighbourhood of `c` are alive.
pub open spec fn live_neighbours(live: Set<Cell>, c: Cell) -> nat {
    neighbourhood(c).intersect(live).len()
}

/// The rule: a live cell stays alive with two or three live neighbours, a
/// dead cell comes alive with exactly three.
pub open spec fn alive_next(live: Set<Cell>, c: Cell) -> bool {
    let n = live_neighbours(live, c);
    if live.contains(c) {
        n == 2 || n == 3
    } else {
        n == 3
    }
}

/// The generation that follows `live` on the infinite lattice.
pub open spec fn next_generation(live: Set<Cell>) -> Set<Cell> {
    Set::new(|c: Cell| alive_next(live, c))
}

/// The union of the neighbourhoods of the given cells.
pub open spec fn touching(from: Set<Cell>) -> Set<Cell> {
    Set::new(|c: Cell| exists|d: Cell| from.contains(d) && adjacent(d, c))
}

/// The dead cells that touch at least one live cell: the only dead cells
/// that can come alive in the next generation.
pub open spec fn candidates(live: Set<Cell>) -> Set<Cell> {
    touching(live).difference(live)
}

/// The live set after the state of one cell has been flipped.
pub open spec fn toggled(live: Set<Cell>, c: Cell) -> Set<Cell> {
    if live.contains(c) {
        live.remove(c)
    } else {
        live.insert(c)
    }
}

/// The eight neighbours of a cell, row by row.
pub open spec fn ring(c: Cell) -> Seq<Cell> {
    seq![
        (c.0 - 1, c.1 - 1),
        (c.0 - 1, c.1),
        (c.0 - 1, c.1 + 1),
        (c.0, c.1 - 1),
        (c.0, c.1 + 1),
        (c.0 + 1, c.1 - 1),
        (c.0 + 1, c.1),
        (c.0 + 1, c.1 + 1),
    ]
}

/// The ring lists the neighbourhood, each cell once.
pub proof fn lemma_ring(c: Cell)
    ensures
        ring(c).len() == 8,
        ring(c).no_duplicates(),
        ring(c).to_set() == neighbourhood(c),
{
}

/// The cells named by the first `n + 1` points are those named by the first
/// `n`, and the cell of the point that follows them.
pub proof fn lemma_cells_take(points: Seq<Point>, n: int)
    requires
        0 <= n < points.len(),
    ensures
        cells(points.take(n + 1)) == cells(points.take(n)).insert(cell_of(points[n])),
{
    let longer = points.take(n + 1);
    assert(cell_of(longer[n]) == cell_of(points[n]));
}

/// The same for wide coordinate pairs.
pub proof fn lemma_cells_at_take(around: Seq<(i64, i64)>, n: int)
    requires
        0 <= n < around.len(),
    ensures
        cells_at(around.take(n + 1)) == cells_at(around.take(n)).insert(cell_at(around[n])),
{
    let longer = around.take(n + 1);
    assert(cell_at(longer[n]) == cell_at(around[n]));
}

/// A neighbourhood holds exactly eight cells, none of them the centre, each
/// within one step of it along both axes.
pub proof fn lemma_neighbourhood(c: Cell)
    ensures
        neighbourhood(c).finite(),
        neighbourhood(c).len() == 8,
        !neighbourhood(c).contains(c),
        forall|d: Cell| #[trigger]
            neighbourhood(c).contains(d) ==> -1 <= d.0 - c.0 <= 1 && -1 <= d.1 - c.1 <= 1,
{
    lemma_ring(c);
    ring(c).unique_seq_to_set();
}

/// A cell never has more than eight live neighbours.
pub proof fn lemma_live_neighbours_bound(live: Set<Cell>, c: Cell)
    ensures
        live_neighbours(live, c) <= 8,
{
    lemma_neighbourhood(c);
    vstd::set_lib::lemma_len_intersect(neighbourhood(c), live);
}

/// A cell with a live neighbour touches a live cell.
pub proof fn lemma_live_neighbour_exists(live: Set<Cell>, c: Cell)
    requires
        live_neighbours(live, c) > 0,
    ensures
        exists|d: Cell| live.contains(d) && adjacent(d, c),
{
    let around = neighbourhood(c).intersect(live);
    let d = around.choose();
    assert(around.contains(d));
}

/// Flipping a dead cell makes it live, flipping a live cell makes it dead,
/// and no other cell changes.
pub proof fn lemma_toggle_flips(live: Set<Cell>, c: Cell)
    ensures
        toggled(live, c).contains(c) == !live.contains(c),
        forall|d: Cell| d != c ==> toggled(live, c).contains(d) == live.contains(d),
{
}

/// Flipping the same cell twice gives back the set one started from.
pub proof fn lemma_toggle_twice(live: Set<Cell>, c: Cell)
    ensures
        toggled(toggled(live, c), c) == live,
{
}

/// No candidate is alive, and every dead cell that touches a live cell is a
/// candidate.
pub proof fn lemma_candidates(live: Set<Cell>, c: Cell, d: Cell)
    ensures
        candidates(live).contains(c) ==> !live.contains(c),
        !live.contains(c) && live.contains(d) && adjacent(d, c) ==> candidates(live).contains(c),
{
}

/// While no live cell lies on the rim, every candidate is inside the window.
pub proof fn lemma_candidates_fit(live: Set<Cell>)
    requires
        clear_of_rim(live),
    ensures
        candidates(live).intersect(window()) == candidates(live),
{
}

/// Only a live cell or a candidate can be alive in the next generation.
pub proof fn lemma_next_generation_reach(live: Set<Cell>, c: Cell)
    requires
        alive_next(live, c),
    ensures
        live.contains(c) || candidates(live).contains(c),
{
    if !live.contains(c) {
        lemma_live_neighbour_exists(live, c);
    }
}

/// While no live cell lies on the rim, the whole next generation is inside
/// the window.
pub proof fn lemma_next_generation_fits(live: Set<Cell>)
    requires
        clear_of_rim(live),
    ensures
        next_generation(live).intersect(window()) == next_generation(live),
{
    assert forall|c: Cell| next_generation(live).contains(c) implies in_window(c) by {
        lemma_next_generation_reach(live, c);
    }
}

/// The rule, case by case: a live cell with fewer than two live neighbours
/// dies, one with more than three dies, one with two or three lives on; a
/// dead cell comes alive with exactly three live neighbours and with no
/// other number.
pub proof fn lemma_rule(live: Set<Cell>, c: Cell)
    ensures
        live.contains(c) && live_neighbours(live, c) < 2 ==> !next_generation(live).contains(c),
        live.contains(c) && live_neighbours(live, c) > 3 ==> !next_generation(live).contains(c),
        live.contains(c) && 2 <= live_neighbours(live, c) <= 3 ==> next_generation(live).contains(
            c,
        ),
        !live.contains(c) ==> (next_generation(live).contains(c) <==> live_neighbours(live, c)
            == 3),
{
}

/// Nothing is born on an empty lattice.
pub proof fn lemma_empty_stays_empty()
    ensures
        next_generation(Set::<Cell>::empty()) == Set::<Cell>::empty(),
        next_generation(Set::<Cell>::empty()).intersect(window()) == Set::<Cell>::empty(),
{
    let nobody = Set::<Cell>::empty();
    assert forall|c: Cell| !alive_next(nobody, c) by {
        assert(neighbourhood(c).intersect(nobody) =~= nobody);
    }
}

} // verus!
