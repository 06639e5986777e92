//! The automaton engine: the set of live cells, and the step from one
//! generation to the next.

use crate::lattice::{
    adjacent, candidates, cell_at, cell_of, cells, cells_at, clear_of_rim, in_window,
    lemma_cells_at_take, lemma_cells_take, lemma_next_generation_fits,
    lemma_next_generation_reach, live_neighbours, neighbourhood, next_generation, toggled,
    touching, window, Cell,
};
use crate::tile_set::TileSet;
use vstd::prelude::*;

pub use crate::lattice::Point;

verus! {

/// The engine. Its state is the set of live cells; every other cell is dead.
#[derive(Debug)]
pub struct GameOfLife {
    pub alive_tiles: TileSet,
}

impl View for GameOfLife {
    type V = Set<Cell>;

    /// The live cells.
    open spec fn view(&self) -> Set<Cell> {
        self.alive_tiles@
    }
}

/// The point with the given wide coordinates, if they fit.
fn to_point(q: (i64, i64)) -> (point: Option<Point>)
    ensures
        match point {
            Some(p) => cell_of(p) == cell_at(q),
            None => !in_window(cell_at(q)),
        },
{
    if -0x8000_0000 <= q.0 && q.0 <= 0x7fff_ffff && -0x8000_0000 <= q.1 && q.1 <= 0x7fff_ffff {
        Some((q.0 as i32, q.1 as i32))
    } else {
        None
    }
}

impl GameOfLife {
    /// An engine with no live cell.
    pub fn new() -> (game: GameOfLife)
        ensures
            game@ == Set::<Cell>::empty(),
            forall|c: Cell| !game@.contains(c),
    {
        GameOfLife { alive_tiles: TileSet::new() }
    }

    /// Whether the cell is alive.
    pub fn get_tile(&self, point: Point) -> (alive: bool)
        ensures
            alive == self@.contains(cell_of(point)),
    {
        self.alive_tiles.contains(point)
    }

    /// Flips the cell: a live one dies, a dead one comes alive.
    pub fn toggle_tile(&mut self, point: Point)
        ensures
            final(self)@ == toggled(old(self)@, cell_of(point)),
            final(self)@.contains(cell_of(point)) == !old(self)@.contains(cell_of(point)),
    {
        if self.alive_tiles.contains(point) {
            self.alive_tiles.remove(point);
        } else {
            self.alive_tiles.insert(point);
        }
    }

    /// The eight cells around the given one. They are handed out in wide
    /// coordinates, since those of a cell on the rim of the window do not
    /// all fit an `i32`.
    pub fn iter_neighbours(&self, point: Point) -> (around: Vec<(i64, i64)>)
        ensures
            around.len() == 8,
            around@.no_duplicates(),
            cells_at(around@) == neighbourhood(cell_of(point)),
            forall|i: int|
                0 <= i < around.len() ==> adjacent(cell_of(point), cell_at(#[trigger] around[i])),
    {
        let x: i64 = point.0 as i64;
        let y: i64 = point.1 as i64;
        vec![
            (x - 1, y - 1),
            (x - 1, y),
            (x - 1, y + 1),
            (x, y - 1),
            (x, y + 1),
            (x + 1, y - 1),
            (x + 1, y),
            (x + 1, y + 1),
        ]
    }

    /// How many of the eight cells around the given one are alive.
    pub fn count_neighbours(&self, point: Point) -> (n: u8)
        ensures
            n == live_neighbours(self@, cell_of(point)),
            n <= 8,
    {
        let around = self.iter_neighbours(point);
        let mut n: u8 = 0;
        proof {
            let nobody = Set::<Cell>::empty();
            assert(cells_at(around@.take(0)) =~= nobody);
            assert(nobody.intersect(self@) =~= nobody);
        }
        for k in 0..around.len()
            invariant
                around.len() == 8,
                around@.no_duplicates(),
                cells_at(around@.take(k as int)).finite(),
                n == cells_at(around@.take(k as int)).intersect(self@).len(),
                n <= k,
        {
            let ghost seen = cells_at(around@.take(k as int));
            let ghost c = cell_at(around[k as int]);
            let alive = match to_point(around[k]) {
                Some(p) => self.alive_tiles.contains(p),
                None => false,
            };
            proof {
                self.alive_tiles.lemma_view();
                lemma_cells_at_take(around@, k as int);
                if alive {
                    assert(seen.insert(c).intersect(self@) =~= seen.intersect(self@).insert(c));
                } else {
                    assert(seen.insert(c).intersect(self@) =~= seen.intersect(self@));
                }
            }
            if alive {
                n += 1;
            }
        }
        proof {
            assert(around@.take(8) =~= around@);
        }
        n
    }

    /// The dead cells of the window that touch a live cell: all that can
    /// come alive in the next generation. While no live cell lies on the
    /// rim of the window, these are all the dead cells that touch a live
    /// one.
    pub fn get_dead_tiles(&self) -> (dead: TileSet)
        ensures
            dead@ == candidates(self@).intersect(window()),
            dead@.disjoint(self@),
            clear_of_rim(self@) ==> dead@ == candidates(self@),
    {
        let alive = self.alive_tiles.to_vec();
        let mut dead = TileSet::new();
        for i in 0..alive.len()
            invariant
                cells(alive@) == self@,
                dead@ == touching(cells(alive@.take(i as int))).difference(self@).intersect(
                    window(),
                ),
        {
            let ghost before = touching(cells(alive@.take(i as int)));
            let around = self.iter_neighbours(alive[i]);
            for k in 0..around.len()
                invariant
                    around.len() == 8,
                    dead@ == before.union(cells_at(around@.take(k as int))).difference(
                        self@,
                    ).intersect(window()),
            {
                proof {
                    lemma_cells_at_take(around@, k as int);
                }
                if let Some(p) = to_point(around[k]) {
                    if !self.alive_tiles.contains(p) {
                        dead.insert(p);
                    }
                }
            }
            proof {
                assert(around@.take(8) =~= around@);
                lemma_cells_take(alive@, i as int);
            }
        }
        proof {
            assert(alive@.take(alive.len() as int) =~= alive@);
        }
        dead
    }

    /// Advances the automaton by one generation. Every cell of the window
    /// is judged by the generation before the call; cells outside the
    /// window stay dead. While no live cell lies on the rim of the window,
    /// the result is the next generation of the infinite lattice.
    pub fn tick(&mut self)
        ensures
            final(self)@ == next_generation(old(self)@).intersect(window()),
            clear_of_rim(old(self)@) ==> final(self)@ == next_generation(old(self)@),
    {
        let mut new_alive_tiles = TileSet::new();

        let alive = self.alive_tiles.to_vec();
        for i in 0..alive.len()
            invariant
                cells(alive@) == self@,
                new_alive_tiles@ == cells(alive@.take(i as int)).intersect(next_generation(self@)),
        {
            let neighbours = self.count_neighbours(alive[i]);
            proof {
                lemma_cells_take(alive@, i as int);
            }
            if neighbours == 2 || neighbours == 3 {
                new_alive_tiles.insert(alive[i]);
            }
        }
        proof {
            assert(alive@.take(alive.len() as int) =~= alive@);
        }

        let dead = self.get_dead_tiles().to_vec();
        for i in 0..dead.len()
            invariant
                cells(dead@) == candidates(self@).intersect(window()),
                new_alive_tiles@ == self@.union(cells(dead@.take(i as int))).intersect(
                    next_generation(self@),
                ),
        {
            let neighbours = self.count_neighbours(dead[i]);
            proof {
                lemma_cells_take(dead@, i as int);
            }
            if neighbours == 3 {
                new_alive_tiles.insert(dead[i]);
            }
        }
        proof {
            assert(dead@.take(dead.len() as int) =~= dead@);
            assert forall|c: Cell|
                next_generation(self@).intersect(window()).contains(c) implies new_alive_tiles@.contains(
                c,
            ) by {
                lemma_next_generation_reach(self@, c);
            }
            if clear_of_rim(self@) {
                lemma_next_generation_fits(self@);
            }
        }

        self.alive_tiles = new_alive_tiles;
    }
}

} // verus!
