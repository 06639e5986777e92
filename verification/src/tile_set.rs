//! A set of grid points, hashed by a single integer key per point.

use crate::lattice::{cell_of, cells, in_window, window, Cell, Point};
use std::collections::HashSet;
use vstd::prelude::*;
use vstd::std_specs::iter::IteratorSpec;

verus! {

/// The key under which a cell is stored: its two coordinates, each shifted
/// to be non-negative, side by side in one 64-bit number.
spec fn key_of(c: Cell) -> int {
    (c.0 + 0x8000_0000) * 0x1_0000_0000 + (c.1 + 0x8000_0000)
}

/// The cell that is stored under a key.
spec fn cell_with_key(k: u64) -> Cell {
    (k / 0x1_0000_0000 - 0x8000_0000, k % 0x1_0000_0000 - 0x8000_0000)
}

/// Inside the window every cell has a key of its own, and the key fits.
proof fn lemma_key_of(a: Cell, b: Cell)
    requires
        in_window(a),
        in_window(b),
    ensures
        0 <= key_of(a) <= u64::MAX,
        key_of(a) == key_of(b) <==> a == b,
{
}

fn key(point: Point) -> (k: u64)
    ensures
        k == key_of(cell_of(point)),
{
    let hi: u64 = (point.0 as i64 + 0x8000_0000) as u64;
    let lo: u64 = (point.1 as i64 + 0x8000_0000) as u64;
    hi * 0x1_0000_0000 + lo
}

fn point_with_key(k: u64) -> (point: Point)
    ensures
        cell_of(point) == cell_with_key(k),
{
    let x: i32 = ((k / 0x1_0000_0000) as i64 - 0x8000_0000) as i32;
    let y: i32 = ((k % 0x1_0000_0000) as i64 - 0x8000_0000) as i32;
    (x, y)
}

/// A finite set of grid points.
#[derive(Debug)]
pub struct TileSet {
    keys: HashSet<u64>,
}

impl View for TileSet {
    type V = Set<Cell>;

    /// The cells whose points are in the set.
    closed spec fn view(&self) -> Set<Cell> {
        Set::new(|c: Cell| in_window(c) && self.keys@.contains(key_of(c) as u64))
    }
}

impl TileSet {
    /// A tile set is finite, and every cell of it lies in the window.
    pub proof fn lemma_view(&self)
        ensures
            self@.finite(),
            self@.subset_of(window()),
    {
        let keys = self.keys.iter().remaining().unref();
        let listed = keys.map_values(|k: u64| cell_with_key(k));
        assert forall|c: Cell| self@.contains(c) implies listed.to_set().contains(c) by {
            let k = key_of(c) as u64;
            let i = choose|i: int| 0 <= i < keys.len() && keys[i] == k;
            assert(listed[i] == c);
        }
        vstd::set_lib::lemma_set_subset_finite(listed.to_set(), self@);
    }

    /// An empty set.
    pub fn new() -> (tiles: TileSet)
        ensures
            tiles@ == Set::<Cell>::empty(),
    {
        TileSet { keys: HashSet::new() }
    }

    /// Whether the point is in the set.
    pub fn contains(&self, point: Point) -> (found: bool)
        ensures
            found == self@.contains(cell_of(point)),
    {
        let k = key(point);
        self.keys.contains(&k)
    }

    /// Puts the point into the set; says whether it was new.
    pub fn insert(&mut self, point: Point) -> (fresh: bool)
        ensures
            final(self)@ == old(self)@.insert(cell_of(point)),
            fresh == !old(self)@.contains(cell_of(point)),
    {
        let k = key(point);
        self.keys.insert(k)
    }

    /// Takes the point out of the set; says whether it was there.
    pub fn remove(&mut self, point: Point) -> (present: bool)
        ensures
            final(self)@ == old(self)@.remove(cell_of(point)),
            present == old(self)@.contains(cell_of(point)),
    {
        let k = key(point);
        self.keys.remove(&k)
    }

    /// The points of the set, each once, in no particular order.
    pub fn to_vec(&self) -> (points: Vec<Point>)
        ensures
            points@.no_duplicates(),
            cells(points@) == self@,
    {
        let mut points: Vec<Point> = Vec::new();
        let ghost keys: Seq<u64> = self.keys.iter().remaining().unref();
        for k in it: self.keys.iter()
            invariant
                points.len() == it.index(),
                it.seq().unref() == keys,
                keys.to_set() == self.keys@,
                keys.no_duplicates(),
                forall|i: int|
                    0 <= i < points.len() ==> cell_of(#[trigger] points[i]) == cell_with_key(
                        keys[i],
                    ),
        {
            points.push(point_with_key(*k));
        }
        proof {
            assert forall|c: Cell| self@.contains(c) implies cells(points@).contains(c) by {
                let k = key_of(c) as u64;
                let i = choose|i: int| 0 <= i < keys.len() && keys[i] == k;
                lemma_key_of(cell_of(points[i]), c);
            }
        }
        points
    }
}

} // verus!
