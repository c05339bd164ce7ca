//! The walls of a floor bucketed by the cells of a square grid they overlap, so that a
//! collision or sight test only looks at the walls near it.

use std::collections::HashMap;

use vstd::prelude::*;

verus! {

/// An inclusive rectangle of grid cells: its lowest and its highest corner.
pub type CellRange = ((i32, i32), (i32, i32));

/// Whether `cell` lies in `range`.
pub open spec fn in_cell_range(range: CellRange, cell: (i32, i32)) -> bool {
    &&& range.0.0 <= cell.0 <= range.1.0
    &&& range.0.1 <= cell.1 <= range.1.1
}

/// The walls among the first `n` of `ranges` whose range holds `cell`, by index, in
/// increasing order.
pub open spec fn walls_over(ranges: Seq<CellRange>, cell: (i32, i32), n: int) -> Seq<usize>
    decreases n,
{
    if n <= 0 {
        Seq::empty()
    } else {
        let prev = walls_over(ranges, cell, n - 1);
        if in_cell_range(ranges[n - 1], cell) {
            prev.push((n - 1) as usize)
        } else {
            prev
        }
    }
}

/// The key of `cell` in the bucket map: its two coordinates, shifted to be non-negative,
/// as the high and low halves of a `u64`.
pub open spec fn cell_key(cell: (i32, i32)) -> u64 {
    ((cell.0 + 0x8000_0000) * 0x1_0000_0000 + (cell.1 + 0x8000_0000)) as u64
}

/// Distinct cells have distinct keys.
proof fn lemma_cell_key_injective(a: (i32, i32), b: (i32, i32))
    ensures
        cell_key(a) == cell_key(b) ==> a == b,
{
    let (ha, la) = (a.0 + 0x8000_0000, a.1 + 0x8000_0000);
    let (hb, lb) = (b.0 + 0x8000_0000, b.1 + 0x8000_0000);
    assert(0 <= ha * 0x1_0000_0000 + la < 0x1_0000_0000_0000_0000) by (nonlinear_arith)
        requires
            0 <= ha < 0x1_0000_0000,
            0 <= la < 0x1_0000_0000,
    ;
    assert(0 <= hb * 0x1_0000_0000 + lb < 0x1_0000_0000_0000_0000) by (nonlinear_arith)
        requires
            0 <= hb < 0x1_0000_0000,
            0 <= lb < 0x1_0000_0000,
    ;
    if ha * 0x1_0000_0000 + la == hb * 0x1_0000_0000 + lb {
        assert(ha == hb && la == lb) by (nonlinear_arith)
            requires
                ha * 0x1_0000_0000 + la == hb * 0x1_0000_0000 + lb,
                0 <= la < 0x1_0000_0000,
                0 <= lb < 0x1_0000_0000,
        ;
    }
}

/// The key of `cell`, computed.
fn key_of(cell: (i32, i32)) -> (key: u64)
    ensures
        key == cell_key(cell),
{
    let high = (cell.0 as i64 + 0x8000_0000) as u64;
    let low = (cell.1 as i64 + 0x8000_0000) as u64;
    assert(high * 0x1_0000_0000 + low < 0x1_0000_0000_0000_0000) by (nonlinear_arith)
        requires
            high < 0x1_0000_0000,
            low < 0x1_0000_0000,
    ;
    high * 0x1_0000_0000 + low
}

/// The wall indices listed in each cell of the grid.
pub struct WallCells {
    cells: HashMap<u64, Vec<usize>>,
}

impl WallCells {
    /// The walls listed in `cell`, in the order they were added.
    pub closed spec fn bucket(&self, cell: (i32, i32)) -> Seq<usize> {
        if self.cells@.contains_key(cell_key(cell)) {
            self.cells@[cell_key(cell)]@
        } else {
            Seq::empty()
        }
    }

    /// A grid with no walls.
    pub fn new() -> (cells: Self)
        ensures
            forall|cell: (i32, i32)| #[trigger] cells.bucket(cell) == Seq::<usize>::empty(),
    {
        WallCells { cells: HashMap::new() }
    }

    /// Lists wall `index` in `cell`, after the walls already there.
    fn add(&mut self, cell: (i32, i32), index: usize)
        ensures
            forall|c: (i32, i32)|
                #[trigger] final(self).bucket(c) == if c == cell {
                    old(self).bucket(c).push(index)
                } else {
                    old(self).bucket(c)
                },
    {
        let key = key_of(cell);
        let mut walls = match self.cells.remove(&key) {
            Some(walls) => walls,
            None => Vec::new(),
        };
        walls.push(index);
        self.cells.insert(key, walls);
        proof {
            assert forall|c: (i32, i32)|
                #[trigger] self.bucket(c) == if c == cell {
                    old(self).bucket(c).push(index)
                } else {
                    old(self).bucket(c)
                } by {
                lemma_cell_key_injective(c, cell);
            }
        }
    }

    /// Lists every wall in the cells its range covers: afterwards each cell lists, in
    /// increasing order, the walls whose range holds it, and nothing else.
    pub fn rebuild(&mut self, ranges: &Vec<CellRange>)
        ensures
            forall|cell: (i32, i32)|
                #[trigger] final(self).bucket(cell) == walls_over(ranges@, cell, ranges@.len() as int),
    {
        self.cells.clear();
        let mut i: usize = 0;
        while i < ranges.len()
            invariant
                i <= ranges@.len(),
                forall|cell: (i32, i32)| #[trigger] self.bucket(cell) == walls_over(ranges@, cell, i as int),
            decreases ranges@.len() - i,
        {
            let (low, high) = ranges[i];
            let ghost range = ranges@[i as int];
            let mut x: i64 = low.0 as i64;
            while x <= high.0 as i64
                invariant
                    i < ranges@.len(),
                    range == ranges@[i as int],
                    range == (low, high),
                    low.0 <= x <= high.0 + 1 || (x == low.0 && low.0 > high.0),
                    forall|cell: (i32, i32)|
                        #[trigger] self.bucket(cell) == if in_cell_range(range, cell) && cell.0 < x {
                            walls_over(ranges@, cell, i as int).push(i)
                        } else {
                            walls_over(ranges@, cell, i as int)
                        },
                decreases high.0 as i64 + 1 - x,
            {
                let mut z: i64 = low.1 as i64;
                while z <= high.1 as i64
                    invariant
                        i < ranges@.len(),
                        range == ranges@[i as int],
                        range == (low, high),
                        low.0 <= x <= high.0,
                        low.1 <= z <= high.1 + 1 || (z == low.1 && low.1 > high.1),
                        forall|cell: (i32, i32)|
                            #[trigger] self.bucket(cell) == if in_cell_range(range, cell) && (cell.0 < x
                                || (cell.0 == x && cell.1 < z)) {
                                walls_over(ranges@, cell, i as int).push(i)
                            } else {
                                walls_over(ranges@, cell, i as int)
                            },
                    decreases high.1 as i64 + 1 - z,
                {
                    self.add((x as i32, z as i32), i);
                    z += 1;
                }
                x += 1;
            }
            i += 1;
        }
    }

    /// The walls listed in `cell`, or `None` where it lists none.
    pub fn walls_in(&self, cell: (i32, i32)) -> (walls: Option<&Vec<usize>>)
        ensures
            match walls {
                Some(list) => list@ == self.bucket(cell),
                None => self.bucket(cell) == Seq::<usize>::empty(),
            },
    {
        let key = key_of(cell);
        self.cells.get(&key)
    }
}

} // verus!
