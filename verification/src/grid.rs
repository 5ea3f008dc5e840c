use crate::tile::Tile;
use vstd::prelude::*;

verus! {

/// A level's tile grid has 20 rows of 60 tiles each.
pub open spec fn grid_wf(g: Seq<Seq<Tile>>) -> bool {
    &&& g.len() == 20
    &&& forall|y: int| 0 <= y < 20 ==> (#[trigger] g[y]).len() == 60
}

/// The grid `g` with the single cell at row `y`, column `x` replaced by `t`.
pub open spec fn grid_set(g: Seq<Seq<Tile>>, y: int, x: int, t: Tile) -> Seq<Seq<Tile>> {
    g.update(y, g[y].update(x, t))
}

/// A 20-by-60 grid of tiles, stored row-major. The level generator produces
/// one per call and the validators read it.
pub struct Grid {
    rows: Vec<Vec<Tile>>,
}

impl View for Grid {
    type V = Seq<Seq<Tile>>;

    closed spec fn view(&self) -> Seq<Seq<Tile>> {
        Seq::new(self.rows@.len() as nat, |y: int| self.rows@[y]@)
    }
}

impl Grid {
    /// A grid of the fixed dimensions with every cell `Empty`.
    pub fn new_empty() -> (g: Grid)
        ensures
            grid_wf(g@),
            g@ == Seq::new(20, |y: int| Seq::new(60, |x: int| Tile::Empty)),
    {
        let mut rows: Vec<Vec<Tile>> = Vec::new();
        let mut y: usize = 0;
        while y < 20
            invariant
                y <= 20,
                rows@.len() == y,
                forall|r: int| 0 <= r < y ==> rows@[r]@ == Seq::new(60, |x: int| Tile::Empty),
            decreases 20 - y,
        {
            let mut row: Vec<Tile> = Vec::new();
            let mut x: usize = 0;
            while x < 60
                invariant
                    x <= 60,
                    row@.len() == x,
                    forall|c: int| 0 <= c < x ==> row@[c] == Tile::Empty,
                decreases 60 - x,
            {
                row.push(Tile::Empty);
                x += 1;
            }
            proof {
                assert(row@ =~= Seq::new(60, |x: int| Tile::Empty));
            }
            rows.push(row);
            y += 1;
        }
        let g = Grid { rows };
        proof {
            assert(g@ =~= Seq::new(20, |y: int| Seq::new(60, |x: int| Tile::Empty)));
        }
        g
    }

    /// Reads the tile at row `y`, column `x`.
    pub fn get(&self, y: usize, x: usize) -> (t: Tile)
        requires
            grid_wf(self@),
            y < 20,
            x < 60,
        ensures
            t == self@[y as int][x as int],
    {
        self.rows[y][x]
    }

    /// Writes the tile at row `y`, column `x`.
    pub fn set(&mut self, y: usize, x: usize, t: Tile)
        requires
            grid_wf(old(self)@),
            y < 20,
            x < 60,
        ensures
            grid_wf(final(self)@),
            final(self)@ == grid_set(old(self)@, y as int, x as int, t),
    {
        proof {
            assert(self.rows@.len() == 20);
            assert(self@[y as int] == self.rows@[y as int]@);
            assert(self.rows@[y as int]@.len() == 60);
        }
        self.rows[y][x] = t;
        proof {
            assert(self@ =~= grid_set(old(self)@, y as int, x as int, t));
        }
    }
}

} // verus!
