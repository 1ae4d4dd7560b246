//! The rule of the game: neighbor counting, the fate of one cell, and the
//! generation that follows a grid.

use crate::grid::{well_formed, Grid};
use vstd::prelude::*;

verus! {

/// 1 where row `r`, column `c` lies inside `g` and holds a live cell, else 0.
/// A position outside the grid counts as nothing: the grid does not wrap.
pub open spec fn alive_at(g: Seq<Seq<u8>>, r: int, c: int) -> int {
    if 0 <= r < g.len() && 0 <= c < g[r].len() && g[r][c] == 1 {
        1
    } else {
        0
    }
}

/// The number of live cells among the eight positions around row `r`,
/// column `c`.
pub open spec fn live_neighbors(g: Seq<Seq<u8>>, r: int, c: int) -> int {
    alive_at(g, r - 1, c - 1) + alive_at(g, r - 1, c) + alive_at(g, r - 1, c + 1)
        + alive_at(g, r, c - 1) + alive_at(g, r, c + 1)
        + alive_at(g, r + 1, c - 1) + alive_at(g, r + 1, c) + alive_at(g, r + 1, c + 1)
}

/// The state of a cell in the next generation: a live cell with two or three
/// live neighbors stays alive, a dead cell with exactly three comes alive,
/// and every other cell is dead.
pub open spec fn next_state(cell: u8, neighbors: int) -> u8 {
    if cell == 1 && (neighbors == 2 || neighbors == 3) {
        1
    } else if cell == 0 && neighbors == 3 {
        1
    } else {
        0
    }
}

/// The generation that follows `g`: every cell decided by the rule from `g`
/// alone.
pub open spec fn next_generation(g: Seq<Seq<u8>>) -> Seq<Seq<u8>> {
    Seq::new(
        g.len(),
        |r: int| Seq::new(g[r].len(), |c: int| next_state(g[r][c], live_neighbors(g, r, c))),
    )
}

/// The grid `n` generations after `g`.
pub open spec fn generations(g: Seq<Seq<u8>>, n: nat) -> Seq<Seq<u8>>
    decreases n,
{
    if n == 0 {
        g
    } else {
        next_generation(generations(g, (n - 1) as nat))
    }
}

/// Two tables have the same number of rows, and each row of one is as long
/// as the same row of the other.
pub open spec fn same_shape(a: Seq<Seq<u8>>, b: Seq<Seq<u8>>) -> bool {
    &&& a.len() == b.len()
    &&& forall|r: int| 0 <= r < a.len() ==> (#[trigger] a[r]).len() == b[r].len()
}

/// A generation has the rows and columns of the one before it, and is a
/// grid where that one is.
pub proof fn lemma_next_generation_keeps_dimensions(g: Seq<Seq<u8>>)
    ensures
        same_shape(next_generation(g), g),
        well_formed(g) ==> well_formed(next_generation(g)),
{
}

/// However many generations pass, the rows and columns stay as they were.
pub proof fn lemma_generations_keep_dimensions(g: Seq<Seq<u8>>, n: nat)
    ensures
        same_shape(generations(g, n), g),
        well_formed(g) ==> well_formed(generations(g, n)),
    decreases n,
{
    if n > 0 {
        lemma_generations_keep_dimensions(g, (n - 1) as nat);
        lemma_next_generation_keeps_dimensions(generations(g, (n - 1) as nat));
    }
}

/// Every cell of the next generation is a function of the grid before it and
/// of nothing else: its own state there and the live cells around it. No cell
/// of the new generation enters into another, so the order in which the cells
/// are worked out cannot matter.
pub proof fn lemma_next_generation_cellwise(g: Seq<Seq<u8>>, r: int, c: int)
    requires
        0 <= r < g.len(),
        0 <= c < g[r].len(),
    ensures
        next_generation(g)[r][c] == next_state(g[r][c], live_neighbors(g, r, c)),
{
}

/// The buffer after the cells at the positions of `order` have been written
/// into it one after another, each decided by the rule from `g`.
pub open spec fn write_cells(
    g: Seq<Seq<u8>>,
    buffer: Seq<Seq<u8>>,
    order: Seq<(int, int)>,
) -> Seq<Seq<u8>>
    decreases order.len(),
{
    if order.len() == 0 {
        buffer
    } else {
        let before = write_cells(g, buffer, order.drop_last());
        let (r, c) = order.last();
        before.update(r, before[r].update(c, next_state(g[r][c], live_neighbors(g, r, c))))
    }
}

/// Every position of `order` lies inside `g`.
pub open spec fn inside(g: Seq<Seq<u8>>, order: Seq<(int, int)>) -> bool {
    forall|k: int|
        0 <= k < order.len() ==> 0 <= (#[trigger] order[k]).0 < g.len() && 0 <= order[k].1
            < g[order[k].0].len()
}

/// Every position inside `g` occurs in `order`.
pub open spec fn covers(g: Seq<Seq<u8>>, order: Seq<(int, int)>) -> bool {
    forall|r: int, c: int|
        0 <= r < g.len() && 0 <= c < g[r].len() ==> #[trigger] order.contains((r, c))
}

/// Writing cells into a buffer keeps its shape, and leaves the value of the
/// next generation at every position that was written.
pub proof fn lemma_written_cells(g: Seq<Seq<u8>>, buffer: Seq<Seq<u8>>, order: Seq<(int, int)>)
    requires
        same_shape(buffer, g),
        inside(g, order),
    ensures
        same_shape(write_cells(g, buffer, order), g),
        forall|k: int|
            0 <= k < order.len() ==> write_cells(g, buffer, order)[(#[trigger] order[k]).0][order[k].1]
                == next_generation(g)[order[k].0][order[k].1],
    decreases order.len(),
{
    if order.len() > 0 {
        let shorter = order.drop_last();
        assert forall|k: int| 0 <= k < shorter.len() implies 0 <= (#[trigger] shorter[k]).0
            < g.len() && 0 <= shorter[k].1 < g[shorter[k].0].len() by {
            assert(shorter[k] == order[k]);
        }
        lemma_written_cells(g, buffer, shorter);
        let after = write_cells(g, buffer, order);
        let (r, c) = order.last();
        assert(0 <= r < g.len() && 0 <= c < g[r].len()) by {
            assert(order[order.len() - 1] == (r, c));
        }
        assert forall|k: int| 0 <= k < order.len() implies after[(#[trigger] order[k]).0][order[k].1]
            == next_generation(g)[order[k].0][order[k].1] by {
            if k < shorter.len() {
                assert(shorter[k] == order[k]);
            }
        }
    }
}

/// The order in which the cells are worked out does not matter: whatever the
/// buffer held before, and in whatever order the cells are written, even if
/// some are written more than once, the buffer holds the next generation as
/// soon as every position has been written.
pub proof fn lemma_any_order_gives_next_generation(
    g: Seq<Seq<u8>>,
    buffer: Seq<Seq<u8>>,
    order: Seq<(int, int)>,
)
    requires
        same_shape(buffer, g),
        inside(g, order),
        covers(g, order),
    ensures
        write_cells(g, buffer, order) == next_generation(g),
{
    lemma_written_cells(g, buffer, order);
    let after = write_cells(g, buffer, order);
    assert forall|r: int| 0 <= r < g.len() implies #[trigger] after[r] == next_generation(g)[r] by {
        assert forall|c: int| 0 <= c < g[r].len() implies #[trigger] after[r][c]
            == next_generation(g)[r][c] by {
            assert(order.contains((r, c)));
            let k = choose|k: int| 0 <= k < order.len() && order[k] == (r, c);
            assert(order[k].0 == r && order[k].1 == c);
        }
        assert(after[r] =~= next_generation(g)[r]);
    }
    assert(after =~= next_generation(g));
}

/// Running `m` generations and then `n` more is running `m + n`.
pub proof fn lemma_generations_add(g: Seq<Seq<u8>>, m: nat, n: nat)
    ensures
        generations(generations(g, m), n) == generations(g, m + n),
    decreases n,
{
    if n > 0 {
        lemma_generations_add(g, m, (n - 1) as nat);
    }
}

impl Grid {
    /// 1 where the cell in row `r` and column `c` is alive, 0 where it is dead
    /// or outside the grid.
    pub fn alive_at(&self, r: usize, c: usize) -> (n: u8)
        requires
            self.wf(),
        ensures
            n == alive_at(self@, r as int, c as int),
    {
        match self.get(r, c) {
            Some(cell) => if cell == 1 {
                1
            } else {
                0
            },
            None => 0,
        }
    }

    /// Counts the live cells around row `r`, column `c`.
    pub fn live_neighbors(&self, r: usize, c: usize) -> (n: u8)
        requires
            self.wf(),
        ensures
            n == live_neighbors(self@, r as int, c as int),
            n <= 8,
    {
        let up = r > 0;
        let down = r < self.rows() - 1;
        let left = c > 0;
        let right = c < self.cols() - 1;
        let mut n: u8 = 0;
        if up {
            if left {
                n += self.alive_at(r - 1, c - 1);
            }
            n += self.alive_at(r - 1, c);
            if right {
                n += self.alive_at(r - 1, c + 1);
            }
        }
        if left {
            n += self.alive_at(r, c - 1);
        }
        if right {
            n += self.alive_at(r, c + 1);
        }
        if down {
            if left {
                n += self.alive_at(r + 1, c - 1);
            }
            n += self.alive_at(r + 1, c);
            if right {
                n += self.alive_at(r + 1, c + 1);
            }
        }
        n
    }
}

/// Decides the state of a cell in the next generation from its state now
/// and the number of live cells around it.
pub fn next_state_of(cell: u8, neighbors: u8) -> (next: u8)
    ensures
        next == next_state(cell, neighbors as int),
        next <= 1,
{
    if cell == 1 && (neighbors == 2 || neighbors == 3) {
        1
    } else if cell == 0 && neighbors == 3 {
        1
    } else {
        0
    }
}

/// Writes the generation that follows `current` into `next`, which has the
/// same dimensions. Every cell of `next` is overwritten, and only `current`
/// is read.
pub fn compute_next_generation(current: &Grid, next: &mut Grid)
    requires
        current.wf(),
        old(next).wf(),
        same_shape(old(next)@, current@),
    ensures
        final(next)@ == next_generation(current@),
        final(next).wf(),
{
    let rows = current.rows();
    let cols = current.cols();
    let mut r: usize = 0;
    while r < rows
        invariant
            current.wf(),
            next.wf(),
            same_shape(next@, current@),
            rows == current@.len(),
            cols == current@[0].len(),
            r <= rows,
            forall|i: int| 0 <= i < r ==> (#[trigger] next@[i]) == next_generation(current@)[i],
        decreases rows - r,
    {
        let mut c: usize = 0;
        while c < cols
            invariant
                current.wf(),
                next.wf(),
                same_shape(next@, current@),
                rows == current@.len(),
                cols == current@[0].len(),
                r < rows,
                c <= cols,
                forall|i: int| 0 <= i < r ==> (#[trigger] next@[i]) == next_generation(current@)[i],
                forall|j: int|
                    0 <= j < c ==> (#[trigger] next@[r as int][j]) == next_generation(
                        current@,
                    )[r as int][j],
            decreases cols - c,
        {
            let neighbors = current.live_neighbors(r, c);
            let cell = match current.get(r, c) {
                Some(cell) => cell,
                None => 0,
            };
            next.set(r, c, next_state_of(cell, neighbors));
            c += 1;
        }
        assert(next@[r as int] =~= next_generation(current@)[r as int]);
        r += 1;
    }
    assert(next@ =~= next_generation(current@));
}

} // verus!
