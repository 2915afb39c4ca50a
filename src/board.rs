//! Chunked storage of cells.
//!
//! A `Grid` is a `num_chunks_x` by `num_chunks_y` array of chunks; a chunk is
//! a `CHUNK_LEN` by `CHUNK_LEN` square of cells. A cell `(x, y)` lives in the
//! chunk `(x / CHUNK_LEN, y / CHUNK_LEN)` at the local position
//! `(x % CHUNK_LEN, y % CHUNK_LEN)`. A hexagonal lattice is stored the same
//! way, odd rows being shifted half a cell.
use vstd::prelude::*;

use vstd::arithmetic::div_mod::lemma_fundamental_div_mod_converse;

use crate::rule::{Neighbors, Rule, RuleError, State};

verus! {

/// Number of cells along one side of a chunk.
pub const CHUNK_LEN: usize = 16;

/// Number of cells in a chunk.
pub const CHUNK_SIZE: usize = CHUNK_LEN * CHUNK_LEN;

/// `a * n + b` stays below `m * n` when `a < m` and `b < n`.
proof fn lemma_mul_bound(a: int, b: int, n: int, m: int)
    requires
        0 <= a < m,
        0 <= b < n,
    ensures
        0 <= a * n + b < m * n,
{
    assert(0 <= a * n + b < m * n) by (nonlinear_arith)
        requires
            0 <= a < m,
            0 <= b < n,
    ;
}

/// A square-shaped Chunk of cells, stored row by row.
pub struct Chunk<T> {
    cells: Vec<T>,
}

impl<T: State> Chunk<T> {
    pub closed spec fn wf(&self) -> bool {
        self.cells@.len() == CHUNK_SIZE
    }

    /// The cells, row by row.
    pub closed spec fn view_cells(&self) -> Seq<T> {
        self.cells@
    }

    /// A chunk whose cells all hold `i`.
    fn init(i: &T) -> (r: Self)
        ensures
            r.wf(),
            forall|l: int| 0 <= l < CHUNK_SIZE ==> #[trigger] r.cells@[l] == *i,
    {
        let mut cells: Vec<T> = Vec::new();
        let mut l: usize = 0;
        while l < CHUNK_SIZE
            invariant
                cells@.len() == l,
                l <= CHUNK_SIZE,
                forall|k: int| 0 <= k < l ==> #[trigger] cells@[k] == *i,
            decreases CHUNK_SIZE - l,
        {
            cells.push(i.duplicate());
            l = l + 1;
        }
        Chunk { cells }
    }

    /// A chunk with the same cells.
    fn duplicate(&self) -> (r: Self)
        ensures
            r.cells@ == self.cells@,
    {
        let mut cells: Vec<T> = Vec::new();
        let mut l: usize = 0;
        while l < self.cells.len()
            invariant
                cells@ == self.cells@.take(l as int),
                l <= self.cells@.len(),
            decreases self.cells@.len() - l,
        {
            cells.push(self.cells[l].duplicate());
            l = l + 1;
            assert(cells@ =~= self.cells@.take(l as int));
        }
        assert(self.cells@.take(l as int) =~= self.cells@);
        Chunk { cells }
    }

    /// Set the state of all the cells in this chunk as default.
    fn clear<R: Rule<CellState = T>>(&mut self, rule: &R) -> (r: Result<(), RuleError>)
        requires
            old(self).wf(),
        ensures
            final(self).wf(),
            match rule.spec_default_state() {
                Ok(d) => r is Ok && forall|l: int|
                    0 <= l < CHUNK_SIZE ==> #[trigger] final(self).cells@[l] == d,
                Err(e) => r == Err::<(), RuleError>(e) && *final(self) == *old(self),
            },
    {
        let mut l: usize = 0;
        while l < self.cells.len()
            invariant
                self.wf(),
                l <= CHUNK_SIZE,
                l == 0 ==> *self == *old(self),
                l > 0 ==> rule.spec_default_state() is Ok,
                forall|k: int|
                    0 <= k < l ==> #[trigger] self.cells@[k] == rule.spec_default_state()->Ok_0,
            decreases CHUNK_SIZE - l,
        {
            match rule.default_state() {
                Ok(s) => {
                    self.cells.set(l, s);
                },
                Err(e) => {
                    return Err(e);
                },
            }
            l = l + 1;
        }
        Ok(())
    }
}

/// A square lattice of chunks, with a scratch buffer of the same shape that
/// the update fills before the two are swapped.
pub struct Grid<T> {
    num_chunks_x: usize,
    num_chunks_y: usize,
    chunks: Vec<Chunk<T>>,
    buffer: Vec<Chunk<T>>,
}

/// Chunk index, within a row of `ncx` chunks, of the cell `(x, y)`.
spec fn chunk_of(ncx: int, x: int, y: int) -> int {
    (y / CHUNK_LEN as int) * ncx + x / CHUNK_LEN as int
}

/// Index, within its chunk, of the cell `(x, y)`.
spec fn local_of(x: int, y: int) -> int {
    (y % CHUNK_LEN as int) * CHUNK_LEN as int + x % CHUNK_LEN as int
}

/// The states at the given coordinates of a board given row by row.
pub open spec fn states_at<T>(m: Seq<Seq<T>>, coords: Seq<(usize, usize)>) -> Seq<T> {
    Seq::new(coords.len(), |k: int| m[coords[k].1 as int][coords[k].0 as int])
}

/// What `rule` makes of the cell `(x, y)` of the board `m`, given row by row,
/// from the cell and its neighbors.
pub open spec fn cell_update<R: Rule>(rule: &R, m: Seq<Seq<R::CellState>>, x: int, y: int) -> Result<
    R::CellState,
    RuleError,
> {
    let coords = <R::Neighborhood as Neighbors>::spec_neighbors(x, y, m[y].len() as int, m.len() as int);
    rule.spec_update(m[y][x], states_at(m, coords))
}

/// Whether the update of some cell of `m` fails.
pub open spec fn step_fails<R: Rule>(rule: &R, m: Seq<Seq<R::CellState>>) -> bool {
    exists|x: int, y: int|
        0 <= y < m.len() && 0 <= x < m[y].len() && (#[trigger] cell_update(rule, m, x, y)) is Err
}

/// The next generation of `m`: every cell updated from the same, previous
/// generation.
pub open spec fn stepped<R: Rule>(rule: &R, m: Seq<Seq<R::CellState>>) -> Seq<Seq<R::CellState>> {
    Seq::new(
        m.len(),
        |y: int| Seq::new(m[y].len(), |x: int| cell_update(rule, m, x, y)->Ok_0),
    )
}

/// Whether one update of `before` by `rule`, succeeding when `ok`, may end
/// in `after`: on success every cell is updated, on failure nothing changes.
pub open spec fn stepped_to<R: Rule>(
    rule: &R,
    before: Seq<Seq<R::CellState>>,
    after: Seq<Seq<R::CellState>>,
    ok: bool,
) -> bool {
    &&& ok <==> !step_fails(rule, before)
    &&& ok ==> after == stepped(rule, before)
    &&& !ok ==> after == before
}

/// An update depends on nothing but the rule and the generation it starts
/// from: two updates of the same cells by the same rule succeed or fail
/// alike and end with the same cells.
pub proof fn lemma_update_deterministic<R: Rule>(
    rule: &R,
    before: Seq<Seq<R::CellState>>,
    after_a: Seq<Seq<R::CellState>>,
    ok_a: bool,
    after_b: Seq<Seq<R::CellState>>,
    ok_b: bool,
)
    requires
        stepped_to(rule, before, after_a, ok_a),
        stepped_to(rule, before, after_b, ok_b),
    ensures
        ok_a == ok_b,
        after_a == after_b,
{
}

/// `k` generations of `m` in a row, or `None` when one of them fails.
pub open spec fn run<R: Rule>(rule: &R, m: Seq<Seq<R::CellState>>, k: nat) -> Option<
    Seq<Seq<R::CellState>>,
>
    decreases k,
{
    if k == 0 {
        Some(m)
    } else if step_fails(rule, m) {
        None
    } else {
        run(rule, stepped(rule, m), (k - 1) as nat)
    }
}

/// Whether `(x, y)` comes before the position `(i, j)` of the chunk
/// `(ci, cj)`, when the chunks are walked row by row and each chunk row by row.
spec fn visited(cj: int, ci: int, j: int, i: int, x: int, y: int) -> bool {
    let (cy, cx) = (y / CHUNK_LEN as int, x / CHUNK_LEN as int);
    let (ly, lx) = (y % CHUNK_LEN as int, x % CHUNK_LEN as int);
    cy < cj || (cy == cj && cx < ci) || (cy == cj && cx == ci && (ly < j || (ly == j && lx < i)))
}

/// How many cells a grid grown by `n` chunks moves its old cells by.
pub open spec fn shift(n: isize) -> int {
    if n < 0 {
        -n * CHUNK_LEN as int
    } else {
        0
    }
}

/// `|n|`.
pub open spec fn abs(n: isize) -> nat {
    if n < 0 {
        (-n) as nat
    } else {
        n as nat
    }
}

/// `|n|`, computed.
fn magnitude(n: isize) -> (r: usize)
    ensures
        r == abs(n),
{
    if n < 0 {
        (-(n + 1)) as usize + 1
    } else {
        n as usize
    }
}

impl<T: State> Grid<T> {
    pub closed spec fn chunks_x(&self) -> nat {
        self.num_chunks_x as nat
    }

    pub closed spec fn chunks_y(&self) -> nat {
        self.num_chunks_y as nat
    }

    /// The number of cells in a row.
    pub open spec fn spec_width(&self) -> nat {
        self.chunks_x() * CHUNK_LEN as nat
    }

    /// The number of cells in a column.
    pub open spec fn spec_height(&self) -> nat {
        self.chunks_y() * CHUNK_LEN as nat
    }

    pub open spec fn has(&self, x: int, y: int) -> bool {
        0 <= x < self.spec_width() && 0 <= y < self.spec_height()
    }

    /// Whether every cell holds `d`.
    pub open spec fn all_cells(&self, d: T) -> bool {
        forall|x: int, y: int| self.has(x, y) ==> #[trigger] self.cell(x, y) == d
    }

    /// Clearing twice gives the grid that clearing once gives: a grid
    /// cleared to `d` from `g1` into `g2`, then from `g2` into `g3`, holds
    /// the same cells in `g3` as in `g2`.
    pub proof fn lemma_clear_idempotent(g1: Self, g2: Self, g3: Self, d: T)
        requires
            g2.same_shape(&g1),
            g2.all_cells(d),
            g3.same_shape(&g2),
            g3.all_cells(d),
        ensures
            g3.same_shape(&g1),
            g3.model() == g2.model(),
    {
        assert(g3.model() =~~= g2.model());
    }

    /// Whether the grid holds no cell.
    pub open spec fn is_empty(&self) -> bool {
        self.chunks_x() == 0 || self.chunks_y() == 0
    }

    pub open spec fn same_shape(&self, other: &Self) -> bool {
        self.chunks_x() == other.chunks_x() && self.chunks_y() == other.chunks_y()
    }

    pub closed spec fn wf(&self) -> bool {
        &&& self.chunks@.len() == self.num_chunks_x * self.num_chunks_y
        &&& self.num_chunks_x * self.num_chunks_y <= usize::MAX
        &&& self.buffer@.len() == self.chunks@.len()
        &&& forall|k: int| 0 <= k < self.chunks@.len() ==> (#[trigger] self.chunks@[k]).wf()
        &&& forall|k: int| 0 <= k < self.buffer@.len() ==> (#[trigger] self.buffer@[k]).wf()
        &&& self.num_chunks_x * CHUNK_LEN <= isize::MAX
        &&& self.num_chunks_y * CHUNK_LEN <= isize::MAX
    }

    /// The state of the cell `(x, y)` of the current generation.
    pub closed spec fn cell(&self, x: int, y: int) -> T {
        self.chunks@[chunk_of(self.num_chunks_x as int, x, y)].cells@[local_of(x, y)]
    }

    /// The state of the cell `(x, y)` in the scratch buffer.
    pub closed spec fn buffer_cell(&self, x: int, y: int) -> T {
        self.buffer@[chunk_of(self.num_chunks_x as int, x, y)].cells@[local_of(x, y)]
    }

    /// The current generation, row by row.
    pub open spec fn model(&self) -> Seq<Seq<T>> {
        Seq::new(
            self.spec_height(),
            |y: int| Seq::new(self.spec_width(), |x: int| self.cell(x, y)),
        )
    }

    proof fn lemma_index(&self, x: int, y: int)
        requires
            self.wf(),
            self.has(x, y),
        ensures
            0 <= chunk_of(self.num_chunks_x as int, x, y) < self.chunks@.len(),
            0 <= local_of(x, y) < CHUNK_SIZE,
            chunk_of(self.num_chunks_x as int, x, y) / self.num_chunks_x as int == y / 16,
            chunk_of(self.num_chunks_x as int, x, y) % self.num_chunks_x as int == x / 16,
    {
        lemma_mul_bound(y / 16, x / 16, self.num_chunks_x as int, self.num_chunks_y as int);
        lemma_mul_bound(y % 16, x % 16, 16, 16);
        lemma_fundamental_div_mod_converse(
            chunk_of(self.num_chunks_x as int, x, y),
            self.num_chunks_x as int,
            y / 16,
            x / 16,
        );
    }

    /// Two cells of the grid share a chunk and a place in it only if they are
    /// the same cell.
    proof fn lemma_index_injective(&self, x: int, y: int, x2: int, y2: int)
        requires
            self.wf(),
            self.has(x, y),
            self.has(x2, y2),
            chunk_of(self.num_chunks_x as int, x, y) == chunk_of(self.num_chunks_x as int, x2, y2),
            local_of(x, y) == local_of(x2, y2),
        ensures
            x == x2 && y == y2,
    {
        self.lemma_index(x, y);
        self.lemma_index(x2, y2);
        lemma_fundamental_div_mod_converse(local_of(x, y), 16, y % 16, x % 16);
        lemma_fundamental_div_mod_converse(local_of(x2, y2), 16, y2 % 16, x2 % 16);
    }

    /// A grid of `x_chunks` by `y_chunks` chunks whose cells all hold `i`.
    pub fn init(x_chunks: usize, y_chunks: usize, i: T) -> (r: Self)
        requires
            x_chunks * CHUNK_LEN <= isize::MAX,
            y_chunks * CHUNK_LEN <= isize::MAX,
            x_chunks * y_chunks <= usize::MAX,
        ensures
            r.wf(),
            r.chunks_x() == x_chunks,
            r.chunks_y() == y_chunks,
            forall|x: int, y: int| r.has(x, y) ==> #[trigger] r.cell(x, y) == i,
    {
        let n = x_chunks * y_chunks;
        let chunks = Self::filled(n, &i);
        let buffer = Self::filled(n, &i);
        let r = Grid { num_chunks_x: x_chunks, num_chunks_y: y_chunks, chunks, buffer };
        assert forall|x: int, y: int| r.has(x, y) implies #[trigger] r.cell(x, y) == i by {
            r.lemma_index(x, y);
        }
        r
    }

    /// `n` chunks whose cells all hold `i`.
    fn filled(n: usize, i: &T) -> (r: Vec<Chunk<T>>)
        ensures
            r@.len() == n,
            forall|k: int| 0 <= k < n ==> (#[trigger] r@[k]).wf(),
            forall|k: int, l: int|
                0 <= k < n && 0 <= l < CHUNK_SIZE ==> #[trigger] r@[k].cells@[l] == *i,
    {
        let mut r: Vec<Chunk<T>> = Vec::new();
        let mut k: usize = 0;
        while k < n
            invariant
                r@.len() == k,
                k <= n,
                forall|kk: int| 0 <= kk < k ==> (#[trigger] r@[kk]).wf(),
                forall|kk: int, l: int|
                    0 <= kk < k && 0 <= l < CHUNK_SIZE ==> #[trigger] r@[kk].cells@[l] == *i,
            decreases n - k,
        {
            r.push(Chunk::init(i));
            k = k + 1;
        }
        r
    }

    /// The number of cells in a row, not chunks.
    pub fn width(&self) -> (r: usize)
        requires
            self.wf(),
        ensures
            r == self.spec_width(),
    {
        self.num_chunks_x * CHUNK_LEN
    }

    /// The number of cells in a column, not chunks.
    pub fn height(&self) -> (r: usize)
        requires
            self.wf(),
        ensures
            r == self.spec_height(),
    {
        self.num_chunks_y * CHUNK_LEN
    }

    pub fn n_chunks_x(&self) -> (r: usize)
        ensures
            r == self.chunks_x(),
    {
        self.num_chunks_x
    }

    pub fn n_chunks_y(&self) -> (r: usize)
        ensures
            r == self.chunks_y(),
    {
        self.num_chunks_y
    }

    pub fn has_chunk(&self, x: usize, y: usize) -> (r: bool)
        ensures
            r == (x < self.chunks_x() && y < self.chunks_y()),
    {
        x < self.num_chunks_x && y < self.num_chunks_y
    }

    pub fn chunk_len(&self) -> (r: usize)
        ensures
            r == CHUNK_LEN,
    {
        CHUNK_LEN
    }

    /// The chunk `(x, y)`.
    pub fn chunk_at(&self, x: usize, y: usize) -> (r: &Chunk<T>)
        requires
            self.wf(),
            x < self.chunks_x(),
            y < self.chunks_y(),
        ensures
            r.wf(),
            forall|i: int, j: int|
                0 <= i < CHUNK_LEN && 0 <= j < CHUNK_LEN ==> #[trigger] r.view_cells()[j * 16 + i]
                    == self.cell(x * 16 + i, y * 16 + j),
    {
        proof {
            lemma_mul_bound(y as int, x as int, self.num_chunks_x as int, self.num_chunks_y as int);
        }
        let r = &self.chunks[y * self.num_chunks_x + x];
        assert forall|i: int, j: int|
            0 <= i < CHUNK_LEN && 0 <= j < CHUNK_LEN implies #[trigger] r.view_cells()[j * 16 + i]
                == self.cell(x * 16 + i, y * 16 + j) by {
            assert((x * 16 + i) / 16 == x && (x * 16 + i) % 16 == i);
            assert((y * 16 + j) / 16 == y && (y * 16 + j) % 16 == j);
        }
        r
    }

    pub fn has_cell(&self, x: usize, y: usize) -> (r: bool)
        requires
            self.wf(),
        ensures
            r == self.has(x as int, y as int),
    {
        x < self.width() && y < self.height()
    }

    /// The state of the cell `(x, y)`.
    pub fn cell_at(&self, x: usize, y: usize) -> (r: &T)
        requires
            self.wf(),
            self.has(x as int, y as int),
        ensures
            *r == self.cell(x as int, y as int),
    {
        proof {
            self.lemma_index(x as int, y as int);
        }
        let chx = x / CHUNK_LEN;
        let clx = x % CHUNK_LEN;
        let chy = y / CHUNK_LEN;
        let cly = y % CHUNK_LEN;
        &self.chunks[chy * self.num_chunks_x + chx].cells[cly * CHUNK_LEN + clx]
    }

    /// Write access to the cell `(x, y)`; no other cell changes.
    pub fn cell_at_mut(&mut self, x: usize, y: usize) -> (r: &mut T)
        requires
            old(self).wf(),
            old(self).has(x as int, y as int),
        ensures
            *r == old(self).cell(x as int, y as int),
            final(self).wf(),
            final(self).same_shape(old(self)),
            final(self).cell(x as int, y as int) == *final(r),
            forall|x2: int, y2: int|
                #![trigger final(self).cell(x2, y2)]
                final(self).has(x2, y2) && !(x2 == x && y2 == y) ==> final(self).cell(x2, y2)
                    == old(self).cell(x2, y2),
            forall|x2: int, y2: int|
                final(self).has(x2, y2) ==> #[trigger] final(self).buffer_cell(x2, y2) == old(
                    self,
                ).buffer_cell(x2, y2),
    {
        proof {
            let ncx = self.num_chunks_x as int;
            self.lemma_index(x as int, y as int);
            assert forall|x2: int, y2: int|
                #![trigger self.cell(x2, y2)]
                self.has(x2, y2) && !(x2 == x && y2 == y) implies 0 <= chunk_of(ncx, x2, y2)
                < self.chunks@.len() && 0 <= local_of(x2, y2) < CHUNK_SIZE && (chunk_of(
                ncx,
                x2,
                y2,
            ) != chunk_of(ncx, x as int, y as int) || local_of(x2, y2) != local_of(
                x as int,
                y as int,
            )) by {
                self.lemma_index(x2, y2);
                if chunk_of(ncx, x2, y2) == chunk_of(ncx, x as int, y as int) && local_of(x2, y2)
                    == local_of(x as int, y as int) {
                    self.lemma_index_injective(x as int, y as int, x2, y2);
                }
            }
        }
        let chx = x / CHUNK_LEN;
        let clx = x % CHUNK_LEN;
        let chy = y / CHUNK_LEN;
        let cly = y % CHUNK_LEN;
        &mut self.chunks[chy * self.num_chunks_x + chx].cells[cly * CHUNK_LEN + clx]
    }

    /// Write `v` to the cell `(x, y)` of the scratch buffer.
    fn set_buffer_cell(&mut self, x: usize, y: usize, v: T)
        requires
            old(self).wf(),
            old(self).has(x as int, y as int),
        ensures
            final(self).wf(),
            final(self).same_shape(old(self)),
            final(self).chunks == old(self).chunks,
            forall|x2: int, y2: int|
                #![trigger final(self).buffer_cell(x2, y2)]
                final(self).has(x2, y2) ==> final(self).buffer_cell(x2, y2) == if x2 == x && y2
                    == y {
                    v
                } else {
                    old(self).buffer_cell(x2, y2)
                },
    {
        proof {
            self.lemma_index(x as int, y as int);
            assert forall|x2: int, y2: int|
                self.has(x2, y2) && !(x2 == x && y2 == y) implies chunk_of(
                    self.num_chunks_x as int,
                    x2,
                    y2,
                ) != chunk_of(self.num_chunks_x as int, x as int, y as int) || local_of(x2, y2)
                != local_of(x as int, y as int) by {
                if chunk_of(self.num_chunks_x as int, x2, y2) == chunk_of(
                    self.num_chunks_x as int,
                    x as int,
                    y as int,
                ) && local_of(x2, y2) == local_of(x as int, y as int) {
                    self.lemma_index_injective(x as int, y as int, x2, y2);
                }
            }
            assert forall|x2: int, y2: int| self.has(x2, y2) implies 0 <= chunk_of(
                self.num_chunks_x as int,
                x2,
                y2,
            ) < self.chunks@.len() && 0 <= local_of(x2, y2) < CHUNK_SIZE by {
                self.lemma_index(x2, y2);
            }
        }
        let chx = x / CHUNK_LEN;
        let clx = x % CHUNK_LEN;
        let chy = y / CHUNK_LEN;
        let cly = y % CHUNK_LEN;
        let ghost prev = *self;
        self.buffer[chy * self.num_chunks_x + chx].cells.set(cly * CHUNK_LEN + clx, v);
        assert forall|x2: int, y2: int| self.has(x2, y2) implies #[trigger] self.buffer_cell(x2, y2)
            == if x2 == x && y2 == y {
            v
        } else {
            prev.buffer_cell(x2, y2)
        } by {
            prev.lemma_index(x2, y2);
        }
    }

    /// Make the scratch buffer the current generation, and the current
    /// generation the scratch buffer.
    pub fn swap_buffer(&mut self)
        requires
            old(self).wf(),
        ensures
            final(self).wf(),
            final(self).same_shape(old(self)),
            forall|x: int, y: int|
                final(self).has(x, y) ==> #[trigger] final(self).cell(x, y) == old(self).buffer_cell(
                    x,
                    y,
                ) && final(self).buffer_cell(x, y) == old(self).cell(x, y),
    {
        std::mem::swap(&mut self.chunks, &mut self.buffer);
    }

    /// The chunks of this grid regrown to `nx` by `ny` chunks: the old chunk
    /// `(i, j)` at `(i + ox, j + oy)`, every other chunk filled with `init`.
    spec fn placed(&self, nx: int, ox: int, oy: int, k: int, init: T) -> Seq<T> {
        let (j, i) = (k / nx, k % nx);
        if ox <= i < ox + self.num_chunks_x && oy <= j < oy + self.num_chunks_y {
            self.chunks@[(j - oy) * self.num_chunks_x + (i - ox)].cells@
        } else {
            Seq::new(CHUNK_SIZE as nat, |l: int| init)
        }
    }

    fn regrown(&self, nx: usize, ny: usize, ox: usize, oy: usize, init: &T) -> (r: Vec<Chunk<T>>)
        requires
            self.wf(),
            ox + self.num_chunks_x <= nx,
            oy + self.num_chunks_y <= ny,
            nx * ny <= usize::MAX,
        ensures
            r@.len() == nx * ny,
            forall|k: int|
                0 <= k < nx * ny ==> (#[trigger] r@[k]).wf() && r@[k].cells@ == self.placed(
                    nx as int,
                    ox as int,
                    oy as int,
                    k,
                    *init,
                ),
    {
        let mut r: Vec<Chunk<T>> = Vec::new();
        let mut j: usize = 0;
        while j < ny
            invariant
                self.wf(),
                ox + self.num_chunks_x <= nx,
                oy + self.num_chunks_y <= ny,
                nx * ny <= usize::MAX,
                j <= ny,
                r@.len() == j * nx,
                forall|k: int|
                    0 <= k < r@.len() ==> (#[trigger] r@[k]).wf() && r@[k].cells@ == self.placed(
                        nx as int,
                        ox as int,
                        oy as int,
                        k,
                        *init,
                    ),
            decreases ny - j,
        {
            let mut i: usize = 0;
            while i < nx
                invariant
                    self.wf(),
                    ox + self.num_chunks_x <= nx,
                    oy + self.num_chunks_y <= ny,
                    nx * ny <= usize::MAX,
                    j < ny,
                    i <= nx,
                    r@.len() == j * nx + i,
                    forall|k: int|
                        0 <= k < r@.len() ==> (#[trigger] r@[k]).wf() && r@[k].cells@
                            == self.placed(nx as int, ox as int, oy as int, k, *init),
                decreases nx - i,
            {
                proof {
                    lemma_fundamental_div_mod_converse(
                        j * nx + i,
                        nx as int,
                        j as int,
                        i as int,
                    );
                }
                if ox <= i && i < ox + self.num_chunks_x && oy <= j && j < oy + self.num_chunks_y {
                    proof {
                        lemma_mul_bound(
                            j - oy,
                            i - ox,
                            self.num_chunks_x as int,
                            self.num_chunks_y as int,
                        );
                    }
                    let c = self.chunks[(j - oy) * self.num_chunks_x + (i - ox)].duplicate();
                    r.push(c);
                } else {
                    let c = Chunk::init(init);
                    assert(c.cells@ =~= Seq::new(CHUNK_SIZE as nat, |l: int| *init));
                    r.push(c);
                }
                i = i + 1;
            }
            proof {
                assert((j + 1) * nx == j * nx + nx) by (nonlinear_arith);
            }
            j = j + 1;
        }
        assert(j * nx == nx * ny) by (nonlinear_arith)
            requires
                j == ny,
        ;
        r
    }

    /// Grow the grid by `ax` chunks in a row and `ay` in a column; the old
    /// cell `(x, y)` moves to `(x + ox * CHUNK_LEN, y + oy * CHUNK_LEN)` and
    /// every new cell holds `init`.
    pub(crate) fn grow(&mut self, ax: usize, ay: usize, ox: usize, oy: usize, init: T)
        requires
            old(self).wf(),
            ox <= ax,
            oy <= ay,
            (old(self).chunks_x() + ax) * CHUNK_LEN <= isize::MAX,
            (old(self).chunks_y() + ay) * CHUNK_LEN <= isize::MAX,
            (old(self).chunks_x() + ax) * (old(self).chunks_y() + ay) <= usize::MAX,
        ensures
            final(self).wf(),
            final(self).chunks_x() == old(self).chunks_x() + ax,
            final(self).chunks_y() == old(self).chunks_y() + ay,
            forall|x: int, y: int|
                final(self).has(x, y) ==> #[trigger] final(self).cell(x, y) == if ox * CHUNK_LEN
                    <= x < ox * CHUNK_LEN + old(self).spec_width() && oy * CHUNK_LEN <= y < oy
                    * CHUNK_LEN + old(self).spec_height() {
                    old(self).cell(x - ox * CHUNK_LEN, y - oy * CHUNK_LEN)
                } else {
                    init
                },
    {
        let nx = self.num_chunks_x + ax;
        let ny = self.num_chunks_y + ay;
        let chunks = self.regrown(nx, ny, ox, oy, &init);
        let total = nx * ny;
        let ghost prev = *self;
        let mut buffer: Vec<Chunk<T>> = Vec::new();
        std::mem::swap(&mut buffer, &mut self.buffer);
        while buffer.len() < total
            invariant
                total == nx * ny,
                forall|k: int| 0 <= k < buffer@.len() ==> (#[trigger] buffer@[k]).wf(),
            decreases total - buffer@.len(),
        {
            buffer.push(Chunk::init(&init));
        }
        while buffer.len() > total
            invariant
                total == nx * ny,
                buffer@.len() >= total,
                forall|k: int| 0 <= k < buffer@.len() ==> (#[trigger] buffer@[k]).wf(),
            decreases buffer@.len(),
        {
            buffer.pop();
        }
        self.chunks = chunks;
        self.buffer = buffer;
        self.num_chunks_x = nx;
        self.num_chunks_y = ny;
        assert forall|x: int, y: int| self.has(x, y) implies #[trigger] self.cell(x, y) == if ox
            * CHUNK_LEN <= x < ox * CHUNK_LEN + prev.spec_width() && oy * CHUNK_LEN <= y < oy
            * CHUNK_LEN + prev.spec_height() {
            prev.cell(x - ox * CHUNK_LEN, y - oy * CHUNK_LEN)
        } else {
            init
        } by {
            self.lemma_index(x, y);
            let (x0, y0) = (x - ox * 16, y - oy * 16);
            assert(x0 / 16 == x / 16 - ox && x0 % 16 == x % 16);
            assert(y0 / 16 == y / 16 - oy && y0 % 16 == y % 16);
        }
    }

    /// Add `|n|` columns of chunks, before the first column when `n < 0`,
    /// after the last one when `n > 0`; the new cells hold `init`.
    pub fn expand_x(&mut self, n: isize, init: T)
        requires
            old(self).wf(),
            (old(self).chunks_x() + abs(n)) * CHUNK_LEN <= isize::MAX,
            (old(self).chunks_x() + abs(n)) * old(self).chunks_y() <= usize::MAX,
        ensures
            final(self).wf(),
            final(self).chunks_x() == old(self).chunks_x() + abs(n),
            final(self).chunks_y() == old(self).chunks_y(),
            forall|x: int, y: int|
                final(self).has(x, y) ==> #[trigger] final(self).cell(x, y) == if shift(n) <= x
                    < shift(n) + old(self).spec_width() {
                    old(self).cell(x - shift(n), y)
                } else {
                    init
                },
            forall|x: int, y: int|
                old(self).has(x, y) ==> #[trigger] old(self).cell(x, y) == final(self).cell(
                    x + shift(n),
                    y,
                ),
            n == 0 ==> *final(self) == *old(self),
    {
        if n == 0 {
            return ;
        }
        let ghost before = *self;
        let na = magnitude(n);
        let ox = if n < 0 {
            na
        } else {
            0
        };
        self.grow(na, 0, ox, 0, init);
        assert forall|x: int, y: int| before.has(x, y) implies #[trigger] before.cell(x, y)
            == self.cell(x + shift(n), y) by {
            assert(self.has(x + shift(n), y));
        }
    }

    /// Add `|n|` rows of chunks, before the first row when `n < 0`, after
    /// the last one when `n > 0`; the new cells hold `init`.
    pub fn expand_y(&mut self, n: isize, init: T)
        requires
            old(self).wf(),
            (old(self).chunks_y() + abs(n)) * CHUNK_LEN <= isize::MAX,
            old(self).chunks_x() * (old(self).chunks_y() + abs(n)) <= usize::MAX,
        ensures
            final(self).wf(),
            final(self).chunks_x() == old(self).chunks_x(),
            final(self).chunks_y() == old(self).chunks_y() + abs(n),
            forall|x: int, y: int|
                final(self).has(x, y) ==> #[trigger] final(self).cell(x, y) == if shift(n) <= y
                    < shift(n) + old(self).spec_height() {
                    old(self).cell(x, y - shift(n))
                } else {
                    init
                },
            forall|x: int, y: int|
                old(self).has(x, y) ==> #[trigger] old(self).cell(x, y) == final(self).cell(
                    x,
                    y + shift(n),
                ),
            n == 0 ==> *final(self) == *old(self),
    {
        if n == 0 {
            return ;
        }
        let ghost before = *self;
        let na = magnitude(n);
        let oy = if n < 0 {
            na
        } else {
            0
        };
        self.grow(0, na, 0, oy, init);
        assert forall|x: int, y: int| before.has(x, y) implies #[trigger] before.cell(x, y)
            == self.cell(x, y + shift(n)) by {
            assert(self.has(x, y + shift(n)));
        }
    }

    /// Set every cell to the rule's default state. The first failure is
    /// returned, with no cell changed.
    pub fn clear<R: Rule<CellState = T>>(&mut self, rule: &R) -> (r: Result<(), RuleError>)
        requires
            old(self).wf(),
        ensures
            final(self).wf(),
            final(self).same_shape(old(self)),
            match rule.spec_default_state() {
                Ok(d) => r is Ok && forall|x: int, y: int|
                    final(self).has(x, y) ==> #[trigger] final(self).cell(x, y) == d,
                Err(e) => r == (if old(self).is_empty() {
                    Ok(())
                } else {
                    Err::<(), RuleError>(e)
                }) && forall|x: int, y: int|
                    final(self).has(x, y) ==> #[trigger] final(self).cell(x, y) == old(self).cell(
                        x,
                        y,
                    ),
            },
    {
        proof {
            assert(self.chunks@.len() == 0 <==> self.is_empty()) by (nonlinear_arith)
                requires
                    self.chunks@.len() == self.num_chunks_x * self.num_chunks_y,
                    self.is_empty() <==> (self.num_chunks_x == 0 || self.num_chunks_y == 0),
            ;
        }
        let mut k: usize = 0;
        while k < self.chunks.len()
            invariant
                self.wf(),
                self.same_shape(old(self)),
                k <= self.chunks@.len(),
                k == 0 ==> self.chunks@ == old(self).chunks@,
                k > 0 ==> rule.spec_default_state() is Ok,
                self.chunks@.len() == old(self).chunks@.len(),
                old(self).chunks@.len() == 0 <==> old(self).is_empty(),
                forall|kk: int, l: int|
                    0 <= kk < k && 0 <= l < CHUNK_SIZE ==> #[trigger] self.chunks@[kk].cells@[l]
                        == rule.spec_default_state()->Ok_0,
            decreases self.chunks@.len() - k,
        {
            let ghost before = self.chunks@;
            match self.chunks[k].clear(rule) {
                Ok(()) => {},
                Err(e) => {
                    assert(self.chunks@ =~= before);
                    return Err(e);
                },
            }
            k = k + 1;
        }
        proof {
            if let Ok(d) = rule.spec_default_state() {
                assert forall|x: int, y: int| self.has(x, y) implies #[trigger] self.cell(x, y)
                    == d by {
                    self.lemma_index(x, y);
                }
            }
        }
        Ok(())
    }

    /// The states of the cells at `coords`, in order.
    fn states_at(&self, coords: &Vec<(usize, usize)>) -> (r: Vec<T>)
        requires
            self.wf(),
            forall|k: int|
                0 <= k < coords@.len() ==> (#[trigger] coords@[k]).0 < self.spec_width()
                    && coords@[k].1 < self.spec_height(),
        ensures
            r@ == states_at(self.model(), coords@),
    {
        let mut r: Vec<T> = Vec::new();
        let mut k: usize = 0;
        while k < coords.len()
            invariant
                self.wf(),
                forall|kk: int|
                    0 <= kk < coords@.len() ==> (#[trigger] coords@[kk]).0 < self.spec_width()
                        && coords@[kk].1 < self.spec_height(),
                k <= coords@.len(),
                r@.len() == k,
                forall|kk: int|
                    0 <= kk < k ==> #[trigger] r@[kk] == self.cell(
                        coords@[kk].0 as int,
                        coords@[kk].1 as int,
                    ),
            decreases coords@.len() - k,
        {
            let (x, y) = coords[k];
            r.push(self.cell_at(x, y).duplicate());
            k = k + 1;
        }
        assert(r@ =~= states_at(self.model(), coords@));
        r
    }

    /// Whether every cell visited before the position `(i, j)` of the chunk
    /// `(ci, cj)` holds, in the buffer, its update from `m`.
    spec fn updated_upto<R: Rule<CellState = T>>(
        &self,
        rule: &R,
        m: Seq<Seq<T>>,
        cj: int,
        ci: int,
        j: int,
        i: int,
    ) -> bool {
        forall|x: int, y: int|
            #![trigger self.buffer_cell(x, y)]
            self.has(x, y) && visited(cj, ci, j, i, x, y) ==> cell_update(rule, m, x, y) == Ok::<
                T,
                RuleError,
            >(self.buffer_cell(x, y))
    }

    /// One generation: every cell is updated by `rule` from its state and
    /// its neighbors' states in the current generation, into the scratch
    /// buffer, which then becomes the current generation. On the first cell
    /// whose update fails, that error is returned and the current generation
    /// is left as it was.
    pub fn update<R: Rule<CellState = T>>(&mut self, rule: &R) -> (r: Result<(), RuleError>)
        requires
            old(self).wf(),
        ensures
            final(self).wf(),
            final(self).same_shape(old(self)),
            r is Ok <==> !step_fails(rule, old(self).model()),
            r is Ok ==> final(self).model() == stepped(rule, old(self).model()),
            r is Err ==> final(self).model() == old(self).model(),
            stepped_to(rule, old(self).model(), final(self).model(), r is Ok),
            r matches Err(e) ==> exists|x: int, y: int|
                old(self).has(x, y) && #[trigger] cell_update(rule, old(self).model(), x, y) == Err::<
                    T,
                    RuleError,
                >(e),
    {
        let ghost m = self.model();
        let w = self.width();
        let h = self.height();
        let ncx = self.num_chunks_x;
        let ncy = self.num_chunks_y;
        let mut cj: usize = 0;
        while cj < ncy
            invariant
                self.wf(),
                self.same_shape(old(self)),
                self.chunks == old(self).chunks,
                m == old(self).model(),
                w == self.spec_width(),
                h == self.spec_height(),
                ncx == self.chunks_x(),
                ncy == self.chunks_y(),
                cj <= ncy,
                self.updated_upto(rule, m, cj as int, 0, 0, 0),
            decreases ncy - cj,
        {
            let mut ci: usize = 0;
            while ci < ncx
                invariant
                    self.wf(),
                    self.same_shape(old(self)),
                    self.chunks == old(self).chunks,
                    m == old(self).model(),
                    w == self.spec_width(),
                    h == self.spec_height(),
                    ncx == self.chunks_x(),
                    ncy == self.chunks_y(),
                    cj < ncy,
                    ci <= ncx,
                    self.updated_upto(rule, m, cj as int, ci as int, 0, 0),
                decreases ncx - ci,
            {
                let mut j: usize = 0;
                while j < CHUNK_LEN
                    invariant
                        self.wf(),
                        self.same_shape(old(self)),
                        self.chunks == old(self).chunks,
                        m == old(self).model(),
                        w == self.spec_width(),
                        h == self.spec_height(),
                        ncx == self.chunks_x(),
                        ncy == self.chunks_y(),
                        cj < ncy,
                        ci < ncx,
                        j <= CHUNK_LEN,
                        self.updated_upto(rule, m, cj as int, ci as int, j as int, 0),
                    decreases CHUNK_LEN - j,
                {
                    let mut i: usize = 0;
                    while i < CHUNK_LEN
                        invariant
                            self.wf(),
                            self.same_shape(old(self)),
                            self.chunks == old(self).chunks,
                            m == old(self).model(),
                            w == self.spec_width(),
                            h == self.spec_height(),
                            ncx == self.chunks_x(),
                            ncy == self.chunks_y(),
                            cj < ncy,
                            ci < ncx,
                            j < CHUNK_LEN,
                            i <= CHUNK_LEN,
                            self.updated_upto(rule, m, cj as int, ci as int, j as int, i as int),
                        decreases CHUNK_LEN - i,
                    {
                        let x = ci * CHUNK_LEN + i;
                        let y = cj * CHUNK_LEN + j;
                        let idxs = <R::Neighborhood as Neighbors>::neighbors(
                            x as isize,
                            y as isize,
                            w as isize,
                            h as isize,
                        );
                        let states = self.states_at(&idxs);
                        let center = self.cell_at(x, y).duplicate();
                        proof {
                            assert(self.model() =~~= m);
                            assert(m[y as int].len() == w && m.len() == h);
                            assert(center == m[y as int][x as int]);
                        }
                        match rule.update(center, states) {
                            Ok(v) => {
                                let ghost before = *self;
                                self.set_buffer_cell(x, y, v);
                                assert forall|x2: int, y2: int|
                                    self.has(x2, y2) && visited(
                                        cj as int,
                                        ci as int,
                                        j as int,
                                        i + 1,
                                        x2,
                                        y2,
                                    ) implies cell_update(rule, m, x2, y2) == Ok::<T, RuleError>(#[trigger] self.buffer_cell(x2, y2)) by {
                                    assert(x2 == (x2 / 16) * 16 + x2 % 16);
                                    assert(y2 == (y2 / 16) * 16 + y2 % 16);
                                    if !(x2 == x && y2 == y) {
                                        assert(visited(
                                            cj as int,
                                            ci as int,
                                            j as int,
                                            i as int,
                                            x2,
                                            y2,
                                        ));
                                        assert(before.buffer_cell(x2, y2) == self.buffer_cell(
                                            x2,
                                            y2,
                                        ));
                                    } else {
                                        assert(cell_update(rule, m, x2, y2) == Ok::<T, RuleError>(v));
                                    }
                                }
                            },
                            Err(e) => {
                                assert(self.model() =~~= old(self).model());
                                assert(old(self).has(x as int, y as int));
                                assert(cell_update(rule, old(self).model(), x as int, y as int)
                                    == Err::<T, RuleError>(e));
                                return Err(e);
                            },
                        }
                        i = i + 1;
                    }
                    proof {
                        assert forall|x2: int, y2: int|
                            #![trigger self.buffer_cell(x2, y2)]
                            self.has(x2, y2) && visited(cj as int, ci as int, j + 1, 0, x2, y2) implies cell_update(rule, m, x2, y2) == Ok::<T, RuleError>(self.buffer_cell(x2, y2)) by {
                            assert(visited(cj as int, ci as int, j as int, 16, x2, y2));
                        }
                    }
                    j = j + 1;
                }
                proof {
                    assert forall|x2: int, y2: int|
                        #![trigger self.buffer_cell(x2, y2)]
                        self.has(x2, y2) && visited(cj as int, ci + 1, 0, 0, x2, y2) implies cell_update(rule, m, x2, y2) == Ok::<T, RuleError>(self.buffer_cell(x2, y2)) by {
                        assert(visited(cj as int, ci as int, 16, 0, x2, y2));
                    }
                }
                ci = ci + 1;
            }
            proof {
                assert forall|x2: int, y2: int|
                    #![trigger self.buffer_cell(x2, y2)]
                    self.has(x2, y2) && visited(cj + 1, 0, 0, 0, x2, y2) implies cell_update(rule, m, x2, y2) == Ok::<T, RuleError>(self.buffer_cell(x2, y2)) by {
                    assert(visited(cj as int, ncx as int, 0, 0, x2, y2));
                }
            }
            cj = cj + 1;
        }
        let ghost before = *self;
        self.swap_buffer();
        proof {
            assert forall|x: int, y: int|
                0 <= y < m.len() && 0 <= x < m[y].len() implies #[trigger] cell_update(
                rule,
                m,
                x,
                y,
            ) is Ok by {
                assert(before.has(x, y));
                assert(visited(ncy as int, 0, 0, 0, x, y));
                assert(before.buffer_cell(x, y) == cell_update(rule, m, x, y)->Ok_0);
            }
            assert forall|x: int, y: int| self.has(x, y) implies #[trigger] self.cell(x, y)
                == cell_update(rule, m, x, y)->Ok_0 by {
                assert(visited(ncy as int, 0, 0, 0, x, y));
                assert(before.buffer_cell(x, y) == cell_update(rule, m, x, y)->Ok_0);
            }
            assert(self.model() =~~= stepped(rule, m));
        }
        Ok(())
    }

    /// A grid with the same shape and the same cells.
    pub fn duplicate(&self) -> (r: Self)
        requires
            self.wf(),
        ensures
            r.wf(),
            r.same_shape(self),
            r.model() == self.model(),
            forall|x: int, y: int| r.has(x, y) ==> #[trigger] r.cell(x, y) == self.cell(x, y),
    {
        let mut chunks: Vec<Chunk<T>> = Vec::new();
        let mut buffer: Vec<Chunk<T>> = Vec::new();
        let mut k: usize = 0;
        while k < self.chunks.len()
            invariant
                self.wf(),
                k <= self.chunks@.len(),
                chunks@.len() == k,
                buffer@.len() == k,
                forall|kk: int|
                    0 <= kk < k ==> (#[trigger] chunks@[kk]).cells@ == self.chunks@[kk].cells@,
                forall|kk: int| 0 <= kk < k ==> (#[trigger] buffer@[kk]).wf(),
            decreases self.chunks@.len() - k,
        {
            chunks.push(self.chunks[k].duplicate());
            buffer.push(self.buffer[k].duplicate());
            k = k + 1;
        }
        let r = Grid {
            num_chunks_x: self.num_chunks_x,
            num_chunks_y: self.num_chunks_y,
            chunks,
            buffer,
        };
        assert forall|x: int, y: int| r.has(x, y) implies #[trigger] r.cell(x, y) == self.cell(
            x,
            y,
        ) by {
            self.lemma_index(x, y);
        }
        assert(r.model() =~~= self.model());
        r
    }

    /// Write the unmasked cells of `cb` with its corner at `(xofs, yofs)`.
    /// A clipboard that sticks out of the grid is refused, and nothing is
    /// written.
    pub fn paste_clipboard(&mut self, xofs: usize, yofs: usize, cb: &ClipBoard<T>) -> (r: Result<
        (),
        ClipBoardError,
    >)
        requires
            old(self).wf(),
            cb.wf(),
        ensures
            final(self).wf(),
            final(self).same_shape(old(self)),
            r is Ok <==> (xofs + cb.spec_width() <= old(self).spec_width() && yofs
                + cb.spec_height() <= old(self).spec_height()),
            forall|x: int, y: int|
                final(self).has(x, y) ==> #[trigger] final(self).cell(x, y) == if r is Ok && xofs
                    <= x < xofs + cb.spec_width() && yofs <= y < yofs + cb.spec_height() && cb.get(
                    x - xofs,
                    y - yofs,
                ) is Some {
                    cb.get(x - xofs, y - yofs)->Some_0
                } else {
                    old(self).cell(x, y)
                },
    {
        let w = self.width();
        let h = self.height();
        if xofs > w || cb.width() > w - xofs || yofs > h || cb.height() > h - yofs {
            return Err(ClipBoardError { msg: "the clipboard does not fit in the board".to_string() });
        }
        let mut j: usize = 0;
        while j < cb.height()
            invariant
                self.wf(),
                cb.wf(),
                self.same_shape(old(self)),
                w == self.spec_width(),
                h == self.spec_height(),
                xofs + cb.spec_width() <= w,
                yofs + cb.spec_height() <= h,
                j <= cb.spec_height(),
                forall|x: int, y: int|
                    self.has(x, y) ==> #[trigger] self.cell(x, y) == if xofs <= x < xofs
                        + cb.spec_width() && yofs <= y < yofs + j && cb.get(x - xofs, y - yofs) is Some {
                        cb.get(x - xofs, y - yofs)->Some_0
                    } else {
                        old(self).cell(x, y)
                    },
            decreases cb.spec_height() - j,
        {
            let mut i: usize = 0;
            while i < cb.width()
                invariant
                    self.wf(),
                    cb.wf(),
                    self.same_shape(old(self)),
                    w == self.spec_width(),
                    h == self.spec_height(),
                    xofs + cb.spec_width() <= w,
                    yofs + cb.spec_height() <= h,
                    j < cb.spec_height(),
                    i <= cb.spec_width(),
                    forall|x: int, y: int|
                        self.has(x, y) ==> #[trigger] self.cell(x, y) == if xofs <= x < xofs
                            + cb.spec_width() && yofs <= y < yofs + cb.spec_height() && (y < yofs + j
                            || (y == yofs + j && x < xofs + i)) && cb.get(x - xofs, y - yofs) is Some {
                            cb.get(x - xofs, y - yofs)->Some_0
                        } else {
                            old(self).cell(x, y)
                        },
                decreases cb.spec_width() - i,
            {
                match cb.cell_at(i, j) {
                    Some(c) => {
                        let v = c.duplicate();
                        *self.cell_at_mut(i + xofs, j + yofs) = v;
                    },
                    None => {},
                }
                i = i + 1;
            }
            j = j + 1;
        }
        Ok(())
    }

    /// Copy the `w` by `h` region whose corner is `(x0, y0)`; cells of the
    /// region that lie outside the grid stay masked.
    pub fn extract(&self, x0: usize, y0: usize, w: usize, h: usize) -> (r: ClipBoard<T>)
        requires
            self.wf(),
            w * h <= usize::MAX,
            x0 + w <= usize::MAX,
            y0 + h <= usize::MAX,
        ensures
            r.wf(),
            r.spec_width() == w,
            r.spec_height() == h,
            forall|i: int, j: int|
                0 <= i < w && 0 <= j < h ==> #[trigger] r.get(i, j) == if self.has(x0 + i, y0 + j) {
                    Some(self.cell(x0 + i, y0 + j))
                } else {
                    None
                },
    {
        let mut cb: ClipBoard<T> = ClipBoard::new(w, h);
        let mut j: usize = 0;
        while j < h
            invariant
                self.wf(),
                cb.wf(),
                cb.spec_width() == w,
                cb.spec_height() == h,
                x0 + w <= usize::MAX,
                y0 + h <= usize::MAX,
                j <= h,
                forall|i2: int, j2: int|
                    0 <= i2 < w && 0 <= j2 < h ==> #[trigger] cb.get(i2, j2) == if j2 < j
                        && self.has(x0 + i2, y0 + j2) {
                        Some(self.cell(x0 + i2, y0 + j2))
                    } else {
                        None
                    },
            decreases h - j,
        {
            let mut i: usize = 0;
            while i < w
                invariant
                    self.wf(),
                    cb.wf(),
                    cb.spec_width() == w,
                    cb.spec_height() == h,
                    x0 + w <= usize::MAX,
                    y0 + h <= usize::MAX,
                    j < h,
                    i <= w,
                    forall|i2: int, j2: int|
                        0 <= i2 < w && 0 <= j2 < h ==> #[trigger] cb.get(i2, j2) == if (j2 < j || (
                        j2 == j && i2 < i)) && self.has(x0 + i2, y0 + j2) {
                            Some(self.cell(x0 + i2, y0 + j2))
                        } else {
                            None
                        },
                decreases w - i,
            {
                if self.has_cell(x0 + i, y0 + j) {
                    let v = self.cell_at(x0 + i, y0 + j).duplicate();
                    *cb.cell_at_mut(i, j) = Some(v);
                }
                i = i + 1;
            }
            j = j + 1;
        }
        cb
    }

    /// Where the cell `(x, y)` comes in the walk over the chunks in index
    /// order and, in each chunk, row by row.
    pub closed spec fn order(&self, x: int, y: int) -> int {
        chunk_of(self.num_chunks_x as int, x, y) * CHUNK_SIZE + local_of(x, y)
    }

    /// Whether the cells hold `values`, the cell `(x, y)` the value at its
    /// place in `order`.
    pub open spec fn holds_in_order(&self, values: Seq<T>) -> bool {
        &&& values.len() == self.spec_width() * self.spec_height()
        &&& forall|x: int, y: int|
            self.has(x, y) ==> #[trigger] self.cell(x, y) == values[self.order(x, y)]
    }

    /// Store `values` in the cells, walking the chunks in index order and
    /// each chunk row by row.
    pub fn fill_in_order(&mut self, values: &Vec<T>)
        requires
            old(self).wf(),
            values@.len() == old(self).spec_width() * old(self).spec_height(),
        ensures
            final(self).wf(),
            final(self).same_shape(old(self)),
            final(self).holds_in_order(values@),
    {
        proof {
            assert(values@.len() == self.chunks@.len() * CHUNK_SIZE) by (nonlinear_arith)
                requires
                    values@.len() == (self.num_chunks_x * 16) * (self.num_chunks_y * 16),
                    self.chunks@.len() == self.num_chunks_x * self.num_chunks_y,
            ;
        }
        let n = self.chunks.len();
        let m = values.len();
        let mut k: usize = 0;
        while k < n
            invariant
                self.wf(),
                self.same_shape(old(self)),
                n == self.chunks@.len(),
                m == values@.len(),
                values@.len() == n * CHUNK_SIZE,
                k <= n,
                forall|kk: int, l: int|
                    0 <= kk < k && 0 <= l < CHUNK_SIZE ==> #[trigger] self.chunks@[kk].cells@[l]
                        == values@[kk * CHUNK_SIZE + l],
            decreases n - k,
        {
            let mut l: usize = 0;
            while l < CHUNK_SIZE
                invariant
                    self.wf(),
                    self.same_shape(old(self)),
                    n == self.chunks@.len(),
                    m == values@.len(),
                    values@.len() == n * CHUNK_SIZE,
                    k < n,
                    l <= CHUNK_SIZE,
                    forall|kk: int, l2: int|
                        0 <= kk < k && 0 <= l2 < CHUNK_SIZE ==> #[trigger] self.chunks@[kk].cells@[l2]
                            == values@[kk * CHUNK_SIZE + l2],
                    forall|l2: int|
                        0 <= l2 < l ==> #[trigger] self.chunks@[k as int].cells@[l2]
                            == values@[k * CHUNK_SIZE + l2],
                decreases CHUNK_SIZE - l,
            {
                proof {
                    lemma_mul_bound(k as int, l as int, CHUNK_SIZE as int, n as int);
                }
                let v = values[k * CHUNK_SIZE + l].duplicate();
                self.chunks[k].cells.set(l, v);
                l = l + 1;
            }
            k = k + 1;
        }
        assert forall|x: int, y: int| self.has(x, y) implies #[trigger] self.cell(x, y)
            == values@[self.order(x, y)] by {
            self.lemma_index(x, y);
        }
        proof {
            assert(values@.len() == self.spec_width() * self.spec_height());
        }
    }

    /// Set every cell to a state drawn by the rule: all the states are drawn
    /// first, then stored walking the chunks in index order and each chunk
    /// row by row, so a generator in a given state gives a given board. On
    /// the first failed draw that error is returned and no cell changes.
    pub fn randomize<R: Rule<CellState = T>>(&mut self, rule: &R, rng: &mut rand::rngs::StdRng) -> (r:
        Result<(), RuleError>)
        requires
            old(self).wf(),
        ensures
            final(self).wf(),
            final(self).same_shape(old(self)),
            rule.spec_randomize_ok() ==> r is Ok,
            r is Ok ==> exists|v: Seq<T>| #[trigger] final(self).holds_in_order(v),
            r is Err ==> *final(self) == *old(self),
    {
        let mut values: Vec<T> = Vec::new();
        let mut k: usize = 0;
        while k < self.chunks.len()
            invariant
                self.wf(),
                *self == *old(self),
                k <= self.chunks@.len(),
                values@.len() == k * CHUNK_SIZE,
            decreases self.chunks@.len() - k,
        {
            let mut l: usize = 0;
            while l < CHUNK_SIZE
                invariant
                    self.wf(),
                    *self == *old(self),
                    k < self.chunks@.len(),
                    l <= CHUNK_SIZE,
                    values@.len() == k * CHUNK_SIZE + l,
                decreases CHUNK_SIZE - l,
            {
                match rule.randomize(rng) {
                    Ok(s) => {
                        values.push(s);
                    },
                    Err(e) => {
                        return Err(e);
                    },
                }
                l = l + 1;
            }
            assert((k + 1) * CHUNK_SIZE == k * CHUNK_SIZE + CHUNK_SIZE) by (nonlinear_arith);
            k = k + 1;
        }
        proof {
            assert(values@.len() == self.spec_width() * self.spec_height()) by (nonlinear_arith)
                requires
                    values@.len() == k * CHUNK_SIZE,
                    k == self.chunks@.len(),
                    self.chunks@.len() == self.num_chunks_x * self.num_chunks_y,
                    self.spec_width() == self.num_chunks_x * 16,
                    self.spec_height() == self.num_chunks_y * 16,
            ;
        }
        self.fill_in_order(&values);
        Ok(())
    }
}

/// A paste or copy that does not fit the board.
#[derive(Debug)]
pub struct ClipBoardError {
    pub msg: String,
}

/// A small piece of board to copy-paste a region in a board: `x` by `y`
/// cells stored row by row, each either a state or masked (`None`).
pub struct ClipBoard<T> {
    x: usize,
    y: usize,
    cells: Vec<Option<T>>,
}

/// A state, or none, copied.
fn duplicate_option<T: State>(c: &Option<T>) -> (r: Option<T>)
    ensures
        r == *c,
{
    match c {
        Some(v) => Some(v.duplicate()),
        None => None,
    }
}

impl<T: State> ClipBoard<T> {
    pub closed spec fn spec_width(&self) -> nat {
        self.x as nat
    }

    pub closed spec fn spec_height(&self) -> nat {
        self.y as nat
    }

    pub closed spec fn wf(&self) -> bool {
        &&& self.cells@.len() == self.x * self.y
        &&& self.x * self.y <= usize::MAX
    }

    /// The cell `(i, j)`.
    pub closed spec fn get(&self, i: int, j: int) -> Option<T> {
        self.cells@[j * self.x + i]
    }

    proof fn lemma_index(&self, i: int, j: int)
        requires
            self.wf(),
            0 <= i < self.x,
            0 <= j < self.y,
        ensures
            0 <= j * self.x + i < self.cells@.len(),
    {
        lemma_mul_bound(j, i, self.x as int, self.y as int);
    }

    proof fn lemma_index_injective(&self, i: int, j: int, i2: int, j2: int)
        requires
            self.wf(),
            0 <= i < self.x,
            0 <= j < self.y,
            0 <= i2 < self.x,
            0 <= j2 < self.y,
            j * self.x + i == j2 * self.x + i2,
        ensures
            i == i2 && j == j2,
    {
        lemma_fundamental_div_mod_converse(j * self.x + i, self.x as int, j, i);
        lemma_fundamental_div_mod_converse(j2 * self.x + i2, self.x as int, j2, i2);
    }

    /// An `x` by `y` clipboard whose cells are all masked.
    pub fn new(x: usize, y: usize) -> (r: Self)
        requires
            x * y <= usize::MAX,
        ensures
            r.wf(),
            r.spec_width() == x,
            r.spec_height() == y,
            forall|i: int, j: int| 0 <= i < x && 0 <= j < y ==> #[trigger] r.get(i, j) is None,
    {
        let n = x * y;
        let mut cells: Vec<Option<T>> = Vec::new();
        let mut k: usize = 0;
        while k < n
            invariant
                k <= n,
                cells@.len() == k,
                forall|kk: int| 0 <= kk < k ==> #[trigger] cells@[kk] is None,
            decreases n - k,
        {
            cells.push(None);
            k = k + 1;
        }
        let r = ClipBoard { x, y, cells };
        assert forall|i: int, j: int| 0 <= i < x && 0 <= j < y implies #[trigger] r.get(i, j) is None by {
            r.lemma_index(i, j);
        }
        r
    }

    /// An `x` by `y` clipboard holding `cells` row by row, if there are
    /// `x * y` of them.
    pub fn from_vec(x: usize, y: usize, cells: Vec<Option<T>>) -> (r: Option<Self>)
        ensures
            r is Some <==> cells@.len() == x * y,
            r matches Some(c) ==> c.wf() && c.spec_width() == x && c.spec_height() == y && forall|
                i: int,
                j: int,
            | 0 <= i < x && 0 <= j < y ==> #[trigger] c.get(i, j) == cells@[j * x + i],
    {
        let len = cells.len();
        match x.checked_mul(y) {
            Some(n) => {
                if len == n {
                    Some(ClipBoard { x, y, cells })
                } else {
                    None
                }
            },
            None => None,
        }
    }

    /// The cell `(x, y)`.
    pub fn cell_at(&self, x: usize, y: usize) -> (r: &Option<T>)
        requires
            self.wf(),
            x < self.spec_width(),
            y < self.spec_height(),
        ensures
            *r == self.get(x as int, y as int),
    {
        proof {
            self.lemma_index(x as int, y as int);
        }
        &self.cells[x + y * self.x]
    }

    /// Write access to the cell `(x, y)`; no other cell changes.
    pub fn cell_at_mut(&mut self, x: usize, y: usize) -> (r: &mut Option<T>)
        requires
            old(self).wf(),
            x < old(self).spec_width(),
            y < old(self).spec_height(),
        ensures
            *r == old(self).get(x as int, y as int),
            final(self).wf(),
            final(self).spec_width() == old(self).spec_width(),
            final(self).spec_height() == old(self).spec_height(),
            final(self).get(x as int, y as int) == *final(r),
            forall|i: int, j: int|
                #![trigger final(self).get(i, j)]
                0 <= i < old(self).spec_width() && 0 <= j < old(self).spec_height() && !(i == x && j
                    == y) ==> final(self).get(i, j) == old(self).get(i, j),
    {
        proof {
            self.lemma_index(x as int, y as int);
            assert forall|i: int, j: int|
                #![trigger self.get(i, j)]
                0 <= i < self.x && 0 <= j < self.y && !(i == x && j == y) implies 0 <= j * self.x + i
                < self.cells@.len() && j * self.x + i != y * self.x + x by {
                self.lemma_index(i, j);
                if j * self.x + i == y * self.x + x {
                    self.lemma_index_injective(i, j, x as int, y as int);
                }
            }
        }
        &mut self.cells[x + y * self.x]
    }

    pub fn has_cell(&self, x: usize, y: usize) -> (r: bool)
        ensures
            r == (x < self.spec_width() && y < self.spec_height()),
    {
        x < self.width() && y < self.height()
    }

    pub fn width(&self) -> (r: usize)
        ensures
            r == self.spec_width(),
    {
        self.x
    }

    pub fn height(&self) -> (r: usize)
        ensures
            r == self.spec_height(),
    {
        self.y
    }

    /// Whether `r` is `c` turned a quarter: `c`'s width is `r`'s height and
    /// the other way round, and the cell `(i, j)` of `r` is the cell
    /// `(width - 1 - j, i)` of `c`.
    pub open spec fn rotation_of(r: Self, c: Self) -> bool {
        &&& r.spec_width() == c.spec_height()
        &&& r.spec_height() == c.spec_width()
        &&& forall|i: int, j: int|
            0 <= i < r.spec_width() && 0 <= j < r.spec_height() ==> #[trigger] r.get(i, j) == c.get(
                c.spec_width() - 1 - j,
                i,
            )
    }

    /// Four quarter turns give back the clipboard: the same width, height
    /// and cells, masked ones included.
    pub proof fn lemma_rotate_four_times(c0: Self, c1: Self, c2: Self, c3: Self, c4: Self)
        requires
            Self::rotation_of(c1, c0),
            Self::rotation_of(c2, c1),
            Self::rotation_of(c3, c2),
            Self::rotation_of(c4, c3),
        ensures
            c4.spec_width() == c0.spec_width(),
            c4.spec_height() == c0.spec_height(),
            forall|i: int, j: int|
                0 <= i < c0.spec_width() && 0 <= j < c0.spec_height() ==> #[trigger] c4.get(i, j)
                    == c0.get(i, j),
    {
        let (w, h) = (c0.spec_width() as int, c0.spec_height() as int);
        assert forall|i: int, j: int| 0 <= i < w && 0 <= j < h implies #[trigger] c4.get(i, j)
            == c0.get(i, j) by {
            assert(c4.get(i, j) == c3.get(h - 1 - j, i));
            assert(c3.get(h - 1 - j, i) == c2.get(w - 1 - i, h - 1 - j));
            assert(c2.get(w - 1 - i, h - 1 - j) == c1.get(j, w - 1 - i));
            assert(c1.get(j, w - 1 - i) == c0.get(i, j));
        }
    }

    /// Turn the clipboard a quarter; width and height trade places.
    pub fn rotate(&mut self)
        requires
            old(self).wf(),
        ensures
            final(self).wf(),
            Self::rotation_of(*final(self), *old(self)),
    {
        proof {
            assert(self.y * self.x == self.x * self.y) by (nonlinear_arith);
        }
        let mut rotated = Self::new(self.y, self.x);
        let mut j: usize = 0;
        while j < rotated.height()
            invariant
                self.wf(),
                rotated.wf(),
                rotated.spec_width() == self.spec_height(),
                rotated.spec_height() == self.spec_width(),
                j <= rotated.spec_height(),
                forall|i2: int, j2: int|
                    0 <= i2 < rotated.spec_width() && 0 <= j2 < rotated.spec_height() ==> #[trigger] rotated.get(
                        i2,
                        j2,
                    ) == if j2 < j {
                        self.get(self.x - 1 - j2, i2)
                    } else {
                        None
                    },
            decreases rotated.spec_height() - j,
        {
            let mut i: usize = 0;
            while i < rotated.width()
                invariant
                    self.wf(),
                    rotated.wf(),
                    rotated.spec_width() == self.spec_height(),
                    rotated.spec_height() == self.spec_width(),
                    j < rotated.spec_height(),
                    i <= rotated.spec_width(),
                    forall|i2: int, j2: int|
                        0 <= i2 < rotated.spec_width() && 0 <= j2 < rotated.spec_height() ==> #[trigger] rotated.get(
                            i2,
                            j2,
                        ) == if j2 < j || (j2 == j && i2 < i) {
                            self.get(self.x - 1 - j2, i2)
                        } else {
                            None
                        },
                decreases rotated.spec_width() - i,
            {
                let v = duplicate_option(self.cell_at(self.x - 1 - j, i));
                *rotated.cell_at_mut(i, j) = v;
                i = i + 1;
            }
            j = j + 1;
        }
        *self = rotated;
    }
}

} // verus!
