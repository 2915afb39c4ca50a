//! A rule and the grid it drives.
use vstd::prelude::*;

use crate::board::{run, ClipBoard, ClipBoardError, Grid};
use crate::rule::{Rule, RuleError, State};

verus! {

/// Whole chunks needed for `n` cells.
pub open spec fn chunks_for(n: int) -> int {
    (n + 15) / 16
}

/// Chunks to add before the first column (or row) so that a clipboard `w`
/// cells wide, centered on the cell `c`, does not stick out on that side.
pub open spec fn pad_before(c: int, w: int) -> int {
    if c - w / 2 < 0 {
        chunks_for(w / 2 - c)
    } else {
        0
    }
}

/// Where the clipboard's corner lands once `pad_before` chunks are added.
pub open spec fn corner(c: int, w: int) -> int {
    c - w / 2 + 16 * pad_before(c, w)
}

/// Chunks to add after the last column (or row) of a board `size` cells
/// wide, once `pad_before` chunks are added, so the clipboard fits.
pub open spec fn pad_after(c: int, w: int, size: int) -> int {
    if corner(c, w) + w > size + 16 * pad_before(c, w) {
        chunks_for(corner(c, w) + w - size - 16 * pad_before(c, w))
    } else {
        0
    }
}

fn whole_chunks(n: usize) -> (r: usize)
    requires
        n <= isize::MAX,
    ensures
        r == chunks_for(n as int),
        r * 16 >= n,
        r * 16 < n + 16,
{
    let d = n / 16;
    let m = n % 16;
    if m == 0 {
        d
    } else {
        d + 1
    }
}

/// Where a clipboard `w` cells wide centered on `c` goes on a board `size`
/// cells wide: the chunks to add before and after, and the corner.
fn placement(c: usize, w: usize, size: usize) -> (r: (usize, usize, usize))
    requires
        c + w <= isize::MAX,
        size <= isize::MAX,
    ensures
        r.0 == pad_before(c as int, w as int),
        r.2 == corner(c as int, w as int),
        r.1 == pad_after(c as int, w as int, size as int),
        r.2 + w <= size + 16 * (r.0 + r.1),
        r.2 + w <= isize::MAX + 16,
{
    let half = w / 2;
    let before = if c < half {
        whole_chunks(half - c)
    } else {
        0
    };
    let corner = if c < half {
        c + 16 * before - half
    } else {
        c - half
    };
    let end = corner + w;
    let grown = size + 16 * before;
    let after = if end > grown {
        whole_chunks(end - grown)
    } else {
        0
    };
    (before, after, corner)
}

/// A running simulation: one rule and one grid of its cell states.
pub struct World2D<R: Rule> {
    rule: R,
    board: Grid<R::CellState>,
}

impl<R: Rule> World2D<R> {
    pub closed spec fn spec_rule(&self) -> R {
        self.rule
    }

    pub closed spec fn spec_board(&self) -> Grid<R::CellState> {
        self.board
    }

    pub open spec fn wf(&self) -> bool {
        self.spec_board().wf()
    }

    /// A world of `x_chunks` by `y_chunks` chunks whose cells all hold the
    /// rule's default state; the error of the rule when it has none.
    pub fn new(rule: R, x_chunks: usize, y_chunks: usize, z_chunks: usize) -> (r: Result<
        Self,
        RuleError,
    >)
        requires
            z_chunks == 1,
            x_chunks * 16 <= isize::MAX,
            y_chunks * 16 <= isize::MAX,
            x_chunks * y_chunks <= usize::MAX,
        ensures
            r is Ok <==> rule.spec_default_state() is Ok,
            r matches Ok(w) ==> {
                &&& w.wf()
                &&& w.spec_rule() == rule
                &&& w.spec_board().chunks_x() == x_chunks
                &&& w.spec_board().chunks_y() == y_chunks
                &&& forall|x: int, y: int|
                    w.spec_board().has(x, y) ==> #[trigger] w.spec_board().cell(x, y)
                        == rule.spec_default_state()->Ok_0
            },
            r matches Err(e) ==> rule.spec_default_state() == Err::<R::CellState, RuleError>(e),
    {
        match rule.default_state() {
            Ok(init) => {
                let board = Grid::init(x_chunks, y_chunks, init);
                Ok(World2D { rule, board })
            },
            Err(e) => Err(e),
        }
    }

    /// A world of 4 by 3 chunks whose cells all hold the rule's default
    /// state; the error of the rule when it has none.
    pub fn with_default_size(rule: R) -> (r: Result<Self, RuleError>)
        ensures
            r is Ok <==> rule.spec_default_state() is Ok,
            r matches Ok(w) ==> {
                &&& w.wf()
                &&& w.spec_rule() == rule
                &&& w.spec_board().chunks_x() == 4
                &&& w.spec_board().chunks_y() == 3
                &&& w.spec_board().all_cells(rule.spec_default_state()->Ok_0)
            },
            r matches Err(e) ==> rule.spec_default_state() == Err::<R::CellState, RuleError>(e),
    {
        Self::new(rule, 4, 3, 1)
    }

    pub fn rule(&self) -> (r: &R)
        ensures
            *r == self.spec_rule(),
    {
        &self.rule
    }

    /// Write access to the rule; the grid stays as it is.
    pub fn rule_mut(&mut self) -> (r: &mut R)
        ensures
            *r == old(self).spec_rule(),
            final(self).spec_rule() == *final(r),
            final(self).spec_board() == old(self).spec_board(),
    {
        &mut self.rule
    }

    pub fn board(&self) -> (r: &Grid<R::CellState>)
        ensures
            *r == self.spec_board(),
    {
        &self.board
    }

    /// Write access to the grid; the rule stays as it is.
    pub fn board_mut(&mut self) -> (r: &mut Grid<R::CellState>)
        ensures
            *r == old(self).spec_board(),
            final(self).spec_board() == *final(r),
            final(self).spec_rule() == old(self).spec_rule(),
    {
        &mut self.board
    }

    /// The layer shown; a two-dimensional world has only the layer 0.
    pub fn current_layer(&self) -> (r: usize)
        ensures
            r == 0,
    {
        0
    }

    /// A two-dimensional world has one layer: there is nothing to select.
    pub fn set_current_layer(&mut self, _z: usize)
        ensures
            *final(self) == *old(self),
    {
    }

    pub fn width(&self) -> (r: usize)
        requires
            self.wf(),
        ensures
            r == self.spec_board().spec_width(),
    {
        self.board.width()
    }

    pub fn height(&self) -> (r: usize)
        requires
            self.wf(),
        ensures
            r == self.spec_board().spec_height(),
    {
        self.board.height()
    }

    pub fn depth(&self) -> (r: usize)
        ensures
            r == 1,
    {
        1
    }

    /// Add `|n|` columns of chunks to the grid, before the first column when
    /// `n < 0`, after the last one when `n > 0`; the new cells hold the
    /// rule's default state. On the rule's error nothing changes.
    pub fn expand_x(&mut self, n: isize) -> (r: Result<(), RuleError>)
        requires
            old(self).wf(),
            (old(self).spec_board().chunks_x() + crate::board::abs(n)) * 16 <= isize::MAX,
            (old(self).spec_board().chunks_x() + crate::board::abs(n)) * old(
                self,
            ).spec_board().chunks_y() <= usize::MAX,
        ensures
            final(self).wf(),
            final(self).spec_rule() == old(self).spec_rule(),
            match old(self).spec_rule().spec_default_state() {
                Err(e) => r == Err::<(), RuleError>(e) && *final(self) == *old(self),
                Ok(d) => {
                    &&& r is Ok
                    &&& final(self).spec_board().chunks_x() == old(self).spec_board().chunks_x()
                        + crate::board::abs(n)
                    &&& final(self).spec_board().chunks_y() == old(self).spec_board().chunks_y()
                    &&& forall|x: int, y: int|
                        old(self).spec_board().has(x, y) ==> #[trigger] old(self).spec_board().cell(
                            x,
                            y,
                        ) == final(self).spec_board().cell(x + crate::board::shift(n), y)
                    &&& forall|x: int, y: int|
                        final(self).spec_board().has(x, y) ==> #[trigger] final(self).spec_board().cell(x, y)
                            == if crate::board::shift(n) <= x < crate::board::shift(n) + old(
                            self,
                        ).spec_board().spec_width() {
                            old(self).spec_board().cell(x - crate::board::shift(n), y)
                        } else {
                            d
                        }
                },
            },
    {
        match self.rule.default_state() {
            Ok(d) => {
                self.board.expand_x(n, d);
                Ok(())
            },
            Err(e) => Err(e),
        }
    }

    /// Add `|n|` rows of chunks to the grid, before the first row when
    /// `n < 0`, after the last one when `n > 0`; the new cells hold the
    /// rule's default state. On the rule's error nothing changes.
    pub fn expand_y(&mut self, n: isize) -> (r: Result<(), RuleError>)
        requires
            old(self).wf(),
            (old(self).spec_board().chunks_y() + crate::board::abs(n)) * 16 <= isize::MAX,
            old(self).spec_board().chunks_x() * (old(self).spec_board().chunks_y()
                + crate::board::abs(n)) <= usize::MAX,
        ensures
            final(self).wf(),
            final(self).spec_rule() == old(self).spec_rule(),
            match old(self).spec_rule().spec_default_state() {
                Err(e) => r == Err::<(), RuleError>(e) && *final(self) == *old(self),
                Ok(d) => {
                    &&& r is Ok
                    &&& final(self).spec_board().chunks_x() == old(self).spec_board().chunks_x()
                    &&& final(self).spec_board().chunks_y() == old(self).spec_board().chunks_y()
                        + crate::board::abs(n)
                    &&& forall|x: int, y: int|
                        old(self).spec_board().has(x, y) ==> #[trigger] old(self).spec_board().cell(
                            x,
                            y,
                        ) == final(self).spec_board().cell(x, y + crate::board::shift(n))
                    &&& forall|x: int, y: int|
                        final(self).spec_board().has(x, y) ==> #[trigger] final(self).spec_board().cell(x, y)
                            == if crate::board::shift(n) <= y < crate::board::shift(n) + old(
                            self,
                        ).spec_board().spec_height() {
                            old(self).spec_board().cell(x, y - crate::board::shift(n))
                        } else {
                            d
                        }
                },
            },
    {
        match self.rule.default_state() {
            Ok(d) => {
                self.board.expand_y(n, d);
                Ok(())
            },
            Err(e) => Err(e),
        }
    }

    /// A two-dimensional world has one layer: there is nothing to add.
    pub fn expand_z(&mut self, _n: isize)
        ensures
            *final(self) == *old(self),
    {
    }

    /// Set every cell to the rule's default state; on the rule's error no
    /// cell changes.
    pub fn clear(&mut self) -> (r: Result<(), RuleError>)
        requires
            old(self).wf(),
        ensures
            final(self).wf(),
            final(self).spec_rule() == old(self).spec_rule(),
            final(self).spec_board().same_shape(&old(self).spec_board()),
            match old(self).spec_rule().spec_default_state() {
                Ok(d) => r is Ok && forall|x: int, y: int|
                    final(self).spec_board().has(x, y) ==> #[trigger] final(self).spec_board().cell(
                        x,
                        y,
                    ) == d,
                Err(e) => r == (if old(self).spec_board().is_empty() {
                    Ok(())
                } else {
                    Err::<(), RuleError>(e)
                }) && forall|x: int, y: int|
                    final(self).spec_board().has(x, y) ==> #[trigger] final(self).spec_board().cell(
                        x,
                        y,
                    ) == old(self).spec_board().cell(x, y),
            },
    {
        self.board.clear(&self.rule)
    }

    /// Set every cell to a state that the rule draws from `rng`.
    pub fn randomize(&mut self, rng: &mut rand::rngs::StdRng) -> (r: Result<(), RuleError>)
        requires
            old(self).wf(),
        ensures
            final(self).wf(),
            final(self).spec_rule() == old(self).spec_rule(),
            final(self).spec_board().same_shape(&old(self).spec_board()),
            old(self).spec_rule().spec_randomize_ok() ==> r is Ok,
            r is Ok ==> exists|v: Seq<R::CellState>|
                #[trigger] final(self).spec_board().holds_in_order(v),
            r is Err ==> *final(self) == *old(self),
    {
        self.board.randomize(&self.rule, rng)
    }

    /// One step: as many generations as the rule's `iteration_per_step`.
    /// Either all of them succeed, or the error of the first that fails is
    /// returned and the grid is left as it was before the step.
    pub fn update(&mut self) -> (r: Result<(), RuleError>)
        requires
            old(self).wf(),
        ensures
            final(self).wf(),
            final(self).spec_rule() == old(self).spec_rule(),
            final(self).spec_board().same_shape(&old(self).spec_board()),
            match run(
                &old(self).spec_rule(),
                old(self).spec_board().model(),
                old(self).spec_rule().spec_iteration_per_step(),
            ) {
                Some(m) => r is Ok && final(self).spec_board().model() == m,
                None => r is Err && final(self).spec_board().model() == old(
                    self,
                ).spec_board().model(),
            },
    {
        let n = self.rule.iteration_per_step();
        let ghost m0 = self.board.model();
        let backup = if n > 1 {
            Some(self.board.duplicate())
        } else {
            None
        };
        let mut t: u32 = 0;
        while t < n
            invariant
                self.board.wf(),
                self.board.same_shape(&old(self).board),
                self.rule == old(self).rule,
                n == self.rule.spec_iteration_per_step(),
                m0 == old(self).board.model(),
                t <= n,
                run(&self.rule, m0, n as nat) == run(
                    &self.rule,
                    self.board.model(),
                    (n - t) as nat,
                ),
                t == 0 ==> self.board.model() == m0,
                n > 1 ==> (backup matches Some(b) && b.wf() && b.model() == m0 && b.same_shape(
                    &old(self).board,
                )),
            decreases n - t,
        {
            match self.board.update(&self.rule) {
                Ok(()) => {},
                Err(e) => {
                    if t > 0 {
                        match backup {
                            Some(b) => {
                                self.board = b;
                            },
                            None => {},
                        }
                    }
                    return Err(e);
                },
            }
            t = t + 1;
        }
        Ok(())
    }

    /// Write the unmasked cells of `cb` with its corner at `(xofs, yofs)`;
    /// refused, with nothing written, when it sticks out of the grid.
    pub fn paste_clipboard(&mut self, xofs: usize, yofs: usize, cb: &ClipBoard<R::CellState>) -> (r:
        Result<(), ClipBoardError>)
        requires
            old(self).wf(),
            cb.wf(),
        ensures
            final(self).wf(),
            final(self).spec_rule() == old(self).spec_rule(),
            final(self).spec_board().same_shape(&old(self).spec_board()),
            r is Ok <==> (xofs + cb.spec_width() <= old(self).spec_board().spec_width() && yofs
                + cb.spec_height() <= old(self).spec_board().spec_height()),
            forall|x: int, y: int|
                final(self).spec_board().has(x, y) ==> #[trigger] final(self).spec_board().cell(x, y)
                    == if r is Ok && xofs <= x < xofs + cb.spec_width() && yofs <= y < yofs
                    + cb.spec_height() && cb.get(x - xofs, y - yofs) is Some {
                    cb.get(x - xofs, y - yofs)->Some_0
                } else {
                    old(self).spec_board().cell(x, y)
                },
    {
        self.board.paste_clipboard(xofs, yofs, cb)
    }
    /// Paste `cb` centered on the cell `(cx, cy)`: its corner goes
    /// `width / 2` cells left of and `height / 2` cells above that cell.
    /// Where the clipboard would stick out, the grid first grows by whole
    /// chunks holding the rule's default state, which moves the old cells
    /// right and down by the chunks added before them. Returns where the
    /// corner landed; on the rule's error nothing changes.
    pub fn paste_centered(&mut self, cx: usize, cy: usize, cb: &ClipBoard<R::CellState>) -> (r:
        Result<(usize, usize), RuleError>)
        requires
            old(self).wf(),
            cb.wf(),
            cx + cb.spec_width() <= isize::MAX,
            cy + cb.spec_height() <= isize::MAX,
            (old(self).spec_board().chunks_x() + pad_before(cx as int, cb.spec_width() as int)
                + pad_after(cx as int, cb.spec_width() as int, old(self).spec_board().spec_width() as int))
                * 16 <= isize::MAX,
            (old(self).spec_board().chunks_y() + pad_before(cy as int, cb.spec_height() as int)
                + pad_after(cy as int, cb.spec_height() as int, old(self).spec_board().spec_height() as int))
                * 16 <= isize::MAX,
            (old(self).spec_board().chunks_x() + pad_before(cx as int, cb.spec_width() as int)
                + pad_after(cx as int, cb.spec_width() as int, old(self).spec_board().spec_width() as int))
                * (old(self).spec_board().chunks_y() + pad_before(cy as int, cb.spec_height() as int)
                + pad_after(cy as int, cb.spec_height() as int, old(self).spec_board().spec_height() as int))
                <= usize::MAX,
        ensures
            final(self).wf(),
            final(self).spec_rule() == old(self).spec_rule(),
            match old(self).spec_rule().spec_default_state() {
                Err(e) => r == Err::<(usize, usize), RuleError>(e) && final(self).spec_board()
                    == old(self).spec_board(),
                Ok(d) => {
                    let (w, h) = (cb.spec_width() as int, cb.spec_height() as int);
                    let (bx, by) = (pad_before(cx as int, w), pad_before(cy as int, h));
                    let (px, py) = (corner(cx as int, w), corner(cy as int, h));
                    let ax = pad_after(cx as int, w, old(self).spec_board().spec_width() as int);
                    let ay = pad_after(cy as int, h, old(self).spec_board().spec_height() as int);
                    &&& r == Ok::<(usize, usize), RuleError>((px as usize, py as usize))
                    &&& final(self).spec_board().chunks_x() == old(self).spec_board().chunks_x() + bx + ax
                    &&& final(self).spec_board().chunks_y() == old(self).spec_board().chunks_y() + by + ay
                    &&& forall|x: int, y: int|
                        final(self).spec_board().has(x, y) ==> #[trigger] final(self).spec_board().cell(x, y)
                            == if px <= x < px + w && py <= y < py + h
                            && cb.get(x - px, y - py) is Some {
                            cb.get(x - px, y - py)->Some_0
                        } else if 16 * bx <= x < 16 * bx + old(self).spec_board().spec_width() && 16
                            * by <= y < 16 * by + old(self).spec_board().spec_height() {
                            old(self).spec_board().cell(x - 16 * bx, y - 16 * by)
                        } else {
                            d
                        }
                },
            },
    {
        let d = match self.rule.default_state() {
            Ok(d) => d,
            Err(e) => {
                return Err(e);
            },
        };
        let (bx, ax, px) = placement(cx, cb.width(), self.board.width());
        let (by, ay, py) = placement(cy, cb.height(), self.board.height());
        let ghost before = self.board;
        let ghost fill = d;
        self.board.grow(bx + ax, by + ay, bx, by, d);
        let ghost grown = self.board;
        let pasted = self.board.paste_clipboard(px, py, cb);
        proof {
            assert(pasted is Ok);
            assert forall|x: int, y: int| self.board.has(x, y) implies #[trigger] self.board.cell(
                x,
                y,
            ) == if px <= x < px + cb.spec_width() && py <= y < py + cb.spec_height() && cb.get(
                x - px,
                y - py,
            ) is Some {
                cb.get(x - px, y - py)->Some_0
            } else if 16 * bx <= x < 16 * bx + before.spec_width() && 16 * by <= y < 16 * by
                + before.spec_height() {
                before.cell(x - 16 * bx, y - 16 * by)
            } else {
                fill
            } by {
                assert(grown.has(x, y));
            }
        }
        Ok((px, py))
    }

    /// Set the cells of the rectangle from `(sx, sy)` to `(ex, ey)`, both
    /// included, to the rule's default state; on the rule's error nothing
    /// changes.
    pub fn clear_region(&mut self, sx: usize, sy: usize, ex: usize, ey: usize) -> (r: Result<
        (),
        RuleError,
    >)
        requires
            old(self).wf(),
            sx <= ex < old(self).spec_board().spec_width(),
            sy <= ey < old(self).spec_board().spec_height(),
        ensures
            final(self).wf(),
            final(self).spec_rule() == old(self).spec_rule(),
            final(self).spec_board().same_shape(&old(self).spec_board()),
            match old(self).spec_rule().spec_default_state() {
                Err(e) => r == Err::<(), RuleError>(e) && final(self).spec_board() == old(
                    self,
                ).spec_board(),
                Ok(d) => r is Ok && forall|x: int, y: int|
                    final(self).spec_board().has(x, y) ==> #[trigger] final(self).spec_board().cell(
                        x,
                        y,
                    ) == if sx <= x <= ex && sy <= y <= ey {
                        d
                    } else {
                        old(self).spec_board().cell(x, y)
                    },
            },
    {
        let d = match self.rule.default_state() {
            Ok(d) => d,
            Err(e) => {
                return Err(e);
            },
        };
        let w = self.board.width();
        let h = self.board.height();
        let mut j: usize = sy;
        while j <= ey
            invariant
                w == self.board.spec_width(),
                h == self.board.spec_height(),
                self.board.wf(),
                self.board.same_shape(&old(self).board),
                self.rule == old(self).rule,
                d == old(self).rule.spec_default_state()->Ok_0,
                sx <= ex < self.board.spec_width(),
                sy <= j <= ey + 1,
                ey < self.board.spec_height(),
                forall|x: int, y: int|
                    self.board.has(x, y) ==> #[trigger] self.board.cell(x, y) == if sx <= x <= ex
                        && sy <= y < j {
                        d
                    } else {
                        old(self).board.cell(x, y)
                    },
            decreases ey + 1 - j,
        {
            let mut i: usize = sx;
            while i <= ex
                invariant
                    w == self.board.spec_width(),
                    h == self.board.spec_height(),
                    self.board.wf(),
                    self.board.same_shape(&old(self).board),
                    self.rule == old(self).rule,
                    d == old(self).rule.spec_default_state()->Ok_0,
                    sx <= ex < self.board.spec_width(),
                    sy <= j <= ey,
                    ey < self.board.spec_height(),
                    sx <= i <= ex + 1,
                    forall|x: int, y: int|
                        self.board.has(x, y) ==> #[trigger] self.board.cell(x, y) == if sx <= x <= ex
                            && (sy <= y < j || (y == j && x < i)) {
                            d
                        } else {
                            old(self).board.cell(x, y)
                        },
                decreases ex + 1 - i,
            {
                *self.board.cell_at_mut(i, j) = d.duplicate();
                i = i + 1;
            }
            j = j + 1;
        }
        Ok(())
    }
    /// Turn the cell `(x, y)` into the rule's next state for it, as a click
    /// does, and return that state; on the rule's error nothing changes.
    pub fn next_cell(&mut self, x: usize, y: usize) -> (r: Result<R::CellState, RuleError>)
        requires
            old(self).wf(),
            old(self).spec_board().has(x as int, y as int),
        ensures
            final(self).wf(),
            final(self).spec_rule() == old(self).spec_rule(),
            final(self).spec_board().same_shape(&old(self).spec_board()),
            r == old(self).spec_rule().spec_next(old(self).spec_board().cell(x as int, y as int)),
            forall|x2: int, y2: int|
                final(self).spec_board().has(x2, y2) ==> #[trigger] final(self).spec_board().cell(x2, y2)
                    == if x2 == x && y2 == y && r is Ok {
                    r->Ok_0
                } else {
                    old(self).spec_board().cell(x2, y2)
                },
    {
        let current = self.board.cell_at(x, y).duplicate();
        match self.rule.next(current) {
            Ok(v) => {
                let stored = v.duplicate();
                *self.board.cell_at_mut(x, y) = stored;
                Ok(v)
            },
            Err(e) => Err(e),
        }
    }
}

} // verus!
