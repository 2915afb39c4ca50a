//! Cell states, update rules and neighborhoods.
use vstd::prelude::*;

use crate::dynamic_rule::DynamicRuleError;

verus! {

/// An opaque RGBA color, with premultiplied alpha as in most GUI toolkits.
#[derive(Clone, Copy, Debug, PartialEq, Eq, Structural)]
pub struct Color {
    pub r: u8,
    pub g: u8,
    pub b: u8,
    pub a: u8,
}

/// The fully opaque color with the given red, green and blue.
pub open spec fn rgb(r: u8, g: u8, b: u8) -> Color {
    Color { r, g, b, a: 255 }
}

impl Color {
    /// A fully opaque color.
    pub fn from_rgb(r: u8, g: u8, b: u8) -> (c: Color)
        ensures
            c == rgb(r, g, b),
    {
        Color { r, g, b, a: 255 }
    }
}

/// Why a rule could not produce a value.
#[derive(Debug)]
pub enum RuleError {
    /// A scripted rule failed while evaluating the named function.
    Script { function: String, cause: DynamicRuleError },
}

/// State of a cell.
///
/// A grid stores, moves and copies states; it never inspects them. All the
/// semantics of a state live in the `Rule` that owns it.
pub trait State: Sized {
    /// A copy of this state, equal to it.
    fn duplicate(&self) -> (r: Self)
        ensures
            r == *self,
    ;
}

/// Index of neighboring cells.
///
/// For a cell `(x, y)` of a `w` by `h` torus, `neighbors` lists the coordinates
/// of its neighbors in a fixed order; coordinates wrap around the edges.
pub trait Neighbors {
    /// The neighbors of `(x, y)` on a `w` by `h` torus, in order.
    spec fn spec_neighbors(x: int, y: int, w: int, h: int) -> Seq<(usize, usize)>;

    /// How many neighbors every cell has.
    spec fn spec_num_neighbors() -> nat;

    fn neighbors(x: isize, y: isize, w: isize, h: isize) -> (r: Vec<(usize, usize)>)
        requires
            0 <= x < w,
            0 <= y < h,
        ensures
            r@ == Self::spec_neighbors(x as int, y as int, w as int, h as int),
            r@.len() == Self::spec_num_neighbors(),
            forall|k: int| 0 <= k < r@.len() ==> (#[trigger] r@[k]).0 < w && r@[k].1 < h,
    ;

    fn num_neighbors() -> (r: usize)
        ensures
            r == Self::spec_num_neighbors(),
    ;
}

/// The column (or row) before `x` on a ring of `w` cells.
pub open spec fn ring_prev(x: int, w: int) -> int {
    if x == 0 {
        w - 1
    } else {
        x - 1
    }
}

/// The column (or row) after `x` on a ring of `w` cells.
pub open spec fn ring_next(x: int, w: int) -> int {
    if x == w - 1 {
        0
    } else {
        x + 1
    }
}

/// A coordinate pair as it is stored.
pub open spec fn at(x: int, y: int) -> (usize, usize) {
    (x as usize, y as usize)
}

fn prev_on_ring(x: isize, w: isize) -> (r: usize)
    requires
        0 <= x < w,
    ensures
        r as int == ring_prev(x as int, w as int),
{
    (if x == 0 {
        w - 1
    } else {
        x - 1
    }) as usize
}

fn next_on_ring(x: isize, w: isize) -> (r: usize)
    requires
        0 <= x < w,
    ensures
        r as int == ring_next(x as int, w as int),
{
    (if x == w - 1 {
        0
    } else {
        x + 1
    }) as usize
}

/// Von-Neumann Neighborhood. Up, Right, Left, Down cells are the neighbors.
pub struct VonNeumannNeighborhood {}

/// Moore Neighborhood. 8 neighboring cells in a square grid are the neighbors.
pub struct MooreNeighborhood {}

/// Neighborhood on a hexagonal grid whose odd rows are shifted half a cell
/// to the right.
pub struct HexGridNeighborhood {}

impl Neighbors for VonNeumannNeighborhood {
    open spec fn spec_neighbors(x: int, y: int, w: int, h: int) -> Seq<(usize, usize)> {
        let (xp, xn) = (ring_prev(x, w), ring_next(x, w));
        let (yp, yn) = (ring_prev(y, h), ring_next(y, h));
        seq![at(x, yp), at(xn, y), at(xp, y), at(x, yn)]
    }

    open spec fn spec_num_neighbors() -> nat {
        4
    }

    fn neighbors(x: isize, y: isize, w: isize, h: isize) -> (r: Vec<(usize, usize)>) {
        let xprev = prev_on_ring(x, w);
        let xnext = next_on_ring(x, w);
        let yprev = prev_on_ring(y, h);
        let ynext = next_on_ring(y, h);
        let x = x as usize;
        let y = y as usize;
        let r = vec![(x, yprev), (xnext, y), (xprev, y), (x, ynext)];
        assert(r@ =~= Self::spec_neighbors(x as int, y as int, w as int, h as int));
        r
    }

    fn num_neighbors() -> (r: usize) {
        4
    }
}

impl Neighbors for MooreNeighborhood {
    open spec fn spec_neighbors(x: int, y: int, w: int, h: int) -> Seq<(usize, usize)> {
        let (xp, xn) = (ring_prev(x, w), ring_next(x, w));
        let (yp, yn) = (ring_prev(y, h), ring_next(y, h));
        seq![
            at(xp, yp), at(x, yp), at(xn, yp),
            at(xp, y), at(xn, y),
            at(xp, yn), at(x, yn), at(xn, yn),
        ]
    }

    open spec fn spec_num_neighbors() -> nat {
        8
    }

    fn neighbors(x: isize, y: isize, w: isize, h: isize) -> (r: Vec<(usize, usize)>) {
        let xprev = prev_on_ring(x, w);
        let xnext = next_on_ring(x, w);
        let yprev = prev_on_ring(y, h);
        let ynext = next_on_ring(y, h);
        let x = x as usize;
        let y = y as usize;
        let r = vec![
            (xprev, yprev), (x, yprev), (xnext, yprev),
            (xprev, y), (xnext, y),
            (xprev, ynext), (x, ynext), (xnext, ynext),
        ];
        assert(r@ =~= Self::spec_neighbors(x as int, y as int, w as int, h as int));
        r
    }

    fn num_neighbors() -> (r: usize) {
        8
    }
}

impl Neighbors for HexGridNeighborhood {
    open spec fn spec_neighbors(x: int, y: int, w: int, h: int) -> Seq<(usize, usize)> {
        let (xp, xn) = (ring_prev(x, w), ring_next(x, w));
        let (yp, yn) = (ring_prev(y, h), ring_next(y, h));
        if y % 2 == 0 {
            seq![at(xp, yp), at(x, yp), at(xp, y), at(xn, y), at(xp, yn), at(x, yn)]
        } else {
            seq![at(x, yp), at(xn, yp), at(xp, y), at(xn, y), at(x, yn), at(xn, yn)]
        }
    }

    open spec fn spec_num_neighbors() -> nat {
        6
    }

    fn neighbors(x: isize, y: isize, w: isize, h: isize) -> (r: Vec<(usize, usize)>) {
        let xprev = prev_on_ring(x, w);
        let xnext = next_on_ring(x, w);
        let yprev = prev_on_ring(y, h);
        let ynext = next_on_ring(y, h);
        let x = x as usize;
        let y = y as usize;
        let r = if y % 2 == 0 {
            vec![(xprev, yprev), (x, yprev), (xprev, y), (xnext, y), (xprev, ynext), (x, ynext)]
        } else {
            vec![(x, yprev), (xnext, yprev), (xprev, y), (xnext, y), (x, ynext), (xnext, ynext)]
        };
        assert(r@ =~= Self::spec_neighbors(x as int, y as int, w as int, h as int));
        r
    }

    fn num_neighbors() -> (r: usize) {
        6
    }
}

/// Whether every coordinate of `s` lies on the `w` by `h` torus.
pub open spec fn on_torus(s: Seq<(usize, usize)>, w: int, h: int) -> bool {
    forall|k: int| 0 <= k < s.len() ==> (#[trigger] s[k]).0 < w && s[k].1 < h
}

/// The four neighbors of a cell lie on the torus, and the edges wrap: a cell
/// in the first column has its left neighbor in the last column, a cell in
/// the first row has its upper neighbor in the last row.
pub proof fn lemma_von_neumann_wraps(x: int, y: int, w: int, h: int)
    requires
        0 <= x < w <= isize::MAX,
        0 <= y < h <= isize::MAX,
    ensures
        VonNeumannNeighborhood::spec_neighbors(x, y, w, h).len() == 4,
        on_torus(VonNeumannNeighborhood::spec_neighbors(x, y, w, h), w, h),
        x == 0 ==> VonNeumannNeighborhood::spec_neighbors(x, y, w, h)[2] == at(w - 1, y),
        y == 0 ==> VonNeumannNeighborhood::spec_neighbors(x, y, w, h)[0] == at(x, h - 1),
        x == w - 1 ==> VonNeumannNeighborhood::spec_neighbors(x, y, w, h)[1] == at(0, y),
        y == h - 1 ==> VonNeumannNeighborhood::spec_neighbors(x, y, w, h)[3] == at(x, 0),
{
}

/// The eight neighbors of a cell lie on the torus, and the edges wrap: the
/// left neighbors of a cell in the first column are in the last column, the
/// upper neighbors of a cell in the first row are in the last row.
pub proof fn lemma_moore_wraps(x: int, y: int, w: int, h: int)
    requires
        0 <= x < w <= isize::MAX,
        0 <= y < h <= isize::MAX,
    ensures
        MooreNeighborhood::spec_neighbors(x, y, w, h).len() == 8,
        on_torus(MooreNeighborhood::spec_neighbors(x, y, w, h), w, h),
        x == 0 ==> MooreNeighborhood::spec_neighbors(x, y, w, h)[3] == at(w - 1, y),
        y == 0 ==> MooreNeighborhood::spec_neighbors(x, y, w, h)[1] == at(x, h - 1),
        x == w - 1 ==> MooreNeighborhood::spec_neighbors(x, y, w, h)[4] == at(0, y),
        y == h - 1 ==> MooreNeighborhood::spec_neighbors(x, y, w, h)[6] == at(x, 0),
{
}

/// The six neighbors of a cell lie on the torus, and the edges wrap: the
/// left neighbor of a cell in the first column is in the last column, and
/// the right one of a cell in the last column is in the first.
pub proof fn lemma_hex_wraps(x: int, y: int, w: int, h: int)
    requires
        0 <= x < w <= isize::MAX,
        0 <= y < h <= isize::MAX,
    ensures
        HexGridNeighborhood::spec_neighbors(x, y, w, h).len() == 6,
        on_torus(HexGridNeighborhood::spec_neighbors(x, y, w, h), w, h),
        x == 0 ==> HexGridNeighborhood::spec_neighbors(x, y, w, h)[2] == at(w - 1, y),
        x == w - 1 ==> HexGridNeighborhood::spec_neighbors(x, y, w, h)[3] == at(0, y),
{
}

/// Rule of the cellular automaton.
///
/// Every method may fail: a scripted rule, for one, fails on a script error.
/// Each method is a function of the rule's configuration and its arguments,
/// given by the matching spec function, except `randomize`, which draws from
/// the generator it is handed.
pub trait Rule: Sized {
    /// Corresponding cell state.
    type CellState: State;

    /// The neighborhood that `update` reads.
    type Neighborhood: Neighbors;

    /// What `color` returns for `st`; unknown unless the rule says.
    closed spec fn spec_color(&self, st: Self::CellState) -> Result<Color, RuleError> {
        arbitrary()
    }

    /// What `default_state` returns; unknown unless the rule says.
    closed spec fn spec_default_state(&self) -> Result<Self::CellState, RuleError> {
        arbitrary()
    }

    /// What `next` returns for `st`; unknown unless the rule says.
    closed spec fn spec_next(&self, st: Self::CellState) -> Result<Self::CellState, RuleError> {
        arbitrary()
    }

    /// What `update` returns for a cell and its neighbors, in order;
    /// unknown unless the rule says.
    closed spec fn spec_update(&self, center: Self::CellState, neighbors: Seq<Self::CellState>) -> Result<
        Self::CellState,
        RuleError,
    > {
        arbitrary()
    }

    /// Whether `randomize` always succeeds; not unless the rule says.
    closed spec fn spec_randomize_ok(&self) -> bool {
        false
    }

    /// What `iteration_per_step` returns; unknown unless the rule says.
    closed spec fn spec_iteration_per_step(&self) -> nat {
        arbitrary()
    }

    /// Background color.
    fn background(&self) -> Color;

    /// Color of a cell.
    fn color(&self, st: &Self::CellState) -> (r: Result<Color, RuleError>)
        ensures
            r == self.spec_color(*st),
    ;

    /// The default cell state. When a board is cleared, all the cells have this value.
    fn default_state(&self) -> (r: Result<Self::CellState, RuleError>)
        ensures
            r == self.spec_default_state(),
    ;

    /// A random cell state, drawn from `rng`.
    fn randomize(&self, rng: &mut rand::rngs::StdRng) -> (r: Result<Self::CellState, RuleError>)
        ensures
            self.spec_randomize_ok() ==> r is Ok,
    ;

    /// The next state, used to cycle the state of a cell by hand.
    fn next(&self, st: Self::CellState) -> (r: Result<Self::CellState, RuleError>)
        ensures
            r == self.spec_next(st),
    ;

    /// Update the center cell using the neighboring cells, given in the
    /// neighborhood's order.
    fn update(&self, center: Self::CellState, neighbors: Vec<Self::CellState>) -> (r: Result<
        Self::CellState,
        RuleError,
    >)
        ensures
            r == self.spec_update(center, neighbors@),
    ;

    /// The number of updates in one step.
    fn iteration_per_step(&self) -> (r: u32)
        ensures
            r == self.spec_iteration_per_step(),
    ;
}

} // verus!
