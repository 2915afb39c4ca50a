use miniascape::{
    Grid, HexGridNeighborhood, LifeGameRule, LifeGameState, MooreNeighborhood, Neighbors, Rule,
    RuleError, State, VonNeumannNeighborhood, WireWorldRule, WireWorldState, World2D, CHUNK_LEN,
};
use rand::SeedableRng;

use LifeGameState::{Alive, Dead};
use WireWorldState::{Head, Tail, Wire};

fn life_grid(alive: &[(usize, usize)]) -> Grid<LifeGameState> {
    let mut g = Grid::init(1, 1, Dead);
    for &(x, y) in alive {
        *g.cell_at_mut(x, y) = Alive;
    }
    g
}

fn alive_cells(g: &Grid<LifeGameState>) -> Vec<(usize, usize)> {
    let mut v = Vec::new();
    for y in 0..g.height() {
        for x in 0..g.width() {
            if *g.cell_at(x, y) == Alive {
                v.push((x, y));
            }
        }
    }
    v
}

#[test]
fn von_neumann_wraps_at_the_corner() {
    let n = VonNeumannNeighborhood::neighbors(0, 0, 10, 10);
    assert_eq!(n, vec![(0, 9), (1, 0), (9, 0), (0, 1)]);
    assert!(n.contains(&(9, 0)));
    assert!(n.contains(&(0, 9)));
    assert_eq!(VonNeumannNeighborhood::num_neighbors(), 4);
}

#[test]
fn moore_wraps_at_the_far_corner() {
    let n = MooreNeighborhood::neighbors(9, 9, 10, 10);
    assert_eq!(n.len(), 8);
    assert_eq!(
        n,
        vec![(8, 8), (9, 8), (0, 8), (8, 9), (0, 9), (8, 0), (9, 0), (0, 0)]
    );
    assert_eq!(MooreNeighborhood::num_neighbors(), 8);
}

#[test]
fn hex_neighbors_depend_on_row_parity() {
    let even = HexGridNeighborhood::neighbors(3, 2, 10, 10);
    assert_eq!(even, vec![(2, 1), (3, 1), (2, 2), (4, 2), (2, 3), (3, 3)]);
    let odd = HexGridNeighborhood::neighbors(3, 3, 10, 10);
    assert_eq!(odd, vec![(3, 2), (4, 2), (2, 3), (4, 3), (3, 4), (4, 4)]);
    assert_eq!(HexGridNeighborhood::num_neighbors(), 6);
}

#[test]
fn every_neighbor_is_on_the_board() {
    for &(w, h) in &[(1, 1), (2, 3), (16, 16), (5, 7)] {
        for y in 0..h {
            for x in 0..w {
                for n in VonNeumannNeighborhood::neighbors(x, y, w, h)
                    .into_iter()
                    .chain(MooreNeighborhood::neighbors(x, y, w, h))
                    .chain(HexGridNeighborhood::neighbors(x, y, w, h))
                {
                    assert!((n.0 as isize) < w && (n.1 as isize) < h);
                }
            }
        }
    }
}

#[test]
fn glider_moves_one_cell_diagonally_in_four_generations() {
    let rule = LifeGameRule::<MooreNeighborhood>::new();
    let start = [(1, 0), (2, 1), (0, 2), (1, 2), (2, 2)];
    let mut g = life_grid(&start);
    for _ in 0..4 {
        g.update(&rule).unwrap();
    }
    let mut expected: Vec<(usize, usize)> = start.iter().map(|&(x, y)| (x + 1, y + 1)).collect();
    expected.sort_by_key(|&(x, y)| (y, x));
    assert_eq!(alive_cells(&g), expected);
}

#[test]
fn wireworld_signal_moves_right_one_cell_per_step() {
    let rule = WireWorldRule::new();
    let mut g = Grid::init(1, 1, WireWorldState::Void);
    for x in 0..5 {
        *g.cell_at_mut(x, 1) = WireWorldState::Wire;
    }
    *g.cell_at_mut(0, 1) = WireWorldState::Head;
    let row = |g: &Grid<WireWorldState>| (0..5).map(|x| *g.cell_at(x, 1)).collect::<Vec<_>>();
    g.update(&rule).unwrap();
    assert_eq!(row(&g), vec![Tail, Head, Wire, Wire, Wire]);
    g.update(&rule).unwrap();
    assert_eq!(row(&g), vec![Wire, Tail, Head, Wire, Wire]);
}

#[test]
fn blinker_oscillates() {
    let rule = LifeGameRule::<MooreNeighborhood>::new();
    let mut g = life_grid(&[(4, 5), (5, 5), (6, 5)]);
    g.update(&rule).unwrap();
    assert_eq!(alive_cells(&g), vec![(5, 4), (5, 5), (5, 6)]);
    g.update(&rule).unwrap();
    assert_eq!(alive_cells(&g), vec![(4, 5), (5, 5), (6, 5)]);
}

#[test]
fn update_from_the_same_state_gives_the_same_result() {
    let rule = LifeGameRule::<MooreNeighborhood>::new();
    let mut a = Grid::init(2, 1, Dead);
    let mut rng = rand::rngs::StdRng::seed_from_u64(7);
    a.randomize(&rule, &mut rng).unwrap();
    let mut b = a.duplicate();
    a.update(&rule).unwrap();
    b.update(&rule).unwrap();
    for y in 0..a.height() {
        for x in 0..a.width() {
            assert_eq!(a.cell_at(x, y), b.cell_at(x, y));
        }
    }
}

#[test]
fn seeded_randomize_is_reproducible() {
    let rule = LifeGameRule::<MooreNeighborhood>::new();
    let mut a = Grid::init(1, 2, Dead);
    let mut b = Grid::init(1, 2, Dead);
    a.randomize(&rule, &mut rand::rngs::StdRng::seed_from_u64(123456789)).unwrap();
    b.randomize(&rule, &mut rand::rngs::StdRng::seed_from_u64(123456789)).unwrap();
    let cells_a = alive_cells(&a);
    assert_eq!(cells_a, alive_cells(&b));
    assert!(!cells_a.is_empty());
    assert!(cells_a.len() < a.width() * a.height());
}

#[test]
fn expand_x_negative_shifts_old_cells() {
    let mut g = Grid::init(1, 1, Dead);
    *g.cell_at_mut(3, 4) = Alive;
    g.expand_x(-2, Dead);
    assert_eq!(g.n_chunks_x(), 3);
    assert_eq!(g.n_chunks_y(), 1);
    assert_eq!(g.width(), 3 * CHUNK_LEN);
    assert_eq!(alive_cells(&g), vec![(3 + 2 * CHUNK_LEN, 4)]);
}

#[test]
fn expand_fills_new_cells_with_the_given_state() {
    let mut g = Grid::init(1, 1, Dead);
    *g.cell_at_mut(0, 0) = Alive;
    g.expand_y(1, Alive);
    assert_eq!(g.height(), 2 * CHUNK_LEN);
    assert_eq!(*g.cell_at(0, 0), Alive);
    assert_eq!(*g.cell_at(1, 0), Dead);
    for y in CHUNK_LEN..2 * CHUNK_LEN {
        for x in 0..CHUNK_LEN {
            assert_eq!(*g.cell_at(x, y), Alive);
        }
    }
    g.expand_y(-1, Dead);
    assert_eq!(*g.cell_at(0, CHUNK_LEN), Alive);
    assert_eq!(*g.cell_at(1, CHUNK_LEN), Dead);
    assert_eq!(*g.cell_at(1, 2 * CHUNK_LEN), Alive);
    g.expand_x(0, Alive);
    assert_eq!(g.width(), CHUNK_LEN);
}

#[test]
fn clear_twice_is_clear_once() {
    let rule = LifeGameRule::<MooreNeighborhood>::new();
    let mut g = life_grid(&[(1, 1), (2, 2)]);
    g.clear(&rule).unwrap();
    assert!(alive_cells(&g).is_empty());
    g.clear(&rule).unwrap();
    assert!(alive_cells(&g).is_empty());
    assert_eq!(g.width(), CHUNK_LEN);
}

#[test]
fn chunk_layout_and_queries() {
    let g = Grid::init(2, 3, Dead);
    assert_eq!((g.width(), g.height()), (32, 48));
    assert!(g.has_chunk(1, 2));
    assert!(!g.has_chunk(2, 0));
    assert!(g.has_cell(31, 47));
    assert!(!g.has_cell(32, 0));
    assert_eq!(g.chunk_len(), 16);
}

#[test]
fn swap_buffer_exchanges_generations() {
    let rule = LifeGameRule::<MooreNeighborhood>::new();
    let mut g = life_grid(&[(4, 5), (5, 5), (6, 5)]);
    g.update(&rule).unwrap();
    g.swap_buffer();
    assert_eq!(alive_cells(&g), vec![(4, 5), (5, 5), (6, 5)]);
}

#[test]
fn world_steps_and_clears() {
    let mut w = World2D::new(LifeGameRule::<MooreNeighborhood>::new(), 2, 2, 1).unwrap();
    assert_eq!((w.width(), w.height(), w.depth(), w.current_layer()), (32, 32, 1, 0));
    for &(x, y) in &[(4, 5), (5, 5), (6, 5)] {
        *w.board_mut().cell_at_mut(x, y) = Alive;
    }
    w.update().unwrap();
    assert_eq!(*w.board().cell_at(5, 4), Alive);
    assert_eq!(*w.board().cell_at(4, 5), Dead);
    w.expand_x(1).unwrap();
    assert_eq!(w.width(), 48);
    w.clear().unwrap();
    assert_eq!(*w.board().cell_at(5, 4), Dead);
}

/// A rule whose update fails on a live cell and that runs several
/// generations per step.
struct Fragile {
    per_step: u32,
}

#[derive(Clone, Copy, Debug, PartialEq, Eq)]
enum Cell {
    Off,
    On,
    Poison,
}

impl State for Cell {
    fn duplicate(&self) -> Self {
        *self
    }
}

impl Rule for Fragile {
    type CellState = Cell;
    type Neighborhood = VonNeumannNeighborhood;

    fn background(&self) -> miniascape::Color {
        miniascape::Color::from_rgb(0, 0, 0)
    }
    fn color(&self, _st: &Cell) -> Result<miniascape::Color, RuleError> {
        Ok(miniascape::Color::from_rgb(1, 2, 3))
    }
    fn default_state(&self) -> Result<Cell, RuleError> {
        Ok(Cell::Off)
    }
    fn randomize(&self, _rng: &mut rand::rngs::StdRng) -> Result<Cell, RuleError> {
        Ok(Cell::Off)
    }
    fn next(&self, st: Cell) -> Result<Cell, RuleError> {
        Ok(st)
    }
    fn update(&self, center: Cell, neighbors: Vec<Cell>) -> Result<Cell, RuleError> {
        if center == Cell::Poison {
            return Err(RuleError::Script {
                function: "update".to_string(),
                cause: miniascape::eval_error("boom".to_string(), "fn update".to_string()),
            });
        }
        if neighbors.contains(&Cell::On) {
            Ok(Cell::Poison)
        } else {
            Ok(center)
        }
    }
    fn iteration_per_step(&self) -> u32 {
        self.per_step
    }
}

#[test]
fn failed_update_leaves_the_generation_unchanged() {
    let rule = Fragile { per_step: 1 };
    let mut g = Grid::init(1, 1, Cell::Off);
    *g.cell_at_mut(7, 7) = Cell::Poison;
    *g.cell_at_mut(2, 2) = Cell::On;
    assert!(g.update(&rule).is_err());
    for y in 0..16 {
        for x in 0..16 {
            let expected = match (x, y) {
                (7, 7) => Cell::Poison,
                (2, 2) => Cell::On,
                _ => Cell::Off,
            };
            assert_eq!(*g.cell_at(x, y), expected);
        }
    }
}

#[test]
fn failure_in_a_later_generation_restores_the_step_start() {
    let mut w = World2D::new(Fragile { per_step: 3 }, 1, 1, 1).unwrap();
    *w.board_mut().cell_at_mut(2, 2) = Cell::On;
    let err = w.update();
    assert!(matches!(err, Err(RuleError::Script { .. })));
    for y in 0..16 {
        for x in 0..16 {
            let expected = if (x, y) == (2, 2) { Cell::On } else { Cell::Off };
            assert_eq!(*w.board().cell_at(x, y), expected);
        }
    }
}

#[test]
fn randomize_stores_draws_chunk_by_chunk_row_by_row() {
    let rule = LifeGameRule::<MooreNeighborhood>::new();
    let mut g = Grid::init(2, 1, Dead);
    g.randomize(&rule, &mut rand::rngs::StdRng::seed_from_u64(99)).unwrap();
    let mut rng = rand::rngs::StdRng::seed_from_u64(99);
    let draws: Vec<LifeGameState> = (0..512).map(|_| rule.randomize(&mut rng).unwrap()).collect();
    for y in 0..16 {
        for x in 0..32 {
            let k = (x / 16) * 256 + y * 16 + x % 16;
            assert_eq!(*g.cell_at(x, y), draws[k]);
        }
    }
}

#[test]
fn fill_in_order_walks_chunks_then_rows() {
    let mut g = Grid::init(1, 2, Dead);
    let mut values = vec![Dead; 512];
    values[0] = Alive;
    values[17] = Alive;
    values[256 + 3] = Alive;
    g.fill_in_order(&values);
    assert_eq!(alive_cells(&g), vec![(0, 0), (1, 1), (3, 16)]);
}

#[test]
fn world_expansion_fills_with_the_default_state() {
    let mut w = World2D::new(LifeGameRule::<MooreNeighborhood>::new(), 1, 1, 1).unwrap();
    *w.board_mut().cell_at_mut(0, 0) = Alive;
    w.expand_x(-1).unwrap();
    w.expand_y(2).unwrap();
    assert_eq!((w.width(), w.height()), (32, 48));
    assert_eq!(*w.board().cell_at(16, 0), Alive);
    assert_eq!(alive_cells(w.board()), vec![(16, 0)]);
}

#[test]
fn world_with_default_size_is_four_by_three_chunks() {
    let w = World2D::with_default_size(WireWorldRule::new()).unwrap();
    assert_eq!((w.width(), w.height()), (64, 48));
    assert_eq!(*w.board().cell_at(63, 47), WireWorldState::Void);
}
