use miniascape::{
    ClipBoard, GeneralizedLifeGameRule, LifeGameRule, LifeGameState, MooreNeighborhood,
    RockPaperScissorsRule, VonNeumannNeighborhood, WireWorldRule, WireWorldState, World2D,
};
use rand::SeedableRng;

use WireWorldState::{Head, Tail, Void, Wire};

fn wire_world() -> World2D<WireWorldRule> {
    World2D::new(WireWorldRule::new(), 1, 1, 1).unwrap()
}

fn two_by_two() -> ClipBoard<WireWorldState> {
    ClipBoard::from_vec(2, 2, vec![Some(Head), Some(Tail), None, Some(Wire)]).unwrap()
}

#[test]
fn paste_centered_inside_the_board_does_not_grow_it() {
    let mut w = wire_world();
    let corner = w.paste_centered(5, 5, &two_by_two()).unwrap();
    assert_eq!(corner, (4, 4));
    assert_eq!((w.width(), w.height()), (16, 16));
    assert_eq!(*w.board().cell_at(4, 4), Head);
    assert_eq!(*w.board().cell_at(5, 4), Tail);
    assert_eq!(*w.board().cell_at(4, 5), Void);
    assert_eq!(*w.board().cell_at(5, 5), Wire);
}

#[test]
fn paste_centered_grows_before_the_first_column() {
    let mut w = wire_world();
    *w.board_mut().cell_at_mut(3, 3) = Wire;
    let cb = ClipBoard::from_vec(4, 1, vec![Some(Head); 4]).unwrap();
    let corner = w.paste_centered(0, 3, &cb).unwrap();
    // the corner would be at x = -2: one chunk is added on the left
    assert_eq!(corner, (14, 3));
    assert_eq!((w.width(), w.height()), (32, 16));
    assert_eq!(*w.board().cell_at(3 + 16, 3), Wire);
    for x in 14..18 {
        assert_eq!(*w.board().cell_at(x, 3), Head);
    }
    assert_eq!(*w.board().cell_at(13, 3), Void);
}

#[test]
fn paste_centered_grows_after_the_last_row() {
    let mut w = wire_world();
    let cb = ClipBoard::from_vec(1, 20, vec![Some(Wire); 20]).unwrap();
    let corner = w.paste_centered(2, 15, &cb).unwrap();
    assert_eq!(corner, (2, 5));
    assert_eq!((w.width(), w.height()), (16, 32));
    assert_eq!(*w.board().cell_at(2, 24), Wire);
    assert_eq!(*w.board().cell_at(2, 25), Void);
    assert_eq!(*w.board().cell_at(2, 4), Void);
}

#[test]
fn clear_region_resets_the_rectangle_only() {
    let mut w = wire_world();
    for y in 0..16 {
        for x in 0..16 {
            *w.board_mut().cell_at_mut(x, y) = Wire;
        }
    }
    w.clear_region(2, 3, 4, 5).unwrap();
    for y in 0..16 {
        for x in 0..16 {
            let inside = (2..=4).contains(&x) && (3..=5).contains(&y);
            assert_eq!(*w.board().cell_at(x, y), if inside { Void } else { Wire });
        }
    }
}

#[test]
fn world_randomize_keeps_the_shape() {
    let mut w = World2D::new(RockPaperScissorsRule::<VonNeumannNeighborhood>::new(), 2, 1, 1)
        .unwrap();
    let mut rng = rand::rngs::StdRng::seed_from_u64(5);
    w.randomize(&mut rng).unwrap();
    assert_eq!((w.width(), w.height()), (32, 16));
    w.update().unwrap();
}

#[test]
fn world_new_starts_cleared() {
    let w = World2D::new(GeneralizedLifeGameRule::<MooreNeighborhood>::default(), 1, 1, 1).unwrap();
    for y in 0..16 {
        for x in 0..16 {
            assert_eq!(*w.board().cell_at(x, y), LifeGameState::Dead);
        }
    }
    let mut w = World2D::new(LifeGameRule::<MooreNeighborhood>::default(), 1, 1, 1).unwrap();
    *w.board_mut().cell_at_mut(0, 0) = LifeGameState::Alive;
    w.expand_y(-1).unwrap();
    assert_eq!(*w.board().cell_at(0, 0), LifeGameState::Dead);
    assert_eq!(*w.board().cell_at(0, 16), LifeGameState::Alive);
    w.set_current_layer(3);
    w.expand_z(1);
    assert_eq!(w.current_layer(), 0);
}

#[test]
fn next_cell_cycles_one_cell() {
    let mut w = wire_world();
    assert_eq!(w.next_cell(3, 4).unwrap(), Wire);
    assert_eq!(w.next_cell(3, 4).unwrap(), Head);
    assert_eq!(*w.board().cell_at(3, 4), Head);
    assert_eq!(*w.board().cell_at(4, 4), Void);
    assert_eq!(w.next_cell(3, 4).unwrap(), Tail);
    assert_eq!(w.next_cell(3, 4).unwrap(), Void);
}
