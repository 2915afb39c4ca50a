use miniascape::{ClipBoard, Grid, WireWorldState};

use WireWorldState::{Head, Tail, Void, Wire};

fn sample() -> ClipBoard<WireWorldState> {
    // 3 wide, 2 high:
    //   Head  .    Tail
    //   Wire  Void .
    ClipBoard::from_vec(3, 2, vec![Some(Head), None, Some(Tail), Some(Wire), Some(Void), None])
        .unwrap()
}

fn cells(cb: &ClipBoard<WireWorldState>) -> Vec<Option<WireWorldState>> {
    let mut v = Vec::new();
    for j in 0..cb.height() {
        for i in 0..cb.width() {
            v.push(*cb.cell_at(i, j));
        }
    }
    v
}

#[test]
fn new_clipboard_is_masked() {
    let cb = ClipBoard::<WireWorldState>::new(4, 3);
    assert_eq!((cb.width(), cb.height()), (4, 3));
    assert!(cells(&cb).iter().all(|c| c.is_none()));
    assert!(cb.has_cell(3, 2));
    assert!(!cb.has_cell(4, 0));
}

#[test]
fn from_vec_checks_the_length() {
    assert!(ClipBoard::<WireWorldState>::from_vec(2, 2, vec![None; 3]).is_none());
    assert!(ClipBoard::<WireWorldState>::from_vec(2, 2, vec![None; 4]).is_some());
    assert!(ClipBoard::<WireWorldState>::from_vec(usize::MAX, 2, vec![]).is_none());
}

#[test]
fn rotate_turns_a_quarter() {
    let mut cb = sample();
    cb.rotate();
    assert_eq!((cb.width(), cb.height()), (2, 3));
    // cell (i, j) of the result is cell (width - 1 - j, i) of the clipboard before the turn
    assert_eq!(cells(&cb), vec![Some(Tail), None, None, Some(Void), Some(Head), Some(Wire)]);
}

#[test]
fn rotate_four_times_is_identity() {
    let unturned = sample();
    let mut cb = sample();
    for _ in 0..4 {
        cb.rotate();
    }
    assert_eq!((cb.width(), cb.height()), (unturned.width(), unturned.height()));
    assert_eq!(cells(&cb), cells(&unturned));
}

#[test]
fn cell_at_mut_writes_one_cell() {
    let mut cb = ClipBoard::<WireWorldState>::new(2, 2);
    *cb.cell_at_mut(1, 0) = Some(Wire);
    assert_eq!(cells(&cb), vec![None, Some(Wire), None, None]);
}

#[test]
fn paste_writes_only_unmasked_cells() {
    let mut g = Grid::init(1, 1, Void);
    *g.cell_at_mut(6, 5) = Wire;
    g.paste_clipboard(5, 5, &sample()).unwrap();
    assert_eq!(*g.cell_at(5, 5), Head);
    assert_eq!(*g.cell_at(6, 5), Wire);
    assert_eq!(*g.cell_at(7, 5), Tail);
    assert_eq!(*g.cell_at(5, 6), Wire);
    assert_eq!(*g.cell_at(6, 6), Void);
    assert_eq!(*g.cell_at(7, 6), Void);
}

#[test]
fn paste_that_sticks_out_is_refused() {
    let mut g = Grid::init(1, 1, Void);
    assert!(g.paste_clipboard(14, 0, &sample()).is_err());
    assert!(g.paste_clipboard(0, 15, &sample()).is_err());
    assert!(g.paste_clipboard(usize::MAX, 0, &sample()).is_err());
    for y in 0..16 {
        for x in 0..16 {
            assert_eq!(*g.cell_at(x, y), Void);
        }
    }
    assert!(g.paste_clipboard(13, 14, &sample()).is_ok());
    assert_eq!(*g.cell_at(15, 14), Tail);
}

#[test]
fn extract_masks_cells_off_the_board() {
    let mut g = Grid::init(1, 1, Void);
    *g.cell_at_mut(14, 3) = Head;
    *g.cell_at_mut(15, 4) = Tail;
    let cb = g.extract(14, 3, 3, 2);
    assert_eq!((cb.width(), cb.height()), (3, 2));
    assert_eq!(cells(&cb), vec![Some(Head), Some(Void), None, Some(Void), Some(Tail), None]);
}
