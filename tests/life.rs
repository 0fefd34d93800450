use automata::life::Etat::{OFF, ON};
use automata::life::{Etat, Toto};
use automata::{Automata, GridError, State};

fn grid(w: usize, h: usize, on: &[(usize, usize)]) -> Toto {
    let mut g = Toto::new(w, h);
    for &(x, y) in on {
        assert_eq!(g.turn_on(x, y), Ok(()));
    }
    g
}

fn on_cells(g: &Toto) -> Vec<(usize, usize)> {
    let mut r = Vec::new();
    for y in 0..g.height() {
        for x in 0..g.width() {
            if g.get(x, y) == Some(Etat::ON) {
                r.push((x, y));
            }
        }
    }
    r
}

#[test]
fn three_on_neighbors_give_birth() {
    let voisins = vec![&ON, &ON, &OFF, &OFF, &ON, &OFF, &OFF];
    assert_eq!(OFF.local_transition(&voisins), ON);
}

#[test]
fn conway_rule_by_count() {
    assert_eq!(ON.local_transition(&vec![&ON]), OFF);
    assert_eq!(ON.local_transition(&vec![&ON, &ON]), ON);
    assert_eq!(OFF.local_transition(&vec![&ON, &ON]), OFF);
    assert_eq!(OFF.local_transition(&vec![&ON, &ON, &ON]), ON);
    assert_eq!(ON.local_transition(&vec![&ON, &ON, &ON, &ON]), OFF);
    assert_eq!(ON.local_transition(&vec![]), OFF);
}

#[test]
fn default_cell_is_off() {
    assert_eq!(Etat::default(), Etat::OFF);
}

#[test]
fn cell_strings() {
    assert_eq!(Etat::ON.to_string(), "O");
    assert_eq!(Etat::OFF.to_string(), "·");
}

#[test]
fn default_grid_is_empty() {
    let g = Toto::default();
    assert_eq!((g.width(), g.height(), g.activity()), (0, 0, 0));
    assert!(g.cells().is_empty());
    assert!(g.global_transition().cells().is_empty());
}

#[test]
fn glyphs() {
    assert_eq!(Etat::ON.glyph(), 'O');
    assert_eq!(Etat::OFF.glyph(), '·');
}

#[test]
fn isolated_cell_dies() {
    let g = grid(3, 3, &[(1, 1)]);
    let n = g.global_transition();
    assert!(on_cells(&n).is_empty());
    assert_eq!(n.activity(), 1);
}

#[test]
fn block_is_still_life() {
    let g = grid(4, 4, &[(1, 1), (2, 1), (1, 2), (2, 2)]);
    let n = g.global_transition();
    assert_eq!(n.cells(), g.cells());
    assert_eq!(n.activity(), 0);
}

#[test]
fn blinker_has_period_two() {
    let g = grid(5, 5, &[(1, 2), (2, 2), (3, 2)]);
    let n1 = g.global_transition();
    assert_eq!(on_cells(&n1), vec![(2, 1), (2, 2), (2, 3)]);
    assert_eq!(n1.activity(), 4);
    let n2 = n1.global_transition();
    assert_eq!(n2.cells(), g.cells());
    assert_eq!(n2.activity(), 4);
}

#[test]
fn one_by_one_grid_steps_to_off() {
    let g = grid(1, 1, &[(0, 0)]);
    let n = g.global_transition();
    assert_eq!(n.get(0, 0), Some(Etat::OFF));
    assert_eq!(n.activity(), 1);
    assert_eq!((n.width(), n.height()), (1, 1));
}

#[test]
fn glider_moves() {
    let mut g = grid(8, 8, &[(2, 0), (2, 1), (2, 2), (1, 2), (0, 1)]);
    for _ in 0..4 {
        g = g.global_transition();
    }
    assert_eq!(on_cells(&g), vec![(3, 1), (1, 2), (3, 2), (2, 3), (3, 3)]);
}

#[test]
fn step_keeps_size_and_bounds_activity() {
    let g = Toto::random(7, 5);
    assert_eq!((g.width(), g.height(), g.activity()), (7, 5, 0));
    assert_eq!(g.cells().len(), 35);
    let n = g.global_transition();
    assert_eq!((n.width(), n.height()), (7, 5));
    assert_eq!(n.cells().len(), 35);
    assert!(n.activity() <= 35);
    let changed = g.cells().iter().zip(n.cells().iter()).filter(|(a, b)| a != b).count();
    assert_eq!(n.activity(), changed);
}

#[test]
fn step_is_deterministic() {
    let g = Toto::random(6, 6);
    let a = g.global_transition();
    let b = g.global_transition();
    assert_eq!(a.cells(), b.cells());
    assert_eq!(a.activity(), b.activity());
}

#[test]
fn turn_on_out_of_bounds_is_refused() {
    let mut g = Toto::new(3, 2);
    assert_eq!(g.turn_on(3, 0), Err(GridError::OutOfBounds));
    assert_eq!(g.turn_on(0, 2), Err(GridError::OutOfBounds));
    assert!(g.cells().iter().all(|c| *c == Etat::OFF));
    assert_eq!(g.turn_on(2, 1), Ok(()));
    assert_eq!(g.cells()[5], Etat::ON);
}

#[test]
fn get_outside_is_none() {
    let g = Toto::new(2, 2);
    assert_eq!(g.get(2, 0), None);
    assert_eq!(g.get(0, 2), None);
    assert_eq!(g.get(1, 1), Some(Etat::OFF));
}

#[test]
fn from_cells_checks_size() {
    let cells = vec![Etat::ON, Etat::OFF, Etat::OFF];
    assert_eq!(Toto::from_cells(cells.clone(), 2, 2).err(), Some(GridError::SizeMismatch));
    let g = Toto::from_cells(cells, 3, 1).unwrap();
    assert_eq!(g.get(0, 0), Some(Etat::ON));
    assert_eq!(g.activity(), 0);
    assert!(Toto::from_cells(vec![], 0, 5).is_ok());
    assert_eq!(Toto::from_cells(vec![Etat::ON], 1, 0).err(), Some(GridError::SizeMismatch));
}

#[test]
fn from_coins_maps_true_to_off() {
    let g = Toto::from_coins(2, 1, &vec![true, false]).unwrap();
    assert_eq!(g.cells(), &vec![Etat::OFF, Etat::ON]);
    assert_eq!(Toto::from_coins(2, 2, &vec![true]).err(), Some(GridError::SizeMismatch));
}

#[test]
fn snapshot_is_equal_copy() {
    let g = grid(3, 3, &[(0, 0), (2, 2)]);
    let c = g.snapshot();
    assert_eq!(c.cells(), g.cells());
    assert_eq!((c.width(), c.height(), c.activity()), (3, 3, 0));
}
