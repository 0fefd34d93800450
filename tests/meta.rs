use automata::life::{Etat, Toto};
use automata::meta::MetaAutomata;
use automata::{Automata, GridError, State};

fn blinker() -> Toto {
    let mut g = Toto::new(5, 5);
    for x in 1..4 {
        g.turn_on(x, 2).unwrap();
    }
    g
}

#[test]
fn more_active_sub_grid_steps_and_less_active_stays() {
    let hot = blinker().global_transition();
    assert_eq!(hot.activity(), 4);
    let cold = blinker();
    let m = MetaAutomata::from_grids(vec![hot.snapshot(), cold.snapshot()], 2, 1).unwrap();
    let n = m.global_transition();
    let g = n.grids();
    assert_eq!(g[0].cells(), blinker().cells());
    assert_eq!(g[0].activity(), 4);
    assert_eq!(g[1].cells(), cold.cells());
    assert_eq!(g[1].activity(), 0);
}

#[test]
fn equal_activity_steps() {
    let m = MetaAutomata::from_grids(vec![blinker(), blinker()], 2, 1).unwrap();
    let n = m.global_transition();
    let stepped = blinker().global_transition();
    assert_eq!(n.grids()[0].cells(), stepped.cells());
    assert_eq!(n.grids()[1].cells(), stepped.cells());
}

#[test]
fn sub_grid_local_transition_gates_on_activity() {
    let hot = blinker().global_transition();
    let cold = blinker();
    let kept = cold.local_transition(&vec![&hot]);
    assert_eq!(kept.cells(), cold.cells());
    let stepped = hot.local_transition(&vec![&cold, &cold]);
    assert_eq!(stepped.cells(), blinker().cells());
}

#[test]
fn lone_sub_grid_always_steps() {
    let m = MetaAutomata::from_grids(vec![blinker()], 1, 1).unwrap();
    let n = m.global_transition();
    assert_eq!(n.grids()[0].cells(), blinker().global_transition().cells());
    assert_eq!(n.grids()[0].get(2, 1), Some(Etat::ON));
}

#[test]
fn meta_step_keeps_size() {
    let m = MetaAutomata::new(3, 2, 4);
    assert_eq!((m.width(), m.height(), m.grids().len()), (3, 2, 6));
    let n = m.global_transition();
    assert_eq!((n.width(), n.height(), n.grids().len()), (3, 2, 6));
    for g in n.grids() {
        assert_eq!((g.width(), g.height()), (4, 4));
    }
}

#[test]
fn from_grids_checks_size() {
    assert!(matches!(MetaAutomata::from_grids(vec![Toto::new(2, 2)], 2, 1), Err(GridError::SizeMismatch)));
}

#[test]
fn get_sub_grid_by_coordinate() {
    let hot = blinker().global_transition();
    let m = MetaAutomata::from_grids(vec![blinker(), hot.snapshot()], 2, 1).unwrap();
    assert_eq!(m.get(1, 0).unwrap().activity(), 4);
    assert_eq!(m.get(0, 0).unwrap().cells(), blinker().cells());
    assert!(m.get(2, 0).is_none());
    assert!(m.get(0, 1).is_none());
}
