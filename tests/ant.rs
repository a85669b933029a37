use cell_automata::ant::{apply_dir, make_grid, rule, Ant, AntError, CellColor, Direction, Grid, Turn, GRID_SIZE};
use cell_automata::Input;

#[test]
fn turn_table() {
    assert_eq!(apply_dir(Direction::N, Turn::Left), Direction::W);
    assert_eq!(apply_dir(Direction::E, Turn::Left), Direction::N);
    assert_eq!(apply_dir(Direction::S, Turn::Left), Direction::E);
    assert_eq!(apply_dir(Direction::W, Turn::Left), Direction::S);
    assert_eq!(apply_dir(Direction::N, Turn::Right), Direction::E);
    assert_eq!(apply_dir(Direction::E, Turn::Right), Direction::S);
    assert_eq!(apply_dir(Direction::S, Turn::Right), Direction::W);
    assert_eq!(apply_dir(Direction::W, Turn::Right), Direction::N);
}

#[test]
fn repaint_table() {
    assert_eq!(rule(CellColor::Unmarked), (CellColor::Red, Turn::Left));
    assert_eq!(rule(CellColor::White), (CellColor::Red, Turn::Left));
    assert_eq!(rule(CellColor::Red), (CellColor::White, Turn::Right));
}

#[test]
fn blank_grid_has_shape() {
    let g = make_grid(3, 2);
    assert_eq!(g.len(), 2);
    for row in &g {
        assert_eq!(row.len(), 3);
        assert!(row.iter().all(|c| *c == CellColor::Unmarked));
    }
    assert!(make_grid(0, 4).iter().all(|r| r.is_empty()));
}

#[test]
fn zero_sized_grid_is_refused() {
    assert!(Grid::generate(0, 5).is_none());
    assert!(Grid::generate(5, 0).is_none());
    assert!(Ant::with_size(0, 0).is_none());
    assert!(Grid::generate(1, 1).is_some());
}

#[test]
fn new_ant_starts_at_centre() {
    let a = Ant::new();
    assert_eq!(a.pos, (37, 37));
    assert_eq!(a.direction, Direction::N);
    assert_eq!(a.grid.width_of(), GRID_SIZE);
    assert_eq!(a.grid.height_of(), GRID_SIZE);
    assert!(a.grid.is_running());
    assert!(!a.grid.is_updating());
    assert_eq!(a.grid.cell_state(0, 0), Some(CellColor::Unmarked));
    assert_eq!(a.grid.cell_state(75, 0), None);
}

#[test]
fn first_ten_steps() {
    let mut a = Ant::new();
    let expected = [
        ((36, 37), Direction::W),
        ((36, 38), Direction::S),
        ((37, 38), Direction::E),
        ((37, 37), Direction::N),
        ((38, 37), Direction::E),
        ((38, 36), Direction::N),
        ((37, 36), Direction::W),
        ((37, 37), Direction::S),
        ((38, 37), Direction::E),
        ((38, 38), Direction::S),
    ];
    for (pos, dir) in expected.iter() {
        assert_eq!(a.tick(), Ok(()));
        assert_eq!(a.pos, *pos);
        assert_eq!(a.direction, *dir);
    }
    let red = a.grid.cells_with(CellColor::Red);
    assert_eq!(red, vec![(36, 37), (36, 38), (37, 36), (37, 37), (37, 38), (38, 36)]);
    assert_eq!(a.grid.cells_with(CellColor::White), vec![(38, 37)]);
    assert_eq!(a.grid.cell_state(38, 38), Some(CellColor::Unmarked));
}

#[test]
fn highway_emerges() {
    let mut a = Ant::with_size(201, 201).unwrap();
    for _ in 0..10400 {
        assert_eq!(a.tick(), Ok(()));
    }
    // From here on the ant repeats a cycle of 104 steps that shifts it two
    // cells right and two cells down.
    for _ in 0..10 {
        let (x, y) = a.pos;
        let d = a.direction;
        for _ in 0..104 {
            assert_eq!(a.tick(), Ok(()));
        }
        assert_eq!(a.pos, (x + 2, y + 2));
        assert_eq!(a.direction, d);
    }
}

#[test]
fn leaving_the_grid_is_an_error() {
    let mut a = Ant::new();
    for _ in 0..11030 {
        assert_eq!(a.tick(), Ok(()));
    }
    assert_eq!(a.pos, (74, 48));
    let before = a.grid.cells_with(CellColor::Red);
    assert_eq!(a.tick(), Err(AntError::OffGrid));
    assert_eq!(a.pos, (74, 48));
    assert_eq!(a.grid.cells_with(CellColor::Red), before);
    assert_eq!(a.tick(), Err(AntError::OffGrid));
}

#[test]
fn off_grid_at_the_top_edge() {
    let mut a = Ant::with_size(1, 1).unwrap();
    assert_eq!(a.tick(), Err(AntError::OffGrid));
    assert_eq!(a.grid.cell_state(0, 0), Some(CellColor::Unmarked));
    assert_eq!(a.direction, Direction::N);
}

#[test]
fn single_step_on_small_grid() {
    let mut a = Ant::with_size(3, 3).unwrap();
    assert_eq!(a.pos, (1, 1));
    assert_eq!(a.tick(), Ok(()));
    assert_eq!(a.pos, (0, 1));
    assert_eq!(a.direction, Direction::W);
    assert_eq!(a.grid.cell_state(1, 1), Some(CellColor::Red));
    assert_eq!(a.tick(), Ok(()));
    assert_eq!(a.pos, (0, 2));
    assert_eq!(a.tick(), Ok(()));
    assert_eq!(a.pos, (1, 2));
    assert_eq!(a.tick(), Ok(()));
    assert_eq!(a.pos, (1, 1));
    assert_eq!(a.direction, Direction::N);
    // Standing on a red cell: repaint white, turn right.
    assert_eq!(a.tick(), Ok(()));
    assert_eq!(a.grid.cell_state(1, 1), Some(CellColor::White));
    assert_eq!(a.direction, Direction::E);
    assert_eq!(a.pos, (2, 1));
}

#[test]
fn events_steer_the_ant_grid() {
    let mut a = Ant::new();
    a.grid.collect_events(&vec![Input::TogglePause, Input::Other, Input::Reset]);
    assert!(a.grid.is_updating());
    assert!(a.grid.is_running());
    a.grid.collect_events(&vec![Input::TogglePause, Input::TogglePause, Input::Quit]);
    assert!(a.grid.is_updating());
    assert!(!a.grid.is_running());
}
