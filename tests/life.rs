use cell_automata::game_of_life::{cells_from_draws, make_grid, random_draws, Grid};
use cell_automata::{apply_input, apply_inputs, Input};

fn board(w: usize, h: usize, live: &[(usize, usize)]) -> Vec<Vec<bool>> {
    let mut b = vec![vec![false; w]; h];
    for &(x, y) in live {
        b[y][x] = true;
    }
    b
}

fn live(g: &Grid) -> Vec<(u32, u32)> {
    g.live_cells()
}

#[test]
fn glider_moves_diagonally() {
    let glider = [(1, 0), (2, 1), (0, 2), (1, 2), (2, 2)];
    let mut g = Grid::from_cells(board(10, 10, &glider)).unwrap();
    for _ in 0..4 {
        g.update();
    }
    let mut moved: Vec<(u32, u32)> = glider.iter().map(|&(x, y)| (x as u32 + 1, y as u32 + 1)).collect();
    moved.sort();
    assert_eq!(live(&g), moved);
}

#[test]
fn block_is_still() {
    let mut g = Grid::from_cells(board(6, 6, &[(2, 2), (3, 2), (2, 3), (3, 3)])).unwrap();
    for _ in 0..5 {
        g.update();
        assert_eq!(live(&g), vec![(2, 2), (2, 3), (3, 2), (3, 3)]);
    }
}

#[test]
fn corner_block_survives_without_wraparound() {
    let mut g = Grid::from_cells(board(5, 5, &[(0, 0), (0, 1), (1, 0), (1, 1)])).unwrap();
    g.update();
    assert_eq!(g.cell_state(0, 0), Some(true));
    assert_eq!(live(&g), vec![(0, 0), (0, 1), (1, 0), (1, 1)]);
}

#[test]
fn corner_cell_is_born_from_three_neighbours() {
    let mut g = Grid::from_cells(board(5, 5, &[(0, 1), (1, 0), (1, 1)])).unwrap();
    g.update();
    assert_eq!(g.cell_state(0, 0), Some(true));
    assert_eq!(live(&g), vec![(0, 0), (0, 1), (1, 0), (1, 1)]);
}

#[test]
fn blinker_at_far_edge_is_clipped() {
    let mut g = Grid::from_cells(board(3, 3, &[(2, 0), (2, 1), (2, 2)])).unwrap();
    g.update();
    assert_eq!(live(&g), vec![(1, 1), (2, 1)]);
}

#[test]
fn blinker_oscillates() {
    let mut g = Grid::from_cells(board(5, 5, &[(1, 2), (2, 2), (3, 2)])).unwrap();
    g.update();
    assert_eq!(live(&g), vec![(2, 1), (2, 2), (2, 3)]);
    g.update();
    assert_eq!(live(&g), vec![(1, 2), (2, 2), (3, 2)]);
}

#[test]
fn overcrowded_cell_dies() {
    let mut g = Grid::from_cells(board(3, 3, &[(1, 1), (0, 0), (1, 0), (2, 0), (0, 1)])).unwrap();
    g.update();
    assert_eq!(g.cell_state(1, 1), Some(false));
}

#[test]
fn beehive_is_fixed() {
    let cells = [(1, 0), (2, 0), (0, 1), (3, 1), (1, 2), (2, 2)];
    let mut g = Grid::from_cells(board(6, 5, &cells)).unwrap();
    let before = live(&g);
    g.update();
    assert_eq!(live(&g), before);
}

#[test]
fn malformed_boards_are_refused() {
    assert!(Grid::from_cells(vec![]).is_none());
    assert!(Grid::from_cells(vec![vec![]]).is_none());
    assert!(Grid::from_cells(vec![vec![true, false], vec![true]]).is_none());
    let g = Grid::from_cells(vec![vec![true, false, false], vec![false, false, true]]).unwrap();
    assert_eq!(g.width_of(), 3);
    assert_eq!(g.height_of(), 2);
    assert_eq!(g.cell_state(3, 0), None);
    assert_eq!(g.cell_state(2, 1), Some(true));
}

#[test]
fn zero_sized_board_is_refused() {
    assert!(Grid::generate(0, 3).is_none());
    assert!(Grid::generate(3, 0).is_none());
    let g = Grid::generate(4, 7).unwrap();
    assert_eq!(g.width_of(), 4);
    assert_eq!(g.height_of(), 7);
    assert!(g.is_running());
    assert!(!g.is_updating());
}

#[test]
fn seeding_threshold() {
    let draws = vec![vec![0, 63, 64], vec![255, 10, 200]];
    assert_eq!(
        cells_from_draws(&draws),
        vec![vec![true, true, false], vec![false, true, false]]
    );
}

#[test]
fn reseeding_twice_gives_the_same_board() {
    let draws = vec![vec![5, 100, 70], vec![1, 2, 250]];
    let mut a = Grid::generate(3, 2).unwrap();
    let mut b = Grid::generate(3, 2).unwrap();
    a.reset_with(&draws);
    b.reset_with(&draws);
    assert_eq!(live(&a), live(&b));
    assert_eq!(live(&a), vec![(0, 0), (0, 1), (1, 1)]);
}

#[test]
fn random_board_has_shape() {
    let d = random_draws(4, 3);
    assert_eq!(d.len(), 3);
    assert!(d.iter().all(|r| r.len() == 4));
    let b = make_grid(5, 2);
    assert_eq!(b.len(), 2);
    assert!(b.iter().all(|r| r.len() == 5));
    let big = make_grid(100, 100);
    let alive = big.iter().flatten().filter(|c| **c).count();
    assert!(alive > 1000 && alive < 4000);
}

#[test]
fn reset_keeps_shape_and_flags() {
    let mut g = Grid::from_cells(board(4, 3, &[])).unwrap();
    g.collect_events(&vec![Input::TogglePause]);
    g.reset();
    assert_eq!(g.width_of(), 4);
    assert_eq!(g.height_of(), 3);
    assert!(g.is_updating());
}

#[test]
fn events_without_reset_keep_the_board() {
    let mut g = Grid::from_cells(board(4, 4, &[(1, 1)])).unwrap();
    g.collect_events(&vec![Input::TogglePause, Input::Other]);
    assert!(g.is_updating());
    assert_eq!(live(&g), vec![(1, 1)]);
    g.collect_events(&vec![Input::Reset, Input::Quit]);
    assert!(!g.is_running());
    assert_eq!(g.width_of(), 4);
}

#[test]
fn input_flags() {
    assert_eq!(apply_input((true, false), Input::Quit), (false, false));
    assert_eq!(apply_input((true, false), Input::TogglePause), (true, true));
    assert_eq!(apply_input((true, true), Input::Reset), (true, true));
    assert_eq!(apply_input((true, true), Input::Other), (true, true));
    assert_eq!(apply_inputs((true, false), &vec![]), (true, false));
    assert_eq!(
        apply_inputs((true, false), &vec![Input::TogglePause, Input::TogglePause, Input::TogglePause]),
        (true, true)
    );
}
