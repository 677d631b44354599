use game_of_life::engine::State;

/// Every alive cell of the grid, in column-major order.
fn alive_cells(s: &State) -> Vec<(usize, usize)> {
    let mut out = Vec::new();
    for i in 0..s.width() {
        for j in 0..s.height() {
            if s.cell_at(i, j) {
                out.push((i, j));
            }
        }
    }
    out
}

#[test]
fn new_starts_dead_and_paused() {
    let s = State::new();
    assert_eq!(s.width(), 40);
    assert_eq!(s.height(), 40);
    assert_eq!(s.current_rate(), 1);
    assert!(!s.is_running());
    assert!(alive_cells(&s).is_empty());
}

#[test]
fn with_size_sets_dimensions() {
    let s = State::with_size(30, 20);
    assert_eq!(s.width(), 30);
    assert_eq!(s.height(), 20);
    assert!(alive_cells(&s).is_empty());
}

#[test]
fn toggle_cell_twice_restores() {
    let mut s = State::with_size(10, 10);
    assert!(!s.cell_at(3, 5));
    s.toggle_cell(3, 5);
    assert!(s.cell_at(3, 5));
    s.toggle_cell(3, 5);
    assert!(!s.cell_at(3, 5));
    assert_eq!(s.current_rate(), 1);
    assert!(!s.is_running());
}

#[test]
fn corner_wraps_to_opposite_corner() {
    // (0,0), (4,0) and (0,4) are all neighbors of (4,4) across the wrapped
    // edges, so the dead corner (4,4) sees 3 alive neighbors and is born.
    let mut s = State::with_size(5, 5);
    s.toggle_cell(0, 0);
    s.toggle_cell(4, 0);
    s.toggle_cell(0, 4);
    s.step();
    assert!(s.cell_at(4, 4));
}

#[test]
fn blinker_oscillates() {
    let mut s = State::with_size(5, 5);
    s.toggle_cell(1, 2);
    s.toggle_cell(2, 2);
    s.toggle_cell(3, 2);
    s.step();
    assert_eq!(alive_cells(&s), vec![(2, 1), (2, 2), (2, 3)]);
    s.step();
    assert_eq!(alive_cells(&s), vec![(1, 2), (2, 2), (3, 2)]);
}

#[test]
fn block_is_still_life() {
    let mut s = State::with_size(6, 6);
    s.toggle_cell(2, 2);
    s.toggle_cell(3, 2);
    s.toggle_cell(2, 3);
    s.toggle_cell(3, 3);
    for _ in 0..5 {
        s.step();
        assert_eq!(alive_cells(&s), vec![(2, 2), (2, 3), (3, 2), (3, 3)]);
    }
}

#[test]
fn birth_with_three_neighbors_only() {
    // A vertical triple: the cells beside its middle have exactly 3
    // neighbors and are born.
    let mut s = State::with_size(6, 6);
    s.toggle_cell(1, 1);
    s.toggle_cell(1, 2);
    s.toggle_cell(1, 3);
    s.step();
    assert!(s.cell_at(0, 2));
    assert!(s.cell_at(2, 2));
    // A dead cell with only 2 alive neighbors stays dead.
    let mut t = State::with_size(6, 6);
    t.toggle_cell(1, 1);
    t.toggle_cell(1, 2);
    t.step();
    assert!(alive_cells(&t).is_empty());
    // A dead cell with 4 alive neighbors stays dead.
    let mut u = State::with_size(7, 7);
    u.toggle_cell(1, 1);
    u.toggle_cell(3, 1);
    u.toggle_cell(1, 3);
    u.toggle_cell(3, 3);
    u.step();
    assert!(!u.cell_at(2, 2));
}

#[test]
fn survival_and_death_by_neighbor_count() {
    // Alive with 2 neighbors survives: the middle of a blinker.
    let mut s = State::with_size(5, 5);
    s.toggle_cell(1, 2);
    s.toggle_cell(2, 2);
    s.toggle_cell(3, 2);
    s.step();
    assert!(s.cell_at(2, 2));
    // Alive with 3 neighbors survives: every cell of a block.
    let mut b = State::with_size(5, 5);
    b.toggle_cell(1, 1);
    b.toggle_cell(2, 1);
    b.toggle_cell(1, 2);
    b.toggle_cell(2, 2);
    b.step();
    assert!(b.cell_at(1, 1));
    // Alive with 0 neighbors dies.
    let mut l = State::with_size(5, 5);
    l.toggle_cell(2, 2);
    l.step();
    assert!(!l.cell_at(2, 2));
    // Alive with 1 neighbor dies.
    let mut p = State::with_size(6, 6);
    p.toggle_cell(2, 2);
    p.toggle_cell(2, 3);
    p.step();
    assert!(alive_cells(&p).is_empty());
    // Alive with 4 neighbors dies: the center of a plus shape.
    let mut q = State::with_size(7, 7);
    q.toggle_cell(3, 3);
    q.toggle_cell(2, 3);
    q.toggle_cell(4, 3);
    q.toggle_cell(3, 2);
    q.toggle_cell(3, 4);
    q.step();
    assert!(!q.cell_at(3, 3));
}

#[test]
fn rate_never_drops_below_one() {
    let mut s = State::new();
    assert_eq!(s.current_rate(), 1);
    s.adjust_rate(-5);
    assert_eq!(s.current_rate(), 1);
    s.adjust_rate(3);
    assert_eq!(s.current_rate(), 4);
    s.adjust_rate(-2);
    assert_eq!(s.current_rate(), 2);
    s.adjust_rate(-2);
    assert_eq!(s.current_rate(), 1);
}

#[test]
fn paused_due_checks_never_step_and_leave_no_backlog() {
    let mut s = State::with_size(5, 5);
    s.toggle_cell(1, 2);
    s.toggle_cell(2, 2);
    s.toggle_cell(3, 2);
    // Paused: however much time passes, nothing moves.
    assert_eq!(s.step_if_due(10_000), 0);
    assert_eq!(s.step_if_due(123_456), 0);
    assert_eq!(alive_cells(&s), vec![(1, 2), (2, 2), (3, 2)]);
    // Un-pause: only time elapsed from now on counts, so 2500 ms at rate 1
    // owes exactly 2 generations, not the backlog of the pause.
    s.toggle_running();
    assert!(s.is_running());
    assert_eq!(s.step_if_due(2500), 2);
    assert_eq!(alive_cells(&s), vec![(1, 2), (2, 2), (3, 2)]);
}

#[test]
fn running_due_checks_accumulate_fractions() {
    let mut s = State::with_size(5, 5);
    s.toggle_cell(1, 2);
    s.toggle_cell(2, 2);
    s.toggle_cell(3, 2);
    s.set_running(true);
    assert_eq!(s.step_if_due(400), 0);
    assert_eq!(alive_cells(&s), vec![(1, 2), (2, 2), (3, 2)]);
    assert_eq!(s.step_if_due(700), 1);
    assert_eq!(alive_cells(&s), vec![(2, 1), (2, 2), (2, 3)]);
}

#[test]
fn due_checks_respect_the_rate() {
    let mut s = State::with_size(5, 5);
    s.toggle_cell(1, 2);
    s.toggle_cell(2, 2);
    s.toggle_cell(3, 2);
    s.set_running(true);
    s.adjust_rate(3);
    // 1000 ms at 4 generations per second owes 4 steps; the blinker has
    // period 2, so it is back in its first orientation.
    assert_eq!(s.step_if_due(1000), 4);
    assert_eq!(alive_cells(&s), vec![(1, 2), (2, 2), (3, 2)]);
}

#[test]
fn reset_clears_grid_and_keeps_the_rest() {
    let mut s = State::with_size(8, 8);
    s.toggle_cell(1, 1);
    s.toggle_cell(5, 6);
    s.set_running(true);
    s.adjust_rate(2);
    s.reset();
    assert!(alive_cells(&s).is_empty());
    assert!(s.is_running());
    assert_eq!(s.current_rate(), 3);
}

#[test]
fn toggle_running_flips_only_the_flag() {
    let mut s = State::with_size(4, 4);
    s.toggle_cell(1, 1);
    s.toggle_running();
    assert!(s.is_running());
    assert!(s.cell_at(1, 1));
    s.toggle_running();
    assert!(!s.is_running());
    assert!(s.cell_at(1, 1));
}

#[test]
fn lone_cell_on_tiny_grid_wraps_onto_itself() {
    // On a 1 by 1 torus every neighbor direction wraps back to the single
    // cell, so an alive cell sees 8 alive neighbors and dies.
    let mut s = State::with_size(1, 1);
    s.toggle_cell(0, 0);
    s.step();
    assert!(!s.cell_at(0, 0));
}

#[test]
fn full_two_by_two_torus_dies_of_overcrowding() {
    // On a 2 by 2 torus with every cell alive, wrapping makes each cell see
    // its 3 companions more than once, for 8 alive neighbors: all die.
    let mut s = State::with_size(2, 2);
    s.toggle_cell(0, 0);
    s.toggle_cell(1, 0);
    s.toggle_cell(0, 1);
    s.toggle_cell(1, 1);
    s.step();
    assert!(alive_cells(&s).is_empty());
}
