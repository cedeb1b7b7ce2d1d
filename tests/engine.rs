use cells::{wrap_coord, ConfigError, Grid, Rule, Simulation};
use rand::rngs::StdRng;
use rand::SeedableRng;

fn grid_from_rows(rows: &[&[i32]]) -> Grid {
    let height = rows.len();
    let width = rows[0].len();
    let mut g = Grid::new(width, height).unwrap();
    for y in 0..height {
        for x in 0..width {
            g.set(x, y, rows[y][x]);
        }
    }
    g
}

fn cells_of(g: &Grid) -> Vec<Vec<i32>> {
    (0..g.height())
        .map(|y| (0..g.width()).map(|x| g.get(x, y)).collect())
        .collect()
}

fn random_grid(width: usize, height: usize, states: i32, seed: u64) -> Grid {
    let mut g = Grid::new(width, height).unwrap();
    let mut rng = StdRng::seed_from_u64(seed);
    g.randomize(states, &mut rng);
    g
}

fn shifted(g: &Grid, sx: usize, sy: usize) -> Grid {
    let (w, h) = (g.width(), g.height());
    let mut out = Grid::new(w, h).unwrap();
    for x in 0..w {
        for y in 0..h {
            out.set((x + sx) % w, (y + sy) % h, g.get(x, y));
        }
    }
    out
}

#[test]
fn new_grid_is_all_zero() {
    let g = Grid::new(5, 3).unwrap();
    assert_eq!(g.width(), 5);
    assert_eq!(g.height(), 3);
    assert_eq!(cells_of(&g), vec![vec![0; 5]; 3]);
}

#[test]
fn new_grid_rejects_empty_dimensions() {
    assert_eq!(Grid::new(0, 4).unwrap_err(), ConfigError::InvalidDimensions);
    assert_eq!(Grid::new(4, 0).unwrap_err(), ConfigError::InvalidDimensions);
}

#[test]
fn cyclic_rule_rejects_fewer_than_two_states() {
    assert_eq!(Rule::cyclic_successor(1), Err(ConfigError::InvalidStateCount));
    assert_eq!(Rule::cyclic_successor(0), Err(ConfigError::InvalidStateCount));
    assert_eq!(Rule::cyclic_successor(-3), Err(ConfigError::InvalidStateCount));
    assert_eq!(Rule::cyclic_successor(2), Ok(Rule::CyclicSuccessor(2)));
}

#[test]
fn state_counts() {
    assert_eq!(Rule::binary_survival().state_count(), 2);
    assert_eq!(Rule::cyclic_successor(12).unwrap().state_count(), 12);
}

#[test]
fn simulation_rejects_empty_dimensions() {
    let rule = Rule::binary_survival();
    assert!(matches!(
        Simulation::new(0, 10, rule, 1),
        Err(ConfigError::InvalidDimensions)
    ));
}

#[test]
fn wrap_coord_at_edges() {
    assert_eq!(wrap_coord(0, -1, 5), 4);
    assert_eq!(wrap_coord(4, 1, 5), 0);
    assert_eq!(wrap_coord(2, -1, 5), 1);
    assert_eq!(wrap_coord(2, 1, 5), 3);
    assert_eq!(wrap_coord(2, 0, 5), 2);
    assert_eq!(wrap_coord(0, -1, 1), 0);
    assert_eq!(wrap_coord(0, 1, 1), 0);
}

#[test]
fn neighbor_wraps_around_the_torus() {
    let g = grid_from_rows(&[&[1, 2, 3], &[4, 5, 6], &[7, 8, 9]]);
    assert_eq!(g.neighbor(0, 0, -1, -1), 9);
    assert_eq!(g.neighbor(0, 0, 1, 1), 5);
    assert_eq!(g.neighbor(2, 2, 1, 1), 1);
    assert_eq!(g.neighbor(2, 0, 1, 0), 1);
    assert_eq!(g.neighbor(0, 2, 0, 1), 1);
}

#[test]
fn set_changes_one_cell() {
    let mut g = Grid::new(3, 2).unwrap();
    g.set(2, 1, 7);
    assert_eq!(cells_of(&g), vec![vec![0, 0, 0], vec![0, 0, 7]]);
}

#[test]
fn binary_decision_table() {
    let rule = Rule::binary_survival();
    // Centre (2, 2) of a 5x5 board; the neighbours are set row by row.
    let lonely = grid_from_rows(&[
        &[0, 0, 0, 0, 0],
        &[0, 1, 0, 0, 0],
        &[0, 0, 1, 0, 0],
        &[0, 0, 0, 0, 0],
        &[0, 0, 0, 0, 0],
    ]);
    assert_eq!(rule.next_state(&lonely, 2, 2), 0);
    let two_alive = grid_from_rows(&[
        &[0, 0, 0, 0, 0],
        &[0, 1, 1, 0, 0],
        &[0, 0, 1, 0, 0],
        &[0, 0, 0, 0, 0],
        &[0, 0, 0, 0, 0],
    ]);
    assert_eq!(rule.next_state(&two_alive, 2, 2), 1);
    let two_dead = grid_from_rows(&[
        &[0, 0, 0, 0, 0],
        &[0, 1, 1, 0, 0],
        &[0, 0, 0, 0, 0],
        &[0, 0, 0, 0, 0],
        &[0, 0, 0, 0, 0],
    ]);
    assert_eq!(rule.next_state(&two_dead, 2, 2), 0);
    let three = grid_from_rows(&[
        &[0, 0, 0, 0, 0],
        &[0, 1, 1, 1, 0],
        &[0, 0, 0, 0, 0],
        &[0, 0, 0, 0, 0],
        &[0, 0, 0, 0, 0],
    ]);
    assert_eq!(rule.next_state(&three, 2, 2), 1);
    let four = grid_from_rows(&[
        &[0, 0, 0, 0, 0],
        &[0, 1, 1, 1, 0],
        &[0, 0, 1, 1, 0],
        &[0, 0, 0, 0, 0],
        &[0, 0, 0, 0, 0],
    ]);
    assert_eq!(rule.next_state(&four, 2, 2), 0);
}

#[test]
fn binary_counts_neighbors_across_the_edge() {
    let rule = Rule::binary_survival();
    let g = grid_from_rows(&[
        &[0, 0, 0, 1],
        &[0, 0, 0, 1],
        &[0, 0, 0, 0],
        &[0, 0, 0, 1],
    ]);
    // (0, 0) sees (3, 3), (3, 0) and (3, 1) through the wrap.
    assert_eq!(rule.next_state(&g, 0, 0), 1);
}

#[test]
fn next_state_stays_in_range() {
    for (rule, seed) in [
        (Rule::binary_survival(), 3u64),
        (Rule::cyclic_successor(8).unwrap(), 4u64),
        (Rule::cyclic_successor(2).unwrap(), 5u64),
    ] {
        let g = random_grid(9, 7, rule.state_count(), seed);
        for x in 0..9 {
            for y in 0..7 {
                let v = rule.next_state(&g, x, y);
                assert!(0 <= v && v < rule.state_count());
            }
        }
    }
}

#[test]
fn shifting_commutes_with_a_generation() {
    for (rule, seed) in [
        (Rule::binary_survival(), 11u64),
        (Rule::cyclic_successor(4).unwrap(), 12u64),
    ] {
        let g = random_grid(7, 5, rule.state_count(), seed);
        let a = rule.next_gen(&shifted(&g, 2, 3));
        let b = shifted(&rule.next_gen(&g), 2, 3);
        assert_eq!(cells_of(&a), cells_of(&b));
    }
}

#[test]
fn binary_all_dead_stays_dead() {
    let g = Grid::new(6, 4).unwrap();
    let n = Rule::binary_survival().next_gen(&g);
    assert_eq!(cells_of(&n), vec![vec![0; 6]; 4]);
}

#[test]
fn binary_block_of_nine_after_one_generation() {
    let mut g = Grid::new(10, 10).unwrap();
    for x in 3..6 {
        for y in 3..6 {
            g.set(x, y, 1);
        }
    }
    let n = Rule::binary_survival().next_gen(&g);
    let expected: Vec<Vec<i32>> = vec![
        vec![0, 0, 0, 0, 0, 0, 0, 0, 0, 0],
        vec![0, 0, 0, 0, 0, 0, 0, 0, 0, 0],
        vec![0, 0, 0, 0, 1, 0, 0, 0, 0, 0],
        vec![0, 0, 0, 1, 0, 1, 0, 0, 0, 0],
        vec![0, 0, 1, 0, 0, 0, 1, 0, 0, 0],
        vec![0, 0, 0, 1, 0, 1, 0, 0, 0, 0],
        vec![0, 0, 0, 0, 1, 0, 0, 0, 0, 0],
        vec![0, 0, 0, 0, 0, 0, 0, 0, 0, 0],
        vec![0, 0, 0, 0, 0, 0, 0, 0, 0, 0],
        vec![0, 0, 0, 0, 0, 0, 0, 0, 0, 0],
    ];
    assert_eq!(cells_of(&n), expected);
}

#[test]
fn cyclic_steps_by_at_most_one() {
    let rule = Rule::cyclic_successor(5).unwrap();
    let g = random_grid(8, 8, 5, 21);
    for x in 0..8 {
        for y in 0..8 {
            let c = g.get(x, y);
            let v = rule.next_state(&g, x, y);
            assert!(v == c || v == (c + 1) % 5);
        }
    }
}

#[test]
fn cyclic_advances_when_a_neighbor_holds_the_successor() {
    let rule = Rule::cyclic_successor(8).unwrap();
    let g = grid_from_rows(&[&[2, 2, 2], &[2, 2, 2], &[2, 2, 3]]);
    assert_eq!(rule.next_state(&g, 1, 1), 3);
    assert_eq!(rule.next_state(&g, 0, 0), 3);
    assert_eq!(rule.next_state(&g, 2, 2), 3);
    let h = grid_from_rows(&[&[2, 2, 2], &[2, 2, 2], &[2, 2, 4]]);
    assert_eq!(rule.next_state(&h, 1, 1), 2);
}

#[test]
fn cyclic_last_state_wraps_to_zero() {
    let rule = Rule::cyclic_successor(8).unwrap();
    let g = grid_from_rows(&[&[7, 7, 7], &[7, 7, 7], &[7, 0, 7]]);
    assert_eq!(rule.next_state(&g, 1, 1), 0);
    assert_eq!(rule.next_state(&g, 1, 2), 0);
}

#[test]
fn cyclic_uniform_grid_is_fixed() {
    let rule = Rule::cyclic_successor(8).unwrap();
    let g = grid_from_rows(&[&[3; 4], &[3; 4], &[3; 4], &[3; 4]]);
    let n = rule.next_gen(&g);
    assert_eq!(cells_of(&n), vec![vec![3; 4]; 4]);
}

#[test]
fn changed_cells_lists_exactly_the_differences() {
    let rule = Rule::binary_survival();
    let mut g = Grid::new(5, 5).unwrap();
    // A horizontal blinker becomes vertical.
    g.set(1, 2, 1);
    g.set(2, 2, 1);
    g.set(3, 2, 1);
    let mut sim = Simulation::from_grid(g, rule);
    assert!(sim.changed_cells().is_empty());
    sim.advance();
    assert_eq!(
        sim.changed_cells(),
        vec![(1, 2, 0), (2, 1, 1), (2, 3, 1), (3, 2, 0)]
    );
    for (x, y, v) in sim.changed_cells() {
        assert_ne!(sim.current().get(x, y), sim.previous().get(x, y));
        assert_eq!(sim.current().get(x, y), v);
    }
}

#[test]
fn changed_cells_empty_after_two_advances_from_fixed_point() {
    let rule = Rule::cyclic_successor(8).unwrap();
    let g = grid_from_rows(&[&[3; 4], &[3; 4], &[3; 4], &[3; 4]]);
    let mut sim = Simulation::from_grid(g, rule);
    sim.advance();
    assert!(sim.changed_cells().is_empty());
    sim.advance();
    assert!(sim.changed_cells().is_empty());
    assert_eq!(cells_of(sim.current()), vec![vec![3; 4]; 4]);
}

#[test]
fn advance_keeps_the_previous_generation() {
    let rule = Rule::cyclic_successor(6).unwrap();
    let mut sim = Simulation::new(12, 9, rule, 77).unwrap();
    let before = cells_of(sim.current());
    let expected = cells_of(&rule.next_gen(sim.current()));
    sim.advance();
    assert_eq!(cells_of(sim.previous()), before);
    assert_eq!(cells_of(sim.current()), expected);
    assert_eq!(sim.rule(), rule);
}

#[test]
fn randomize_draws_states_in_range() {
    let g = random_grid(20, 20, 12, 99);
    let cells = cells_of(&g);
    assert!(cells.iter().flatten().all(|&v| (0..12).contains(&v)));
    // Twenty by twenty draws over twelve states do not all land on one value.
    assert!(cells.iter().flatten().any(|&v| v != cells[0][0]));
}

#[test]
fn randomize_with_one_state_gives_zeros() {
    let g = random_grid(4, 4, 1, 5);
    assert_eq!(cells_of(&g), vec![vec![0; 4]; 4]);
}

#[test]
fn same_seed_gives_same_board() {
    let a = random_grid(16, 10, 8, 2024);
    let b = random_grid(16, 10, 8, 2024);
    assert_eq!(cells_of(&a), cells_of(&b));
    let rule = Rule::cyclic_successor(8).unwrap();
    let s = Simulation::new(16, 10, rule, 7).unwrap();
    let t = Simulation::new(16, 10, rule, 7).unwrap();
    assert_eq!(cells_of(s.current()), cells_of(t.current()));
    let u = Simulation::new(16, 10, rule, 8).unwrap();
    assert_ne!(cells_of(s.current()), cells_of(u.current()));
}

#[test]
fn new_simulation_starts_without_changes() {
    let sim = Simulation::new(10, 6, Rule::binary_survival(), 3).unwrap();
    assert!(sim.changed_cells().is_empty());
    assert_eq!(sim.current().width(), 10);
    assert_eq!(sim.current().height(), 6);
    assert_eq!(cells_of(sim.previous()), cells_of(sim.current()));
}

#[test]
fn snapshot_is_independent() {
    let mut g = Grid::new(3, 3).unwrap();
    g.set(1, 1, 4);
    let copy = g.snapshot();
    g.set(1, 1, 0);
    assert_eq!(copy.get(1, 1), 4);
    assert_eq!(g.get(1, 1), 0);
}

#[test]
fn simulation_rejects_invalid_rule() {
    let bad = Rule::CyclicSuccessor(1);
    assert!(!bad.is_valid());
    assert!(Rule::binary_survival().is_valid());
    assert!(matches!(
        Simulation::new(4, 4, bad, 1),
        Err(ConfigError::InvalidStateCount)
    ));
    assert!(matches!(
        Simulation::new(0, 4, bad, 1),
        Err(ConfigError::InvalidDimensions)
    ));
}

#[test]
fn fill_from_places_each_draw_at_its_cell() {
    let mut g = Grid::new(3, 2).unwrap();
    g.set(0, 0, 9);
    g.set(2, 1, 9);
    // One column per x, one entry per y.
    g.fill_from(vec![vec![1, 2], vec![3, 4], vec![5, 0]]);
    assert_eq!(g.width(), 3);
    assert_eq!(g.height(), 2);
    assert_eq!(cells_of(&g), vec![vec![1, 3, 5], vec![2, 4, 0]]);
}

#[test]
fn fill_from_then_generation() {
    let mut g = Grid::new(5, 5).unwrap();
    let mut cols = vec![vec![0; 5]; 5];
    cols[1][2] = 1;
    cols[2][2] = 1;
    cols[3][2] = 1;
    g.fill_from(cols);
    let n = Rule::binary_survival().next_gen(&g);
    assert_eq!(n.get(2, 1), 1);
    assert_eq!(n.get(2, 3), 1);
    assert_eq!(n.get(1, 2), 0);
    assert_eq!(n.get(3, 2), 0);
}
