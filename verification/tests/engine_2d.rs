use cellular_automata::automaton_2d::Automaton2D;
use cellular_automata::game_of_life;
use cellular_automata::game_of_life::{LifeColor, LifeRule};
use cellular_automata::EngineError;

fn life_engine(torus: bool, cells: Vec<Vec<u8>>) -> Automaton2D<u8, LifeRule, LifeColor> {
    let m = cells.len();
    let n = cells[0].len();
    Automaton2D::new(m, n, 2, vec![0, 1], torus, LifeRule, LifeColor, cells).unwrap()
}

#[test]
fn von_neumann_has_four_cells_in_order() {
    let a = life_engine(
        true,
        vec![vec![1, 2, 3], vec![4, 5, 6], vec![7, 8, 9]],
    );
    // up, right, down, left
    assert_eq!(a.get_von_neumann_neighbours(1, 1), vec![2, 6, 8, 4]);
    assert_eq!(a.get_von_neumann_neighbours(1, 1).len(), 4);
    // wrapped at the top-left corner
    assert_eq!(a.get_von_neumann_neighbours(0, 0), vec![7, 2, 4, 3]);
}

#[test]
fn moore_has_eight_cells_in_order() {
    let a = life_engine(
        true,
        vec![vec![1, 2, 3], vec![4, 5, 6], vec![7, 8, 9]],
    );
    // orthogonal four first, then up-left, up-right, down-left, down-right
    assert_eq!(a.get_moore_neighbours(1, 1), vec![2, 6, 8, 4, 1, 3, 7, 9]);
    assert_eq!(a.get_moore_neighbours(1, 1).len(), 8);
    assert_eq!(a.get_moore_neighbours(0, 0), vec![7, 2, 4, 3, 9, 8, 6, 5]);
}

#[test]
fn neighbours_wrap_regardless_of_boundary_mode() {
    let grid = vec![vec![1, 2, 3], vec![4, 5, 6], vec![7, 8, 9]];
    let wrapped = life_engine(true, grid.clone());
    let fixed = life_engine(false, grid);
    assert_eq!(
        wrapped.get_moore_neighbours(0, 2),
        fixed.get_moore_neighbours(0, 2)
    );
}

#[test]
fn constructor_rejects_mismatched_dimensions() {
    let r = Automaton2D::new(
        2,
        2,
        2,
        vec![0u8, 1],
        false,
        LifeRule,
        LifeColor,
        vec![vec![0, 0, 0], vec![0, 0, 0]],
    );
    assert!(matches!(r, Err(EngineError::DimensionMismatch)));
    let r = Automaton2D::new(
        3,
        3,
        2,
        vec![0u8, 1],
        false,
        LifeRule,
        LifeColor,
        vec![vec![0, 0, 0], vec![0, 0, 0]],
    );
    assert!(matches!(r, Err(EngineError::DimensionMismatch)));
}

#[test]
fn getters_report_construction_parameters() {
    let a = game_of_life::new(4, 6, true);
    assert_eq!(a.get_size(), (4, 6));
    assert_eq!(a.get_q(), 2);
    assert_eq!(a.get_cells(), vec![vec![0u8; 6]; 4]);
    assert_eq!(a.get_cell(3, 5), 0);
}

#[test]
fn init_state_with_edge_fills_everything() {
    let mut a = game_of_life::new(3, 3, false);
    a.init_state(1, true);
    assert_eq!(a.get_cells(), vec![vec![1u8; 3]; 3]);
}

#[test]
fn init_state_without_edge_leaves_border() {
    let mut a = game_of_life::new(4, 5, false);
    a.init_state(1, false);
    let cells = a.get_cells();
    for i in 0..4 {
        for j in 0..5 {
            let interior = i >= 1 && i < 3 && j >= 1 && j < 4;
            assert_eq!(cells[i][j], if interior { 1 } else { 0 });
        }
    }
}

#[test]
fn init_rand_draws_from_the_state_set() {
    let mut a = life_engine(false, vec![vec![0; 4]; 4]);
    a.init_rand(true).unwrap();
    for row in a.get_cells() {
        for v in row {
            assert!(v == 0 || v == 1);
        }
    }
}

#[test]
fn init_rand_single_state_is_deterministic() {
    let mut a = Automaton2D::new(
        3,
        3,
        2,
        vec![7u8],
        false,
        LifeRule,
        LifeColor,
        vec![vec![0; 3]; 3],
    )
    .unwrap();
    a.init_rand(true).unwrap();
    assert_eq!(a.get_cells(), vec![vec![7u8; 3]; 3]);
}

#[test]
fn init_rand_rejects_empty_domain() {
    let mut a = Automaton2D::new(
        3,
        3,
        2,
        Vec::<u8>::new(),
        false,
        LifeRule,
        LifeColor,
        vec![vec![5; 3]; 3],
    )
    .unwrap();
    assert!(matches!(a.init_rand(true), Err(EngineError::EmptyDomain)));
    // nothing was touched
    assert_eq!(a.get_cells(), vec![vec![5u8; 3]; 3]);
}

#[test]
fn init_rand_without_edge_leaves_border() {
    let mut a = Automaton2D::new(
        4,
        4,
        2,
        vec![0u8, 1],
        false,
        LifeRule,
        LifeColor,
        vec![vec![9; 4]; 4],
    )
    .unwrap();
    a.init_rand(false).unwrap();
    let cells = a.get_cells();
    for i in 0..4 {
        for j in 0..4 {
            if i == 0 || i == 3 || j == 0 || j == 3 {
                assert_eq!(cells[i][j], 9);
            } else {
                assert!(cells[i][j] == 0 || cells[i][j] == 1);
            }
        }
    }
}

#[test]
fn fixed_border_stays_frozen_across_steps() {
    // a border of 7s around a live interior; 7 is not a live state the rule
    // writes, so any change to the ring would be visible
    let mut grid = vec![vec![7u8; 5]; 5];
    for i in 1..4 {
        for j in 1..4 {
            grid[i][j] = if i == 2 { 1 } else { 0 };
        }
    }
    let mut a = life_engine(false, grid);
    for _ in 0..4 {
        a.next();
        let cells = a.get_cells();
        for i in 0..5 {
            for j in 0..5 {
                if i == 0 || i == 4 || j == 0 || j == 4 {
                    assert_eq!(cells[i][j], 7);
                }
            }
        }
    }
}

#[test]
fn border_equals_value_of_last_init() {
    let mut a = game_of_life::new(4, 4, false);
    a.init_state(1, true);
    a.next();
    a.next();
    let cells = a.get_cells();
    for i in 0..4 {
        for j in 0..4 {
            if i == 0 || i == 3 || j == 0 || j == 3 {
                assert_eq!(cells[i][j], 1);
            }
        }
    }
}

#[test]
fn toroidal_step_updates_every_cell() {
    // on a full 3x3 torus of live cells every cell sees eight live
    // neighbours and dies, border included
    let mut a = life_engine(true, vec![vec![1; 3]; 3]);
    a.next();
    assert_eq!(a.get_cells(), vec![vec![0u8; 3]; 3]);
}

#[test]
fn single_cell_fixed_border_engine_never_changes() {
    let mut a = life_engine(false, vec![vec![1]]);
    a.next();
    assert_eq!(a.get_cells(), vec![vec![1]]);
}

#[test]
fn empty_engine_is_allowed() {
    let mut a =
        Automaton2D::new(0, 0, 2, vec![0u8, 1], true, LifeRule, LifeColor, vec![]).unwrap();
    let _ = a.get_size();
    a.next();
    assert_eq!(a.get_cells(), Vec::<Vec<u8>>::new());
}

#[test]
fn cell_color_is_idempotent_and_exact() {
    let a = life_engine(true, vec![vec![0, 1], vec![1, 0]]);
    assert_eq!(a.get_cell_color(0, 0), 0xFFFFFF);
    assert_eq!(a.get_cell_color(0, 1), 0);
    assert_eq!(a.get_cell_color(1, 0), a.get_cell_color(1, 0));
}

#[test]
fn identical_engines_stay_identical() {
    let seed = vec![
        vec![0, 0, 0, 0, 0],
        vec![0, 0, 1, 1, 0],
        vec![0, 1, 1, 0, 0],
        vec![0, 0, 0, 1, 0],
        vec![0, 0, 0, 0, 0],
    ];
    let mut a = life_engine(true, seed.clone());
    let mut b = life_engine(true, seed);
    for _ in 0..5 {
        a.next();
        b.next();
        assert_eq!(a.get_cells(), b.get_cells());
    }
}

#[test]
fn blinker_rotates_and_returns() {
    let mut grid = vec![vec![0u8; 5]; 5];
    grid[2][1] = 1;
    grid[2][2] = 1;
    grid[2][3] = 1;
    let mut a = life_engine(false, grid.clone());

    a.next();
    let mut vertical = vec![vec![0u8; 5]; 5];
    vertical[1][2] = 1;
    vertical[2][2] = 1;
    vertical[3][2] = 1;
    assert_eq!(a.get_cells(), vertical);

    a.next();
    assert_eq!(a.get_cells(), grid);
}
