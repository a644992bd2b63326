use cellular_automata::automaton_1d::{update_buffer, Automaton1D};
use cellular_automata::elementary;
use cellular_automata::elementary::{BinaryColor, ElementaryRule};
use cellular_automata::EngineError;

fn line_engine(
    rule: u8,
    torus: bool,
    cells: Vec<bool>,
) -> Automaton1D<bool, ElementaryRule, BinaryColor> {
    let n = cells.len();
    Automaton1D::new(
        n,
        2,
        vec![false, true],
        torus,
        ElementaryRule { rule },
        BinaryColor,
        cells,
    )
    .unwrap()
}

#[test]
fn neighbourhood_has_three_cells_in_order() {
    let a = line_engine(90, true, vec![true, false, true, true]);
    // left, the cell itself, right
    assert_eq!(a.get_neighbours(1), vec![true, false, true]);
    assert_eq!(a.get_neighbours(2), vec![false, true, true]);
    assert_eq!(a.get_neighbours(1).len(), 3);
}

#[test]
fn neighbourhood_wraps_at_both_ends() {
    let a = line_engine(90, false, vec![true, false, false, true]);
    assert_eq!(a.get_neighbours(0), vec![true, true, false]);
    assert_eq!(a.get_neighbours(3), vec![false, true, true]);
}

#[test]
fn constructor_rejects_mismatched_length() {
    let r = Automaton1D::new(
        5,
        2,
        vec![false, true],
        false,
        ElementaryRule { rule: 90 },
        BinaryColor,
        vec![false; 4],
    );
    assert!(matches!(r, Err(EngineError::DimensionMismatch)));
}

#[test]
fn elementary_seeds_the_centre() {
    let a = elementary::new(7, &90, false);
    assert_eq!(a.get_size(), 7);
    assert_eq!(a.get_q(), 2);
    assert_eq!(
        a.get_cells(),
        vec![false, false, false, true, false, false, false]
    );
    assert_eq!(a.get_cell(3), true);
}

#[test]
fn rule_90_step_matches_hand_computation() {
    // rule 90 is the XOR of the two outer neighbours; from a single centre
    // seed on 7 cells one step lights exactly the two cells beside it
    let mut a = elementary::new(7, &90, false);
    a.next();
    assert_eq!(
        a.get_cells(),
        vec![false, false, true, false, true, false, false]
    );
}

#[test]
fn toroidal_line_updates_the_end_cells() {
    // a seed on the first cell: with wrap, both neighbours of the seed light
    // up, including the last cell of the line
    let mut a = line_engine(90, true, vec![true, false, false, false, false]);
    a.next();
    assert_eq!(a.get_cells(), vec![false, true, false, false, true]);
}

#[test]
fn fixed_border_line_freezes_the_end_cells() {
    let mut a = line_engine(90, false, vec![true, false, false, false, false]);
    a.next();
    assert_eq!(a.get_cells(), vec![true, true, false, false, false]);
}

#[test]
fn line_border_stays_frozen_across_steps() {
    let mut a = line_engine(30, false, vec![true, false, true, false, true]);
    for _ in 0..4 {
        a.next();
        let cells = a.get_cells();
        assert_eq!(cells[0], true);
        assert_eq!(cells[4], true);
    }
}

#[test]
fn line_init_state_and_rand() {
    let mut a = line_engine(90, false, vec![false; 5]);
    a.init_state(true, false);
    assert_eq!(a.get_cells(), vec![false, true, true, true, false]);
    a.init_state(false, true);
    assert_eq!(a.get_cells(), vec![false; 5]);
    a.init_rand(true).unwrap();
    for v in a.get_cells() {
        assert!(v == false || v == true);
    }
}

#[test]
fn line_init_rand_rejects_empty_domain() {
    let mut a = Automaton1D::new(
        3,
        2,
        Vec::<bool>::new(),
        false,
        ElementaryRule { rule: 90 },
        BinaryColor,
        vec![true; 3],
    )
    .unwrap();
    assert!(matches!(a.init_rand(true), Err(EngineError::EmptyDomain)));
    assert_eq!(a.get_cells(), vec![true; 3]);
}

#[test]
fn line_cell_colors_are_exact_and_idempotent() {
    let a = line_engine(90, true, vec![true, false]);
    assert_eq!(a.get_cell_color(0), 0);
    assert_eq!(a.get_cell_color(1), 0xFFFFFF);
    assert_eq!(a.get_cell_color(0), a.get_cell_color(0));
}

#[test]
fn identical_line_engines_stay_identical() {
    let mut a = elementary::new(9, &30, true);
    let mut b = elementary::new(9, &30, true);
    for _ in 0..6 {
        a.next();
        b.next();
        assert_eq!(a.get_cells(), b.get_cells());
    }
}

#[test]
fn update_buffer_paints_one_row() {
    let a = line_engine(90, true, vec![true, false, true]);
    let mut buffer = vec![5u32; 6];
    update_buffer(&mut buffer, &a, 0, 3, 1);
    assert_eq!(buffer, vec![0, 0xFFFFFF, 0, 5, 5, 5]);
    update_buffer(&mut buffer, &a, 1, 3, 1);
    assert_eq!(buffer, vec![0, 0xFFFFFF, 0, 0, 0xFFFFFF, 0]);
}

#[test]
fn update_buffer_respects_cell_size() {
    let a = line_engine(90, true, vec![true, false]);
    let mut buffer = vec![9u32; 8];
    update_buffer(&mut buffer, &a, 0, 4, 2);
    assert_eq!(
        buffer,
        vec![0, 0, 0xFFFFFF, 0xFFFFFF, 0, 0, 0xFFFFFF, 0xFFFFFF]
    );
}
