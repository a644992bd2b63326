use cellular_automata::automaton::Automaton;
use cellular_automata::automaton_2d::color_gradient as gradient_2d;
use cellular_automata::color_gradient;
use cellular_automata::color_gradient::GradientRule;
use cellular_automata::epidemic;
use cellular_automata::epidemic::State;
use cellular_automata::epidemic::EpidemicColor;
use cellular_automata::wildfire;
use cellular_automata::ColorMap;
use cellular_automata::EngineError;

fn hue_table() -> Vec<u32> {
    (0u32..360).map(|x| x + 1000).collect()
}

#[test]
fn gradient_engine_advances_hue_by_one() {
    let mut a = color_gradient::new(3, 3, true, hue_table());
    assert_eq!(a.get_q(), 360);
    assert_eq!(a.get_cells(), vec![vec![0u32; 3]; 3]);
    a.next();
    // all cells were 0: mean 0, plus one
    assert_eq!(a.get_cells(), vec![vec![1u32; 3]; 3]);
    a.next();
    assert_eq!(a.get_cells(), vec![vec![2u32; 3]; 3]);
}

#[test]
fn gradient_hue_wraps_modulo_q() {
    let mut a = color_gradient::new(2, 2, true, hue_table());
    a.init_state(359, true);
    a.next();
    assert_eq!(a.get_cells(), vec![vec![0u32; 2]; 2]);
}

#[test]
fn table_color_engine_looks_hue_up() {
    let mut a = gradient_2d::new(3, 3, true, hue_table());
    assert_eq!(a.get_cell_color(1, 1), 1000);
    a.next();
    assert_eq!(a.get_cell_color(1, 1), 1001);
    assert_eq!(a.get_cell_color(1, 1), a.get_cell_color(1, 1));
}

#[test]
fn color_table_engine_indexes_by_value() {
    let a = color_gradient::new(2, 2, false, hue_table());
    assert_eq!(a.get_cell_color(0, 0), 1000);
}

#[test]
fn u32_engine_rejects_mismatched_dimensions() {
    let r = Automaton::new(2, 2, 360, false, GradientRule, hue_table(), vec![vec![0u32; 3]; 2]);
    assert!(matches!(r, Err(EngineError::DimensionMismatch)));
}

#[test]
fn u32_engine_init_rand_needs_a_nonempty_domain() {
    let mut a =
        Automaton::new(2, 2, 0, false, GradientRule, hue_table(), vec![vec![0u32; 2]; 2]).unwrap();
    assert!(matches!(a.init_rand(true), Err(EngineError::EmptyDomain)));
    assert_eq!(a.get_cells(), vec![vec![0u32; 2]; 2]);
}

#[test]
fn u32_engine_init_rand_draws_below_q() {
    let mut a =
        Automaton::new(3, 3, 1, false, GradientRule, hue_table(), vec![vec![9u32; 3]; 3]).unwrap();
    a.init_rand(true).unwrap();
    // with q = 1 the only possible draw is 0
    assert_eq!(a.get_cells(), vec![vec![0u32; 3]; 3]);
}

#[test]
fn wildfire_rock_never_ignites() {
    let mut a = wildfire::new(4, 4, true);
    assert_eq!(a.get_q(), 7);
    for _ in 0..3 {
        a.next();
        assert_eq!(a.get_cells(), vec![vec![wildfire::ROCK; 4]; 4]);
    }
    assert_eq!(a.get_cell_color(0, 0), wildfire::GREY);
}

#[test]
fn wildfire_ashes_only_regrow() {
    let mut a = wildfire::new(4, 4, true);
    a.init_state(wildfire::ASHES, true);
    a.next();
    for row in a.get_cells() {
        for v in row {
            assert!(v == wildfire::ASHES || v == wildfire::YOUNG);
        }
    }
}

#[test]
fn wildfire_young_without_fire_grows_or_waits() {
    let mut a = wildfire::new(4, 4, true);
    a.init_state(wildfire::YOUNG, true);
    a.next();
    for row in a.get_cells() {
        for v in row {
            // no neighbour burns, so ignition is impossible
            assert!(v == wildfire::YOUNG || v == wildfire::OLD);
        }
    }
}

#[test]
fn wildfire_fire_burns_down_in_order() {
    let mut a = wildfire::new(3, 3, true);
    a.init_state(wildfire::FIRE, true);
    a.next();
    for row in a.get_cells() {
        for v in row {
            assert!(v == wildfire::FIRE || v == wildfire::FADING_FIRE);
        }
    }
}

#[test]
fn wildfire_colors_match_states() {
    let mut a = wildfire::new(1, 1, true);
    a.init_state(wildfire::YOUNG, true);
    assert_eq!(a.get_cell_color(0, 0), wildfire::GREEN);
    a.init_state(wildfire::FADING_FIRE, true);
    assert_eq!(a.get_cell_color(0, 0), wildfire::RED);
}

#[test]
fn epidemic_transition_is_exact() {
    assert_eq!(
        epidemic::next_state(State::HEALTHY, true, false, false),
        State::INFECTED(0)
    );
    assert_eq!(
        epidemic::next_state(State::HEALTHY, false, true, true),
        State::HEALTHY
    );
    assert_eq!(
        epidemic::next_state(State::INFECTED(3), false, true, false),
        State::RECOVERED
    );
    assert_eq!(
        epidemic::next_state(State::INFECTED(3), false, false, true),
        State::DEAD
    );
    assert_eq!(
        epidemic::next_state(State::INFECTED(3), true, false, false),
        State::INFECTED(4)
    );
    assert_eq!(
        epidemic::next_state(State::RECOVERED, true, true, true),
        State::RECOVERED
    );
    assert_eq!(
        epidemic::next_state(State::DEAD, true, true, true),
        State::DEAD
    );
}

#[test]
fn epidemic_counts_infected_neighbours() {
    let neighbours = vec![
        State::HEALTHY,
        State::INFECTED(0),
        State::DEAD,
        State::INFECTED(12),
        State::RECOVERED,
    ];
    assert_eq!(epidemic::count_infected(&neighbours), 2);
    assert_eq!(epidemic::count_infected(&Vec::new()), 0);
}

#[test]
fn epidemic_colors_match_states() {
    let c = EpidemicColor;
    assert_eq!(c.color_of(State::HEALTHY), 0xFFFFFF);
    assert_eq!(c.color_of(State::INFECTED(5)), 0xFF0000);
    assert_eq!(c.color_of(State::RECOVERED), 0x00FF00);
    assert_eq!(c.color_of(State::DEAD), 0);
}
