use cell_sim::cell::render_row;
use cell_sim::cell::str_to_cells;
use cell_sim::cell::Cell;
use cell_sim::rules::decode_rule;
use cell_sim::rules::load_rule;
use cell_sim::rules::Rule;
use cell_sim::state::next_state;

fn rotated(row: &Vec<Cell>, k: usize) -> Vec<Cell> {
    let mut out = Vec::new();
    for i in 0..row.len() {
        out.push(row[(i + k) % row.len()]);
    }
    out
}

#[test]
fn dead_row_stays_dead_under_the_presets() {
    for rule in [Rule::Rule30, Rule::Rule90, Rule::Rule110, Rule::Rule184] {
        let rulebook = decode_rule(load_rule(rule)).unwrap();
        let row = str_to_cells(&String::from("     "));
        let next = next_state(&rulebook, row);

        assert_eq!(render_row(&next), "     ");
    }
}

#[test]
fn advance_preserves_row_length() {
    let rulebook = decode_rule(load_rule(Rule::Rule110)).unwrap();
    for len in 1..9 {
        let row = vec![Cell::Alive; len];
        assert_eq!(next_state(&rulebook, row).len(), len);
    }
}

#[test]
fn unmapped_neighborhood_yields_dead_and_keeps_length() {
    // Only the pattern 101 is mapped; every other neighborhood gives Dead.
    let rulebook = decode_rule("00111011").unwrap();
    let row = str_to_cells(&String::from("** *"));
    let next = next_state(&rulebook, row);

    assert_eq!(render_row(&next), "  * ");
}

#[test]
fn advance_commutes_with_rotation() {
    let rulebook = decode_rule(load_rule(Rule::Rule110)).unwrap();
    let row = str_to_cells(&String::from("*  * ** "));
    for k in 0..row.len() {
        let rotated_first = next_state(&rulebook, rotated(&row, k));
        let advanced_first = rotated(&next_state(&rulebook, row.clone()), k);

        assert_eq!(rotated_first, advanced_first);
    }
}

#[test]
fn rule30_single_cell_first_generations() {
    let rulebook = decode_rule(load_rule(Rule::Rule30)).unwrap();
    let gen0 = str_to_cells(&String::from("   *   "));
    let gen1 = next_state(&rulebook, gen0);
    assert_eq!(render_row(&gen1), "  ***  ");

    let gen2 = next_state(&rulebook, gen1);
    assert_eq!(render_row(&gen2), " **  * ");
}

#[test]
fn even_pattern_size_has_asymmetric_reach() {
    // Pattern size 2: a window is the cell one to the left and the cell
    // itself. The single entry maps Dead,Alive to Alive.
    let rulebook = decode_rule("0010011").unwrap();
    let row = str_to_cells(&String::from("* "));
    let next = next_state(&rulebook, row);

    assert_eq!(render_row(&next), "* ");
}

#[test]
fn wraparound_reaches_across_the_edge() {
    let rulebook = decode_rule(load_rule(Rule::Rule30)).unwrap();
    // An alive cell at the last position: under Rule 30 its right neighbor
    // is position 0, which therefore lights up.
    let row = str_to_cells(&String::from("   *"));
    let next = next_state(&rulebook, row);

    assert_eq!(render_row(&next), "* **");
}
