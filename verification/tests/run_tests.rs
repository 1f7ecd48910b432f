use cell_sim::cell::render_row;
use cell_sim::rules::DecodeError;
use cell_sim::rules::Rule;
use cell_sim::Config;
use cell_sim::run;

#[test]
fn run_prints_three_rule30_generations() {
    let config = Config {
        periods: 3,
        initial_state: String::from("   *   "),
        rule: Rule::Rule30,
        custom: None,
    };
    let rows = run(config).unwrap();

    assert_eq!(rows.len(), 3);
    assert_eq!(render_row(&rows[0]), "   *   ");
    assert_eq!(render_row(&rows[1]), "  ***  ");
    assert_eq!(render_row(&rows[2]), " **  * ");
}

#[test]
fn run_with_zero_periods_computes_nothing() {
    let config = Config {
        periods: 0,
        initial_state: String::from("* *"),
        rule: Rule::Rule90,
        custom: None,
    };

    assert_eq!(run(config).unwrap().len(), 0);
}

#[test]
fn run_custom_rule_overrides_the_preset() {
    // Only the pattern 101 is mapped, to Alive.
    let config = Config {
        periods: 2,
        initial_state: String::from("* *"),
        rule: Rule::Rule30,
        custom: Some(String::from("00111011")),
    };
    let rows = run(config).unwrap();

    assert_eq!(render_row(&rows[0]), "* *");
    // Only position 1 sees the mapped window 101; under the Rule 30 preset
    // the second row would have been all alive.
    assert_eq!(render_row(&rows[1]), " * ");
}

#[test]
fn run_rejects_a_bad_custom_rule() {
    let config = Config {
        periods: 1,
        initial_state: String::from("*"),
        rule: Rule::Rule30,
        custom: Some(String::from("XX110001")),
    };

    assert_eq!(run(config), Err(DecodeError::InvalidSizeHeader));
}

#[test]
fn run_rejects_a_bad_pattern_character() {
    let config = Config {
        periods: 1,
        initial_state: String::from("*"),
        rule: Rule::Rule30,
        custom: Some(String::from("00112011")),
    };

    assert_eq!(run(config), Err(DecodeError::InvalidPatternCharacter));
}
