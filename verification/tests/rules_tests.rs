use cell_sim::cell::Cell;
use cell_sim::rules::decode_rule;
use cell_sim::rules::load_rule;
use cell_sim::rules::DecodeError;
use cell_sim::rules::Rule;
use cell_sim::rules::Rulebook;

#[test]
fn convert_str_to_rule() {
    let rule = "00111011";
    let rules = Rulebook {
        rules: vec![(vec![Cell::Alive, Cell::Dead, Cell::Alive], 1)],
        pattern_size: 3,
    };

    assert_eq!(Ok(rules), decode_rule(rule));
}

#[test]
fn duplicate_pattern_keeps_first_outcome() {
    // The pattern 101 is encoded twice, first with outcome 1, then with 0.
    let decoded = decode_rule("001110111010").unwrap();

    assert_eq!(decoded.pattern_size, 3);
    assert_eq!(
        decoded.rules,
        vec![(vec![Cell::Alive, Cell::Dead, Cell::Alive], 1)]
    );
    assert_eq!(
        decoded.lookup(&vec![Cell::Alive, Cell::Dead, Cell::Alive]),
        Some(1)
    );
}

#[test]
fn non_binary_header_fails() {
    assert_eq!(decode_rule("XX110001"), Err(DecodeError::InvalidSizeHeader));
}

#[test]
fn short_input_fails_as_size_header() {
    assert_eq!(decode_rule("001"), Err(DecodeError::InvalidSizeHeader));
    assert_eq!(decode_rule(""), Err(DecodeError::InvalidSizeHeader));
}

#[test]
fn non_binary_pattern_character_fails() {
    assert_eq!(
        decode_rule("00112011"),
        Err(DecodeError::InvalidPatternCharacter)
    );
}

#[test]
fn error_messages() {
    assert_eq!(
        DecodeError::InvalidSizeHeader.message(),
        "a problem when decoding the rule occured"
    );
    assert_eq!(
        DecodeError::InvalidPatternCharacter.message(),
        "rules must be defined in base 2"
    );
}

#[test]
fn incomplete_trailing_group_is_dropped() {
    let full = decode_rule("00111011").unwrap();
    let trailing = decode_rule("0011101110").unwrap();

    assert_eq!(full, trailing);
}

#[test]
fn non_binary_outcome_counts_as_dead() {
    let decoded = decode_rule("0011101X").unwrap();

    assert_eq!(
        decoded.rules,
        vec![(vec![Cell::Alive, Cell::Dead, Cell::Alive], 0)]
    );
}

#[test]
fn zero_pattern_size_pairs_every_outcome_with_the_empty_pattern() {
    let decoded = decode_rule("00001X0").unwrap();

    assert_eq!(decoded.pattern_size, 0);
    assert_eq!(decoded.rules, vec![(vec![], 1)]);
}

#[test]
fn lookup_misses_absent_patterns() {
    let decoded = decode_rule("00111011").unwrap();

    assert_eq!(
        decoded.lookup(&vec![Cell::Dead, Cell::Dead, Cell::Dead]),
        None
    );
}

#[test]
fn preset_rule_strings() {
    assert_eq!(
        load_rule(Rule::Rule30),
        "001111101100101010010111010100110000"
    );
    assert_eq!(
        load_rule(Rule::Rule90),
        "001111101101101010010111010000110000"
    );
    assert_eq!(
        load_rule(Rule::Rule110),
        "001111101101101110000111010100110000"
    );
    assert_eq!(
        load_rule(Rule::Rule184),
        "001111111100101110010111010000100000"
    );
}

#[test]
fn presets_decode_to_total_rulebooks() {
    for rule in [Rule::Rule30, Rule::Rule90, Rule::Rule110, Rule::Rule184] {
        let decoded = decode_rule(load_rule(rule)).unwrap();
        assert_eq!(decoded.pattern_size, 3);
        assert_eq!(decoded.rules.len(), 8);
    }
}
