//! A one-dimensional binary cellular automaton: a circular row of cells is
//! advanced generation by generation under a rulebook decoded from a compact
//! binary rule-definition string.

use vstd::prelude::*;

pub mod cell;
pub mod rules;
pub mod state;

use crate::cell::Cell;
use crate::cell::cells_of_str;
use crate::cell::str_to_cells;
use crate::rules::DecodeError;
use crate::rules::Rule;
use crate::rules::body_valid;
use crate::rules::decode_rule;
use crate::rules::decoded_map;
use crate::rules::header_size;
use crate::rules::header_valid;
use crate::rules::load_rule;
use crate::rules::spec_load_rule;
use crate::state::next_state;
use crate::state::step_row_m;

verus! {

/// What one simulation run needs: how many generations to compute, the
/// initial row, and which rule to apply.
pub struct Config {
    /// Number of times the rule is applied.
    pub periods: u16,
    /// State before the rule is applied.
    pub initial_state: String,
    /// Built-in rule to apply.
    pub rule: Rule,
    /// A raw rule-definition string; when given it overrides the built-in
    /// rule.
    pub custom: Option<String>,
}

/// The rule-definition string a run decodes: the custom override when
/// given, the chosen built-in rule's canonical string otherwise.
pub open spec fn chosen_rule_string(config: Config) -> Seq<char> {
    match config.custom {
        Some(s) => s@,
        None => spec_load_rule(config.rule),
    }
}

/// Generation `g` of a simulation: the initial row advanced `g` times
/// under mapping `m` and pattern size `ps`.
pub open spec fn nth_generation(m: Map<Seq<Cell>, u8>, ps: nat, init: Seq<Cell>, g: nat) -> Seq<
    Cell,
>
    decreases g,
{
    if g == 0 {
        init
    } else {
        step_row_m(m, ps, nth_generation(m, ps, init, (g - 1) as nat))
    }
}

/// Copies a row of cells.
fn copy_row(state: &Vec<Cell>) -> (r: Vec<Cell>)
    ensures
        r@ == state@,
{
    let mut r: Vec<Cell> = Vec::new();
    let mut i: usize = 0;
    while i < state.len()
        invariant
            i <= state@.len(),
            r@ == state@.take(i as int),
        decreases state@.len() - i,
    {
        r.push(state[i]);
        proof {
            assert(r@ =~= state@.take(i + 1));
        }
        i = i + 1;
    }
    proof {
        assert(state@.take(state@.len() as int) =~= state@);
    }
    r
}

/// Runs one simulation: decodes the configured rule, parses the initial
/// state, and computes the `periods` generations a caller prints, each row
/// derived from the one before. Generation 0 is the parsed initial state.
/// A rule string the decoder rejects is reported as the decoder's error.
pub fn run(config: Config) -> (r: Result<Vec<Vec<Cell>>, DecodeError>)
    ensures
        !header_valid(chosen_rule_string(config)) ==> r == Err::<Vec<Vec<Cell>>, DecodeError>(
            DecodeError::InvalidSizeHeader,
        ),
        header_valid(chosen_rule_string(config)) && !body_valid(
            chosen_rule_string(config).skip(4),
            header_size(chosen_rule_string(config)),
        ) ==> r == Err::<Vec<Vec<Cell>>, DecodeError>(DecodeError::InvalidPatternCharacter),
        header_valid(chosen_rule_string(config)) && body_valid(
            chosen_rule_string(config).skip(4),
            header_size(chosen_rule_string(config)),
        ) ==> {
            &&& r is Ok
            &&& r->Ok_0@.len() == config.periods
            &&& forall|g: int|
                0 <= g < config.periods ==> (#[trigger] r->Ok_0@[g])@ == nth_generation(
                    decoded_map(
                        chosen_rule_string(config).skip(4),
                        header_size(chosen_rule_string(config)),
                    ),
                    header_size(chosen_rule_string(config)),
                    cells_of_str(config.initial_state@),
                    g as nat,
                )
        },
{
    let ghost s = chosen_rule_string(config);
    let rulebook = {
        let rule_str: &str = match &config.custom {
            Some(x) => x.as_str(),
            None => load_rule(config.rule),
        };
        proof {
            assert(rule_str@ == s);
        }
        match decode_rule(rule_str) {
            Ok(rb) => rb,
            Err(e) => {
                return Err(e);
            },
        }
    };
    let ghost m = decoded_map(s.skip(4), header_size(s));
    let ghost psn = header_size(s);
    let ghost init = cells_of_str(config.initial_state@);
    let mut rows: Vec<Vec<Cell>> = Vec::new();
    let mut state = str_to_cells(&config.initial_state);
    let mut i: u16 = 0;
    while i < config.periods
        invariant
            i <= config.periods,
            rows@.len() == i as int,
            rulebook.pattern_size as nat == psn,
            rulebook.mapping() == m,
            state@ == nth_generation(m, psn, init, i as nat),
            forall|g: int| 0 <= g < i ==> (#[trigger] rows@[g])@ == nth_generation(
                m,
                psn,
                init,
                g as nat,
            ),
        decreases config.periods - i,
    {
        let snapshot = copy_row(&state);
        rows.push(snapshot);
        state = next_state(&rulebook, state);
        proof {
            assert(state@ == nth_generation(m, psn, init, (i + 1) as nat));
        }
        i = i + 1;
    }
    Ok(rows)
}

} // verus!
