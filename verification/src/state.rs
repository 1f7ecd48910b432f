//! The transition engine: one generation of a circular row under a
//! rulebook. The neighborhood of a position is the `pattern_size` cells
//! centered on it, indices wrapped into the row with a true mathematical
//! modulo, so the row behaves as a ring. A neighborhood absent from the
//! rulebook yields a dead cell, so every generation keeps the row's length.

use vstd::prelude::*;
use vstd::arithmetic::div_mod::lemma_add_mod_noop_right;
use vstd::arithmetic::div_mod::lemma_mod_multiples_vanish;
use vstd::arithmetic::div_mod::lemma_small_mod;
use crate::cell::Cell;
use crate::rules::Rule;
use crate::rules::Rulebook;
use crate::rules::decoded_map;
use crate::rules::group_outcome;
use crate::rules::group_pattern;
use crate::rules::lemma_first_pattern_wins;
use crate::rules::num_groups;
use crate::rules::spec_load_rule;

verus! {

/// The neighborhood window of position `i`: `ps` cells starting `ps / 2`
/// to the left of `i`, indices wrapped around the row.
pub open spec fn pattern_at(state: Seq<Cell>, ps: nat, i: int) -> Seq<Cell> {
    Seq::new(ps, |x: int| state[(i - (ps as int) / 2 + x) % (state.len() as int)])
}

/// The cell position `i` holds after one generation: alive exactly when
/// the mapping sends its neighborhood to 1; an unmapped neighborhood and
/// every other outcome give a dead cell.
pub open spec fn step_cell(m: Map<Seq<Cell>, u8>, ps: nat, state: Seq<Cell>, i: int) -> Cell {
    let p = pattern_at(state, ps, i);
    if m.contains_key(p) && m[p] == 1u8 {
        Cell::Alive
    } else {
        Cell::Dead
    }
}

/// The whole row after one generation under mapping `m` and pattern size
/// `ps`: same length, each position from its own neighborhood.
pub open spec fn step_row_m(m: Map<Seq<Cell>, u8>, ps: nat, state: Seq<Cell>) -> Seq<Cell> {
    Seq::new(state.len(), |i: int| step_cell(m, ps, state, i))
}

/// The row after one generation under a rulebook.
pub open spec fn step_row(rb: Rulebook, state: Seq<Cell>) -> Seq<Cell> {
    step_row_m(rb.mapping(), rb.pattern_size as nat, state)
}

/// Advances the row one generation under the rulebook.
///
/// The output row has the same length as the input row: a neighborhood the
/// rulebook does not map yields a dead cell rather than no cell.
pub fn next_state(rules: &Rulebook, state: Vec<Cell>) -> (next: Vec<Cell>)
    ensures
        next@ == step_row(*rules, state@),
        next@.len() == state@.len(),
{
    let mut next: Vec<Cell> = Vec::new();
    let len = state.len();
    let reach = rules.pattern_size / 2;
    let ghost ps = rules.pattern_size as nat;
    let mut i: usize = 0;
    while i < len
        invariant
            i <= len,
            len == state@.len(),
            reach == rules.pattern_size / 2,
            ps == rules.pattern_size as nat,
            next@ =~= step_row(*rules, state@).take(i as int),
        decreases len - i,
    {
        let off = reach % len;
        let base = if i >= off {
            i - off
        } else {
            i + (len - off)
        };
        proof {
            let q = reach as int / len as int;
            vstd::arithmetic::div_mod::lemma_fundamental_div_mod(reach as int, len as int);
            assert(reach as int == len as int * q + off as int);
            lemma_mod_multiples_vanish(-q, i - off, len as int);
            assert(len as int * (-q) + (i - off) == i - reach as int) by (nonlinear_arith)
                requires
                    reach as int == len as int * q + off as int,
            ;
            assert((i - reach as int) % (len as int) == (i - off) % (len as int));
            if i >= off {
                lemma_small_mod((i - off) as nat, len as nat);
            } else {
                lemma_mod_multiples_vanish(1, i - off, len as int);
                lemma_small_mod((i + (len - off)) as nat, len as nat);
            }
            assert(base == (i - reach as int) % (len as int));
        }
        let mut pattern: Vec<Cell> = Vec::new();
        let mut idx = base;
        let mut x: usize = 0;
        while x < rules.pattern_size
            invariant
                x <= rules.pattern_size,
                ps == rules.pattern_size as nat,
                reach == rules.pattern_size / 2,
                i < len,
                len == state@.len(),
                idx < len,
                idx == (i - reach as int + x) % (len as int),
                pattern@ =~= pattern_at(state@, ps, i as int).take(x as int),
            decreases rules.pattern_size - x,
        {
            pattern.push(state[idx]);
            proof {
                assert(pattern@ =~= pattern_at(state@, ps, i as int).take(x + 1));
                lemma_add_mod_noop_right(1, i - reach as int + x, len as int);
                assert((1 + idx as int) % (len as int) == (i - reach as int + x + 1) % (
                len as int));
                if idx + 1 < len {
                    lemma_small_mod((idx + 1) as nat, len as nat);
                } else {
                    assert((1 + idx as int) % (len as int) == 0) by {
                        vstd::arithmetic::div_mod::lemma_mod_self_0(len as int);
                    }
                }
            }
            idx = idx + 1;
            if idx == len {
                idx = 0;
            }
            x = x + 1;
        }
        proof {
            assert(pattern@ =~= pattern_at(state@, ps, i as int));
        }
        let cell = match rules.lookup(&pattern) {
            Some(val) => if val == 1 {
                Cell::Alive
            } else {
                Cell::Dead
            },
            None => Cell::Dead,
        };
        next.push(cell);
        proof {
            assert(cell == step_cell(rules.mapping(), ps, state@, i as int));
            assert(next@ =~= step_row(*rules, state@).take(i + 1));
        }
        i = i + 1;
    }
    proof {
        assert(next@ =~= step_row(*rules, state@));
    }
    next
}

/// An all-dead neighborhood pattern of width `ps`.
pub open spec fn all_dead(ps: nat) -> Seq<Cell> {
    Seq::new(ps, |x: int| Cell::Dead)
}

/// Law: a row with no alive cells stays all dead under any rulebook whose
/// all-dead neighborhood pattern does not map to outcome 1 — as in the four
/// built-in rules. (A rulebook may map the all-dead pattern to 1; such a
/// rulebook lights the whole row up instead, so it is left out here.)
pub proof fn lemma_dead_row_stays_dead(rb: Rulebook, state: Seq<Cell>)
    requires
        forall|i: int| 0 <= i < state.len() ==> state[i] == Cell::Dead,
        rb.mapping().contains_key(all_dead(rb.pattern_size as nat)) ==> rb.mapping()[all_dead(
            rb.pattern_size as nat,
        )] != 1u8,
    ensures
        step_row(rb, state).len() == state.len(),
        forall|i: int| 0 <= i < state.len() ==> step_row(rb, state)[i] == Cell::Dead,
{
    let ps = rb.pattern_size as nat;
    let len = state.len() as int;
    assert forall|i: int| 0 <= i < state.len() implies step_row(rb, state)[i] == Cell::Dead by {
        assert forall|x: int| 0 <= x < ps implies pattern_at(state, ps, i)[x] == Cell::Dead by {
            vstd::arithmetic::div_mod::lemma_mod_division_less_than_divisor(
                i - (ps as int) / 2 + x,
                len,
            );
        }
        assert(pattern_at(state, ps, i) =~= all_dead(ps));
    }
}

/// The row rotated by `k` positions: position `i` of the result holds what
/// position `i + k` (wrapped around the ring) holds in the input.
pub open spec fn rotate(s: Seq<Cell>, k: int) -> Seq<Cell> {
    Seq::new(s.len(), |i: int| s[(i + k) % (s.len() as int)])
}

/// Law: toroidal symmetry — rotating a row and then advancing it gives the
/// same row as advancing first and rotating after; the wraparound neighbor
/// lookup treats every position alike.
pub proof fn lemma_step_commutes_with_rotation(rb: Rulebook, state: Seq<Cell>, k: int)
    ensures
        step_row(rb, rotate(state, k)) == rotate(step_row(rb, state), k),
{
    let ps = rb.pattern_size as nat;
    let m = rb.mapping();
    let len = state.len() as int;
    let r = (ps as int) / 2;
    if state.len() == 0 {
        assert(step_row(rb, rotate(state, k)) =~= rotate(step_row(rb, state), k));
    } else {
        assert forall|i: int| 0 <= i < len implies step_row(rb, rotate(state, k))[i] == rotate(
            step_row(rb, state),
            k,
        )[i] by {
            vstd::arithmetic::div_mod::lemma_mod_division_less_than_divisor(i + k, len);
            assert forall|x: int| 0 <= x < ps implies pattern_at(rotate(state, k), ps, i)[x]
                == pattern_at(state, ps, (i + k) % len)[x] by {
                let a = i - r + x;
                vstd::arithmetic::div_mod::lemma_mod_division_less_than_divisor(a, len);
                lemma_add_mod_noop_right(k, a, len);
                lemma_add_mod_noop_right(-r + x, i + k, len);
            }
            assert(pattern_at(rotate(state, k), ps, i) =~= pattern_at(state, ps, (i + k) % len));
            assert(step_cell(m, ps, rotate(state, k), i) == step_cell(m, ps, state, (i + k) % len));
        }
        assert(step_row(rb, rotate(state, k)) =~= rotate(step_row(rb, state), k));
    }
}

/// In a body of eight four-character groups whose first seven patterns each
/// hold a `'1'` at the given spots and whose last group is all `'0'`, the
/// decoded mapping sends the all-dead pattern to outcome 0. Every built-in
/// rule string has this shape.
proof fn lemma_last_group_all_dead(body: Seq<char>)
    requires
        body.len() == 32,
        body[0] == '1',
        body[4] == '1',
        body[8] == '1',
        body[12] == '1',
        body[17] == '1',
        body[21] == '1',
        body[26] == '1',
        body[28] == '0',
        body[29] == '0',
        body[30] == '0',
        body[31] == '0',
    ensures
        decoded_map(body, 3).contains_key(all_dead(3)),
        decoded_map(body, 3)[all_dead(3)] == 0u8,
{
    assert(num_groups(body, 3) == 8) by {
        vstd::arithmetic::div_mod::lemma_div_by_multiple(8, 4);
    }
    assert(group_pattern(body, 3, 7) =~= all_dead(3));
    assert forall|h: int| 0 <= h < 7 implies #[trigger] group_pattern(body, 3, h) != group_pattern(
        body,
        3,
        7,
    ) by {
        assert(group_pattern(body, 3, 7)[0] == Cell::Dead);
        assert(group_pattern(body, 3, 7)[1] == Cell::Dead);
        assert(group_pattern(body, 3, 7)[2] == Cell::Dead);
        if h == 0 {
            assert(group_pattern(body, 3, 0)[0] == Cell::Alive);
        } else if h == 1 {
            assert(group_pattern(body, 3, 1)[0] == Cell::Alive);
        } else if h == 2 {
            assert(group_pattern(body, 3, 2)[0] == Cell::Alive);
        } else if h == 3 {
            assert(group_pattern(body, 3, 3)[0] == Cell::Alive);
        } else if h == 4 {
            assert(group_pattern(body, 3, 4)[1] == Cell::Alive);
        } else if h == 5 {
            assert(group_pattern(body, 3, 5)[1] == Cell::Alive);
        } else {
            assert(group_pattern(body, 3, 6)[2] == Cell::Alive);
        }
    }
    lemma_first_pattern_wins(body, 3, 7);
    assert(group_outcome(body, 3, 7) == 0u8);
}

/// Law: every built-in rule maps the all-dead neighborhood to a dead cell,
/// so under a rulebook decoded from a built-in rule string a row with no
/// alive cells stays all dead.
pub proof fn lemma_preset_dead_row_stays_dead(rule: Rule, rb: Rulebook, state: Seq<Cell>)
    requires
        rb.pattern_size == 3,
        rb.mapping() == decoded_map(spec_load_rule(rule).skip(4), 3),
        forall|i: int| 0 <= i < state.len() ==> state[i] == Cell::Dead,
    ensures
        step_row(rb, state).len() == state.len(),
        forall|i: int| 0 <= i < state.len() ==> step_row(rb, state)[i] == Cell::Dead,
{
    let s = spec_load_rule(rule);
    match rule {
        Rule::Rule30 => {
            reveal_strlit("001111101100101010010111010100110000");
        },
        Rule::Rule90 => {
            reveal_strlit("001111101101101010010111010000110000");
        },
        Rule::Rule110 => {
            reveal_strlit("001111101101101110000111010100110000");
        },
        Rule::Rule184 => {
            reveal_strlit("001111111100101110010111010000100000");
        },
    }
    lemma_last_group_all_dead(s.skip(4));
    lemma_dead_row_stays_dead(rb, state);
}

} // verus!

