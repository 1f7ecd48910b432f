//! The rulebook: a mapping from neighborhood patterns to outcome bits,
//! decoded from a compact binary rule-definition string, plus the four
//! built-in elementary rules.
//!
//! The encoding is `<4 binary digits giving pattern_size><repeating groups
//! of pattern_size pattern digits and one outcome digit>`. Within a group,
//! `'1'` in a pattern position means an alive cell and `'0'` a dead one; the
//! outcome digit `'1'` means the pattern maps to an alive cell, any other
//! outcome character to a dead one. When the same pattern is encoded more
//! than once, the first occurrence wins. A trailing fragment that does not
//! complete a full group is accepted and dropped, as the encoding's grammar
//! allows.

use vstd::prelude::*;
use vstd::arithmetic::div_mod::lemma_fundamental_div_mod_converse;
use vstd::arithmetic::div_mod::lemma_fundamental_div_mod_converse_mod;
use vstd::string::StrSliceExecFns;
use crate::cell::Cell;

verus! {

/// The built-in elementary rules a caller can pick by name.
#[derive(Copy, Clone, PartialEq, Eq, PartialOrd, Ord, Structural, Debug)]
pub enum Rule {
    /// Elementary Rule 30.
    Rule30,
    /// Elementary Rule 90.
    Rule90,
    /// Elementary Rule 110.
    Rule110,
    /// Elementary Rule 184.
    Rule184,
}

/// Why a rule-definition string was rejected.
#[derive(Copy, Clone, PartialEq, Eq, Structural, Debug)]
pub enum DecodeError {
    /// The four-character size prefix is missing or not binary digits.
    InvalidSizeHeader,
    /// A character inside a pattern window is neither `'0'` nor `'1'`.
    InvalidPatternCharacter,
}

impl DecodeError {
    /// A human-readable account of the failure.
    pub fn message(&self) -> (m: &'static str)
        ensures
            m@ == self.spec_message(),
    {
        match self {
            DecodeError::InvalidSizeHeader => "a problem when decoding the rule occured",
            DecodeError::InvalidPatternCharacter => "rules must be defined in base 2",
        }
    }

    /// The message each failure carries.
    pub open spec fn spec_message(self) -> Seq<char> {
        match self {
            DecodeError::InvalidSizeHeader => "a problem when decoding the rule occured"@,
            DecodeError::InvalidPatternCharacter => "rules must be defined in base 2"@,
        }
    }
}

/// A decoded rulebook: an association list from neighborhood patterns to
/// outcome bits, and the width of one pattern. Listed in the order the
/// entries were decoded, each key at most once.
#[derive(PartialEq, Debug)]
pub struct Rulebook {
    /// The decoded entries: each pairs a pattern of `pattern_size` cells
    /// with the outcome bit it maps to.
    pub rules: Vec<(Vec<Cell>, u8)>,
    /// The number of cells in one neighborhood window.
    pub pattern_size: usize,
}

/// The entries of an association list as mathematical sequences.
pub open spec fn entries_of(rules: Seq<(Vec<Cell>, u8)>) -> Seq<(Seq<Cell>, u8)> {
    rules.map_values(|e: (Vec<Cell>, u8)| (e.0@, e.1))
}

/// The mapping an association list denotes when entries are added left to
/// right and a key already present is left unchanged: the first occurrence
/// of a key wins.
pub open spec fn assoc_map(s: Seq<(Seq<Cell>, u8)>) -> Map<Seq<Cell>, u8>
    decreases s.len(),
{
    if s.len() == 0 {
        Map::<Seq<Cell>, u8>::empty()
    } else {
        let m = assoc_map(s.drop_last());
        let e = s.last();
        if m.contains_key(e.0) {
            m
        } else {
            m.insert(e.0, e.1)
        }
    }
}

/// The mapping holds a key exactly when some entry carries it.
pub proof fn lemma_assoc_map_contains(s: Seq<(Seq<Cell>, u8)>, k: Seq<Cell>)
    ensures
        assoc_map(s).contains_key(k) <==> exists|j: int| 0 <= j < s.len() && s[j].0 == k,
    decreases s.len(),
{
    if s.len() > 0 {
        lemma_assoc_map_contains(s.drop_last(), k);
        if s.last().0 == k {
            assert(s[s.len() - 1].0 == k);
        } else if exists|j: int| 0 <= j < s.len() && s[j].0 == k {
            let j = choose|j: int| 0 <= j < s.len() && s[j].0 == k;
            assert(s.drop_last()[j] == s[j]);
        }
    }
}

/// The value a key maps to is the one of its first entry.
pub proof fn lemma_assoc_map_first(s: Seq<(Seq<Cell>, u8)>, j: int)
    requires
        0 <= j < s.len(),
        forall|q: int| 0 <= q < j ==> s[q].0 != s[j].0,
    ensures
        assoc_map(s).contains_key(s[j].0),
        assoc_map(s)[s[j].0] == s[j].1,
    decreases s.len(),
{
    if j == s.len() - 1 {
        lemma_assoc_map_contains(s.drop_last(), s[j].0);
        assert(forall|q: int| 0 <= q < s.drop_last().len() ==> s.drop_last()[q] == s[q]);
    } else {
        lemma_assoc_map_first(s.drop_last(), j);
        assert(s.drop_last()[j] == s[j]);
    }
}

/// Looks a pattern up in an association list, first entry wins.
fn assoc_lookup(rules: &Vec<(Vec<Cell>, u8)>, pattern: &Vec<Cell>) -> (r: Option<u8>)
    ensures
        r == if assoc_map(entries_of(rules@)).contains_key(pattern@) {
            Some(assoc_map(entries_of(rules@))[pattern@])
        } else {
            None::<u8>
        },
{
    let ghost entries = entries_of(rules@);
    let mut j: usize = 0;
    while j < rules.len()
        invariant
            j <= rules@.len(),
            entries == entries_of(rules@),
            forall|q: int| 0 <= q < j ==> entries[q].0 != pattern@,
        decreases rules@.len() - j,
    {
        if cells_eq(&rules[j].0, pattern) {
            proof {
                assert(entries[j as int].0 == pattern@);
                lemma_assoc_map_first(entries, j as int);
            }
            return Some(rules[j].1);
        }
        proof {
            assert(entries[j as int].0 == rules@[j as int].0@);
        }
        j = j + 1;
    }
    proof {
        lemma_assoc_map_contains(entries, pattern@);
    }
    None
}

/// Compares two rows of cells element by element.
fn cells_eq(a: &Vec<Cell>, b: &Vec<Cell>) -> (r: bool)
    ensures
        r == (a@ == b@),
{
    if a.len() != b.len() {
        return false;
    }
    let mut i: usize = 0;
    while i < a.len()
        invariant
            i <= a@.len(),
            a@.len() == b@.len(),
            forall|q: int| 0 <= q < i ==> a@[q] == b@[q],
        decreases a@.len() - i,
    {
        if a[i] != b[i] {
            return false;
        }
        i = i + 1;
    }
    proof {
        assert(a@ =~= b@);
    }
    true
}

impl Rulebook {
    /// The entries as mathematical sequences.
    pub open spec fn entries(self) -> Seq<(Seq<Cell>, u8)> {
        entries_of(self.rules@)
    }

    /// The pattern-to-outcome mapping this rulebook denotes.
    pub open spec fn mapping(self) -> Map<Seq<Cell>, u8> {
        assoc_map(self.entries())
    }

    /// Every key is one pattern wide and occurs once.
    pub open spec fn wf(self) -> bool {
        &&& forall|j: int|
            0 <= j < self.entries().len() ==> (#[trigger] self.entries()[j]).0.len()
                == self.pattern_size
        &&& forall|j: int, k: int|
            0 <= j < k < self.entries().len() ==> (#[trigger] self.entries()[j]).0 != (
            #[trigger] self.entries()[k]).0
    }

    /// The outcome bit a pattern maps to, if the rulebook has it.
    pub fn lookup(&self, pattern: &Vec<Cell>) -> (r: Option<u8>)
        ensures
            r == if self.mapping().contains_key(pattern@) {
                Some(self.mapping()[pattern@])
            } else {
                None::<u8>
            },
    {
        assoc_lookup(&self.rules, pattern)
    }
}

/// Whether a character is a binary digit.
pub open spec fn is_bit_char(c: char) -> bool {
    c == '0' || c == '1'
}

/// The numeric value of a binary digit character.
pub open spec fn bit_of_char(c: char) -> nat {
    if c == '1' {
        1nat
    } else {
        0nat
    }
}

/// The cell a pattern digit denotes: `'1'` alive, `'0'` dead.
pub open spec fn cell_of_bit(c: char) -> Cell {
    if c == '1' {
        Cell::Alive
    } else {
        Cell::Dead
    }
}

/// Whether a rule-definition string starts with four binary digits.
pub open spec fn header_valid(s: Seq<char>) -> bool {
    &&& s.len() >= 4
    &&& is_bit_char(s[0])
    &&& is_bit_char(s[1])
    &&& is_bit_char(s[2])
    &&& is_bit_char(s[3])
}

/// The pattern size a valid header encodes, read as a base-2 numeral.
pub open spec fn header_size(s: Seq<char>) -> nat {
    8 * bit_of_char(s[0]) + 4 * bit_of_char(s[1]) + 2 * bit_of_char(s[2]) + bit_of_char(s[3])
}

/// Whether position `j` of the body is a pattern position: groups are
/// `ps + 1` characters long and the last position of each is the outcome.
pub open spec fn pattern_position(j: int, ps: nat) -> bool {
    j % (ps as int + 1) < ps as int
}

/// Whether every pattern position of the body holds a binary digit.
pub open spec fn body_valid(body: Seq<char>, ps: nat) -> bool {
    forall|j: int| 0 <= j < body.len() && pattern_position(j, ps) ==> is_bit_char(body[j])
}

/// How many complete groups the body holds; a trailing fragment is dropped.
pub open spec fn num_groups(body: Seq<char>, ps: nat) -> nat {
    body.len() / (ps + 1)
}

/// The neighborhood pattern group `g` of the body encodes.
pub open spec fn group_pattern(body: Seq<char>, ps: nat, g: int) -> Seq<Cell> {
    Seq::new(ps, |x: int| cell_of_bit(body[g * (ps + 1) + x]))
}

/// The outcome bit group `g` of the body encodes: `'1'` is 1, anything
/// else is 0.
pub open spec fn group_outcome(body: Seq<char>, ps: nat, g: int) -> u8 {
    if body[g * (ps + 1) + ps] == '1' {
        1u8
    } else {
        0u8
    }
}

/// The mapping the first `n` groups of the body decode to, first
/// occurrence of a pattern winning.
pub open spec fn decoded_map_prefix(body: Seq<char>, ps: nat, n: nat) -> Map<Seq<Cell>, u8>
    decreases n,
{
    if n == 0 {
        Map::<Seq<Cell>, u8>::empty()
    } else {
        let m = decoded_map_prefix(body, ps, (n - 1) as nat);
        let k = group_pattern(body, ps, n - 1);
        if m.contains_key(k) {
            m
        } else {
            m.insert(k, group_outcome(body, ps, n - 1))
        }
    }
}

/// The mapping the whole body decodes to.
pub open spec fn decoded_map(body: Seq<char>, ps: nat) -> Map<Seq<Cell>, u8> {
    decoded_map_prefix(body, ps, num_groups(body, ps))
}

/// The rule-definition string of a built-in rule.
pub open spec fn spec_load_rule(rule: Rule) -> Seq<char> {
    match rule {
        Rule::Rule30 => "001111101100101010010111010100110000"@,
        Rule::Rule90 => "001111101101101010010111010000110000"@,
        Rule::Rule110 => "001111101101101110000111010100110000"@,
        Rule::Rule184 => "001111111100101110010111010000100000"@,
    }
}

/// Hands out the canonical rule-definition string of a built-in rule.
pub fn load_rule(rule: Rule) -> (r: &'static str)
    ensures
        r@ == spec_load_rule(rule),
{
    match rule {
        Rule::Rule30 => "001111101100101010010111010100110000",
        Rule::Rule90 => "001111101101101010010111010000110000",
        Rule::Rule110 => "001111101101101110000111010100110000",
        Rule::Rule184 => "001111111100101110010111010000100000",
    }
}

/// Decodes a rule-definition string into a rulebook.
///
/// The first four characters must be binary digits and give the pattern
/// size; otherwise the decode fails with `InvalidSizeHeader`. The rest is
/// read as groups of `pattern_size` pattern digits and one outcome
/// character; a pattern position holding anything but `'0'` or `'1'` fails
/// the decode with `InvalidPatternCharacter`. The first occurrence of a
/// pattern wins, and an incomplete trailing group is dropped.
pub fn decode_rule(rule: &str) -> (r: Result<Rulebook, DecodeError>)
    ensures
        !header_valid(rule@) ==> r == Err::<Rulebook, DecodeError>(DecodeError::InvalidSizeHeader),
        header_valid(rule@) && !body_valid(rule@.skip(4), header_size(rule@)) ==> r == Err::<
            Rulebook,
            DecodeError,
        >(DecodeError::InvalidPatternCharacter),
        header_valid(rule@) && body_valid(rule@.skip(4), header_size(rule@)) ==> {
            &&& r is Ok
            &&& r->Ok_0.pattern_size == header_size(rule@)
            &&& r->Ok_0.wf()
            &&& r->Ok_0.mapping() == decoded_map(rule@.skip(4), header_size(rule@))
        },
{
    let n = rule.unicode_len();
    if n < 4 {
        return Err(DecodeError::InvalidSizeHeader);
    }
    let c0 = rule.get_char(0);
    let c1 = rule.get_char(1);
    let c2 = rule.get_char(2);
    let c3 = rule.get_char(3);
    if !((c0 == '0' || c0 == '1') && (c1 == '0' || c1 == '1') && (c2 == '0' || c2 == '1') && (c3
        == '0' || c3 == '1')) {
        return Err(DecodeError::InvalidSizeHeader);
    }
    let pattern_size: usize = (if c0 == '1' {
        8
    } else {
        0
    }) + (if c1 == '1' {
        4
    } else {
        0
    }) + (if c2 == '1' {
        2
    } else {
        0
    }) + (if c3 == '1' {
        1
    } else {
        0
    });
    let ghost body = rule@.skip(4);
    let ghost ps = pattern_size as nat;
    let ghost mut g: nat = 0;
    let mut rules_list: Vec<(Vec<Cell>, u8)> = Vec::new();
    let mut pattern: Vec<Cell> = Vec::new();
    let mut i: usize = 4;
    while i < n
        invariant
            4 <= i <= n,
            n == rule@.len(),
            body == rule@.skip(4),
            ps == pattern_size as nat,
            ps == header_size(rule@),
            header_valid(rule@),
            pattern@.len() <= ps,
            i - 4 == g * (ps + 1) + pattern@.len(),
            forall|x: int|
                0 <= x < pattern@.len() ==> pattern@[x] == cell_of_bit(body[g * (ps + 1) + x]),
            forall|q: int| 0 <= q < i - 4 && pattern_position(q, ps) ==> is_bit_char(body[q]),
            assoc_map(entries_of(rules_list@)) == decoded_map_prefix(body, ps, g),
            forall|j: int|
                0 <= j < rules_list@.len() ==> (#[trigger] entries_of(rules_list@)[j]).0.len()
                    == ps,
            forall|j: int, k: int|
                0 <= j < k < rules_list@.len() ==> (#[trigger] entries_of(rules_list@)[j]).0 != (
                #[trigger] entries_of(rules_list@)[k]).0,
        decreases n - i,
    {
        let c = rule.get_char(i);
        proof {
            assert(body[i - 4] == rule@[i as int]);
        }
        if pattern.len() == pattern_size {
            let outcome: u8 = if c == '1' {
                1
            } else {
                0
            };
            proof {
                assert(group_pattern(body, ps, g as int) =~= pattern@);
                assert(group_outcome(body, ps, g as int) == outcome);
                assert((g + 1) * (ps + 1) == g * (ps + 1) + (ps + 1)) by (nonlinear_arith);
                lemma_fundamental_div_mod_converse_mod(i - 4, ps as int + 1, g as int, ps as int);
                assert(!pattern_position(i - 4, ps));
            }
            let ghost old_entries = entries_of(rules_list@);
            if assoc_lookup(&rules_list, &pattern).is_none() {
                proof {
                    lemma_assoc_map_contains(old_entries, pattern@);
                }
                rules_list.push((pattern, outcome));
                proof {
                    assert(entries_of(rules_list@) =~= old_entries.push((pattern@, outcome)));
                    assert(entries_of(rules_list@).drop_last() =~= old_entries);
                    assert(assoc_map(entries_of(rules_list@)) == decoded_map_prefix(
                        body,
                        ps,
                        g + 1,
                    ));
                }
            } else {
                proof {
                    assert(decoded_map_prefix(body, ps, g + 1) == decoded_map_prefix(body, ps, g));
                }
            }
            pattern = Vec::new();
            proof {
                g = g + 1;
            }
        } else {
            proof {
                lemma_fundamental_div_mod_converse_mod(
                    i - 4,
                    ps as int + 1,
                    g as int,
                    pattern@.len() as int,
                );
            }
            if c == '1' {
                pattern.push(Cell::Alive);
            } else if c == '0' {
                pattern.push(Cell::Dead);
            } else {
                proof {
                    assert(pattern_position(i - 4, ps));
                    assert(!is_bit_char(body[i - 4]));
                    assert(!body_valid(body, ps));
                }
                return Err(DecodeError::InvalidPatternCharacter);
            }
        }
        i = i + 1;
    }
    proof {
        assert(body.len() == n - 4);
        lemma_fundamental_div_mod_converse(
            body.len() as int,
            ps as int + 1,
            g as int,
            pattern@.len() as int,
        );
        assert(num_groups(body, ps) == g);
        assert(body_valid(body, ps));
    }
    Ok(Rulebook { rules: rules_list, pattern_size })
}

/// Law: when the body encodes the pattern of group `g` for the first time
/// at group `g`, the decoded mapping keeps that group's outcome; later
/// occurrences of the same pattern change nothing.
pub proof fn lemma_first_pattern_wins(body: Seq<char>, ps: nat, g: int)
    requires
        0 <= g < num_groups(body, ps),
        forall|h: int|
            0 <= h < g ==> group_pattern(body, ps, h) != group_pattern(body, ps, g),
    ensures
        decoded_map(body, ps).contains_key(group_pattern(body, ps, g)),
        decoded_map(body, ps)[group_pattern(body, ps, g)] == group_outcome(body, ps, g),
{
    lemma_first_pattern_wins_prefix(body, ps, g, num_groups(body, ps));
}

/// The mapping of a prefix of `n` groups holds a key exactly when one of
/// those groups encodes it.
proof fn lemma_decoded_prefix_contains(body: Seq<char>, ps: nat, n: nat, k: Seq<Cell>)
    ensures
        decoded_map_prefix(body, ps, n).contains_key(k) <==> exists|h: int|
            0 <= h < n && group_pattern(body, ps, h) == k,
    decreases n,
{
    if n > 0 {
        lemma_decoded_prefix_contains(body, ps, (n - 1) as nat, k);
    }
}

/// In every prefix that reaches group `g`, the first occurrence of group
/// `g`'s pattern keeps group `g`'s outcome.
proof fn lemma_first_pattern_wins_prefix(body: Seq<char>, ps: nat, g: int, n: nat)
    requires
        0 <= g < n,
        forall|h: int|
            0 <= h < g ==> group_pattern(body, ps, h) != group_pattern(body, ps, g),
    ensures
        decoded_map_prefix(body, ps, n).contains_key(group_pattern(body, ps, g)),
        decoded_map_prefix(body, ps, n)[group_pattern(body, ps, g)] == group_outcome(body, ps, g),
    decreases n,
{
    let k = group_pattern(body, ps, g);
    if n - 1 == g {
        lemma_decoded_prefix_contains(body, ps, (n - 1) as nat, k);
    } else {
        lemma_first_pattern_wins_prefix(body, ps, g, (n - 1) as nat);
    }
}

} // verus!
