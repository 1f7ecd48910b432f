//! The cell value type and the textual form of a row: `'*'` reads as an
//! alive cell, every other character as a dead one; rendering writes `'*'`
//! and `' '`.

use vstd::prelude::*;
use vstd::string::StrSliceExecFns;
use vstd::string::StringExecFns;

verus! {

/// One cell of the row: alive or dead.
#[derive(Clone, Copy, Eq, Hash, PartialEq, Structural, Debug)]
pub enum Cell {
    Alive,
    Dead,
}

/// The cell a character of an initial-state string denotes: `'*'` is alive,
/// anything else is dead.
pub open spec fn cell_of_char(c: char) -> Cell {
    if c == '*' {
        Cell::Alive
    } else {
        Cell::Dead
    }
}

/// The character a cell renders to: `'*'` for alive, `' '` for dead.
pub open spec fn char_of_cell(c: Cell) -> char {
    match c {
        Cell::Alive => '*',
        Cell::Dead => ' ',
    }
}

/// A whole string read as a row of cells, order and length preserved.
pub open spec fn cells_of_str(s: Seq<char>) -> Seq<Cell> {
    s.map_values(|c: char| cell_of_char(c))
}

/// A whole row rendered as a string, order and length preserved.
pub open spec fn str_of_cells(cs: Seq<Cell>) -> Seq<char> {
    cs.map_values(|c: Cell| char_of_cell(c))
}

impl Cell {
    /// The textual form of this cell.
    pub fn render(&self) -> (c: char)
        ensures
            c == char_of_cell(*self),
    {
        match self {
            Cell::Alive => '*',
            Cell::Dead => ' ',
        }
    }
}

/// Reads an initial-state string into a row of cells: `'*'` becomes alive,
/// every other character becomes dead.
pub fn str_to_cells(state: &String) -> (r: Vec<Cell>)
    ensures
        r@ == cells_of_str(state@),
{
    let mut arr: Vec<Cell> = Vec::new();
    let n = state.as_str().unicode_len();
    let mut i: usize = 0;
    while i < n
        invariant
            i <= n,
            n == state@.len(),
            arr@ == cells_of_str(state@.take(i as int)),
        decreases n - i,
    {
        let c = state.as_str().get_char(i);
        if c == '*' {
            arr.push(Cell::Alive);
        } else {
            arr.push(Cell::Dead);
        }
        proof {
            assert(cells_of_str(state@.take(i + 1)) =~= cells_of_str(state@.take(i as int)).push(
                cell_of_char(state@[i as int]),
            ));
        }
        i = i + 1;
    }
    proof {
        assert(state@.take(n as int) =~= state@);
    }
    arr
}

/// Renders a row of cells as a string, one character per cell, no separators.
pub fn render_row(state: &Vec<Cell>) -> (r: String)
    ensures
        r@ == str_of_cells(state@),
{
    let mut s = String::new();
    let mut i: usize = 0;
    while i < state.len()
        invariant
            i <= state@.len(),
            s@ == str_of_cells(state@.take(i as int)),
        decreases state@.len() - i,
    {
        proof {
            reveal_strlit("*");
            reveal_strlit(" ");
        }
        match state[i] {
            Cell::Alive => s.append("*"),
            Cell::Dead => s.append(" "),
        }
        proof {
            assert(str_of_cells(state@.take(i + 1)) =~= str_of_cells(state@.take(i as int)).push(
                char_of_cell(state@[i as int]),
            ));
            assert(s@ =~= str_of_cells(state@.take(i + 1)));
        }
        i = i + 1;
    }
    proof {
        assert(state@.take(state@.len() as int) =~= state@);
    }
    s
}

/// What one pass of parse-then-render does to a character: `'*'` stays `'*'`,
/// everything else becomes `' '`.
pub open spec fn normalize_char(c: char) -> char {
    if c == '*' {
        '*'
    } else {
        ' '
    }
}

/// Law: rendering a parsed string reproduces it with every character mapped
/// to exactly `'*'` or `' '`, and a second parse-render pass changes nothing.
pub proof fn lemma_parse_render_roundtrip(s: Seq<char>)
    ensures
        str_of_cells(cells_of_str(s)).len() == s.len(),
        forall|i: int|
            0 <= i < s.len() ==> str_of_cells(cells_of_str(s))[i] == normalize_char(s[i]),
        str_of_cells(cells_of_str(str_of_cells(cells_of_str(s)))) == str_of_cells(cells_of_str(s)),
{
    assert forall|i: int| 0 <= i < s.len() implies str_of_cells(cells_of_str(s))[i]
        == normalize_char(s[i]) by {
        assert(cells_of_str(s)[i] == cell_of_char(s[i]));
    }
    let t = str_of_cells(cells_of_str(s));
    assert forall|i: int| 0 <= i < t.len() implies str_of_cells(cells_of_str(t))[i] == t[i] by {
        assert(t[i] == normalize_char(s[i]));
        assert(cells_of_str(t)[i] == cell_of_char(t[i]));
    }
    assert(str_of_cells(cells_of_str(t)) =~= t);
}

} // verus!
