use cell_sim::cell::Cell;
use cell_sim::cell::render_row;
use cell_sim::cell::str_to_cells;

#[test]
fn convert_str_to_cells() {
    let initial = String::from("* * ");
    let cells = vec![Cell::Alive, Cell::Dead, Cell::Alive, Cell::Dead];

    assert_eq!(cells, str_to_cells(&initial));
}

#[test]
fn parse_maps_every_other_character_to_dead() {
    let initial = String::from("x*0 *");
    let cells = vec![Cell::Dead, Cell::Alive, Cell::Dead, Cell::Dead, Cell::Alive];

    assert_eq!(cells, str_to_cells(&initial));
}

#[test]
fn render_cell_characters() {
    assert_eq!(Cell::Alive.render(), '*');
    assert_eq!(Cell::Dead.render(), ' ');
}

#[test]
fn render_row_writes_stars_and_spaces() {
    let row = vec![Cell::Dead, Cell::Alive, Cell::Alive, Cell::Dead];

    assert_eq!(render_row(&row), " ** ");
}

#[test]
fn parse_render_roundtrip_normalizes_once() {
    let raw = String::from("ab* *c");
    let once = render_row(&str_to_cells(&raw));
    assert_eq!(once, "  * * ");

    let twice = render_row(&str_to_cells(&once));
    assert_eq!(twice, once);
}

#[test]
fn parse_render_roundtrip_empty() {
    let empty = String::from("");
    assert_eq!(render_row(&str_to_cells(&empty)), "");
}
