use game_of_life::symbol_for;
use game_of_life::text::parse;
use game_of_life::text::render;
use game_of_life::CellState;
use game_of_life::Grid;

fn grid_with(width: usize, height: usize, alive: &[(usize, usize)]) -> Grid {
    let mut grid = Grid::new(width, height).unwrap();
    for &(x, y) in alive {
        assert!(grid.in_bounds(x, y));
        grid.set(x, y, CellState::Alive);
    }
    grid
}

#[test]
fn symbol_for_glyphs() {
    assert_eq!(symbol_for(CellState::Alive), "#");
    assert_eq!(symbol_for(CellState::Dead), ".");
}

#[test]
fn render_exact_frame() {
    let grid = grid_with(3, 2, &[(0, 0), (2, 1)]);
    assert_eq!(render(&grid), "#..\n..#\n");
}

#[test]
fn render_all_dead_frame() {
    let grid = grid_with(2, 3, &[]);
    assert_eq!(render(&grid), "..\n..\n..\n");
}

#[test]
fn parse_exact_frame() {
    let grid = parse("#.\n.#\n").unwrap();
    assert_eq!(grid.width, 2);
    assert_eq!(grid.height, 2);
    assert_eq!(grid.at(0, 0), CellState::Alive);
    assert_eq!(grid.at(1, 0), CellState::Dead);
    assert_eq!(grid.at(0, 1), CellState::Dead);
    assert_eq!(grid.at(1, 1), CellState::Alive);
}

#[test]
fn parse_rejects_malformed_text() {
    // empty text, missing terminator, empty row, ragged rows, foreign glyph
    assert!(parse("").is_none());
    assert!(parse("##").is_none());
    assert!(parse("\n").is_none());
    assert!(parse("##\n#\n").is_none());
    assert!(parse("#x\n").is_none());
    assert!(parse("#.\n.#").is_none());
}

#[test]
fn render_parse_round_trip() {
    let glider = [(1, 0), (2, 1), (0, 2), (1, 2), (2, 2)];
    let grid = grid_with(7, 5, &glider);
    let text = render(&grid);
    let back = parse(text.as_str()).unwrap();
    assert_eq!(back.width, grid.width);
    assert_eq!(back.height, grid.height);
    for y in 0..grid.height {
        for x in 0..grid.width {
            assert_eq!(back.at(x, y), grid.at(x, y));
        }
    }
}

#[test]
fn parse_render_round_trip_on_text() {
    let text = "##.\n.#.\n...\n";
    let grid = parse(text).unwrap();
    assert_eq!(render(&grid), text);
}
