use game_of_life::{canvas_height, canvas_width, cell_colour, cell_offset, Cell, CELL_SIZE};

#[test]
fn canvas_size_covers_the_grid_and_margin() {
    assert_eq!(canvas_width(), 890);
    assert_eq!(canvas_height(), 1110);
}

#[test]
fn cell_offsets_step_by_cell_and_line() {
    assert_eq!(cell_offset(0), 1);
    assert_eq!(cell_offset(1), 12);
    assert_eq!(cell_offset(3), 34);
    assert_eq!(cell_offset(80), 881);
    assert_eq!(cell_offset(100), 1101);
    assert_eq!(cell_offset(2) - cell_offset(1), CELL_SIZE + 1);
}

#[test]
fn cells_are_black_or_white() {
    assert_eq!(cell_colour(Cell::Alive), "#000000");
    assert_eq!(cell_colour(Cell::Dead), "#FFFFFF");
}
