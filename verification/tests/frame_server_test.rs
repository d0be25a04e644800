use rts_engine::frame_server::{frame_to_continue, neighbour_cells, next_frame_number};

#[test]
fn last_replacement_wins() {
    assert_eq!(frame_to_continue("old", vec!["first", "second"]), "second");
    assert_eq!(frame_to_continue("old", vec![]), "old");
}

#[test]
fn frames_count_up() {
    assert_eq!(next_frame_number(41), 42);
}

#[test]
fn units_are_filed_into_their_cell_and_neighbours() {
    // a 4 x 3 grid; cell 5 is inside
    assert_eq!(neighbour_cells(5, 4, 12), vec![5, 0, 1, 2, 4, 6, 8, 9, 10]);
    // cell 0: the cells above are outside the grid; cell 3, the end of the
    // same row, counts as the cell below-left
    assert_eq!(neighbour_cells(0, 4, 12), vec![0, 1, 3, 4, 5]);
    // cell 11, the last: the cells below are outside the grid
    assert_eq!(neighbour_cells(11, 4, 12), vec![11, 6, 7, 8, 10]);
    // cell 3 ends a row: the next row's first cell counts as a neighbour
    assert_eq!(neighbour_cells(3, 4, 12), vec![3, 0, 2, 4, 6, 7, 8]);
}
