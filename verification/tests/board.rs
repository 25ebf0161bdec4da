use tetris::board::collapse;
use tetris::BoardRow;

fn row_of(cells: &[Option<u8>]) -> BoardRow<u8> {
    let mut row = BoardRow::new(cells.len());
    for (x, cell) in cells.iter().enumerate() {
        if let Some(marker) = cell {
            row.put(x, *marker);
        }
    }
    row.refresh();
    row
}

fn cells_of(rows: &Vec<BoardRow<u8>>) -> Vec<Vec<Option<u8>>> {
    rows.iter().map(|row| row.get_row().clone()).collect()
}

#[test]
fn new_row_is_empty_and_not_full() {
    let row: BoardRow<u8> = BoardRow::new(10);
    assert_eq!(row.get_row().len(), 10);
    assert!(row.get_row().iter().all(|cell| cell.is_none()));
    assert!(!row.is_full());
}

#[test]
fn row_without_cells_refreshes_to_full() {
    let mut row: BoardRow<u8> = BoardRow::new(0);
    assert!(!row.is_full());
    assert!(row.refresh());
    assert!(row.is_full());
}

#[test]
fn put_writes_one_cell_and_leaves_the_flag() {
    let mut row: BoardRow<u8> = BoardRow::new(3);
    row.put(1, 9);
    assert_eq!(row.get_row().clone(), vec![None, Some(9), None]);
    assert!(!row.is_full());
    row.put(0, 4);
    row.put(2, 5);
    assert_eq!(row.get_row().clone(), vec![Some(4), Some(9), Some(5)]);
    assert!(!row.is_full());
}

#[test]
fn refresh_flags_exactly_the_complete_rows() {
    let mut row: BoardRow<u8> = BoardRow::new(2);
    assert!(!row.refresh());
    row.put(0, 1);
    assert!(!row.refresh());
    assert!(!row.is_full());
    row.put(1, 1);
    assert!(row.refresh());
    assert!(row.is_full());
    assert_eq!(row.get_row().clone(), vec![Some(1), Some(1)]);
}

#[test]
fn clone_of_a_row_keeps_cells_and_flag() {
    let row = row_of(&[Some(1), Some(2)]);
    let copy = row.clone();
    assert!(copy.is_full());
    assert_eq!(copy.get_row().clone(), vec![Some(1), Some(2)]);
}

#[test]
fn collapse_of_full_empty_full_partial() {
    let rows = vec![
        row_of(&[Some(1), Some(1), Some(1)]),
        row_of(&[None, None, None]),
        row_of(&[Some(2), Some(2), Some(2)]),
        row_of(&[Some(3), None, Some(4)]),
    ];
    let after = collapse(&rows, 3);
    assert_eq!(
        cells_of(&after),
        vec![
            vec![None, None, None],
            vec![Some(3), None, Some(4)],
            vec![None, None, None],
            vec![None, None, None],
        ]
    );
    assert!(after.iter().all(|row| !row.is_full()));
}

#[test]
fn collapse_moves_rows_above_a_full_row_down_by_one() {
    let rows = vec![
        row_of(&[Some(1), None]),
        row_of(&[Some(2), Some(2)]),
        row_of(&[None, Some(3)]),
        row_of(&[Some(4), None]),
    ];
    let after = collapse(&rows, 2);
    assert_eq!(
        cells_of(&after),
        vec![vec![Some(1), None], vec![None, Some(3)], vec![Some(4), None], vec![None, None]]
    );
}

#[test]
fn collapse_without_full_rows_changes_nothing() {
    let rows = vec![row_of(&[Some(1), None]), row_of(&[None, None]), row_of(&[None, Some(3)])];
    let after = collapse(&rows, 2);
    assert_eq!(cells_of(&after), cells_of(&rows));
}

#[test]
fn collapse_of_full_rows_only_empties_the_board() {
    let rows = vec![row_of(&[Some(1)]), row_of(&[Some(2)])];
    let after = collapse(&rows, 1);
    assert_eq!(cells_of(&after), vec![vec![None], vec![None]]);
    assert!(after.iter().all(|row| !row.is_full()));
}

#[test]
fn collapse_goes_by_the_flag_not_by_the_cells() {
    let mut stale: BoardRow<u8> = BoardRow::new(2);
    stale.put(0, 7);
    stale.put(1, 7);
    let rows = vec![stale, row_of(&[Some(1), None])];
    let after = collapse(&rows, 2);
    assert_eq!(cells_of(&after), vec![vec![Some(7), Some(7)], vec![Some(1), None]]);
}

#[test]
fn collapse_of_no_rows() {
    let rows: Vec<BoardRow<u8>> = Vec::new();
    assert!(collapse(&rows, 4).is_empty());
}
