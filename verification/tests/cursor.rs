use simpledb::cursor::Cursor;
use simpledb::table::Table;

fn table_with(num_rows: usize) -> Table {
    let mut table = Table::new(Vec::new());
    table.num_rows = num_rows;
    table
}

#[test]
fn start_of_an_empty_table_is_its_end() {
    let table = table_with(0);
    let cursor = Cursor::start(&table);
    assert_eq!(cursor.row_num, 0);
    assert!(cursor.end_of_table);
}

#[test]
fn start_of_a_table_with_rows_is_not_its_end() {
    let table = table_with(3);
    let cursor = Cursor::start(&table);
    assert_eq!(cursor.row_num, 0);
    assert!(!cursor.end_of_table);
}

#[test]
fn end_is_behind_the_last_row() {
    for num_rows in [0usize, 1, 14, 100] {
        let table = table_with(num_rows);
        let cursor = Cursor::end(&table);
        assert_eq!(cursor.row_num, num_rows);
        assert!(cursor.end_of_table);
    }
}

#[test]
fn as_many_steps_as_rows_reach_the_end() {
    for num_rows in [1usize, 2, 13, 14, 15, 100] {
        let table = table_with(num_rows);
        let mut cursor = Cursor::start(&table);
        for step in 0..num_rows {
            assert_eq!(cursor.row_num, step);
            assert!(!cursor.end_of_table);
            cursor.advance(&table);
        }
        assert_eq!(cursor.row_num, num_rows);
        assert!(cursor.end_of_table);
    }
}

#[test]
fn one_step_in_a_table_of_one_row() {
    let table = table_with(1);
    let mut cursor = Cursor::start(&table);
    assert!(!cursor.end_of_table);
    cursor.advance(&table);
    assert!(cursor.end_of_table);
    assert_eq!(cursor.row_num, 1);
}

#[test]
fn a_cursor_at_the_end_stays_there() {
    let table = table_with(2);
    let mut cursor = Cursor::end(&table);
    cursor.advance(&table);
    assert_eq!(cursor.row_num, 2);
    assert!(cursor.end_of_table);
    let empty = table_with(0);
    let mut cursor = Cursor::start(&empty);
    cursor.advance(&empty);
    cursor.advance(&empty);
    assert_eq!(cursor.row_num, 0);
    assert!(cursor.end_of_table);
    let mut cursor = Cursor { row_num: usize::MAX, end_of_table: true };
    cursor.advance(&table);
    assert_eq!(cursor.row_num, usize::MAX);
}
