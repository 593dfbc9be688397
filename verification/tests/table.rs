use simpledb::cursor::Cursor;
use simpledb::pager::PAGE_SIZE;
use simpledb::row::{Row, ROW_SIZE};
use simpledb::table::{Table, ROWS_PER_PAGE, TABLE_MAX_ROWS};

fn insert(table: &mut Table, row: &Row) {
    let cursor = Cursor::end(table);
    row.serialize(table.cursor_value(&cursor));
    table.num_rows += 1;
}

fn row_at(table: &mut Table, row_num: usize) -> Row {
    let cursor = Cursor { row_num, end_of_table: row_num >= table.num_rows };
    Row::deserialize(table.cursor_value(&cursor))
}

fn sample(id: u32) -> Row {
    Row::new(id, &format!("user{}", id), &format!("person{}@example.com", id))
}

#[test]
fn fourteen_rows_fit_a_page() {
    assert_eq!(ROWS_PER_PAGE, 14);
    assert_eq!(PAGE_SIZE / ROW_SIZE, 14);
    assert_eq!(TABLE_MAX_ROWS, 3584);
}

#[test]
fn a_new_table_counts_the_whole_rows_of_the_file() {
    assert_eq!(Table::new(Vec::new()).num_rows, 0);
    assert_eq!(Table::new(vec![0u8; 290]).num_rows, 0);
    assert_eq!(Table::new(vec![0u8; 291]).num_rows, 1);
    assert_eq!(Table::new(vec![0u8; 2 * 291 + 290]).num_rows, 2);
    assert_eq!(Table::new(vec![0u8; PAGE_SIZE]).num_rows, 14);
    assert_eq!(Table::new(vec![0u8; 2 * PAGE_SIZE]).num_rows, 28);
}

#[test]
fn a_slot_runs_from_its_row_to_the_end_of_the_page() {
    let mut table = Table::new(Vec::new());
    let cases =
        [(0usize, 4096usize), (1, 4096 - 291), (13, 4096 - 13 * 291), (14, 4096), (27, 313)];
    for (row_num, len) in cases {
        let cursor = Cursor { row_num, end_of_table: true };
        assert_eq!(table.cursor_value(&cursor).len(), len);
    }
}

#[test]
fn the_fifteenth_row_starts_the_second_page() {
    let mut table = Table::new(Vec::new());
    for id in 0..15u32 {
        insert(&mut table, &sample(id));
    }
    assert_eq!(table.num_rows, 15);
    table.flush();
    let file = table.file().clone();
    assert_eq!(file.len(), 2 * PAGE_SIZE);
    for id in 0..14usize {
        let at = id * ROW_SIZE;
        assert_eq!(Row::deserialize(&file[at..]).id, id as u32);
    }
    assert!(file[14 * ROW_SIZE..PAGE_SIZE].iter().all(|b| *b == 0));
    let fifteenth = Row::deserialize(&file[PAGE_SIZE..]);
    assert_eq!(fifteenth.id, 14);
    assert_eq!(fifteenth.get_username().unwrap(), "user14");
    assert!(file[PAGE_SIZE + ROW_SIZE..].iter().all(|b| *b == 0));
}

#[test]
fn fourteen_rows_stay_on_the_first_page() {
    let mut table = Table::new(Vec::new());
    for id in 0..14u32 {
        insert(&mut table, &sample(id));
    }
    table.flush();
    assert_eq!(table.file().len(), PAGE_SIZE);
}

#[test]
fn rows_read_back_in_order() {
    let mut table = Table::new(Vec::new());
    for id in 0..40u32 {
        insert(&mut table, &sample(id * 3));
    }
    let mut cursor = Cursor::start(&table);
    let mut seen = 0u32;
    while !cursor.end_of_table {
        let row = Row::deserialize(table.cursor_value(&cursor));
        assert_eq!(row.id, seen * 3);
        assert_eq!(row.get_username().unwrap(), format!("user{}", seen * 3));
        assert_eq!(row.get_email().unwrap(), format!("person{}@example.com", seen * 3));
        cursor.advance(&table);
        seen += 1;
    }
    assert_eq!(seen, 40);
}

#[test]
fn writing_a_row_leaves_its_neighbours() {
    let mut table = Table::new(Vec::new());
    for id in 0..16u32 {
        insert(&mut table, &sample(id));
    }
    let cursor = Cursor { row_num: 5, end_of_table: false };
    Row::new(500, "changed", "changed@x").serialize(table.cursor_value(&cursor));
    for id in 0..16usize {
        let row = row_at(&mut table, id);
        if id == 5 {
            assert_eq!(row.id, 500);
            assert_eq!(row.get_username().unwrap(), "changed");
        } else {
            assert_eq!(row.id, id as u32);
            assert_eq!(row.get_username().unwrap(), format!("user{}", id));
        }
    }
}

#[test]
fn a_row_never_inserted_reads_as_zeros() {
    let mut table = Table::new(Vec::new());
    insert(&mut table, &sample(1));
    let row = row_at(&mut table, 100);
    assert_eq!(row.id, 0);
    assert!(row.username.iter().all(|b| *b == 0));
    assert!(row.email.iter().all(|b| *b == 0));
    assert_eq!(table.num_rows, 1);
}

#[test]
fn rows_persist_across_close_and_reopen() {
    let mut table = Table::new(Vec::new());
    for id in 0..28u32 {
        insert(&mut table, &sample(id + 100));
    }
    let file = table.close();
    assert_eq!(file.len(), 2 * PAGE_SIZE);
    let mut again = Table::new(file);
    assert_eq!(again.num_rows, 28);
    for id in 0..28usize {
        let row = row_at(&mut again, id);
        assert_eq!(row.id, id as u32 + 100);
        assert_eq!(row.get_username().unwrap(), format!("user{}", id + 100));
        assert_eq!(row.get_email().unwrap(), format!("person{}@example.com", id + 100));
    }
}

#[test]
fn rows_persist_when_the_last_page_is_partly_filled() {
    let mut table = Table::new(Vec::new());
    for id in 0..20u32 {
        insert(&mut table, &sample(id));
    }
    let file = table.close();
    assert_eq!(file.len(), 2 * PAGE_SIZE);
    let mut again = Table::new(file);
    assert_eq!(again.num_rows, 2 * PAGE_SIZE / ROW_SIZE);
    for id in 0..20usize {
        assert_eq!(row_at(&mut again, id).id, id as u32);
    }
}

#[test]
fn one_row_takes_one_page_of_the_file() {
    let mut table = Table::new(Vec::new());
    insert(&mut table, &sample(42));
    let touched = Cursor { row_num: ROWS_PER_PAGE, end_of_table: true };
    table.cursor_value(&touched)[0] = 0x99;
    table.flush();
    assert_eq!(table.file().len(), PAGE_SIZE);
    let file = table.close();
    assert_eq!(file.len(), PAGE_SIZE);
    assert!(file[ROW_SIZE..].iter().all(|b| *b == 0));
    let mut again = Table::new(file);
    let first = row_at(&mut again, 0);
    assert_eq!(first.id, 42);
    assert_eq!(first.get_username().unwrap(), "user42");
    assert_eq!(again.file().len(), PAGE_SIZE);
}

#[test]
fn flush_of_an_untouched_table_leaves_the_file() {
    let file: Vec<u8> = (0..1000usize).map(|i| (i % 256) as u8).collect();
    let mut table = Table::new(file.clone());
    assert_eq!(table.num_rows, 3);
    table.flush();
    assert_eq!(table.file(), &file);
    assert_eq!(table.close(), file);
}

#[test]
fn flush_keeps_what_the_file_had() {
    let mut first = Table::new(Vec::new());
    for id in 0..14u32 {
        insert(&mut first, &sample(id));
    }
    let mut second = Table::new(first.close());
    assert_eq!(second.num_rows, 14);
    insert(&mut second, &sample(14));
    let mut third = Table::new(second.close());
    assert_eq!(third.num_rows, 28);
    for id in 0..15usize {
        assert_eq!(row_at(&mut third, id).id, id as u32);
    }
}

#[test]
fn flush_twice_is_flush_once() {
    let mut table = Table::new(Vec::new());
    for id in 0..3u32 {
        insert(&mut table, &sample(id));
    }
    table.flush();
    let once = table.file().clone();
    table.flush();
    assert_eq!(table.file(), &once);
}

#[test]
fn the_last_row_of_the_last_page_can_be_used() {
    let mut table = Table::new(Vec::new());
    let cursor = Cursor { row_num: TABLE_MAX_ROWS - 1, end_of_table: true };
    let slot = table.cursor_value(&cursor);
    assert_eq!(slot.len(), PAGE_SIZE - 13 * ROW_SIZE);
    sample(1).serialize(slot);
    assert_eq!(row_at(&mut table, TABLE_MAX_ROWS - 1).id, 1);
}
