use sqlite_rust::meta_command::{CommandError, Statement, StatementType};
use sqlite_rust::page::{Cursor, Row, Table};
use sqlite_rust::pager::{Pager, PAGE_SIZE, ROWS_PER_PAGE, TABLE_MAX_PAGES, TABLE_MAX_ROWS};
use sqlite_rust::row::{COLUMN_EMAIL_SIZE, COLUMN_USERNAME_SIZE, ROW_SIZE};

fn field<const N: usize>(text: &str) -> [u8; N] {
    let mut out = [0u8; N];
    out[..text.len()].copy_from_slice(text.as_bytes());
    out
}

fn make_row(id: u32) -> Row {
    Row::new(
        id,
        field::<COLUMN_USERNAME_SIZE>(&format!("user{}", id)),
        field::<COLUMN_EMAIL_SIZE>(&format!("user{}@example.com", id)),
    )
}

fn insert_row(table: &mut Table, row: Row) -> Result<(), CommandError> {
    table.insert(&Statement::new(StatementType::StatementInsert, row))
}

fn scan(table: &mut Table) -> Vec<Row> {
    table.select(&Statement::select()).unwrap()
}

#[test]
fn layout_constants() {
    assert_eq!(ROW_SIZE, 291);
    assert_eq!(PAGE_SIZE, 4096);
    assert_eq!(ROWS_PER_PAGE, 14);
    assert_eq!(TABLE_MAX_ROWS, 1400);
}

#[test]
fn serialize_layout_is_little_endian_and_padded() {
    let row = Row::new(0x0403_0201, field("ab"), field("c"));
    let bytes = row.serialize();
    assert_eq!(bytes.len(), ROW_SIZE);
    assert_eq!(&bytes[0..4], &[1, 2, 3, 4]);
    assert_eq!(&bytes[4..7], b"ab\0");
    assert!(bytes[6..36].iter().all(|b| *b == 0));
    assert_eq!(bytes[36], b'c');
    assert!(bytes[37..].iter().all(|b| *b == 0));
}

#[test]
fn round_trip_keeps_every_byte() {
    let mut username = [0u8; COLUMN_USERNAME_SIZE];
    for (i, b) in username.iter_mut().enumerate() {
        *b = i as u8 * 7;
    }
    let mut email = [0u8; COLUMN_EMAIL_SIZE];
    for (i, b) in email.iter_mut().enumerate() {
        *b = 255 - i as u8;
    }
    for row in [Row::new(u32::MAX, username, email), Row::new(0, [0; 32], [0; 255]), make_row(9)] {
        let back = Row::deserialize(&row.serialize()).unwrap();
        assert_eq!(back, row);
    }
}

#[test]
fn deserialize_short_buffer_is_an_error() {
    let bytes = make_row(1).serialize();
    assert_eq!(Row::deserialize(&bytes[..ROW_SIZE - 1]), Err(CommandError::RecordDecodeError));
    assert_eq!(Row::deserialize(&[]), Err(CommandError::RecordDecodeError));
}

#[test]
fn capacity_is_max_rows() {
    let mut table = Table::new();
    for i in 0..TABLE_MAX_ROWS {
        assert_eq!(insert_row(&mut table, make_row(i as u32 + 1)), Ok(()));
    }
    assert_eq!(table.num_rows(), TABLE_MAX_ROWS);
    assert_eq!(insert_row(&mut table, make_row(5000)), Err(CommandError::ExecuteTableFull));
    assert_eq!(table.num_rows(), TABLE_MAX_ROWS);
    let rows = scan(&mut table);
    assert_eq!(rows.len(), TABLE_MAX_ROWS);
    assert_eq!(rows[TABLE_MAX_ROWS - 1], make_row(TABLE_MAX_ROWS as u32));
}

#[test]
fn row_addressing_maps_rows_to_pages() {
    let mut table = Table::new();
    for i in 0..30u32 {
        insert_row(&mut table, make_row(i)).unwrap();
    }
    let mut cursor = Cursor::table_start(&table);
    let mut n = 0usize;
    while !cursor.is_end_of_table() {
        let (page, offset) = cursor.cursor_value(&mut table);
        assert_eq!(page, n / 14);
        assert_eq!(offset, n % 14);
        assert!(page < TABLE_MAX_PAGES);
        assert_eq!(cursor.get_row(&table, page, offset).unwrap(), make_row(n as u32));
        cursor.cursor_advance(&table);
        n += 1;
    }
    assert_eq!(n, 30);
    let end = Cursor::table_end(&table);
    assert!(end.is_end_of_table());
}

#[test]
fn scan_yields_rows_in_insertion_order() {
    let mut table = Table::new();
    assert!(scan(&mut table).is_empty());
    for id in 1..=40u32 {
        insert_row(&mut table, make_row(id)).unwrap();
    }
    let rows = scan(&mut table);
    let ids: Vec<u32> = rows.iter().map(|r| r.id).collect();
    assert_eq!(ids, (1..=40).collect::<Vec<u32>>());
    for (i, row) in rows.iter().enumerate() {
        assert_eq!(*row, make_row(i as u32 + 1));
    }
    assert_eq!(scan(&mut table), rows);
}

#[test]
fn persistence_round_trip() {
    let mut table = Table::new();
    for id in 1..=100u32 {
        insert_row(&mut table, make_row(id)).unwrap();
    }
    let before = scan(&mut table);
    let image = table.db_close();
    assert_eq!(image.len(), 7 * PAGE_SIZE + 2 * ROW_SIZE);
    let mut reopened = Table::new_from_file(&image);
    assert_eq!(reopened.num_rows(), 100);
    assert_eq!(scan(&mut reopened), before);
}

fn save_and_reopen(count: u32) {
    let mut table = Table::new();
    for id in 1..=count {
        insert_row(&mut table, make_row(id)).unwrap();
    }
    let before = scan(&mut table);
    let image = table.db_close();
    let mut reopened = Table::new_from_file(&image);
    assert_eq!(reopened.num_rows(), count as usize);
    assert_eq!(scan(&mut reopened), before);
    let again = reopened.db_close();
    assert_eq!(again, image);
}

#[test]
fn persistence_round_trip_across_many_pages() {
    save_and_reopen(196);
    save_and_reopen(197);
    save_and_reopen(1393);
    save_and_reopen(1394);
    save_and_reopen(TABLE_MAX_ROWS as u32);
}

#[test]
fn saved_file_pads_page_tails_with_zeros() {
    let mut table = Table::new();
    for id in 1..=15u32 {
        insert_row(&mut table, make_row(id)).unwrap();
    }
    let image = table.db_close();
    assert!(image[14 * ROW_SIZE..PAGE_SIZE].iter().all(|b| *b == 0));
    assert_eq!(&image[13 * ROW_SIZE..14 * ROW_SIZE], &make_row(14).serialize()[..]);
}

#[test]
fn empty_table_saves_to_empty_file() {
    let mut table = Table::new();
    assert!(table.db_close().is_empty());
    let mut reopened = Table::new_from_file(&[]);
    assert_eq!(reopened.num_rows(), 0);
    assert!(scan(&mut reopened).is_empty());
}

#[test]
fn fifteen_rows_span_two_pages() {
    let mut table = Table::new();
    for id in 1..=15u32 {
        insert_row(&mut table, make_row(id)).unwrap();
    }
    let mut cursor = Cursor::table_start(&table);
    for _ in 0..14 {
        let (page, _) = cursor.cursor_value(&mut table);
        assert_eq!(page, 0);
        cursor.cursor_advance(&table);
    }
    assert_eq!(cursor.cursor_value(&mut table), (1, 0));
    let image = table.db_close();
    assert_eq!(image.len(), PAGE_SIZE + ROW_SIZE);
    assert_eq!(&image[PAGE_SIZE..PAGE_SIZE + ROW_SIZE], &make_row(15).serialize()[..]);
    let mut reopened = Table::new_from_file(&image);
    assert_eq!(reopened.num_rows(), 15);
    let rows = scan(&mut reopened);
    assert_eq!(rows[14], make_row(15));
}

#[test]
fn absent_page_reads_as_zero_row() {
    let pager = Pager::new();
    let row = pager.get_row(3, 5);
    assert_eq!(row, Row::new(0, [0; 32], [0; 255]));
    assert_eq!(row, Row::empty());
    let short = Pager::open(&make_row(7).serialize());
    assert_eq!(short.get_row(0, 0), make_row(7));
    assert_eq!(short.get_row(0, 1), Row::empty());
    assert_eq!(short.get_row(1, 0), Row::empty());
}

#[test]
fn pager_open_counts_partial_pages() {
    let data = vec![1u8; PAGE_SIZE + 1];
    let mut pager = Pager::open(&data);
    assert_eq!(pager.get_file_length(), PAGE_SIZE + 1);
    pager.set_row(1, 0, None);
    assert_eq!(pager.get_row(1, 0), Row::empty());
    pager.set_row(2, 3, Some(make_row(4)));
    assert_eq!(pager.get_row(2, 3), make_row(4));
    let mut image = Vec::new();
    pager.flush(0, 0, &mut image);
    assert_eq!(image, vec![1u8; ROW_SIZE]);
    let mut image = vec![9u8; 10];
    pager.flush(2, 3, &mut image);
    assert_eq!(image.len(), 2 * PAGE_SIZE + 4 * ROW_SIZE);
    assert_eq!(&image[..10], &[9u8; 10]);
    assert!(image[10..2 * PAGE_SIZE + 3 * ROW_SIZE].iter().all(|b| *b == 0));
    assert_eq!(&image[2 * PAGE_SIZE + 3 * ROW_SIZE..], &make_row(4).serialize()[..]);
}

#[test]
fn insert_without_row_stores_zero_row() {
    let mut table = Table::new();
    table.insert(&Statement::select()).unwrap();
    assert_eq!(scan(&mut table), vec![Row::empty()]);
}
