use std::str::FromStr;

use sqlite_rust::input_buffer::InputBuffer;
use sqlite_rust::meta_command::{
    do_meta_command, execute_query, execute_statement, parse_statement, statement_from_tokens,
    CommandError, QueryOutcome, Statement, StatementType,
};
use sqlite_rust::page::{Row, Table};
use sqlite_rust::row::{COLUMN_EMAIL_SIZE, COLUMN_USERNAME_SIZE};

fn run(table: &mut Table, line: &str) -> Result<QueryOutcome, CommandError> {
    let buffer = InputBuffer::from_str(line).unwrap();
    execute_query(&buffer, table)
}

fn rows_of(outcome: QueryOutcome) -> Vec<Row> {
    match outcome {
        QueryOutcome::Rows(rows) => rows,
        QueryOutcome::Exit => panic!("expected rows"),
    }
}

fn text(bytes: &[u8]) -> String {
    String::from_utf8(bytes.iter().cloned().take_while(|b| *b != 0).collect()).unwrap()
}

#[test]
fn test_input_buffer_from_str() {
    let input_buffer = InputBuffer::from_str("insert 1 user1 email1").unwrap();
    assert_eq!(input_buffer.buffer, "insert 1 user1 email1");
    assert_eq!(input_buffer.buffer_length, 21);
    assert_eq!(input_buffer.input_length, 21);
}

#[test]
fn test_main() {
    let mut table = Table::new();
    let script = ["insert 1 user1 email1", "insert 2 user2 email2", "select", ".exit"];
    let mut outcomes = Vec::new();
    for line in script.iter() {
        let mut buffer = InputBuffer::new();
        buffer.read_input(line);
        outcomes.push(execute_query(&buffer, &mut table).unwrap());
    }
    assert!(matches!(outcomes[3], QueryOutcome::Exit));
    assert_eq!(table.num_rows(), 2);
}

#[test]
fn test_query_setup() {
    let query_list = ["insert 1 user1 email1", "select", ".exit"];
    let mut table = Table::new();
    for query in query_list.iter() {
        let buffer = InputBuffer::from_str(query).unwrap();
        execute_query(&buffer, &mut table).unwrap();
    }
}

#[test]
fn test_query_insert() {
    let mut table = Table::new();
    for i in 1..1000 {
        let query = format!("insert {} user{} email{}", i, i, i);
        let buffer = InputBuffer::from_str(query.as_str()).unwrap();
        execute_query(&buffer, &mut table).unwrap();
    }
}

#[test]
fn test_query_insert_maximum() {
    let long_username = "a".repeat(COLUMN_USERNAME_SIZE + 1);
    let long_email = "a".repeat(COLUMN_EMAIL_SIZE + 1);
    let query = format!("insert {} {} {}", 1, long_username.as_str(), long_email.as_str());
    let buffer = InputBuffer::from_str(query.as_str()).unwrap();
    let mut table = Table::new();
    let _ = execute_query(&buffer, &mut table);
}

#[test]
fn too_long_fields_are_rejected() {
    let mut table = Table::new();
    let long_username = "a".repeat(COLUMN_USERNAME_SIZE + 1);
    let line = format!("insert 1 {} e", long_username);
    assert_eq!(run(&mut table, &line).err(), Some(CommandError::PrepareStringTooLong));
    let long_email = "a".repeat(COLUMN_EMAIL_SIZE + 1);
    let line = format!("insert 1 u {}", long_email);
    assert_eq!(run(&mut table, &line).err(), Some(CommandError::PrepareStringTooLong));
    assert_eq!(table.num_rows(), 0);
    let exact = format!("insert 1 {} {}", "u".repeat(32), "e".repeat(255));
    assert!(run(&mut table, &exact).is_ok());
    assert_eq!(table.num_rows(), 1);
}

#[test]
fn insert_then_select_through_queries() {
    let mut table = Table::new();
    let inserted = rows_of(run(&mut table, "insert 7 alice alice@example.com").unwrap());
    assert_eq!(inserted.len(), 1);
    assert_eq!(inserted[0].id, 7);
    assert_eq!(text(&inserted[0].username), "alice");
    assert_eq!(text(&inserted[0].email), "alice@example.com");
    run(&mut table, "insert +8 bob bob@example.com").unwrap();
    let rows = rows_of(run(&mut table, "select").unwrap());
    assert_eq!(rows.len(), 2);
    assert_eq!(rows[0], inserted[0]);
    assert_eq!(rows[1].id, 8);
    assert_eq!(text(&rows[1].username), "bob");
}

#[test]
fn syntax_errors() {
    let mut table = Table::new();
    for line in ["insert", "insert 1 user", "insert x user email", "insert -x user email", "insert 4294967296 u e"] {
        assert_eq!(run(&mut table, line).err(), Some(CommandError::PrepareSyntaxError), "{}", line);
    }
    assert_eq!(table.num_rows(), 0);
}

#[test]
fn negative_id_is_rejected() {
    let mut table = Table::new();
    for line in ["insert -1 user1 email1", "insert -42 u e"] {
        assert_eq!(run(&mut table, line).err(), Some(CommandError::PrepareNegativeId), "{}", line);
    }
    assert_eq!(run(&mut table, "insert - u e").err(), Some(CommandError::PrepareSyntaxError));
    assert_eq!(table.num_rows(), 0);
}

#[test]
fn largest_id_is_accepted() {
    let mut table = Table::new();
    let rows = rows_of(run(&mut table, "insert 4294967295 u e").unwrap());
    assert_eq!(rows[0].id, u32::MAX);
}

#[test]
fn unrecognized_statement_and_meta_command() {
    let mut table = Table::new();
    assert_eq!(run(&mut table, "update 1").err(), Some(CommandError::PrepareUnrecognizedStatement));
    assert_eq!(run(&mut table, ".tables").err(), Some(CommandError::MetaCommandUnrecognizedCommand));
    assert!(matches!(run(&mut table, ".exit   \n"), Ok(QueryOutcome::Exit)));
    let buffer = InputBuffer::from_str(".exit").unwrap();
    assert_eq!(do_meta_command(&buffer), Ok(()));
    let buffer = InputBuffer::from_str(".exitnow").unwrap();
    assert_eq!(do_meta_command(&buffer), Err(CommandError::MetaCommandUnrecognizedCommand));
}

#[test]
fn full_table_reports_table_full() {
    let mut table = Table::new();
    for i in 0..1400 {
        run(&mut table, &format!("insert {} u e", i)).unwrap();
    }
    assert_eq!(run(&mut table, "insert 1 u e").err(), Some(CommandError::ExecuteTableFull));
    assert_eq!(table.num_rows(), 1400);
    assert_eq!(CommandError::ExecuteTableFull.message(), "Error: Table full.");
}

#[test]
fn input_is_trimmed_and_lowered() {
    let buffer = InputBuffer::from_str("select   \n").unwrap();
    assert_eq!(buffer.buffer_length, 10);
    assert_eq!(buffer.input_length, 6);
    assert_eq!(buffer.get_buffer(), "select");
    let mut read = InputBuffer::new();
    read.read_input("SELECT Now\n");
    assert_eq!(read.buffer, "select now\n");
    assert_eq!(read.get_buffer(), "select now");
    read.read_input("insert 1 a b");
    assert_eq!(read.buffer, "select now\n");
}

#[test]
fn parse_statement_kinds() {
    let buffer = InputBuffer::from_str("select").unwrap();
    let statement = parse_statement(&buffer).unwrap();
    assert_eq!(statement.get_statement_type(), StatementType::StatementSelect);
    assert!(statement.get_row_to_insert().is_none());
    let buffer = InputBuffer::from_str("insert 3 c d").unwrap();
    let statement = parse_statement(&buffer).unwrap();
    assert_eq!(statement.get_statement_type(), StatementType::StatementInsert);
    let row = statement.get_row_to_insert().unwrap();
    assert_eq!(row.id, 3);
    assert_eq!(text(&row.username), "c");
    assert_eq!(text(&row.email), "d");
}

#[test]
fn statement_from_scanned_tokens() {
    let tokens = vec!["12".to_string(), "name".to_string(), "mail".to_string()];
    let statement = statement_from_tokens(&tokens).unwrap();
    let row = statement.get_row_to_insert().unwrap();
    assert_eq!(row.id, 12);
    assert_eq!(text(&row.username), "name");
    let short = vec!["12".to_string(), "name".to_string()];
    assert_eq!(statement_from_tokens(&short).err(), Some(CommandError::PrepareSyntaxError));
    let empty = vec!["12".to_string(), "".to_string(), "mail".to_string()];
    assert_eq!(statement_from_tokens(&empty).err(), Some(CommandError::PrepareSyntaxError));
}

#[test]
fn execute_statement_runs_both_kinds() {
    let mut table = Table::new();
    let row = Row::new(5, [b'x'; 32], [b'y'; 255]);
    let inserted = execute_statement(&Statement::new(StatementType::StatementInsert, row), &mut table).unwrap();
    assert_eq!(inserted, vec![row]);
    let all = execute_statement(&Statement::select(), &mut table).unwrap();
    assert_eq!(all, vec![row]);
}

#[test]
fn error_messages() {
    assert_eq!(CommandError::PrepareSyntaxError.message(), "Syntax error. Could not parse statement.");
    assert_eq!(CommandError::PrepareStringTooLong.message(), "String is too long.");
    assert_eq!(CommandError::RecordDecodeError.message(), "Error: record is too short to decode.");
}
