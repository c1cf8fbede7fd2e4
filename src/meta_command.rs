use vstd::prelude::*;
use vstd::string::StrSliceExecFns;
use vstd::utf8::encode_utf8;

use crate::input_buffer::{trimmed_end, InputBuffer};
use crate::page::{inserted_view, Table};
use crate::pager::TABLE_MAX_ROWS;
use crate::row::{lemma_round_trip, zero_bytes, Row, RowView, COLUMN_EMAIL_SIZE, COLUMN_USERNAME_SIZE};

verus! {

/// Everything that a command can fail with.
#[derive(Debug, Clone, Copy, PartialEq, Eq, Structural)]
pub enum CommandError {
    PrepareSyntaxError,
    PrepareStringTooLong,
    PrepareNegativeId,
    PrepareUnrecognizedStatement,
    ExecuteTableFull,
    MetaCommandUnrecognizedCommand,
    BufferInputError,
    RecordDecodeError,
}

impl CommandError {
    /// The text shown to the user for this error.
    pub fn message(&self) -> (r: &'static str)
        ensures
            *self == CommandError::PrepareSyntaxError ==> r@ == "Syntax error. Could not parse statement."@,
            *self == CommandError::PrepareStringTooLong ==> r@ == "String is too long."@,
            *self == CommandError::PrepareNegativeId ==> r@ == "ID must be positive."@,
            *self == CommandError::PrepareUnrecognizedStatement ==> r@ == "Unrecognized keyword at start of 'statement'."@,
            *self == CommandError::ExecuteTableFull ==> r@ == "Error: Table full."@,
            *self == CommandError::MetaCommandUnrecognizedCommand ==> r@ == "Unrecognized command 'command'."@,
            *self == CommandError::BufferInputError ==> r@ == "Error reading input."@,
            *self == CommandError::RecordDecodeError ==> r@ == "Error: record is too short to decode."@,
    {
        match self {
            CommandError::PrepareSyntaxError => "Syntax error. Could not parse statement.",
            CommandError::PrepareStringTooLong => "String is too long.",
            CommandError::PrepareNegativeId => "ID must be positive.",
            CommandError::PrepareUnrecognizedStatement => "Unrecognized keyword at start of 'statement'.",
            CommandError::ExecuteTableFull => "Error: Table full.",
            CommandError::MetaCommandUnrecognizedCommand => "Unrecognized command 'command'.",
            CommandError::BufferInputError => "Error reading input.",
            CommandError::RecordDecodeError => "Error: record is too short to decode.",
        }
    }
}

/// The two kinds of statement.
#[derive(Debug, Copy, Clone, PartialEq, Eq, Structural)]
pub enum StatementType {
    StatementInsert,
    StatementSelect,
}

/// A prepared statement: its kind, and for an insert the row to store.
pub struct Statement {
    statement_type: StatementType,
    row_to_insert: Option<Row>,
}

impl Statement {
    pub closed spec fn kind(&self) -> StatementType {
        self.statement_type
    }

    /// The row that an insert stores.
    pub closed spec fn row(&self) -> Option<Row> {
        self.row_to_insert
    }

    pub fn new(statement_type: StatementType, row_to_insert: Row) -> (r: Self)
        ensures
            r.kind() == statement_type,
            r.row() == Some(row_to_insert),
    {
        Self { statement_type, row_to_insert: Some(row_to_insert) }
    }

    /// A select statement, which carries no row.
    pub fn select() -> (r: Self)
        ensures
            r.kind() == StatementType::StatementSelect,
            r.row() == None::<Row>,
    {
        Self { statement_type: StatementType::StatementSelect, row_to_insert: None }
    }

    pub fn get_statement_type(&self) -> (r: StatementType)
        ensures
            r == self.kind(),
    {
        self.statement_type
    }

    pub fn get_row_to_insert(&self) -> (r: Option<Row>)
        ensures
            r == self.row(),
    {
        self.row_to_insert
    }
}

/// Whether `s` begins with `p`.
pub open spec fn has_prefix(s: Seq<char>, p: Seq<char>) -> bool {
    p.len() <= s.len() && s.subrange(0, p.len() as int) == p
}

/// Relies on `str::starts_with` with a string pattern: true exactly when the
/// pattern is a prefix of the string.
#[verifier::external_body]
fn starts_with(s: &str, p: &str) -> (r: bool)
    ensures
        r == has_prefix(s@, p@),
{
    s.starts_with(p)
}

/// The value of a string of decimal digits.
pub open spec fn digits_value(s: Seq<char>) -> int
    decreases s.len(),
{
    if s.len() == 0 {
        0
    } else {
        digits_value(s.drop_last()) * 10 + (s.last() as int - '0' as int)
    }
}

/// What parsing `s` as a `u32` gives: an optional `+` sign and then one or
/// more decimal digits whose value fits in 32 bits.
pub open spec fn parse_u32_of(s: Seq<char>) -> Option<u32> {
    let d = if s.len() > 0 && s[0] == '+' {
        s.drop_first()
    } else {
        s
    };
    if d.len() > 0 && (forall|i: int| 0 <= i < d.len() ==> '0' <= #[trigger] d[i] && d[i] <= '9')
        && digits_value(d) <= u32::MAX {
        Some(digits_value(d) as u32)
    } else {
        None
    }
}

/// Relies on `u32`'s `FromStr`: an optional `+` followed by decimal digits,
/// with no other character, whose value fits; anything else is an error.
#[verifier::external_body]
fn parse_u32(s: &str) -> (r: Option<u32>)
    ensures
        r == parse_u32_of(s@),
{
    s.parse::<u32>().ok()
}

/// The tokens that `scan_fmt::parse::scan` extracts from `input` by the
/// insert format `"insert {} {} {}"`.
pub uninterp spec fn scanned(input: Seq<char>) -> Seq<Seq<char>>;

/// Relies on `scan_fmt::parse::scan` with the insert format: the tokens that
/// it extracts, in order.
#[verifier::external_body]
fn scan_tokens(input: &str) -> (r: Vec<String>)
    ensures
        r@.map_values(|t: String| t@) == scanned(input@),
{
    scan_fmt::parse::scan(input, "insert {} {} {}").collect()
}

/// Whether `s` is one or more decimal digits.
pub open spec fn is_digits(s: Seq<char>) -> bool {
    s.len() > 0 && forall|i: int| 0 <= i < s.len() ==> '0' <= #[trigger] s[i] && s[i] <= '9'
}

/// Whether `s` is a minus sign followed by one or more decimal digits.
pub open spec fn is_negative_number(s: Seq<char>) -> bool {
    s.len() > 0 && s[0] == '-' && is_digits(s.drop_first())
}

/// Tells whether `s` is a minus sign followed by one or more decimal digits.
fn negative_number(s: &str) -> (r: bool)
    ensures
        r == is_negative_number(s@),
{
    let n = s.unicode_len();
    if n < 2 || s.get_char(0) != '-' {
        return false;
    }
    let mut i: usize = 1;
    while i < n
        invariant
            n == s@.len(),
            1 <= i <= n,
            s@[0] == '-',
            forall|k: int| 1 <= k < i ==> '0' <= #[trigger] s@[k] && s@[k] <= '9',
        decreases n - i,
    {
        let c = s.get_char(i);
        if c < '0' || c > '9' {
            assert(!('0' <= s@.drop_first()[i - 1] && s@.drop_first()[i - 1] <= '9'));
            return false;
        }
        i = i + 1;
    }
    assert forall|k: int| 0 <= k < s@.drop_first().len() implies '0' <= #[trigger] s@.drop_first()[k]
        && s@.drop_first()[k] <= '9' by {
        assert(s@.drop_first()[k] == s@[k + 1]);
    }
    true
}

/// `b` zero-filled up to `n` bytes.
pub open spec fn padded(b: Seq<u8>, n: nat) -> Seq<u8> {
    b + zero_bytes((n - b.len()) as nat)
}

/// The row that the tokens of an insert describe: an id, a username and an
/// email, the first a `u32` and the others non-empty and within their
/// fields' capacity. An id written as a negative number has its own error.
pub open spec fn insert_fields(tokens: Seq<Seq<char>>) -> Result<RowView, CommandError> {
    if tokens.len() < 3 || (parse_u32_of(tokens[0]) is None && !is_negative_number(tokens[0]))
        || tokens[1].len() == 0 || tokens[2].len() == 0 {
        Err(CommandError::PrepareSyntaxError)
    } else if is_negative_number(tokens[0]) {
        Err(CommandError::PrepareNegativeId)
    } else if encode_utf8(tokens[1]).len() > COLUMN_USERNAME_SIZE || encode_utf8(tokens[2]).len()
        > COLUMN_EMAIL_SIZE {
        Err(CommandError::PrepareStringTooLong)
    } else {
        Ok(
            RowView {
                id: parse_u32_of(tokens[0])->Some_0,
                username: padded(encode_utf8(tokens[1]), COLUMN_USERNAME_SIZE as nat),
                email: padded(encode_utf8(tokens[2]), COLUMN_EMAIL_SIZE as nat),
            },
        )
    }
}

/// `r` is the statement that `fields` describe: an insert of that row, or
/// the same error.
pub open spec fn is_insert_of(r: Result<Statement, CommandError>, fields: Result<RowView, CommandError>) -> bool {
    match fields {
        Ok(rv) => r is Ok && r->Ok_0.kind() == StatementType::StatementInsert && r->Ok_0.row() is Some
            && r->Ok_0.row()->Some_0@ == rv,
        Err(e) => r == Err::<Statement, CommandError>(e),
    }
}

/// Copies `src` into the front of a zeroed field of `N` bytes.
fn fill_field<const N: usize>(src: &[u8]) -> (r: [u8; N])
    requires
        src@.len() <= N,
    ensures
        r@ == padded(src@, N as nat),
{
    let mut field = [0u8; N];
    let mut i: usize = 0;
    while i < src.len()
        invariant
            src@.len() <= N,
            field@.len() == N,
            i <= src@.len(),
            forall|k: int| 0 <= k < i ==> field@[k] == src@[k],
            forall|k: int| src@.len() <= k < N ==> field@[k] == 0u8,
        decreases src@.len() - i,
    {
        field[i] = src[i];
        i = i + 1;
    }
    assert(field@ =~= padded(src@, N as nat));
    field
}

/// Builds the insert statement that the scanned tokens describe.
pub fn statement_from_tokens(tokens: &Vec<String>) -> (r: Result<Statement, CommandError>)
    ensures
        is_insert_of(r, insert_fields(tokens@.map_values(|t: String| t@))),
{
    let ghost ts = tokens@.map_values(|t: String| t@);
    if tokens.len() < 3 {
        return Err(CommandError::PrepareSyntaxError);
    }
    assert(ts[0] == tokens@[0]@ && ts[1] == tokens@[1]@ && ts[2] == tokens@[2]@);
    let parsed = parse_u32(tokens[0].as_str());
    let negative = negative_number(tokens[0].as_str());
    if (parsed.is_none() && !negative) || tokens[1].as_str().is_empty()
        || tokens[2].as_str().is_empty() {
        return Err(CommandError::PrepareSyntaxError);
    }
    if negative {
        return Err(CommandError::PrepareNegativeId);
    }
    let id = match parsed {
        Some(v) => v,
        None => return Err(CommandError::PrepareSyntaxError),
    };
    let username = tokens[1].as_str().as_bytes();
    let email = tokens[2].as_str().as_bytes();
    if username.len() > COLUMN_USERNAME_SIZE || email.len() > COLUMN_EMAIL_SIZE {
        return Err(CommandError::PrepareStringTooLong);
    }
    let username_field: [u8; COLUMN_USERNAME_SIZE] = fill_field(username);
    let email_field: [u8; COLUMN_EMAIL_SIZE] = fill_field(email);
    Ok(
        Statement {
            statement_type: StatementType::StatementInsert,
            row_to_insert: Some(Row::new(id, username_field, email_field)),
        },
    )
}

/// Parses a line: an insert with its three fields, or a select.
pub fn parse_statement(buffer: &InputBuffer) -> (r: Result<Statement, CommandError>)
    ensures
        ({
            let c = trimmed_end(buffer.buffer@);
            &&& has_prefix(c, "insert"@) ==> is_insert_of(r, insert_fields(scanned(c)))
            &&& !has_prefix(c, "insert"@) && has_prefix(c, "select"@) ==> r is Ok && r->Ok_0.kind()
                == StatementType::StatementSelect && r->Ok_0.row() is None
            &&& !has_prefix(c, "insert"@) && !has_prefix(c, "select"@) ==> r == Err::<
                Statement,
                CommandError,
            >(CommandError::PrepareUnrecognizedStatement)
        }),
{
    let command = buffer.get_buffer();
    if starts_with(command, "insert") {
        let tokens = scan_tokens(command);
        statement_from_tokens(&tokens)
    } else if starts_with(command, "select") {
        Ok(Statement::select())
    } else {
        Err(CommandError::PrepareUnrecognizedStatement)
    }
}

/// Handles a meta command: `.exit` asks to end the session, anything else is
/// unrecognized.
pub fn do_meta_command(input_buffer: &InputBuffer) -> (r: Result<(), CommandError>)
    ensures
        r is Ok <==> trimmed_end(input_buffer.buffer@) == ".exit"@,
        r is Err ==> r == Err::<(), CommandError>(CommandError::MetaCommandUnrecognizedCommand),
{
    let command = input_buffer.get_buffer();
    proof {
        assert(command@.subrange(0, command@.len() as int) =~= command@);
    }
    if starts_with(command, ".exit") && starts_with(".exit", command) {
        assert(command@ =~= ".exit"@);
        Ok(())
    } else {
        Err(CommandError::MetaCommandUnrecognizedCommand)
    }
}

/// Runs a statement against the table. An insert gives back the row it
/// stored, a select every row in order.
pub fn execute_statement(statement: &Statement, table: &mut Table) -> (r: Result<Vec<Row>, CommandError>)
    requires
        old(table).wf(),
    ensures
        final(table).wf(),
        statement.kind() == StatementType::StatementInsert ==> {
            &&& old(table)@.len() >= TABLE_MAX_ROWS ==> r == Err::<Vec<Row>, CommandError>(
                CommandError::ExecuteTableFull,
            ) && *final(table) == *old(table)
            &&& old(table)@.len() < TABLE_MAX_ROWS ==> r is Ok && r->Ok_0@.map_values(|x: Row| x@)
                == seq![inserted_view(statement.row())] && final(table)@ == old(table)@.push(
                inserted_view(statement.row()),
            )
        },
        statement.kind() == StatementType::StatementSelect ==> r is Ok && r->Ok_0@.map_values(
            |x: Row| x@,
        ) == old(table)@ && final(table)@ == old(table)@,
{
    match statement.get_statement_type() {
        StatementType::StatementInsert => {
            match table.insert(statement) {
                Ok(()) => {
                    let stored = match statement.get_row_to_insert() {
                        Some(row) => row,
                        None => Row::empty(),
                    };
                    let rows = vec![stored];
                    assert(rows@.map_values(|x: Row| x@) =~= seq![inserted_view(statement.row())]);
                    Ok(rows)
                },
                Err(e) => Err(e),
            }
        },
        StatementType::StatementSelect => table.select(statement),
    }
}

/// What a query asks of the caller once it has run.
pub enum QueryOutcome {
    /// End the session.
    Exit,
    /// Show these rows.
    Rows(Vec<Row>),
}

/// Runs one line of input: a meta command when it begins with `.`, a
/// statement otherwise.
pub fn execute_query(buffer: &InputBuffer, table: &mut Table) -> (r: Result<QueryOutcome, CommandError>)
    requires
        old(table).wf(),
    ensures
        final(table).wf(),
        ({
            let c = trimmed_end(buffer.buffer@);
            let fields = insert_fields(scanned(c));
            let rows_are = |rs: Seq<RowView>|
                r is Ok && r->Ok_0 is Rows && r->Ok_0->Rows_0@.map_values(|x: Row| x@) == rs;
            &&& has_prefix(c, "."@) ==> *final(table) == *old(table) && (c == ".exit"@ ==> r is Ok
                && r->Ok_0 is Exit) && (c != ".exit"@ ==> r == Err::<QueryOutcome, CommandError>(
                CommandError::MetaCommandUnrecognizedCommand,
            ))
            &&& !has_prefix(c, "."@) && has_prefix(c, "insert"@) && fields is Err ==> *final(table)
                == *old(table) && r == Err::<QueryOutcome, CommandError>(fields->Err_0)
            &&& !has_prefix(c, "."@) && has_prefix(c, "insert"@) && fields is Ok && old(table)@.len()
                >= TABLE_MAX_ROWS ==> *final(table) == *old(table) && r == Err::<
                QueryOutcome,
                CommandError,
            >(CommandError::ExecuteTableFull)
            &&& !has_prefix(c, "."@) && has_prefix(c, "insert"@) && fields is Ok && old(table)@.len()
                < TABLE_MAX_ROWS ==> rows_are(seq![fields->Ok_0]) && final(table)@ == old(
                table,
            )@.push(fields->Ok_0)
            &&& !has_prefix(c, "."@) && !has_prefix(c, "insert"@) && has_prefix(c, "select"@)
                ==> rows_are(old(table)@) && final(table)@ == old(table)@
            &&& !has_prefix(c, "."@) && !has_prefix(c, "insert"@) && !has_prefix(c, "select"@)
                ==> *final(table) == *old(table) && r == Err::<QueryOutcome, CommandError>(
                CommandError::PrepareUnrecognizedStatement,
            )
        }),
{
    if starts_with(buffer.get_buffer(), ".") {
        return match do_meta_command(buffer) {
            Ok(()) => Ok(QueryOutcome::Exit),
            Err(e) => Err(e),
        };
    }
    match parse_statement(buffer) {
        Ok(statement) => {
            proof {
                match statement.row() {
                    Some(x) => lemma_round_trip(x@),
                    None => {},
                }
            }
            match execute_statement(&statement, table) {
                Ok(rows) => Ok(QueryOutcome::Rows(rows)),
                Err(e) => Err(e),
            }
        },
        Err(e) => Err(e),
    }
}

} // verus!
