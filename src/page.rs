use vstd::prelude::*;

use crate::meta_command::{CommandError, Statement};
use crate::pager::{
    file_byte, lemma_layout, slot_start, Pager, PAGE_SIZE, ROWS_PER_PAGE,
    TABLE_MAX_PAGES, TABLE_MAX_ROWS,
};
pub use crate::row::Row;
use crate::row::{decode_row, lemma_round_trip, zero_bytes, RowView, ROW_SIZE};

verus! {

/// Page that row `n` lives in.
pub open spec fn page_of(n: int) -> int {
    n / ROWS_PER_PAGE as int
}

/// Position of row `n` within its page.
pub open spec fn offset_of(n: int) -> int {
    n % ROWS_PER_PAGE as int
}

/// Offset within the backing file at which row `n` begins.
pub open spec fn row_start(n: int) -> int {
    slot_start(page_of(n), offset_of(n))
}

/// Length of the backing file that holds `n` rows: it ends where the last
/// row ends.
pub open spec fn image_len(n: nat) -> nat {
    if n == 0 {
        0
    } else {
        (row_start(n - 1) + ROW_SIZE) as nat
    }
}

/// The number of rows that a backing file of `len` bytes holds: fourteen for
/// each whole page, and one for each whole `ROW_SIZE` in the last, partial
/// page.
pub open spec fn rows_in_len(len: nat) -> nat {
    ((len / PAGE_SIZE as nat) * ROWS_PER_PAGE as nat + (len % PAGE_SIZE as nat) / ROW_SIZE as nat) as nat
}

/// The rows that a backing file with contents `s` holds, each read at its
/// place in its page.
pub open spec fn file_rows(s: Seq<u8>) -> Seq<RowView> {
    Seq::new(
        rows_in_len(s.len()),
        |i: int| decode_row(Seq::new(ROW_SIZE as nat, |k: int| file_byte(s, row_start(i) + k))),
    )
}

/// The row that an insert of `row` appends.
pub open spec fn inserted_view(row: Option<Row>) -> RowView {
    match row {
        Some(r) => r@,
        None => decode_row(zero_bytes(ROW_SIZE as nat)),
    }
}

/// The rows of a table after each of `rows` is inserted in turn, starting
/// from `start`.
pub open spec fn after_inserts(start: Seq<RowView>, rows: Seq<Option<Row>>) -> Seq<RowView>
    decreases rows.len(),
{
    if rows.len() == 0 {
        start
    } else {
        after_inserts(start, rows.drop_last()).push(inserted_view(rows.last()))
    }
}

/// One insert on a table whose rows are `v`: the rows afterwards, and the
/// result; a full table is left as it is.
pub open spec fn insert_step(v: Seq<RowView>, row: Option<Row>) -> (Seq<RowView>, Result<(), CommandError>) {
    if v.len() >= TABLE_MAX_ROWS {
        (v, Err(CommandError::ExecuteTableFull))
    } else {
        (v.push(inserted_view(row)), Ok(()))
    }
}

/// Each insert adds one row.
proof fn lemma_after_inserts_len(start: Seq<RowView>, rows: Seq<Option<Row>>)
    ensures
        after_inserts(start, rows).len() == start.len() + rows.len(),
    decreases rows.len(),
{
    if rows.len() > 0 {
        lemma_after_inserts_len(start, rows.drop_last());
    }
}

/// Starting from an empty table, each of `TABLE_MAX_ROWS` inserts succeeds;
/// the table is then full, and one insert more reports `ExecuteTableFull`
/// and leaves the rows as they are.
pub proof fn lemma_capacity(rows: Seq<Option<Row>>, extra: Option<Row>)
    requires
        rows.len() == TABLE_MAX_ROWS,
    ensures
        forall|i: int|
            0 <= i < rows.len() ==> (#[trigger] insert_step(after_inserts(Seq::empty(), rows.take(i)), rows[i])).1
                is Ok,
        forall|i: int|
            0 <= i < rows.len() ==> (#[trigger] insert_step(after_inserts(Seq::empty(), rows.take(i)), rows[i])).0
                == after_inserts(Seq::empty(), rows.take(i + 1)),
        after_inserts(Seq::empty(), rows).len() == TABLE_MAX_ROWS,
        insert_step(after_inserts(Seq::empty(), rows), extra) == (
            after_inserts(Seq::empty(), rows),
            Err::<(), CommandError>(CommandError::ExecuteTableFull),
        ),
{
    assert forall|i: int| 0 <= i < rows.len() implies (#[trigger] insert_step(
        after_inserts(Seq::empty(), rows.take(i)),
        rows[i],
    )).1 is Ok && insert_step(after_inserts(Seq::empty(), rows.take(i)), rows[i]).0 == after_inserts(
        Seq::empty(),
        rows.take(i + 1),
    ) by {
        lemma_after_inserts_len(Seq::empty(), rows.take(i));
        assert(rows.take(i + 1).drop_last() =~= rows.take(i));
    }
    lemma_after_inserts_len(Seq::empty(), rows);
}

/// Row numbers below the capacity map to a page inside the store, and to a
/// slot that lies wholly inside that page; the mapping takes the row back.
pub proof fn lemma_row_addressing(n: int)
    requires
        0 <= n < TABLE_MAX_ROWS,
    ensures
        0 <= page_of(n) < TABLE_MAX_PAGES,
        0 <= offset_of(n) < ROWS_PER_PAGE,
        page_of(n) * ROWS_PER_PAGE + offset_of(n) == n,
        offset_of(n) * ROW_SIZE + ROW_SIZE <= PAGE_SIZE,
{
    lemma_layout();
}

/// Byte `k` of slot `o` of page `p` lies in page `p`, in slot `o`, at
/// position `k`.
proof fn lemma_in_slot(p: int, o: int, k: int)
    requires
        0 <= p,
        0 <= o < ROWS_PER_PAGE,
        0 <= k < ROW_SIZE,
    ensures
        (slot_start(p, o) + k) / PAGE_SIZE as int == p,
        (slot_start(p, o) + k) % PAGE_SIZE as int == o * ROW_SIZE + k,
        (o * ROW_SIZE + k) / ROW_SIZE as int == o,
        (o * ROW_SIZE + k) % ROW_SIZE as int == k,
{
    lemma_layout();
    vstd::arithmetic::div_mod::lemma_fundamental_div_mod_converse(
        slot_start(p, o) + k,
        PAGE_SIZE as int,
        p,
        o * ROW_SIZE + k,
    );
    vstd::arithmetic::div_mod::lemma_fundamental_div_mod_converse(o * ROW_SIZE + k, ROW_SIZE as int, o, k);
}

/// A file that ends where row `n - 1` ends holds `n` rows.
proof fn lemma_rows_in_image(n: nat)
    ensures
        rows_in_len(image_len(n)) == n,
{
    lemma_layout();
    if n > 0 {
        let i = n - 1;
        let p = page_of(i);
        let o = offset_of(i);
        lemma_row_addressing_any(i);
        vstd::arithmetic::div_mod::lemma_fundamental_div_mod_converse(
            image_len(n) as int,
            PAGE_SIZE as int,
            p,
            (o + 1) * ROW_SIZE,
        );
        vstd::arithmetic::div_mod::lemma_fundamental_div_mod_converse(
            (o + 1) * ROW_SIZE,
            ROW_SIZE as int,
            o + 1,
            0,
        );
    }
}

/// Every row number splits into its page and its offset.
proof fn lemma_row_addressing_any(n: int)
    requires
        0 <= n,
    ensures
        0 <= page_of(n),
        0 <= offset_of(n) < ROWS_PER_PAGE,
        page_of(n) * ROWS_PER_PAGE + offset_of(n) == n,
{
    lemma_layout();
}

/// Consecutive rows do not overlap: row `n` ends no later than row `n + 1`
/// begins.
proof fn lemma_row_order(n: int)
    requires
        0 <= n,
    ensures
        row_start(n) + ROW_SIZE <= row_start(n + 1),
{
    lemma_layout();
}

/// Distinct rows lie in distinct slots.
proof fn lemma_slots_distinct(a: int, b: int)
    requires
        0 <= a,
        0 <= b,
        a != b,
    ensures
        page_of(a) != page_of(b) || offset_of(a) != offset_of(b),
{
    lemma_layout();
}

/// Every row before the `n`-th ends inside a file of `image_len(n)` bytes.
proof fn lemma_rows_inside_image(i: int, n: nat)
    requires
        0 <= i < n,
    ensures
        row_start(i) + ROW_SIZE <= image_len(n),
    decreases n - i,
{
    if i < n - 1 {
        lemma_row_order(i);
        lemma_rows_inside_image(i + 1, n);
    }
}

/// Inserting rows one after another and then scanning gives back exactly
/// those rows, in the order in which they were inserted.
pub proof fn lemma_scan_order(rows: Seq<Row>)
    ensures
        after_inserts(Seq::empty(), rows.map_values(|r: Row| Some(r))) == rows.map_values(|r: Row| r@),
    decreases rows.len(),
{
    let opts = rows.map_values(|r: Row| Some(r));
    if rows.len() > 0 {
        lemma_scan_order(rows.drop_last());
        assert(opts.drop_last() =~= rows.drop_last().map_values(|r: Row| Some(r)));
    }
    assert(after_inserts(Seq::empty(), opts) =~= rows.map_values(|r: Row| r@));
}

/// The table: one page store and the number of rows stored in it.
pub struct Table {
    pager: Pager,
    num_rows: usize,
}

impl Table {
    pub closed spec fn wf(&self) -> bool {
        &&& self.pager.wf()
        &&& self.num_rows <= TABLE_MAX_ROWS
    }

    /// Row `n` as it reads from the pages, whether or not it was written.
    pub closed spec fn row_at(&self, n: int) -> RowView {
        decode_row(self.pager.slot(page_of(n), offset_of(n)))
    }

    /// Byte `x` of the backing file that this table is saved to: within a
    /// slot, the slot's byte; in the unused tail of a page, zero.
    pub closed spec fn image_byte(&self, x: int) -> u8 {
        let j = x % PAGE_SIZE as int;
        if j < ROWS_PER_PAGE * ROW_SIZE {
            self.pager.slot(x / PAGE_SIZE as int, j / ROW_SIZE as int)[j % ROW_SIZE as int]
        } else {
            0u8
        }
    }

    /// The first `n` bytes of the backing file that this table is saved to.
    pub closed spec fn image_prefix(&self, n: nat) -> Seq<u8> {
        Seq::new(n, |x: int| self.image_byte(x))
    }

    /// The bytes of slot `o` of page `p`.
    pub closed spec fn slot_bytes(&self, p: int, o: int) -> Seq<u8> {
        self.pager.slot(p, o)
    }

    /// Whether page `p` has been materialized.
    pub closed spec fn page_present(&self, p: int) -> bool {
        self.pager.is_present(p)
    }

    /// The whole backing file that this table is saved to.
    pub open spec fn file_image(&self) -> Seq<u8> {
        self.image_prefix(image_len(self@.len()))
    }

    /// Whether both tables read the same on every page.
    pub closed spec fn same_pages(&self, other: &Table) -> bool {
        forall|p: int| #[trigger] self.pager.page_bytes(p) == other.pager.page_bytes(p)
    }
}

impl View for Table {
    type V = Seq<RowView>;

    /// The rows stored, in row-number order.
    closed spec fn view(&self) -> Seq<RowView> {
        Seq::new(self.num_rows as nat, |i: int| self.row_at(i))
    }
}

/// Saving a table and opening the saved file gives back the same rows in the
/// same order.
pub proof fn lemma_persistence_round_trip(t: Table)
    requires
        t.wf(),
    ensures
        file_rows(t.file_image()) == t@,
{
    lemma_layout();
    let n = t@.len();
    let img = t.file_image();
    lemma_rows_in_image(n);
    assert forall|i: int| 0 <= i < n implies #[trigger] file_rows(img)[i] == t@[i] by {
        lemma_rows_inside_image(i, n);
        lemma_row_addressing(i);
        t.pager.lemma_page_len(page_of(i));
        let from_file = Seq::new(ROW_SIZE as nat, |k: int| file_byte(img, row_start(i) + k));
        let slot = t.pager.slot(page_of(i), offset_of(i));
        assert forall|k: int| 0 <= k < ROW_SIZE implies from_file[k] == slot[k] by {
            lemma_in_slot(page_of(i), offset_of(i), k);
        }
        assert(from_file =~= slot);
    }
    assert(file_rows(img) =~= t@);
}

/// A position in a table: a row number, and whether the walk is over.
pub struct Cursor {
    row_num: usize,
    end_of_table: bool,
}

impl Cursor {
    pub closed spec fn position(&self) -> nat {
        self.row_num as nat
    }

    pub closed spec fn at_end(&self) -> bool {
        self.end_of_table
    }

    /// A cursor on the first row; it is at the end at once if the table is
    /// empty.
    pub fn table_start(table: &Table) -> (r: Self)
        requires
            table.wf(),
        ensures
            r.position() == 0,
            r.at_end() == (table@.len() == 0),
    {
        let end_of_table = table.num_rows() == 0;
        Self { row_num: 0, end_of_table }
    }

    /// A cursor just past the last row.
    pub fn table_end(table: &Table) -> (r: Self)
        requires
            table.wf(),
        ensures
            r.position() == table@.len(),
            r.at_end(),
    {
        let row_num = table.num_rows();
        Self { row_num, end_of_table: true }
    }

    /// The page and the slot within it of the cursor's row; the page is
    /// materialized, so that it can be written at once.
    pub fn cursor_value(&self, table: &mut Table) -> (r: (usize, usize))
        requires
            old(table).wf(),
            self.position() < TABLE_MAX_ROWS,
        ensures
            r.0 == page_of(self.position() as int),
            r.1 == offset_of(self.position() as int),
            r.0 < TABLE_MAX_PAGES,
            r.1 < ROWS_PER_PAGE,
            final(table).wf(),
            final(table)@ == old(table)@,
            final(table).same_pages(old(table)),
            final(table).page_present(r.0 as int),
            forall|p: int| p != r.0 ==> #[trigger] final(table).page_present(p) == old(table).page_present(p),
    {
        proof {
            lemma_row_addressing(self.row_num as int);
        }
        let row_num = self.row_num;
        let page_num = row_num / ROWS_PER_PAGE;
        table.pager.get_page(page_num);
        let row_offset = row_num % ROWS_PER_PAGE;
        assert(table@ =~= old(table)@);
        (page_num, row_offset)
    }

    /// Moves to the next row; the walk is over once it passes the last row.
    pub fn cursor_advance(&mut self, table: &Table)
        requires
            old(self).position() < table@.len(),
        ensures
            final(self).position() == old(self).position() + 1,
            final(self).at_end() == (old(self).at_end() || final(self).position() >= table@.len()),
    {
        self.row_num = self.row_num + 1;
        if self.row_num >= table.num_rows() {
            self.end_of_table = true;
        }
    }

    pub fn is_end_of_table(&self) -> (r: bool)
        ensures
            r == self.at_end(),
    {
        self.end_of_table
    }

    /// Reads the row in slot `row_num` of page `page_num`.
    pub fn get_row(&self, table: &Table, page_num: usize, row_num: usize) -> (r: Result<
        Row,
        CommandError,
    >)
        requires
            table.wf(),
            page_num < TABLE_MAX_PAGES,
            row_num < ROWS_PER_PAGE,
        ensures
            r is Ok,
            r->Ok_0@ == table.row_at(page_num * ROWS_PER_PAGE + row_num),
    {
        proof {
            lemma_layout();
        }
        let row = table.pager.get_row(page_num, row_num);
        Ok(row)
    }

    /// Writes slot `row_num` of page `page_num` into `image`, the backing
    /// file's contents, at the slot's offset, extending the file with zeros up
    /// to it.
    pub fn flush(&self, table: &Table, page_num: usize, row_num: usize, image: &mut Vec<u8>)
        requires
            table.wf(),
            page_num < TABLE_MAX_PAGES,
            row_num < ROWS_PER_PAGE,
            old(image)@.len() <= slot_start(page_num as int, row_num as int),
        ensures
            final(image)@ == old(image)@ + zero_bytes(
                (slot_start(page_num as int, row_num as int) - old(image)@.len()) as nat,
            ) + table.slot_bytes(page_num as int, row_num as int),
    {
        table.pager.flush(page_num, row_num, image);
    }
}

impl Table {
    /// An empty table.
    pub fn new() -> (r: Self)
        ensures
            r.wf(),
            r@ == Seq::<RowView>::empty(),
    {
        let r = Self { pager: Pager::new(), num_rows: 0 };
        assert(r@ =~= Seq::<RowView>::empty());
        r
    }

    /// Rebuilds a table from the contents of its backing file: the file is
    /// loaded page by page; each whole page holds `ROWS_PER_PAGE` rows, and
    /// each whole `ROW_SIZE` in the last, partial page one more.
    pub fn new_from_file(contents: &[u8]) -> (r: Self)
        requires
            contents@.len() <= PAGE_SIZE * TABLE_MAX_PAGES,
        ensures
            r.wf(),
            r@ == file_rows(contents@),
    {
        proof {
            lemma_layout();
        }
        let pager = Pager::open(contents);
        let len = pager.get_file_length();
        let full_pages = len / PAGE_SIZE;
        let tail = len % PAGE_SIZE;
        assert(full_pages <= TABLE_MAX_PAGES);
        assert(full_pages == TABLE_MAX_PAGES ==> tail == 0);
        assert(tail / ROW_SIZE <= ROWS_PER_PAGE);
        let num_rows = full_pages * ROWS_PER_PAGE + tail / ROW_SIZE;
        let r = Self { pager, num_rows };
        let ghost s = contents@;
        assert forall|i: int| 0 <= i < num_rows implies #[trigger] r@[i] == file_rows(s)[i] by {
            lemma_row_addressing(i);
            let from_file = Seq::new(ROW_SIZE as nat, |k: int| file_byte(s, row_start(i) + k));
            let slot = r.pager.slot(page_of(i), offset_of(i));
            r.pager.lemma_page_len(page_of(i));
            assert forall|k: int| 0 <= k < ROW_SIZE implies from_file[k] == slot[k] by {
                assert(r.pager.page_bytes(page_of(i))[offset_of(i) * ROW_SIZE + k] == file_byte(
                    s,
                    page_of(i) * PAGE_SIZE + offset_of(i) * ROW_SIZE + k,
                ));
            }
            assert(from_file =~= slot);
        }
        assert(r@ =~= file_rows(s));
        r
    }

    pub fn num_rows(&self) -> (r: usize)
        ensures
            r == self@.len(),
    {
        self.num_rows
    }

    /// Appends the statement's row after the last one; a full table is left
    /// as it is and reports `ExecuteTableFull`.
    pub fn insert(&mut self, statement: &Statement) -> (r: Result<(), CommandError>)
        requires
            old(self).wf(),
        ensures
            final(self).wf(),
            old(self)@.len() >= TABLE_MAX_ROWS ==> r == Err::<(), CommandError>(
                CommandError::ExecuteTableFull,
            ) && *final(self) == *old(self),
            old(self)@.len() < TABLE_MAX_ROWS ==> r is Ok && final(self)@ == old(self)@.push(
                inserted_view(statement.row()),
            ),
            (final(self)@, r) == insert_step(old(self)@, statement.row()),
    {
        if self.num_rows >= TABLE_MAX_ROWS {
            return Err(CommandError::ExecuteTableFull);
        }
        let cursor = Cursor::table_end(self);
        let (page_num, row_offset) = cursor.cursor_value(self);
        let ghost before = *self;
        let row = statement.get_row_to_insert();
        self.pager.set_row(page_num, row_offset, row);
        self.num_rows = self.num_rows + 1;
        proof {
            lemma_layout();
            let n = before.num_rows as int;
            assert forall|i: int| 0 <= i < n implies #[trigger] self.row_at(i) == before.row_at(i) by {
                lemma_slots_distinct(i, n);
                lemma_row_addressing(i);
                self.pager.lemma_page_len(page_of(i));
                before.pager.lemma_page_len(page_of(i));
                assert forall|k: int| 0 <= k < ROW_SIZE implies self.pager.slot(page_of(i), offset_of(i))[k]
                    == before.pager.slot(page_of(i), offset_of(i))[k] by {
                    let j = offset_of(i) * ROW_SIZE + k;
                    if page_of(i) == page_num {
                        assert(offset_of(i) != row_offset);
                        if offset_of(i) < row_offset {
                            assert(offset_of(i) * ROW_SIZE + ROW_SIZE <= row_offset * ROW_SIZE);
                        } else {
                            let oi = offset_of(i);
                            let on = row_offset as int;
                            assert(oi * 291 >= on * 291 + 291) by (nonlinear_arith)
                                requires
                                    oi > on,
                            ;
                        }
                    }
                    assert(self.pager.page_bytes(page_of(i))[j] == before.pager.page_bytes(page_of(i))[j]);
                }
                assert(self.pager.slot(page_of(i), offset_of(i)) =~= before.pager.slot(
                    page_of(i),
                    offset_of(i),
                ));
            }
            match row {
                Some(x) => lemma_round_trip(x@),
                None => {},
            }
            assert(self@ =~= old(self)@.push(inserted_view(statement.row())));
        }
        Ok(())
    }

    /// All rows, in row-number order.
    pub fn select(&mut self, statement: &Statement) -> (r: Result<Vec<Row>, CommandError>)
        requires
            old(self).wf(),
        ensures
            final(self).wf(),
            final(self)@ == old(self)@,
            final(self).same_pages(old(self)),
            r is Ok,
            r->Ok_0@.map_values(|x: Row| x@) == old(self)@,
    {
        let mut rows: Vec<Row> = Vec::new();
        let mut cursor = Cursor::table_start(self);
        while !cursor.is_end_of_table()
            invariant
                self.wf(),
                self@ == old(self)@,
                self.same_pages(old(self)),
                cursor.position() <= self@.len(),
                cursor.at_end() == (cursor.position() >= self@.len()),
                rows@.map_values(|x: Row| x@) == self@.take(cursor.position() as int),
            decreases self@.len() - cursor.position(),
        {
            let ghost pos = cursor.position() as int;
            let (page_num, row_offset) = cursor.cursor_value(self);
            let row = match cursor.get_row(self, page_num, row_offset) {
                Ok(row) => row,
                Err(e) => return Err(e),
            };
            proof {
                lemma_row_addressing(pos);
            }
            assert(row@ == self@[pos]);
            let ghost prev = rows@;
            rows.push(row);
            assert(rows@.map_values(|x: Row| x@) =~= prev.map_values(|x: Row| x@).push(row@));
            assert(self@.take(pos + 1) =~= self@.take(pos).push(self@[pos]));
            cursor.cursor_advance(self);
            assert(rows@.map_values(|x: Row| x@) =~= self@.take(cursor.position() as int));
        }
        assert(self@.take(self@.len() as int) =~= self@);
        Ok(rows)
    }

    /// The whole backing file for this table: every row at its place in its
    /// page, the unused tail of each page zero, up to the end of the last row.
    pub fn db_close(&mut self) -> (r: Vec<u8>)
        requires
            old(self).wf(),
        ensures
            final(self).wf(),
            final(self)@ == old(self)@,
            r@ == old(self).file_image(),
    {
        let mut image: Vec<u8> = Vec::new();
        let mut cursor = Cursor::table_start(self);
        proof {
            assert(image@ =~= old(self).image_prefix(0));
        }
        while !cursor.is_end_of_table()
            invariant
                self.wf(),
                old(self).wf(),
                self@ == old(self)@,
                self.same_pages(old(self)),
                cursor.position() <= self@.len(),
                cursor.at_end() == (cursor.position() >= self@.len()),
                image@.len() == image_len(cursor.position()),
                image@ == old(self).image_prefix(image@.len()),
            decreases self@.len() - cursor.position(),
        {
            let ghost pos = cursor.position() as int;
            let ghost before = image@;
            proof {
                lemma_layout();
                lemma_row_addressing(pos);
                if pos > 0 {
                    lemma_row_order(pos - 1);
                    lemma_row_addressing_any(pos - 1);
                }
            }
            let (page_num, row_offset) = cursor.cursor_value(self);
            cursor.flush(self, page_num, row_offset, &mut image);
            cursor.cursor_advance(self);
            proof {
                let start = row_start(pos);
                let len = before.len() as int;
                lemma_layout();
                old(self).pager.lemma_page_len(page_num as int);
                self.pager.lemma_page_len(page_num as int);
                assert(image@.len() == start + ROW_SIZE);
                assert(self.slot_bytes(page_num as int, row_offset as int) == old(self).slot_bytes(
                    page_num as int,
                    row_offset as int,
                ));
                assert forall|x: int| len <= x < start implies old(self).image_byte(x) == 0u8 by {
                    // the gap only arises where row `pos` opens a new page
                    assert(offset_of(pos) == 0);
                    vstd::arithmetic::div_mod::lemma_fundamental_div_mod_converse(
                        x,
                        PAGE_SIZE as int,
                        page_of(pos) - 1,
                        x - (page_of(pos) - 1) * PAGE_SIZE,
                    );
                }
                assert forall|x: int| start <= x < start + ROW_SIZE implies old(self).image_byte(x)
                    == old(self).slot_bytes(page_num as int, row_offset as int)[x - start] by {
                    lemma_in_slot(page_num as int, row_offset as int, x - start);
                }
                assert(image@ =~= old(self).image_prefix(image@.len()));
            }
        }
        image
    }
}

} // verus!
