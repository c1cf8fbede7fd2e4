use vstd::prelude::*;

use crate::row::{decode_row, encode_row, lemma_encode_len, zero_bytes, Row, ROW_SIZE};

verus! {

/// Size of one page, in bytes.
pub const PAGE_SIZE: usize = 4096;

/// Most pages that a table may hold.
pub const TABLE_MAX_PAGES: usize = 100;

/// Whole rows that fit in one page.
pub const ROWS_PER_PAGE: usize = PAGE_SIZE / ROW_SIZE;

/// Most rows that a table may hold.
pub const TABLE_MAX_ROWS: usize = ROWS_PER_PAGE * TABLE_MAX_PAGES;

/// The sizes that the layout rests on: fourteen rows of 291 bytes fit in a
/// 4096-byte page, and a table holds at most 1400 rows.
pub proof fn lemma_layout()
    ensures
        ROW_SIZE == 291,
        ROWS_PER_PAGE == 14,
        ROWS_PER_PAGE * ROW_SIZE <= PAGE_SIZE,
        TABLE_MAX_ROWS == 1400,
{
    assert(PAGE_SIZE / ROW_SIZE == 14);
}

/// Byte `x` of a file with contents `s`; past the end a file reads as zero.
pub open spec fn file_byte(s: Seq<u8>, x: int) -> u8 {
    if 0 <= x < s.len() {
        s[x]
    } else {
        0u8
    }
}

/// Offset within the backing file of row `o` of page `p`.
pub open spec fn slot_start(p: int, o: int) -> int {
    p * PAGE_SIZE + o * ROW_SIZE
}

/// What a slot holds after it is written with `row`: the row's encoding, or
/// zeros when the slot is cleared.
pub open spec fn slot_image(row: Option<Row>) -> Seq<u8> {
    match row {
        Some(r) => encode_row(r@),
        None => zero_bytes(ROW_SIZE as nat),
    }
}

/// Copies `bytes` into `page` from position `start` on.
fn write_window(page: &mut Vec<u8>, start: usize, bytes: &[u8; ROW_SIZE])
    requires
        start + ROW_SIZE <= old(page)@.len(),
    ensures
        final(page)@.len() == old(page)@.len(),
        forall|j: int|
            0 <= j < old(page)@.len() ==> #[trigger] final(page)@[j] == if start <= j < start + ROW_SIZE {
                bytes@[j - start]
            } else {
                old(page)@[j]
            },
{
    let len = page.len();
    let mut k: usize = 0;
    while k < ROW_SIZE
        invariant
            len == old(page)@.len(),
            start + ROW_SIZE <= old(page)@.len(),
            k <= ROW_SIZE,
            page@.len() == old(page)@.len(),
            forall|j: int|
                0 <= j < old(page)@.len() ==> #[trigger] page@[j] == if start <= j < start + k {
                    bytes@[j - start]
                } else {
                    old(page)@[j]
                },
        decreases ROW_SIZE - k,
    {
        page.set(start + k, bytes[k]);
        k = k + 1;
    }
}

/// The page store: a bounded, lazily filled sequence of pages, and the length
/// that the backing file had when it was opened.
pub struct Pager {
    file_length: usize,
    pages: Vec<Option<Vec<u8>>>,
}

impl Pager {
    pub closed spec fn wf(&self) -> bool {
        &&& self.pages@.len() <= TABLE_MAX_PAGES
        &&& forall|p: int|
            0 <= p < self.pages@.len() && #[trigger] self.pages@[p] is Some ==> self.pages@[p]->Some_0@.len()
                == PAGE_SIZE
    }

    /// The length of the backing file when it was opened.
    pub closed spec fn spec_file_length(&self) -> nat {
        self.file_length as nat
    }

    /// Whether page `p` has been materialized.
    pub closed spec fn is_present(&self, p: int) -> bool {
        0 <= p < self.pages@.len() && self.pages@[p] is Some
    }

    /// The bytes of page `p`; a page that is absent reads as zeros.
    pub closed spec fn page_bytes(&self, p: int) -> Seq<u8> {
        if self.is_present(p) {
            self.pages@[p]->Some_0@
        } else {
            zero_bytes(PAGE_SIZE as nat)
        }
    }

    /// The `ROW_SIZE` bytes of row `o` of page `p`.
    pub open spec fn slot(&self, p: int, o: int) -> Seq<u8> {
        self.page_bytes(p).subrange(o * ROW_SIZE, o * ROW_SIZE + ROW_SIZE)
    }

    /// Byte `x` of the pages laid end to end.
    pub open spec fn byte_at(&self, x: int) -> u8 {
        self.page_bytes(x / PAGE_SIZE as int)[x % PAGE_SIZE as int]
    }

    /// Every page reads as the matching stretch of a file with contents `s`.
    pub open spec fn loaded_from(&self, s: Seq<u8>) -> bool {
        forall|p: int, j: int|
            0 <= p < TABLE_MAX_PAGES && 0 <= j < PAGE_SIZE ==> #[trigger] self.page_bytes(p)[j]
                == file_byte(s, p * PAGE_SIZE + j)
    }

    /// Reading any page gives `PAGE_SIZE` bytes.
    pub proof fn lemma_page_len(&self, p: int)
        requires
            self.wf(),
        ensures
            self.page_bytes(p).len() == PAGE_SIZE,
    {
    }

    /// A slot of a page that was never materialized reads as zeros.
    pub proof fn lemma_absent_page_reads_zero(&self, p: int, o: int)
        requires
            self.wf(),
            !self.is_present(p),
            0 <= o < ROWS_PER_PAGE,
        ensures
            self.slot(p, o) == zero_bytes(ROW_SIZE as nat),
    {
        lemma_layout();
        assert(self.slot(p, o) =~= zero_bytes(ROW_SIZE as nat));
    }

    /// A store with no pages, for a backing file of length zero.
    pub fn new() -> (r: Self)
        ensures
            r.wf(),
            r.spec_file_length() == 0,
            forall|p: int| !(#[trigger] r.is_present(p)),
    {
        Self { file_length: 0, pages: Vec::new() }
    }

    /// Loads the contents of a backing file, one page per `PAGE_SIZE` bytes,
    /// the last page zero-filled past the end of the file.
    pub fn open(contents: &[u8]) -> (r: Self)
        requires
            contents@.len() <= PAGE_SIZE * TABLE_MAX_PAGES,
        ensures
            r.wf(),
            r.spec_file_length() == contents@.len(),
            r.loaded_from(contents@),
            forall|p: int|
                0 <= p < TABLE_MAX_PAGES ==> (#[trigger] r.is_present(p) <==> p * PAGE_SIZE
                    < contents@.len()),
    {
        let file_length = contents.len();
        let mut num_pages: usize = file_length / PAGE_SIZE;
        if file_length % PAGE_SIZE > 0 {
            num_pages = num_pages + 1;
        }
        let mut pages: Vec<Option<Vec<u8>>> = Vec::new();
        let mut i: usize = 0;
        while i < num_pages
            invariant
                file_length == contents@.len(),
                file_length <= PAGE_SIZE * TABLE_MAX_PAGES,
                num_pages <= TABLE_MAX_PAGES,
                num_pages * PAGE_SIZE >= file_length,
                num_pages == 0 || (num_pages - 1) * PAGE_SIZE < file_length,
                i <= num_pages,
                pages@.len() == i,
                forall|p: int| 0 <= p < i ==> (#[trigger] pages@[p]) is Some,
                forall|p: int| 0 <= p < i ==> (#[trigger] pages@[p])->Some_0@.len() == PAGE_SIZE,
                forall|p: int, j: int|
                    0 <= p < i && 0 <= j < PAGE_SIZE ==> #[trigger] pages@[p]->Some_0@[j]
                        == file_byte(contents@, p * PAGE_SIZE + j),
            decreases num_pages - i,
        {
            let mut page: Vec<u8> = Vec::new();
            let base: usize = i * PAGE_SIZE;
            let mut j: usize = 0;
            while j < PAGE_SIZE
                invariant
                    file_length == contents@.len(),
                    i < num_pages <= TABLE_MAX_PAGES,
                    base == i * PAGE_SIZE,
                    j <= PAGE_SIZE,
                    page@.len() == j,
                    forall|k: int| 0 <= k < j ==> page@[k] == file_byte(contents@, base + k),
                decreases PAGE_SIZE - j,
            {
                if base + j < file_length {
                    page.push(contents[base + j]);
                } else {
                    page.push(0u8);
                }
                j = j + 1;
            }
            pages.push(Some(page));
            i = i + 1;
        }
        let r = Self { file_length, pages };
        assert forall|p: int| 0 <= p < TABLE_MAX_PAGES implies (#[trigger] r.is_present(p) <==> p * PAGE_SIZE
            < contents@.len()) by {
            if p < num_pages {
                assert(p * PAGE_SIZE <= (num_pages - 1) * PAGE_SIZE);
            } else {
                assert(p * PAGE_SIZE >= num_pages * PAGE_SIZE);
            }
        }
        assert forall|p: int, j: int|
            0 <= p < TABLE_MAX_PAGES && 0 <= j < PAGE_SIZE implies #[trigger] r.page_bytes(p)[j]
                == file_byte(contents@, p * PAGE_SIZE + j) by {
            if p >= num_pages {
                assert(p * PAGE_SIZE >= num_pages * PAGE_SIZE);
            }
        }
        r
    }

    pub fn get_file_length(&self) -> (r: usize)
        ensures
            r == self.spec_file_length(),
    {
        self.file_length
    }

    /// Materializes page `page_num`: an absent page becomes a zero-filled one,
    /// a present page is left as it is.
    pub fn get_page(&mut self, page_num: usize)
        requires
            old(self).wf(),
            page_num < TABLE_MAX_PAGES,
        ensures
            final(self).wf(),
            final(self).is_present(page_num as int),
            final(self).spec_file_length() == old(self).spec_file_length(),
            forall|p: int| p != page_num ==> #[trigger] final(self).is_present(p) == old(self).is_present(p),
            forall|p: int| #[trigger] final(self).page_bytes(p) == old(self).page_bytes(p),
    {
        while self.pages.len() <= page_num
            invariant
                self.wf(),
                page_num < TABLE_MAX_PAGES,
                self.spec_file_length() == old(self).spec_file_length(),
                forall|p: int| #[trigger] self.is_present(p) == old(self).is_present(p),
                forall|p: int| #[trigger] self.page_bytes(p) == old(self).page_bytes(p),
            decreases page_num + 1 - self.pages.len(),
        {
            let ghost before = *self;
            self.pages.push(None);
            assert forall|p: int| #[trigger] self.is_present(p) == before.is_present(p) by {
                if 0 <= p < before.pages@.len() {
                    assert(self.pages@[p] == before.pages@[p]);
                }
            }
            assert forall|p: int| #[trigger] self.page_bytes(p) == before.page_bytes(p) by {
                assert(self.is_present(p) == before.is_present(p));
                if before.is_present(p) {
                    assert(self.pages@[p] == before.pages@[p]);
                }
            }
        }
        if self.pages[page_num].is_none() {
            let mut page: Vec<u8> = Vec::new();
            let mut j: usize = 0;
            while j < PAGE_SIZE
                invariant
                    j <= PAGE_SIZE,
                    page@.len() == j,
                    forall|k: int| 0 <= k < j ==> page@[k] == 0u8,
                decreases PAGE_SIZE - j,
            {
                page.push(0u8);
                j = j + 1;
            }
            assert(page@ =~= zero_bytes(PAGE_SIZE as nat));
            let ghost before = *self;
            self.pages.set(page_num, Some(page));
            assert forall|p: int| p != page_num implies #[trigger] self.is_present(p) == before.is_present(p) by {
                if 0 <= p < before.pages@.len() {
                    assert(self.pages@[p] == before.pages@[p]);
                }
            }
            assert forall|p: int| #[trigger] self.page_bytes(p) == before.page_bytes(p) by {
                if p != page_num && before.is_present(p) {
                    assert(self.pages@[p] == before.pages@[p]);
                }
            }
        }
    }

    /// Reads row `row_num` of page `page_num`; a page that was never
    /// materialized reads as the all-zero row.
    pub fn get_row(&self, page_num: usize, row_num: usize) -> (r: Row)
        requires
            self.wf(),
            page_num < TABLE_MAX_PAGES,
            row_num < ROWS_PER_PAGE,
        ensures
            r@ == decode_row(self.slot(page_num as int, row_num as int)),
    {
        proof {
            lemma_layout();
            self.lemma_page_len(page_num as int);
        }
        let offset = row_num * ROW_SIZE;
        if page_num < self.pages.len() && self.pages[page_num].is_some() {
            let page = self.page_to_bytes(page_num);
            Row::decode_at(page.as_slice(), offset)
        } else {
            let r = Row::empty();
            assert(self.slot(page_num as int, row_num as int) =~= zero_bytes(ROW_SIZE as nat));
            r
        }
    }

    /// Writes `row` into row `row_num` of page `page_num`, materializing the
    /// page first; `None` clears the slot to zeros.
    pub fn set_row(&mut self, page_num: usize, row_num: usize, row: Option<Row>)
        requires
            old(self).wf(),
            page_num < TABLE_MAX_PAGES,
            row_num < ROWS_PER_PAGE,
        ensures
            final(self).wf(),
            final(self).is_present(page_num as int),
            final(self).spec_file_length() == old(self).spec_file_length(),
            forall|p: int| p != page_num ==> #[trigger] final(self).is_present(p) == old(self).is_present(p),
            final(self).slot(page_num as int, row_num as int) == slot_image(row),
            forall|p: int, j: int|
                0 <= j < PAGE_SIZE && (p != page_num || j < row_num * ROW_SIZE || j >= row_num
                    * ROW_SIZE + ROW_SIZE) ==> #[trigger] final(self).page_bytes(p)[j] == old(self).page_bytes(p)[j],
    {
        proof {
            lemma_layout();
        }
        self.get_page(page_num);
        let bytes: [u8; ROW_SIZE] = match row {
            Some(r) => r.serialize(),
            None => [0u8; ROW_SIZE],
        };
        proof {
            match row {
                Some(r) => lemma_encode_len(r@),
                None => assert(bytes@ =~= zero_bytes(ROW_SIZE as nat)),
            }
        }
        let offset = row_num * ROW_SIZE;
        let ghost before = *self;
        assert(self.pages@[page_num as int]->Some_0@.len() == PAGE_SIZE);
        match &mut self.pages[page_num] {
            Some(page) => write_window(page, offset, &bytes),
            None => {},
        }
        assert forall|p: int| p != page_num implies #[trigger] self.is_present(p) == before.is_present(p) by {
            if 0 <= p < before.pages@.len() {
                assert(self.pages@[p] == before.pages@[p]);
            }
        }
        assert forall|p: int, j: int|
            0 <= j < PAGE_SIZE && (p != page_num || j < offset || j >= offset + ROW_SIZE) implies #[trigger] self.page_bytes(p)[j]
                == before.page_bytes(p)[j] by {
            if p != page_num && before.is_present(p) {
                assert(self.pages@[p] == before.pages@[p]);
            }
        }
        assert(self.slot(page_num as int, row_num as int) =~= bytes@);
    }

    /// Byte `x` of the pages laid end to end.
    fn byte(&self, x: usize) -> (r: u8)
        requires
            self.wf(),
            x < PAGE_SIZE * TABLE_MAX_PAGES,
        ensures
            r == self.byte_at(x as int),
    {
        let page_num = x / PAGE_SIZE;
        if page_num < self.pages.len() && self.pages[page_num].is_some() {
            let page = self.page_to_bytes(page_num);
            page[x % PAGE_SIZE]
        } else {
            0u8
        }
    }

    /// Writes row `row_num` of page `page_num` into `image`, the backing
    /// file's contents, at its offset `page_num * PAGE_SIZE + row_num *
    /// ROW_SIZE`; the file is first extended with zeros up to that offset.
    pub fn flush(&self, page_num: usize, row_num: usize, image: &mut Vec<u8>)
        requires
            self.wf(),
            page_num < TABLE_MAX_PAGES,
            row_num < ROWS_PER_PAGE,
            old(image)@.len() <= slot_start(page_num as int, row_num as int),
        ensures
            final(image)@ == old(image)@ + zero_bytes(
                (slot_start(page_num as int, row_num as int) - old(image)@.len()) as nat,
            ) + self.slot(page_num as int, row_num as int),
    {
        proof {
            lemma_layout();
            self.lemma_page_len(page_num as int);
        }
        let start = page_num * PAGE_SIZE + row_num * ROW_SIZE;
        let ghost before = image@;
        while image.len() < start
            invariant
                start == slot_start(page_num as int, row_num as int),
                before.len() <= image@.len() <= start,
                image@ == before + zero_bytes((image@.len() - before.len()) as nat),
            decreases start - image@.len(),
        {
            image.push(0u8);
            assert(image@ =~= before + zero_bytes((image@.len() - before.len()) as nat));
        }
        let ghost padded = image@;
        let mut k: usize = 0;
        while k < ROW_SIZE
            invariant
                self.wf(),
                page_num < TABLE_MAX_PAGES,
                row_num < ROWS_PER_PAGE,
                start == page_num * PAGE_SIZE + row_num * ROW_SIZE,
                start + ROW_SIZE <= PAGE_SIZE * TABLE_MAX_PAGES,
                padded.len() == start,
                self.page_bytes(page_num as int).len() == PAGE_SIZE,
                row_num * ROW_SIZE + ROW_SIZE <= PAGE_SIZE,
                k <= ROW_SIZE,
                image@ == padded + self.slot(page_num as int, row_num as int).subrange(0, k as int),
            decreases ROW_SIZE - k,
        {
            let x = start + k;
            proof {
                lemma_layout();
                let q = page_num as int;
                let r = (row_num * ROW_SIZE + k) as int;
                vstd::arithmetic::div_mod::lemma_fundamental_div_mod_converse(
                    x as int,
                    PAGE_SIZE as int,
                    q,
                    r,
                );
            }
            let b = self.byte(x);
            assert(b == self.slot(page_num as int, row_num as int)[k as int]);
            image.push(b);
            k = k + 1;
            assert(image@ =~= padded + self.slot(page_num as int, row_num as int).subrange(0, k as int));
        }
        assert(self.slot(page_num as int, row_num as int).subrange(0, ROW_SIZE as int) =~= self.slot(
            page_num as int,
            row_num as int,
        ));
    }

    /// The bytes of a page that is present.
    fn page_to_bytes(&self, page_num: usize) -> (r: &Vec<u8>)
        requires
            self.wf(),
            self.is_present(page_num as int),
        ensures
            r@ == self.page_bytes(page_num as int),
    {
        self.pages[page_num].as_ref().unwrap()
    }
}

} // verus!
