use vstd::bytes::{spec_u32_from_le_bytes, spec_u32_to_le_bytes, u32_from_le_bytes, u32_to_le_bytes};
use vstd::prelude::*;

use crate::meta_command::CommandError;

verus! {

/// Capacity of the username field, in bytes.
pub const COLUMN_USERNAME_SIZE: usize = 32;

/// Capacity of the email field, in bytes.
pub const COLUMN_EMAIL_SIZE: usize = 255;

/// Width of the encoded id.
pub const ID_SIZE: usize = 4;

pub const ID_OFFSET: usize = 0;

pub const USERNAME_OFFSET: usize = ID_OFFSET + ID_SIZE;

pub const EMAIL_OFFSET: usize = USERNAME_OFFSET + COLUMN_USERNAME_SIZE;

/// Width of one encoded row.
pub const ROW_SIZE: usize = ID_SIZE + COLUMN_USERNAME_SIZE + COLUMN_EMAIL_SIZE;

/// The mathematical value of a row: its id and the raw bytes of both fields.
pub struct RowView {
    pub id: u32,
    pub username: Seq<u8>,
    pub email: Seq<u8>,
}

/// A view is well formed when both fields have their full fixed width.
pub open spec fn row_view_wf(r: RowView) -> bool {
    &&& r.username.len() == COLUMN_USERNAME_SIZE
    &&& r.email.len() == COLUMN_EMAIL_SIZE
}

/// The encoding of a row: the id in little-endian order, then the username
/// bytes, then the email bytes, with no padding.
pub open spec fn encode_row(r: RowView) -> Seq<u8> {
    spec_u32_to_le_bytes(r.id) + r.username + r.email
}

/// The row that the first `ROW_SIZE` bytes of `b` encode.
pub open spec fn decode_row(b: Seq<u8>) -> RowView {
    RowView {
        id: spec_u32_from_le_bytes(b.subrange(ID_OFFSET as int, USERNAME_OFFSET as int)),
        username: b.subrange(USERNAME_OFFSET as int, EMAIL_OFFSET as int),
        email: b.subrange(EMAIL_OFFSET as int, ROW_SIZE as int),
    }
}

/// `ROW_SIZE` zero bytes: the content of a slot that was never written.
pub open spec fn zero_bytes(n: nat) -> Seq<u8> {
    Seq::new(n, |i: int| 0u8)
}

/// One stored record.
#[derive(Debug, Copy, Clone, PartialEq, Eq)]
pub struct Row {
    pub id: u32,
    pub username: [u8; COLUMN_USERNAME_SIZE],
    pub email: [u8; COLUMN_EMAIL_SIZE],
}

impl View for Row {
    type V = RowView;

    open spec fn view(&self) -> RowView {
        RowView { id: self.id, username: self.username@, email: self.email@ }
    }
}

/// Encoding a well-formed row gives exactly `ROW_SIZE` bytes.
pub proof fn lemma_encode_len(r: RowView)
    requires
        row_view_wf(r),
    ensures
        encode_row(r).len() == ROW_SIZE,
{
    vstd::bytes::lemma_auto_spec_u32_to_from_le_bytes();
}

/// Decoding the encoding of a well-formed row gives the row back, padding
/// bytes of the fixed fields included.
pub proof fn lemma_round_trip(r: RowView)
    requires
        row_view_wf(r),
    ensures
        decode_row(encode_row(r)) == r,
{
    vstd::bytes::lemma_auto_spec_u32_to_from_le_bytes();
    let e = encode_row(r);
    let d = decode_row(e);
    assert(e.subrange(0, 4) =~= spec_u32_to_le_bytes(r.id));
    assert(d.username =~= r.username);
    assert(d.email =~= r.email);
}

impl Row {
    pub fn new(
        id: u32,
        username: [u8; COLUMN_USERNAME_SIZE],
        email: [u8; COLUMN_EMAIL_SIZE],
    ) -> (r: Self)
        ensures
            r.id == id,
            r.username == username,
            r.email == email,
    {
        Self { id, username, email }
    }

    /// The row whose bytes are all zero.
    pub fn empty() -> (r: Self)
        ensures
            r@ == decode_row(zero_bytes(ROW_SIZE as nat)),
            encode_row(r@) == zero_bytes(ROW_SIZE as nat),
    {
        let zeros = [0u8; ROW_SIZE];
        let r = Self::decode_at(zeros.as_slice(), 0);
        proof {
            vstd::bytes::lemma_auto_spec_u32_to_from_le_bytes();
            let z = zero_bytes(ROW_SIZE as nat);
            assert(zeros@ =~= z);
            assert(zeros@.subrange(0, ROW_SIZE as int) =~= z);
            assert(z.subrange(0, 4).len() == 4);
            assert(encode_row(r@) =~= z);
        }
        r
    }

    /// Encodes the row into its fixed-width byte form.
    pub fn serialize(&self) -> (r: [u8; ROW_SIZE])
        ensures
            r@ == encode_row(self@),
    {
        let mut buffer = [0u8; ROW_SIZE];
        let id = u32_to_le_bytes(self.id);
        let mut i: usize = 0;
        while i < ID_SIZE
            invariant
                i <= ID_SIZE,
                id@.len() == ID_SIZE,
                buffer@.len() == ROW_SIZE,
                forall|k: int| 0 <= k < i ==> buffer@[ID_OFFSET + k] == id@[k],
            decreases ID_SIZE - i,
        {
            buffer[ID_OFFSET + i] = id[i];
            i = i + 1;
        }
        let mut i: usize = 0;
        while i < COLUMN_USERNAME_SIZE
            invariant
                i <= COLUMN_USERNAME_SIZE,
                id@.len() == ID_SIZE,
                buffer@.len() == ROW_SIZE,
                forall|k: int| 0 <= k < ID_SIZE ==> buffer@[ID_OFFSET + k] == id@[k],
                forall|k: int| 0 <= k < i ==> buffer@[USERNAME_OFFSET + k] == self.username@[k],
            decreases COLUMN_USERNAME_SIZE - i,
        {
            buffer[USERNAME_OFFSET + i] = self.username[i];
            i = i + 1;
        }
        let mut i: usize = 0;
        while i < COLUMN_EMAIL_SIZE
            invariant
                i <= COLUMN_EMAIL_SIZE,
                id@.len() == ID_SIZE,
                buffer@.len() == ROW_SIZE,
                forall|k: int| 0 <= k < ID_SIZE ==> buffer@[ID_OFFSET + k] == id@[k],
                forall|k: int|
                    0 <= k < COLUMN_USERNAME_SIZE ==> buffer@[USERNAME_OFFSET + k]
                        == self.username@[k],
                forall|k: int| 0 <= k < i ==> buffer@[EMAIL_OFFSET + k] == self.email@[k],
            decreases COLUMN_EMAIL_SIZE - i,
        {
            buffer[EMAIL_OFFSET + i] = self.email[i];
            i = i + 1;
        }
        assert(buffer@ =~= encode_row(self@));
        buffer
    }

    /// Decodes a row from the first `ROW_SIZE` bytes of `buffer`; a shorter
    /// buffer is an error.
    pub fn deserialize(buffer: &[u8]) -> (r: Result<Self, CommandError>)
        ensures
            buffer@.len() < ROW_SIZE ==> r == Err::<Self, CommandError>(CommandError::RecordDecodeError),
            buffer@.len() >= ROW_SIZE ==> r is Ok && r->Ok_0@ == decode_row(buffer@.subrange(0, ROW_SIZE as int)),
    {
        if buffer.len() < ROW_SIZE {
            Err(CommandError::RecordDecodeError)
        } else {
            Ok(Self::decode_at(buffer, 0))
        }
    }

    /// Decodes the `ROW_SIZE` bytes of `buffer` that begin at `start`.
    pub(crate) fn decode_at(buffer: &[u8], start: usize) -> (r: Self)
        requires
            start + ROW_SIZE <= buffer@.len(),
        ensures
            r@ == decode_row(buffer@.subrange(start as int, start + ROW_SIZE)),
    {
        let len = buffer.len();
        let id_bytes: [u8; ID_SIZE] = [
            buffer[start],
            buffer[start + 1],
            buffer[start + 2],
            buffer[start + 3],
        ];
        let id = u32_from_le_bytes(id_bytes.as_slice());
        let mut username = [0u8; COLUMN_USERNAME_SIZE];
        let mut i: usize = 0;
        while i < COLUMN_USERNAME_SIZE
            invariant
                start + ROW_SIZE <= buffer@.len(),
                buffer@.len() == len,
                i <= COLUMN_USERNAME_SIZE,
                username@.len() == COLUMN_USERNAME_SIZE,
                forall|k: int| 0 <= k < i ==> username@[k] == buffer@[start + USERNAME_OFFSET + k],
            decreases COLUMN_USERNAME_SIZE - i,
        {
            username[i] = buffer[start + USERNAME_OFFSET + i];
            i = i + 1;
        }
        let mut email = [0u8; COLUMN_EMAIL_SIZE];
        let mut i: usize = 0;
        while i < COLUMN_EMAIL_SIZE
            invariant
                start + ROW_SIZE <= buffer@.len(),
                buffer@.len() == len,
                i <= COLUMN_EMAIL_SIZE,
                email@.len() == COLUMN_EMAIL_SIZE,
                forall|k: int| 0 <= k < i ==> email@[k] == buffer@[start + EMAIL_OFFSET + k],
            decreases COLUMN_EMAIL_SIZE - i,
        {
            email[i] = buffer[start + EMAIL_OFFSET + i];
            i = i + 1;
        }
        let r = Self { id, username, email };
        proof {
            let b = buffer@.subrange(start as int, start + ROW_SIZE);
            assert(id_bytes@ =~= b.subrange(0, 4));
            assert(username@ =~= b.subrange(4, 36));
            assert(email@ =~= b.subrange(36, 291));
        }
        r
    }
}

} // verus!
