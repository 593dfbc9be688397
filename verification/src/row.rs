//! The row and its fixed-width encoding.
//!
//! A row is an id and two text fields. On disk it takes [`ROW_SIZE`] bytes:
//! the id as a 32-bit word in the machine's byte order, then the username in
//! [`USERNAME_COLUMN_WIDTH`] bytes, then the email in [`EMAIL_COLUMN_WIDTH`]
//! bytes, each text left-aligned and padded with zeros.

use crate::bytes::{
    copy_into,
    copy_range,
    lemma_native_bytes,
    lemma_native_word,
    native_bytes,
    native_word,
    read_word,
    write_word,
};
use crate::text::{
    column,
    decimal,
    is_ascii_bytes,
    lemma_ascii_is_utf8,
    lemma_decimal_digits,
    lemma_last_byte_of_text,
    lemma_trimmed_column,
    push_decimal,
    trimmed,
    trimmed_len,
};
use vstd::prelude::*;
use vstd::slice::slice_subrange;
use vstd::string::StringSliceAdditionalSpecFns;
use vstd::utf8::{
    decode_utf8,
    encode_utf8,
    encode_utf8_decode_utf8,
    encode_utf8_valid_utf8,
    valid_utf8,
    valid_utf8_concat,
};

verus! {

/// Bytes in the username field.
pub const USERNAME_COLUMN_WIDTH: usize = 32;

/// Bytes in the email field.
pub const EMAIL_COLUMN_WIDTH: usize = 255;

/// Where the id starts in a stored row.
pub const ID_OFFSET: usize = 0;

/// Bytes in the id.
pub const ID_COLUMN_WIDTH: usize = 4;

/// Where the username starts in a stored row.
pub const USERNAME_OFFSET: usize = ID_OFFSET + ID_COLUMN_WIDTH;

/// Where the email starts in a stored row.
pub const EMAIL_OFFSET: usize = USERNAME_OFFSET + USERNAME_COLUMN_WIDTH;

/// Bytes in a stored row.
pub const ROW_SIZE: usize = ID_COLUMN_WIDTH + USERNAME_COLUMN_WIDTH + EMAIL_COLUMN_WIDTH;

/// The field whose bytes could not be read as text.
#[derive(Clone, Copy, Debug, PartialEq, Eq)]
pub enum DecodeError {
    /// The username field holds no well-formed UTF-8.
    Username,
    /// The email field holds no well-formed UTF-8.
    Email,
}

/// A row as a value: its id and the bytes of its two fields.
#[verifier::ext_equal]
pub struct RowView {
    pub id: u32,
    pub username: Seq<u8>,
    pub email: Seq<u8>,
}

impl RowView {
    /// Both fields have their full width.
    pub open spec fn wf(self) -> bool {
        &&& self.username.len() == USERNAME_COLUMN_WIDTH
        &&& self.email.len() == EMAIL_COLUMN_WIDTH
    }

    /// The row with the given id whose fields hold the given values.
    pub open spec fn of_values(id: u32, username: Seq<u8>, email: Seq<u8>) -> RowView {
        RowView {
            id,
            username: column(username, USERNAME_COLUMN_WIDTH as nat),
            email: column(email, EMAIL_COLUMN_WIDTH as nat),
        }
    }

    /// The bytes that store the row.
    pub open spec fn encode(self) -> Seq<u8> {
        native_bytes(self.id) + self.username + self.email
    }

    /// The row that the first [`ROW_SIZE`] bytes of `bytes` store.
    pub open spec fn decode(bytes: Seq<u8>) -> RowView {
        RowView {
            id: native_word(bytes.subrange(ID_OFFSET as int, USERNAME_OFFSET as int)),
            username: bytes.subrange(USERNAME_OFFSET as int, EMAIL_OFFSET as int),
            email: bytes.subrange(EMAIL_OFFSET as int, ROW_SIZE as int),
        }
    }

    /// The first field that cannot be read as text, if there is one.
    pub open spec fn text_error(self) -> Option<DecodeError> {
        if !valid_utf8(trimmed(self.username)) {
            Some(DecodeError::Username)
        } else if !valid_utf8(trimmed(self.email)) {
            Some(DecodeError::Email)
        } else {
            None
        }
    }

    /// The UTF-8 bytes of the line that shows the row: the id in base ten,
    /// the username and the email, with one space between them.
    pub open spec fn text(self) -> Seq<u8> {
        decimal(self.id as nat) + seq![32u8] + trimmed(self.username) + seq![32u8] + trimmed(
            self.email,
        )
    }
}

/// `line` is what showing `row` gives: the line of the row, or the first
/// field that stands in the way.
pub open spec fn shows(line: Result<String, DecodeError>, row: RowView) -> bool {
    match line {
        Ok(s) => row.text_error() is None && encode_utf8(s@) == row.text(),
        Err(e) => row.text_error() == Some(e),
    }
}

/// A row of the table.
#[derive(Debug)]
pub struct Row {
    /// The row's identifier.
    pub id: u32,
    /// The username field, [`USERNAME_COLUMN_WIDTH`] bytes.
    pub username: Vec<u8>,
    /// The email field, [`EMAIL_COLUMN_WIDTH`] bytes.
    pub email: Vec<u8>,
}

impl View for Row {
    type V = RowView;

    open spec fn view(&self) -> RowView {
        RowView { id: self.id, username: self.username@, email: self.email@ }
    }
}

impl Row {
    /// A row with the given id, username and email.
    ///
    /// A text longer than its field is cut to the field's width in bytes. The
    /// cut may fall inside a character; the field then reads back as an
    /// error rather than as text.
    pub fn new(id: u32, username: &str, email: &str) -> (row: Row)
        ensures
            row@ == RowView::of_values(id, username.spec_bytes(), email.spec_bytes()),
            row@.wf(),
    {
        Row {
            id,
            username: prefill_string_column(username, USERNAME_COLUMN_WIDTH),
            email: prefill_string_column(email, EMAIL_COLUMN_WIDTH),
        }
    }

    /// The username as text, without the zeros that pad the field.
    pub fn get_username(&self) -> (text: Result<&str, DecodeError>)
        ensures
            match text {
                Ok(s) => valid_utf8(trimmed(self@.username)) && s.spec_bytes() == trimmed(
                    self@.username,
                ),
                Err(e) => !valid_utf8(trimmed(self@.username)) && e == DecodeError::Username,
            },
    {
        match field_text(self.username.as_slice()) {
            Some(s) => Ok(s),
            None => Err(DecodeError::Username),
        }
    }

    /// The email as text, without the zeros that pad the field.
    pub fn get_email(&self) -> (text: Result<&str, DecodeError>)
        ensures
            match text {
                Ok(s) => valid_utf8(trimmed(self@.email)) && s.spec_bytes() == trimmed(
                    self@.email,
                ),
                Err(e) => !valid_utf8(trimmed(self@.email)) && e == DecodeError::Email,
            },
    {
        match field_text(self.email.as_slice()) {
            Some(s) => Ok(s),
            None => Err(DecodeError::Email),
        }
    }

    /// Writes the row over the first [`ROW_SIZE`] bytes of `destination` and
    /// leaves the bytes behind them as they are.
    pub fn serialize(&self, destination: &mut [u8])
        requires
            self@.wf(),
            old(destination)@.len() >= ROW_SIZE,
        ensures
            final(destination)@ == self@.encode() + old(destination)@.subrange(
                ROW_SIZE as int,
                old(destination)@.len() as int,
            ),
    {
        proof {
            lemma_native_bytes(self.id);
        }
        write_word(destination, ID_OFFSET, self.id);
        copy_into(destination, USERNAME_OFFSET, self.username.as_slice());
        copy_into(destination, EMAIL_OFFSET, self.email.as_slice());
    }

    /// The row stored in the first [`ROW_SIZE`] bytes of `source`. The fields
    /// are taken as bytes; whether they hold text is not looked at.
    pub fn deserialize(source: &[u8]) -> (row: Row)
        requires
            source@.len() >= ROW_SIZE,
        ensures
            row@ == RowView::decode(source@),
            row@.wf(),
    {
        let id: u32 = read_word(source, ID_OFFSET);
        let username = copy_range(source, USERNAME_OFFSET, USERNAME_COLUMN_WIDTH);
        let email = copy_range(source, EMAIL_OFFSET, EMAIL_COLUMN_WIDTH);
        Row { id, username, email }
    }

    /// The line that shows the row: `id username email`, the id in base ten
    /// and the two texts without their padding. Where a field is no text,
    /// the result names the field, the username before the email.
    pub fn to_text(&self) -> (line: Result<String, DecodeError>)
        ensures
            shows(line, self@),
    {
        let username = match self.get_username() {
            Ok(s) => s,
            Err(e) => {
                return Err(e);
            },
        };
        let email = match self.get_email() {
            Ok(s) => s,
            Err(e) => {
                return Err(e);
            },
        };
        let mut bytes: Vec<u8> = Vec::new();
        push_decimal(&mut bytes, self.id);
        bytes.push(32);
        append_bytes(&mut bytes, username.as_bytes());
        bytes.push(32);
        append_bytes(&mut bytes, email.as_bytes());
        proof {
            let digits = decimal(self.id as nat);
            let space = seq![32u8];
            lemma_decimal_digits(self.id as nat);
            assert(is_ascii_bytes(digits + space));
            lemma_ascii_is_utf8(digits + space);
            lemma_ascii_is_utf8(space);
            valid_utf8_concat(digits + space, trimmed(self@.username));
            valid_utf8_concat(digits + space + trimmed(self@.username), space);
            valid_utf8_concat(
                digits + space + trimmed(self@.username) + space,
                trimmed(self@.email),
            );
            assert(bytes@ =~= self@.text());
        }
        match core::str::from_utf8(bytes.as_slice()) {
            Ok(s) => Ok(s.to_owned()),
            // Not reached: the line is well-formed UTF-8.
            Err(_) => Err(DecodeError::Email),
        }
    }
}

/// The encoding of a row is [`ROW_SIZE`] bytes long, and the row comes back
/// from it as it went in, whatever follows the encoding in the buffer.
pub proof fn lemma_decode_encode(row: RowView, rest: Seq<u8>)
    requires
        row.wf(),
    ensures
        row.encode().len() == ROW_SIZE,
        RowView::decode(row.encode() + rest) == row,
        RowView::decode(row.encode()) == row,
{
    lemma_native_bytes(row.id);
    let bytes = row.encode();
    let longer = bytes + rest;
    assert(longer.subrange(ID_OFFSET as int, USERNAME_OFFSET as int) =~= native_bytes(row.id));
    assert(longer.subrange(USERNAME_OFFSET as int, EMAIL_OFFSET as int) =~= row.username);
    assert(longer.subrange(EMAIL_OFFSET as int, ROW_SIZE as int) =~= row.email);
    assert(bytes.subrange(ID_OFFSET as int, USERNAME_OFFSET as int) =~= native_bytes(row.id));
    assert(bytes.subrange(USERNAME_OFFSET as int, EMAIL_OFFSET as int) =~= row.username);
    assert(bytes.subrange(EMAIL_OFFSET as int, ROW_SIZE as int) =~= row.email);
}

/// The row that a buffer stores depends on its first [`ROW_SIZE`] bytes only.
pub proof fn lemma_decode_prefix(bytes: Seq<u8>, prefix: Seq<u8>)
    requires
        bytes.len() >= ROW_SIZE,
        prefix == bytes.subrange(0, ROW_SIZE as int),
    ensures
        RowView::decode(bytes) == RowView::decode(prefix),
{
    assert(bytes.subrange(ID_OFFSET as int, USERNAME_OFFSET as int) =~= prefix.subrange(
        ID_OFFSET as int,
        USERNAME_OFFSET as int,
    ));
    assert(bytes.subrange(USERNAME_OFFSET as int, EMAIL_OFFSET as int) =~= prefix.subrange(
        USERNAME_OFFSET as int,
        EMAIL_OFFSET as int,
    ));
    assert(bytes.subrange(EMAIL_OFFSET as int, ROW_SIZE as int) =~= prefix.subrange(
        EMAIL_OFFSET as int,
        ROW_SIZE as int,
    ));
}

/// The row that a buffer stores has fields of full width, and its encoding
/// is the first [`ROW_SIZE`] bytes of the buffer.
pub proof fn lemma_encode_decode(bytes: Seq<u8>)
    requires
        bytes.len() >= ROW_SIZE,
    ensures
        RowView::decode(bytes).wf(),
        RowView::decode(bytes).encode() == bytes.subrange(0, ROW_SIZE as int),
{
    lemma_native_word(bytes.subrange(ID_OFFSET as int, USERNAME_OFFSET as int));
    assert(RowView::decode(bytes).encode() =~= bytes.subrange(0, ROW_SIZE as int));
}

/// An id and two values that fit their fields and do not end in a zero byte
/// come back from the stored row: the id as it was, and each value as its
/// field without the padding.
pub proof fn lemma_values_round_trip(id: u32, username: Seq<u8>, email: Seq<u8>)
    requires
        username.len() <= USERNAME_COLUMN_WIDTH,
        email.len() <= EMAIL_COLUMN_WIDTH,
        username.len() == 0 || username.last() != 0,
        email.len() == 0 || email.last() != 0,
    ensures
        RowView::decode(RowView::of_values(id, username, email).encode()).id == id,
        trimmed(RowView::decode(RowView::of_values(id, username, email).encode()).username)
            == username,
        trimmed(RowView::decode(RowView::of_values(id, username, email).encode()).email) == email,
{
    lemma_decode_encode(RowView::of_values(id, username, email), Seq::empty());
    lemma_trimmed_column(username, USERNAME_COLUMN_WIDTH as nat);
    lemma_trimmed_column(email, EMAIL_COLUMN_WIDTH as nat);
}

/// An id and two texts that fit their fields and do not end in the character
/// with the number zero come back from the stored row: the id as it was, and
/// each text as what its field reads as.
pub proof fn lemma_text_round_trip(id: u32, username: Seq<char>, email: Seq<char>)
    requires
        encode_utf8(username).len() <= USERNAME_COLUMN_WIDTH,
        encode_utf8(email).len() <= EMAIL_COLUMN_WIDTH,
        username.len() == 0 || username.last() != '\0',
        email.len() == 0 || email.last() != '\0',
    ensures
        ({
            let stored = RowView::of_values(id, encode_utf8(username), encode_utf8(email));
            let row = RowView::decode(stored.encode());
            &&& row.id == id
            &&& row.text_error() is None
            &&& decode_utf8(trimmed(row.username)) == username
            &&& decode_utf8(trimmed(row.email)) == email
        }),
{
    if username.len() > 0 {
        lemma_last_byte_of_text(username);
    }
    if email.len() > 0 {
        lemma_last_byte_of_text(email);
    }
    lemma_values_round_trip(id, encode_utf8(username), encode_utf8(email));
    encode_utf8_valid_utf8(username);
    encode_utf8_valid_utf8(email);
    encode_utf8_decode_utf8(username);
    encode_utf8_decode_utf8(email);
}

/// Values that fill their fields to the last byte are stored whole: each
/// field of the stored row is its value, and in the encoding the username
/// ends where the email begins.
pub proof fn lemma_full_width_values(id: u32, username: Seq<u8>, email: Seq<u8>)
    requires
        username.len() == USERNAME_COLUMN_WIDTH,
        email.len() == EMAIL_COLUMN_WIDTH,
    ensures
        RowView::of_values(id, username, email).username == username,
        RowView::of_values(id, username, email).email == email,
        RowView::decode(RowView::of_values(id, username, email).encode()) == (RowView {
            id,
            username,
            email,
        }),
        RowView::of_values(id, username, email).encode().subrange(
            USERNAME_OFFSET as int,
            EMAIL_OFFSET as int,
        ) == username,
        RowView::of_values(id, username, email).encode().subrange(
            EMAIL_OFFSET as int,
            ROW_SIZE as int,
        ) == email,
{
    let row = RowView::of_values(id, username, email);
    assert(row.username =~= username);
    assert(row.email =~= email);
    lemma_decode_encode(row, Seq::empty());
}

/// The text in `field`: what its bytes without the zeros at the end decode
/// to, where they are well-formed UTF-8.
fn field_text(field: &[u8]) -> (text: Option<&str>)
    ensures
        text is Some <==> valid_utf8(trimmed(field@)),
        text is Some ==> text->Some_0.spec_bytes() == trimmed(field@),
{
    let n: usize = trimmed_len(field);
    match core::str::from_utf8(slice_subrange(field, 0, n)) {
        Ok(s) => Some(s),
        Err(_) => None,
    }
}

/// Appends `more` to `out`.
fn append_bytes(out: &mut Vec<u8>, more: &[u8])
    ensures
        final(out)@ == old(out)@ + more@,
{
    let count: usize = more.len();
    let mut i: usize = 0;
    while i < count
        invariant
            i <= count == more@.len(),
            out@ == old(out)@ + more@.subrange(0, i as int),
        decreases count - i,
    {
        out.push(more[i]);
        assert(out@ =~= old(out)@ + more@.subrange(0, i + 1));
        i += 1;
    }
    assert(more@.subrange(0, count as int) =~= more@);
}

/// A column of `size` bytes that holds `value`: its bytes as far as they
/// fit, then zeros.
fn prefill_string_column(value: &str, size: usize) -> (column_data: Vec<u8>)
    ensures
        column_data@ == column(value.spec_bytes(), size as nat),
{
    let bytes = value.as_bytes();
    let count: usize = bytes.len();
    let mut column_data: Vec<u8> = Vec::new();
    let mut i: usize = 0;
    while i < size
        invariant
            i <= size,
            count == bytes@.len(),
            column_data@ == column(bytes@, i as nat),
        decreases size - i,
    {
        let byte: u8 = if i < count { bytes[i] } else { 0 };
        column_data.push(byte);
        assert(column_data@ =~= column(bytes@, (i + 1) as nat));
        i += 1;
    }
    column_data
}

} // verus!
