//! Statements: the two commands of the store, how a line of text is read as
//! one, and what running one does to a table.
//!
//! `select` shows every row. `insert`, followed by an id, a username and an
//! email with one space before each, adds a row behind the last one.

use crate::cursor::Cursor;
use crate::pager::lemma_loaded_below;
use crate::row::{shows, DecodeError, Row, RowView};
use crate::table::{
    lemma_row_placement,
    lemma_with_row,
    pages_for,
    row_offset,
    row_page,
    Table,
    TABLE_MAX_ROWS,
};
use vstd::prelude::*;
use vstd::string::StringSliceAdditionalSpecFns;
use vstd::utf8::{
    encode_utf8_valid_utf8,
    is_char_boundary,
    is_char_boundary_iff_not_is_continuation_byte,
    is_char_boundary_start_end_of_seq,
    pop_first_scalar,
    valid_utf8,
    valid_utf8_split,
};

verus! {

/// `core::num::ParseIntError`, carried from where an id could not be read
/// to where its message is taken.
#[verifier::external_type_specification]
#[verifier::external_body]
pub struct ExParseIntError(core::num::ParseIntError);

/// `text` begins with `prefix`.
pub open spec fn has_prefix(text: Seq<u8>, prefix: Seq<u8>) -> bool {
    prefix.len() <= text.len() && text.subrange(0, prefix.len() as int) == prefix
}

/// Where the first space of `text` is, or the length of `text` if it has
/// none.
pub open spec fn first_space(text: Seq<u8>) -> int
    decreases text.len(),
{
    if text.len() == 0 || text[0] == 32u8 {
        0
    } else {
        1 + first_space(text.drop_first())
    }
}

/// Piece `n` of the pieces into which the spaces cut `text`. Two spaces in
/// a row have an empty piece between them; there is one piece more than
/// there are spaces.
pub open spec fn token(text: Seq<u8>, n: nat) -> Option<Seq<u8>>
    decreases n,
{
    let end: int = first_space(text);
    if n == 0 {
        Some(text.subrange(0, end))
    } else if end < text.len() {
        token(text.subrange(end + 1, text.len() as int), (n - 1) as nat)
    } else {
        None
    }
}

/// The number that a run of ASCII digits writes in base ten.
pub open spec fn digits_value(digits: Seq<u8>) -> nat
    decreases digits.len(),
{
    if digits.len() == 0 {
        0
    } else {
        (digits_value(digits.drop_last()) * 10 + (digits.last() - 48)) as nat
    }
}

/// Every byte is an ASCII digit.
pub open spec fn is_digits(text: Seq<u8>) -> bool {
    forall|i: int| 0 <= i < text.len() ==> 48 <= #[trigger] text[i] <= 57
}

/// `text` without a `+` at its start.
pub open spec fn unsigned_part(text: Seq<u8>) -> Seq<u8> {
    if text.len() > 0 && text[0] == 43u8 {
        text.drop_first()
    } else {
        text
    }
}

/// The id that `text` writes: an optional `+`, then one or more ASCII digits
/// that give a number no larger than `u32::MAX`.
pub open spec fn u32_of_text(text: Seq<u8>) -> Option<u32> {
    let digits = unsigned_part(text);
    if digits.len() > 0 && is_digits(digits) && digits_value(digits) <= u32::MAX {
        Some(digits_value(digits) as u32)
    } else {
        None
    }
}

/// A statement as a value.
pub enum StatementView {
    /// Add the row behind the last row.
    Insert(RowView),
    /// Show every row.
    Select,
}

/// Why a text is no statement.
pub enum ParseFailure {
    /// The text begins with neither `insert` nor `select`.
    UnrecognizedKeyword,
    /// Nothing follows the keyword `insert`.
    MissingId,
    /// What follows `insert` writes no id.
    InvalidId,
    /// Nothing follows the id.
    MissingUsername,
    /// Nothing follows the username.
    MissingEmail,
}

/// What the text of an `insert` says: the pieces behind the keyword are the
/// id, the username and the email, and what follows the email is not read.
pub open spec fn parsed_insert(text: Seq<u8>) -> Result<StatementView, ParseFailure> {
    match token(text, 1) {
        None => Err(ParseFailure::MissingId),
        Some(id_text) => match u32_of_text(id_text) {
            None => Err(ParseFailure::InvalidId),
            Some(id) => match token(text, 2) {
                None => Err(ParseFailure::MissingUsername),
                Some(username) => match token(text, 3) {
                    None => Err(ParseFailure::MissingEmail),
                    Some(email) => Ok(
                        StatementView::Insert(RowView::of_values(id, username, email)),
                    ),
                },
            },
        },
    }
}

/// What a text says.
pub open spec fn parsed(text: Seq<u8>) -> Result<StatementView, ParseFailure> {
    if has_prefix(text, "insert".spec_bytes()) {
        parsed_insert(text)
    } else if has_prefix(text, "select".spec_bytes()) {
        Ok(StatementView::Select)
    } else {
        Err(ParseFailure::UnrecognizedKeyword)
    }
}

/// The message that tells of the keyword of `text`: what `format!` makes of
/// the text written with `{:?}`, quoted and escaped, behind the words
/// `Unrecognized keyword at start of `.
pub uninterp spec fn unrecognized_keyword_message(text: Seq<char>) -> Seq<char>;

/// `message` is the message for `failure` in `text`. For an id that cannot
/// be read the message is the one that the standard library gives, and
/// nothing is said of it here.
pub open spec fn tells(message: Seq<char>, failure: ParseFailure, text: Seq<char>) -> bool {
    match failure {
        ParseFailure::UnrecognizedKeyword => message == unrecognized_keyword_message(text),
        ParseFailure::MissingId => message == "Field missing from row: \"id\""@,
        ParseFailure::InvalidId => true,
        ParseFailure::MissingUsername => message == "Field missing from row: \"username\""@,
        ParseFailure::MissingEmail => message == "Field missing from row: \"email\""@,
    }
}

/// `str::parse::<u32>` reads an optional `+` and then decimal digits, and
/// fails on the empty string, on any other character and on a number that
/// does not fit 32 bits.
#[verifier::external_body]
fn parse_u32(token: &str) -> (id: Result<u32, core::num::ParseIntError>)
    ensures
        id is Ok <==> u32_of_text(token.spec_bytes()) is Some,
        id is Ok ==> u32_of_text(token.spec_bytes()) == Some(id->Ok_0),
{
    token.parse::<u32>()
}

/// `format!` with the text as `{:?}`. The result is named, not spelled out.
#[verifier::external_body]
fn unrecognized_keyword(text: &str) -> (message: String)
    ensures
        message@ == unrecognized_keyword_message(text@),
{
    format!("Unrecognized keyword at start of {:?}", text)
}

/// An error met when reading a statement.
#[derive(Debug, Clone)]
pub struct ParseError {
    message: String,
}

impl View for ParseError {
    type V = Seq<char>;

    closed spec fn view(&self) -> Seq<char> {
        self.message@
    }
}

impl ParseError {
    /// An error with the given message.
    pub fn from_string(message: String) -> (error: ParseError)
        ensures
            error@ == message@,
    {
        ParseError { message }
    }

    /// An error with the given message.
    pub fn from_str(message: &str) -> (error: ParseError)
        ensures
            error@ == message@,
    {
        ParseError { message: message.to_owned() }
    }

    /// The message of the error.
    pub fn message(&self) -> (message: &str)
        ensures
            message@ == self@,
    {
        self.message.as_str()
    }
}

/// A statement.
#[derive(Debug)]
pub enum Statement {
    /// Add the row behind the last row.
    Insert(Row),
    /// Show every row.
    Select,
}

impl View for Statement {
    type V = StatementView;

    open spec fn view(&self) -> StatementView {
        match self {
            Statement::Insert(row) => StatementView::Insert(row@),
            Statement::Select => StatementView::Select,
        }
    }
}

impl Statement {
    /// Reads `text` as a statement.
    pub fn parse(text: &str) -> (result: Result<Statement, ParseError>)
        ensures
            match parsed(text.spec_bytes()) {
                Ok(statement) => result is Ok && result->Ok_0@ == statement,
                Err(failure) => result is Err && tells(result->Err_0@, failure, text@),
            },
    {
        if starts_with(text.as_bytes(), "insert".as_bytes()) {
            parse_insert(text)
        } else if starts_with(text.as_bytes(), "select".as_bytes()) {
            Ok(Statement::Select)
        } else {
            Err(ParseError::from_string(unrecognized_keyword(text)))
        }
    }

    /// Runs the statement on `table`.
    ///
    /// An `insert` stores its row behind the last row and shows nothing. A
    /// `select` shows the rows in order, one line for each; a row with a
    /// field that cannot be read as text has an error in place of its line.
    pub fn execute(&self, table: &mut Table) -> (output: Vec<Result<String, DecodeError>>)
        requires
            old(table)@.wf(),
            match self@ {
                StatementView::Insert(row) => row.wf() && old(table)@.num_rows < TABLE_MAX_ROWS,
                StatementView::Select => old(table)@.num_rows <= TABLE_MAX_ROWS,
            },
        ensures
            final(table)@.wf(),
            match self@ {
                StatementView::Insert(row) => {
                    &&& final(table)@ == old(table)@.inserted(row)
                    &&& output@.len() == 0
                },
                StatementView::Select => {
                    &&& final(table)@ == old(table)@.loaded()
                    &&& output@.len() == old(table)@.num_rows
                    &&& forall|i: int|
                        0 <= i < output@.len() ==> shows(#[trigger] output@[i], old(table)@.row(i))
                },
            },
    {
        let mut output: Vec<Result<String, DecodeError>> = Vec::new();
        match self {
            Statement::Insert(row) => {
                proof {
                    lemma_with_row(table@, table@.num_rows as int, row@);
                }
                let cursor = Cursor::end(table);
                let row_slot = table.cursor_value(&cursor);
                row.serialize(row_slot);
                table.num_rows += 1;
            },
            Statement::Select => {
                proof {
                    lemma_row_placement(0);
                    lemma_loaded_below(table@.pager, 0);
                }
                let mut cursor = Cursor::start(table);
                while !cursor.end_of_table
                    invariant
                        old(table)@.wf(),
                        table@.num_rows == old(table)@.num_rows <= TABLE_MAX_ROWS,
                        cursor.row_num <= table@.num_rows,
                        cursor.end_of_table == (cursor.row_num >= table@.num_rows),
                        table@.pager == old(table)@.pager.loaded_below(
                            pages_for(cursor.row_num as int),
                        ),
                        output@.len() == cursor.row_num,
                        forall|i: int|
                            0 <= i < output@.len() ==> shows(
                                #[trigger] output@[i],
                                old(table)@.row(i),
                            ),
                    decreases table@.num_rows - cursor.row_num,
                {
                    let ghost row_num: int = cursor.row_num as int;
                    let ghost before = table@;
                    proof {
                        lemma_row_placement(row_num);
                        lemma_row_placement(row_num + 1);
                        lemma_loaded_below(old(table)@.pager, pages_for(row_num));
                        lemma_loaded_below(old(table)@.pager, pages_for(row_num + 1));
                    }
                    let slot = table.cursor_value(&cursor);
                    let row = Row::deserialize(slot);
                    assert(row@ == old(table)@.row(row_num));
                    assert(before.pager.page(row_page(row_num)).subrange(0, row_offset(row_num))
                        + before.slot(row_num) =~= before.pager.page(row_page(row_num)));
                    assert(table@.pager.slots =~= old(table)@.pager.loaded_below(
                        pages_for(row_num + 1),
                    ).slots);
                    output.push(row.to_text());
                    cursor.advance(table);
                }
            },
        }
        output
    }
}

/// Reads the text of an `insert`.
fn parse_insert(text: &str) -> (result: Result<Statement, ParseError>)
    ensures
        match parsed_insert(text.spec_bytes()) {
            Ok(statement) => result is Ok && result->Ok_0@ == statement,
            Err(failure) => result is Err && tells(result->Err_0@, failure, text@),
        },
{
    reveal_with_fuel(token, 4);
    let (_, rest) = split_token(text);
    let rest = match rest {
        Some(rest) => rest,
        None => {
            return Err(ParseError::from_str("Field missing from row: \"id\""));
        },
    };
    let (id_text, rest) = split_token(rest);
    let id: u32 = match parse_u32(id_text) {
        Ok(id) => id,
        Err(error) => {
            return Err(ParseError::from_string(error.to_string()));
        },
    };
    let rest = match rest {
        Some(rest) => rest,
        None => {
            return Err(ParseError::from_str("Field missing from row: \"username\""));
        },
    };
    let (username, rest) = split_token(rest);
    let rest = match rest {
        Some(rest) => rest,
        None => {
            return Err(ParseError::from_str("Field missing from row: \"email\""));
        },
    };
    let (email, _) = split_token(rest);
    Ok(Statement::Insert(Row::new(id, username, email)))
}

/// Whether `text` begins with `prefix`.
fn starts_with(text: &[u8], prefix: &[u8]) -> (found: bool)
    ensures
        found == has_prefix(text@, prefix@),
{
    let count: usize = prefix.len();
    if text.len() < count {
        return false;
    }
    let mut i: usize = 0;
    while i < count
        invariant
            i <= count == prefix@.len() <= text@.len(),
            text@.subrange(0, i as int) == prefix@.subrange(0, i as int),
        decreases count - i,
    {
        if text[i] != prefix[i] {
            assert(text@.subrange(0, count as int)[i as int] != prefix@[i as int]);
            return false;
        }
        assert(text@.subrange(0, i + 1) =~= text@.subrange(0, i as int).push(text@[i as int]));
        assert(prefix@.subrange(0, i + 1) =~= prefix@.subrange(0, i as int).push(
            prefix@[i as int],
        ));
        i += 1;
    }
    assert(prefix@.subrange(0, count as int) =~= prefix@);
    true
}

/// Cuts `text` at its first space: the piece before the space, and the text
/// behind the space if there is a space.
fn split_token(text: &str) -> (parts: (&str, Option<&str>))
    ensures
        parts.0.spec_bytes() == text.spec_bytes().subrange(0, first_space(text.spec_bytes())),
        match parts.1 {
            Some(rest) => first_space(text.spec_bytes()) < text.spec_bytes().len()
                && rest.spec_bytes() == text.spec_bytes().subrange(
                first_space(text.spec_bytes()) + 1,
                text.spec_bytes().len() as int,
            ),
            None => first_space(text.spec_bytes()) == text.spec_bytes().len(),
        },
{
    let bytes = text.as_bytes();
    let count: usize = bytes.len();
    let mut i: usize = 0;
    assert(bytes@.subrange(0, count as int) =~= bytes@);
    while i < count && bytes[i] != 32
        invariant
            i <= count == bytes@.len(),
            first_space(bytes@) == i + first_space(bytes@.subrange(i as int, count as int)),
        decreases count - i,
    {
        assert(bytes@.subrange(i as int, count as int).drop_first() =~= bytes@.subrange(
            i + 1,
            count as int,
        ));
        i += 1;
    }
    proof {
        encode_utf8_valid_utf8(text@);
        if i < count {
            is_char_boundary_iff_not_is_continuation_byte(bytes@, i as int);
        } else {
            is_char_boundary_start_end_of_seq(bytes@);
        }
        valid_utf8_split(bytes@, i as int);
    }
    let (piece, behind) = text.split_at(i);
    if i < count {
        proof {
            reveal_with_fuel(is_char_boundary, 2);
            let tail = behind.spec_bytes();
            assert(tail[0] == 32u8);
            assert(valid_utf8(tail));
            assert(valid_utf8(pop_first_scalar(tail)));
            assert(is_char_boundary(tail, 1));
        }
        let (_, rest) = behind.split_at(1);
        assert(rest.spec_bytes() =~= bytes@.subrange(i + 1, count as int));
        (piece, Some(rest))
    } else {
        (piece, None)
    }
}

} // verus!
