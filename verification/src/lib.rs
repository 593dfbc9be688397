//! A single-table row store: fixed-width rows packed into fixed-size pages,
//! a page cache over the bytes of the backing file, and cursors over the rows.

pub mod btree;
pub mod bytes;
pub mod cursor;
pub mod pager;
pub mod row;
pub mod statement;
pub mod table;
pub mod text;
