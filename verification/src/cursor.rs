//! Cursors: positions in the sequence of a table's rows.
//!
//! A cursor holds the number of a row and whether it stands behind the last
//! row. It moves forward only, one row at a time.

use crate::table::Table;
use vstd::prelude::*;

verus! {

/// A position in a table.
pub struct Cursor {
    /// The number of the row the cursor stands at.
    pub row_num: usize,
    /// The cursor stands behind the last row.
    pub end_of_table: bool,
}

impl Cursor {
    /// The cursor at the first row of a table with `num_rows` rows.
    pub open spec fn at_start(num_rows: nat) -> Cursor {
        Cursor { row_num: 0, end_of_table: num_rows == 0 }
    }

    /// The cursor one step further in a table with `num_rows` rows. A cursor
    /// behind the last row stays where it is.
    pub open spec fn advanced(self, num_rows: nat) -> Cursor {
        if self.end_of_table {
            self
        } else {
            Cursor {
                row_num: (self.row_num + 1) as usize,
                end_of_table: self.row_num + 1 >= num_rows,
            }
        }
    }

    /// The cursor `steps` steps further.
    pub open spec fn advanced_by(self, num_rows: nat, steps: nat) -> Cursor
        decreases steps,
    {
        if steps == 0 {
            self
        } else {
            self.advanced_by(num_rows, (steps - 1) as nat).advanced(num_rows)
        }
    }

    /// A cursor at the first row of `table`. In an empty table it stands
    /// behind the last row at once.
    pub fn start(table: &Table) -> (cursor: Cursor)
        ensures
            cursor == Cursor::at_start(table@.num_rows),
    {
        Cursor { row_num: 0, end_of_table: table.num_rows == 0 }
    }

    /// A cursor behind the last row of `table`, where the next row goes.
    pub fn end(table: &Table) -> (cursor: Cursor)
        ensures
            cursor.row_num == table@.num_rows,
            cursor.end_of_table,
    {
        Cursor { row_num: table.num_rows, end_of_table: true }
    }

    /// Moves the cursor to the next row of `table`, and marks it as behind
    /// the last row once its number reaches the number of rows. A cursor
    /// that is already behind the last row is left as it is.
    pub fn advance(&mut self, table: &Table)
        requires
            old(self).end_of_table || old(self).row_num < usize::MAX,
        ensures
            *final(self) == old(self).advanced(table@.num_rows),
    {
        if !self.end_of_table {
            self.row_num += 1;
            if self.row_num >= table.num_rows {
                self.end_of_table = true;
            }
        }
    }
}

/// From the first row of a table with `num_rows` rows, a cursor that has
/// taken fewer than `num_rows` steps stands at the row of that number, and
/// one that has taken `num_rows` steps or more stands behind the last row.
pub proof fn lemma_advance_reaches_end(num_rows: usize, steps: nat)
    ensures
        steps < num_rows ==> Cursor::at_start(num_rows as nat).advanced_by(num_rows as nat, steps)
            == (Cursor { row_num: steps as usize, end_of_table: false }),
        steps >= num_rows ==> Cursor::at_start(num_rows as nat).advanced_by(num_rows as nat, steps)
            == (Cursor { row_num: num_rows, end_of_table: true }),
    decreases steps,
{
    if steps > 0 {
        lemma_advance_reaches_end(num_rows, (steps - 1) as nat);
    }
}

} // verus!
