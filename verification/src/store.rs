//! What the storage layer hands the vault, as plain values: the outside
//! store steps a query and yields one `Step` per call; the vault
//! collects them into `Rows` and reads each `Row`'s columns. The I/O
//! that produces these values lives outside the library.
use vstd::prelude::*;

verus! {

/// One column value of a fetched record.
pub enum Column {
    Text(String),
    Blob(Vec<u8>),
    Null,
}

/// The text a column holds, if it is a text column.
pub open spec fn column_text_view(c: Column) -> Option<Seq<char>> {
    match c {
        Column::Text(s) => Some(s@),
        _ => None,
    }
}

/// The bytes a column holds, if it is a blob column.
pub open spec fn column_blob_view(c: Column) -> Option<Seq<u8>> {
    match c {
        Column::Blob(b) => Some(b@),
        _ => None,
    }
}

/// One fetched record: its column values in order.
pub struct Row {
    pub columns: Vec<Column>,
}

impl Row {
    /// The text of column `column`, or nothing when the column is
    /// missing or not text.
    pub fn column_text(&self, column: u32) -> (r: Option<&str>)
        ensures
            match r {
                Some(s) => column < self.columns@.len() && column_text_view(
                    self.columns@[column as int],
                ) == Some(s@),
                None => column >= self.columns@.len() || column_text_view(
                    self.columns@[column as int],
                ) is None,
            },
    {
        if (column as usize) < self.columns.len() {
            match &self.columns[column as usize] {
                Column::Text(s) => Some(s.as_str()),
                _ => None,
            }
        } else {
            None
        }
    }

    /// The bytes of column `column`, or nothing when the column is
    /// missing or not a blob.
    pub fn column_blob(&self, column: u32) -> (r: Option<&Vec<u8>>)
        ensures
            match r {
                Some(b) => column < self.columns@.len() && column_blob_view(
                    self.columns@[column as int],
                ) == Some(b@),
                None => column >= self.columns@.len() || column_blob_view(
                    self.columns@[column as int],
                ) is None,
            },
    {
        if (column as usize) < self.columns.len() {
            match &self.columns[column as usize] {
                Column::Blob(b) => Some(b),
                _ => None,
            }
        } else {
            None
        }
    }
}

/// What one step of a statement yields: a row, or the end.
pub enum Step {
    Row(Row),
    Done,
}

/// The records a statement has yielded so far.
pub struct Rows {
    pub rows: Vec<Row>,
}

impl Rows {
    pub fn new() -> (r: Rows)
        ensures
            r.rows@.len() == 0,
    {
        Rows { rows: Vec::new() }
    }

    /// File one step's outcome: a row is kept, the end is reported.
    /// Returns whether more steps should be taken.
    pub fn push_step(&mut self, step: Step) -> (more: bool)
        ensures
            match step {
                Step::Row(row) => more && final(self).rows@ == old(self).rows@.push(row),
                Step::Done => !more && final(self).rows@ == old(self).rows@,
            },
    {
        match step {
            Step::Row(row) => {
                self.rows.push(row);
                true
            },
            Step::Done => false,
        }
    }
}

} // verus!
