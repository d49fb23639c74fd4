use vstd::prelude::*;

verus! {

/// One spreadsheet cell, reduced to what the conversion reads: nothing, a
/// string, or any other value (a number, a date, a boolean) in its rendered form.
#[derive(Debug, Clone, PartialEq, Eq)]
pub enum Cell {
    Empty,
    Text(String),
    Number(String),
}

impl Cell {
    /// The text a cell stands for when read as a string.
    pub open spec fn text(&self) -> Seq<char> {
        match self {
            Cell::Empty => Seq::empty(),
            Cell::Text(s) => s@,
            Cell::Number(s) => s@,
        }
    }

    /// The cell as text: empty for an empty cell.
    pub fn as_text(&self) -> (r: String)
        ensures
            r@ == self.text(),
    {
        match self {
            Cell::Empty => String::new(),
            Cell::Text(s) => s.clone(),
            Cell::Number(s) => s.clone(),
        }
    }
}

/// Text of column `c` of a row; a column past the row's end reads as empty.
pub open spec fn cell_text(row: Seq<Cell>, c: int) -> Seq<char> {
    if 0 <= c < row.len() {
        row[c].text()
    } else {
        Seq::empty()
    }
}

/// Text of column `c` of `row`, empty past the row's end.
pub fn cell_at(row: &Vec<Cell>, c: usize) -> (r: String)
    ensures
        r@ == cell_text(row@, c as int),
{
    if c < row.len() {
        row[c].as_text()
    } else {
        String::new()
    }
}

} // verus!
