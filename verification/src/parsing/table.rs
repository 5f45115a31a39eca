//! The table of cells: read from text, looked up by address, written back
//! as text.
//!
//! In the text a line is a row and `|` separates the cells of a row. A cell
//! that starts with `=` holds a formula; any other cell holds its text as it
//! is.

use crate::address::CellIndex;
use crate::text::{chars_of, string_of};
use vstd::prelude::*;

verus! {

/// What a cell holds: text as it was written, or the source of a formula
/// without the `=` before it.
#[derive(Debug)]
pub enum Cell {
    Value(String),
    Expression(String),
}

pub enum CellView {
    Value(Seq<char>),
    Expression(Seq<char>),
}

impl View for Cell {
    type V = CellView;

    open spec fn view(&self) -> CellView {
        match self {
            Cell::Value(text) => CellView::Value(text@),
            Cell::Expression(source) => CellView::Expression(source@),
        }
    }
}

impl DeepView for Cell {
    type V = CellView;

    open spec fn deep_view(&self) -> CellView {
        self@
    }
}

/// The width to which a cell is padded when the table is written.
pub const CELL_WIDTH: usize = 10;

/// The pieces of `text` between its separators. A text without separator is
/// one piece; each separator ends a piece and starts the next, which may be
/// empty.
pub open spec fn split(text: Seq<char>, separator: char) -> Seq<Seq<char>>
    decreases text.len(),
{
    if text.len() == 0 {
        seq![Seq::empty()]
    } else {
        let before = split(text.drop_last(), separator);
        if text.last() == separator {
            before.push(Seq::empty())
        } else {
            before.update(before.len() - 1, before.last().push(text.last()))
        }
    }
}

/// The cell that a piece of a line makes: a formula after `=`, else text.
pub open spec fn cell_of(text: Seq<char>) -> CellView {
    if text.len() > 0 && text[0] == '=' {
        CellView::Expression(text.skip(1))
    } else {
        CellView::Value(text)
    }
}

/// The cells that a line holds.
pub open spec fn row_of(line: Seq<char>) -> Seq<CellView> {
    split(line, '|').map_values(|piece: Seq<char>| cell_of(piece))
}

/// The rows of cells that a text holds.
pub open spec fn table_of(text: Seq<char>) -> Seq<Seq<CellView>> {
    split(text, '\n').map_values(|line: Seq<char>| row_of(line))
}

/// The cell at an address, if the table has one there.
pub open spec fn cell_at(rows: Seq<Seq<CellView>>, index: CellIndex) -> Option<CellView> {
    if index.row < rows.len() && index.column < rows[index.row as int].len() {
        Some(rows[index.row as int][index.column as int])
    } else {
        None
    }
}

/// The table with `cell` at an address where it has a cell; the table as
/// it is where it has none there.
pub open spec fn with_cell(rows: Seq<Seq<CellView>>, index: CellIndex, cell: CellView) -> Seq<
    Seq<CellView>,
> {
    if cell_at(rows, index) is Some {
        rows.update(index.row as int, rows[index.row as int].update(index.column as int, cell))
    } else {
        rows
    }
}

/// The table with each of `cells` holding the text that `texts` has for it,
/// one for one.
pub open spec fn filled(rows: Seq<Seq<CellView>>, cells: Seq<CellIndex>, texts: Seq<Seq<char>>) -> Seq<
    Seq<CellView>,
>
    decreases cells.len(),
{
    if cells.len() == 0 || texts.len() == 0 {
        rows
    } else {
        with_cell(
            filled(rows, cells.drop_last(), texts.drop_last()),
            cells.last(),
            CellView::Value(texts.last()),
        )
    }
}

/// The table holds no formula.
pub open spec fn is_plain(rows: Seq<Seq<CellView>>) -> bool {
    forall|index: CellIndex| !(#[trigger] cell_at(rows, index) matches Some(CellView::Expression(_)))
}

/// The text that a cell holds: its text, or the source of its formula.
pub open spec fn cell_text(cell: CellView) -> Seq<char> {
    match cell {
        CellView::Value(text) => text,
        CellView::Expression(source) => source,
    }
}

/// `text`, followed by as many blanks as it is short of the cell width.
pub open spec fn padded(text: Seq<char>) -> Seq<char> {
    if text.len() >= CELL_WIDTH {
        text
    } else {
        text + Seq::new((CELL_WIDTH - text.len()) as nat, |i: int| ' ')
    }
}

/// A row as text: its cells, each padded, with `|` between them.
pub open spec fn row_text(row: Seq<CellView>) -> Seq<char>
    decreases row.len(),
{
    if row.len() == 0 {
        Seq::empty()
    } else if row.len() == 1 {
        padded(cell_text(row.last()))
    } else {
        row_text(row.drop_last()) + seq!['|'] + padded(cell_text(row.last()))
    }
}

/// A table as text: each row followed by a line end.
pub open spec fn table_text(rows: Seq<Seq<CellView>>) -> Seq<char>
    decreases rows.len(),
{
    if rows.len() == 0 {
        Seq::empty()
    } else {
        table_text(rows.drop_last()) + row_text(rows.last()) + seq!['\n']
    }
}

/// The texts that vectors of characters hold, one for one.
pub open spec fn texts(pieces: Seq<Vec<char>>) -> Seq<Seq<char>> {
    pieces.map_values(|piece: Vec<char>| piece@)
}

/// The pieces of `chars` between separators.
pub fn pieces(chars: &Vec<char>, separator: char) -> (out: Vec<Vec<char>>)
    ensures
        texts(out@) == split(chars@, separator),
{
    let mut out: Vec<Vec<char>> = Vec::new();
    let mut piece: Vec<char> = Vec::new();
    let mut i: usize = 0;
    while i < chars.len()
        invariant
            i <= chars.len(),
            texts(out@).push(piece@) == split(chars@.take(i as int), separator),
        decreases chars.len() - i,
    {
        let c = chars[i];
        assert(chars@.take(i + 1).drop_last() == chars@.take(i as int));
        if c == separator {
            out.push(piece);
            piece = Vec::new();
        } else {
            piece.push(c);
        }
        i += 1;
    }
    assert(chars@.take(chars.len() as int) == chars@);
    out.push(piece);
    out
}

/// The table: its rows, and in each row its cells.
#[derive(Debug)]
pub struct Table {
    pub rows: Vec<Vec<Cell>>,
}

impl View for Table {
    type V = Seq<Seq<CellView>>;

    open spec fn view(&self) -> Seq<Seq<CellView>> {
        self.rows.deep_view()
    }
}

impl Table {
    /// The table that a text holds.
    pub fn from_text(text: &str) -> (table: Self)
        ensures
            table@ == table_of(text@),
    {
        let chars = chars_of(text);
        let lines = pieces(&chars, '\n');
        let mut rows: Vec<Vec<Cell>> = Vec::new();
        let mut r: usize = 0;
        while r < lines.len()
            invariant
                r <= lines.len(),
                texts(lines@) == split(text@, '\n'),
                rows.len() == r,
                forall|k: int| 0 <= k < r ==> (#[trigger] rows[k]).deep_view() == row_of(lines[k]@),
            decreases lines.len() - r,
        {
            let row = Table::row_from(&lines[r]);
            rows.push(row);
            r += 1;
        }
        let table = Table { rows };
        table
    }

    /// The cells of one line.
    fn row_from(line: &Vec<char>) -> (row: Vec<Cell>)
        ensures
            row.deep_view() == row_of(line@),
    {
        let parts = pieces(line, '|');
        let mut row: Vec<Cell> = Vec::new();
        let mut c: usize = 0;
        while c < parts.len()
            invariant
                c <= parts.len(),
                texts(parts@) == split(line@, '|'),
                row.len() == c,
                forall|k: int| 0 <= k < c ==> (#[trigger] row[k])@ == cell_of(parts[k]@),
            decreases parts.len() - c,
        {
            let part = &parts[c];
            let cell = if part.len() > 0 && part[0] == '=' {
                Cell::Expression(string_of(part, 1, part.len()))
            } else {
                assert(part@.subrange(0, part.len() as int) == part@);
                Cell::Value(string_of(part, 0, part.len()))
            };
            row.push(cell);
            c += 1;
        }
        row
    }

    /// The cell at an address, if the table has one there.
    pub fn get(&self, index: &CellIndex) -> (found: Option<&Cell>)
        ensures
            match cell_at(self@, *index) {
                Some(cell) => found matches Some(held) && held@ == cell,
                None => found is None,
            },
    {
        if index.row < self.rows.len() {
            let row = &self.rows[index.row];
            if index.column < row.len() {
                return Some(&row[index.column]);
            }
        }
        None
    }

    /// Puts `cell` at an address where the table has a cell. Where it has
    /// none the table stays as it is and the answer is `false`.
    pub fn put(&mut self, index: CellIndex, cell: Cell) -> (done: bool)
        ensures
            done == (cell_at(old(self)@, index) is Some),
            final(self)@ == with_cell(old(self)@, index, cell@),
    {
        if index.row < self.rows.len() {
            if index.column < self.rows[index.row].len() {
                let ghost before = self@;
                let mut row: Vec<Cell> = Vec::new();
                std::mem::swap(&mut row, &mut self.rows[index.row]);
                row[index.column] = cell;
                self.rows[index.row] = row;
                let ghost after = with_cell(before, index, cell@);
                assert(forall|k: int| 0 <= k < before.len() ==> #[trigger] self@[k] =~= after[k]);
                assert(self@ =~= after);
                return true;
            }
        }
        false
    }

    /// The table as text: each cell padded with blanks to ten characters,
    /// `|` between the cells of a row, and each row followed by a line end.
    /// A formula is written as its source.
    pub fn render(&self) -> (output: String)
        ensures
            output@ == table_text(self@),
    {
        let mut output = String::new();
        let mut r: usize = 0;
        while r < self.rows.len()
            invariant
                r <= self.rows.len(),
                output@ == table_text(self@.take(r as int)),
            decreases self.rows.len() - r,
        {
            let row = &self.rows[r];
            let ghost cells = row.deep_view();
            let ghost start = output@;
            assert(self@.take(r + 1).drop_last() == self@.take(r as int));
            let mut c: usize = 0;
            while c < row.len()
                invariant
                    c <= row.len(),
                    cells == row.deep_view(),
                    output@ == start + row_text(cells.take(c as int)),
                decreases row.len() - c,
            {
                assert(cells.take(c + 1).drop_last() == cells.take(c as int));
                if c > 0 {
                    output.push('|');
                }
                match &row[c] {
                    Cell::Value(text) => Table::write_padded(&mut output, text.as_str()),
                    Cell::Expression(source) => Table::write_padded(&mut output, source.as_str()),
                }
                c += 1;
            }
            assert(cells.take(row.len() as int) == cells);
            output.push('\n');
            r += 1;
        }
        assert(self@.take(self.rows.len() as int) == self@);
        output
    }

    /// Appends `text` to `output`, and blanks up to the cell width.
    fn write_padded(output: &mut String, text: &str)
        ensures
            final(output)@ == old(output)@ + padded(text@),
    {
        output.append(text);
        let length = text.unicode_len();
        let mut n: usize = length;
        while n < CELL_WIDTH
            invariant
                length <= n,
                length == text@.len(),
                n <= CELL_WIDTH || n == length,
                output@ == old(output)@ + text@ + Seq::new((n - length) as nat, |i: int| ' '),
            decreases CELL_WIDTH - n,
        {
            output.push(' ');
            n += 1;
        }
    }
}

} // verus!
