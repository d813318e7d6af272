//! The grid of a table: its cells and labels, the order in which its text
//! is written, and which grid lines it draws.
use vstd::prelude::*;

verus! {

#[derive(Clone, Copy, Debug, PartialEq, Eq, Structural)]
pub enum TableTitlePosition {
    Top,
    Bottom,
}

/// The line indices drawn across `count` grid cells: all `count + 1`
/// boundaries with the outer lines, else only the `count - 1` inner ones.
pub open spec fn line_indices(count: nat, include_outer_lines: bool) -> Seq<usize> {
    if include_outer_lines {
        Seq::new(count + 1, |i: int| i as usize)
    } else if count > 0 {
        Seq::new((count - 1) as nat, |i: int| (i + 1) as usize)
    } else {
        Seq::empty()
    }
}

/// The indices of the grid lines to draw, in drawing order.
pub fn visible_line_indices(count: usize, include_outer_lines: bool) -> (r: Vec<usize>)
    requires
        include_outer_lines ==> count < usize::MAX,
    ensures
        r@ == line_indices(count as nat, include_outer_lines),
{
    let mut out: Vec<usize> = Vec::new();
    if include_outer_lines {
        let mut i: usize = 0;
        while i <= count
            invariant
                i <= count + 1,
                count < usize::MAX,
                out@ == Seq::new(i as nat, |k: int| k as usize),
            decreases count + 1 - i,
        {
            out.push(i);
            proof {
                assert(out@ =~= Seq::new((i + 1) as nat, |k: int| k as usize));
            }
            i += 1;
        }
    } else if count > 0 {
        let mut i: usize = 1;
        while i < count
            invariant
                1 <= i <= count,
                out@ == Seq::new((i - 1) as nat, |k: int| (k + 1) as usize),
            decreases count - i,
        {
            out.push(i);
            proof {
                assert(out@ =~= Seq::new(i as nat, |k: int| (k + 1) as usize));
            }
            i += 1;
        }
    }
    proof {
        assert(out@ =~= line_indices(count as nat, include_outer_lines));
    }
    out
}

/// Where a piece of table text stands.
#[derive(Clone, Copy, Debug, PartialEq, Eq, Structural)]
pub enum TextSlot {
    /// The label over column `index`.
    ColumnLabel(usize),
    /// The label beside row `index`.
    RowLabel(usize),
    /// The data cell in row `row`, column `col` (both from 0).
    Cell(usize, usize),
}

/// One piece of table text and where it stands.
#[derive(Clone, Debug)]
pub struct TextEntry {
    pub content: String,
    pub slot: TextSlot,
}

/// The views of a list of strings.
pub open spec fn string_views(s: Seq<String>) -> Seq<Seq<char>> {
    s.map_values(|t: String| t@)
}

/// The views of a list of rows of strings.
pub open spec fn rows_view(rows: Seq<Vec<String>>) -> Seq<Seq<Seq<char>>> {
    rows.map_values(|r: Vec<String>| string_views(r@))
}

/// The view of an optional list of labels.
pub open spec fn labels_view(labels: Option<Vec<String>>) -> Option<Seq<Seq<char>>> {
    match labels {
        Some(l) => Some(string_views(l@)),
        None => None,
    }
}

/// The view of a text entry.
pub open spec fn entry_view(e: TextEntry) -> (Seq<char>, TextSlot) {
    (e.content@, e.slot)
}

/// The views of a list of text entries.
pub open spec fn entries_view(s: Seq<TextEntry>) -> Seq<(Seq<char>, TextSlot)> {
    s.map_values(|e: TextEntry| entry_view(e))
}

/// The column labels, in order, each over its column.
pub open spec fn column_label_entries(labels: Option<Seq<Seq<char>>>) -> Seq<(Seq<char>, TextSlot)> {
    match labels {
        Some(l) => Seq::new(l.len(), |i: int| (l[i], TextSlot::ColumnLabel(i as usize))),
        None => Seq::empty(),
    }
}

/// The row labels, in order, each beside its row.
pub open spec fn row_label_entries(labels: Option<Seq<Seq<char>>>) -> Seq<(Seq<char>, TextSlot)> {
    match labels {
        Some(l) => Seq::new(l.len(), |i: int| (l[i], TextSlot::RowLabel(i as usize))),
        None => Seq::empty(),
    }
}

/// The cells of row `r`, left to right.
pub open spec fn row_entries(row: Seq<Seq<char>>, r: int) -> Seq<(Seq<char>, TextSlot)> {
    Seq::new(row.len(), |c: int| (row[c], TextSlot::Cell(r as usize, c as usize)))
}

/// The data cells row by row, each row left to right.
pub open spec fn cell_entries(rows: Seq<Seq<Seq<char>>>) -> Seq<(Seq<char>, TextSlot)>
    decreases rows.len(),
{
    if rows.len() == 0 {
        Seq::empty()
    } else {
        cell_entries(rows.drop_last()) + row_entries(rows.last(), rows.len() - 1)
    }
}

/// The order in which a table writes its text: column labels, then row
/// labels, then the cells row by row.
pub open spec fn text_order(
    col_labels: Option<Seq<Seq<char>>>,
    row_labels: Option<Seq<Seq<char>>>,
    rows: Seq<Seq<Seq<char>>>,
) -> Seq<(Seq<char>, TextSlot)> {
    column_label_entries(col_labels) + row_label_entries(row_labels) + cell_entries(rows)
}

/// The number of columns: the length of the first row, or 0.
pub open spec fn column_count(rows: Seq<Vec<String>>) -> nat {
    if rows.len() == 0 {
        0
    } else {
        rows[0]@.len()
    }
}

/// 1 where the labels are given, else 0.
pub open spec fn present(labels: Option<Vec<String>>) -> nat {
    if labels is Some {
        1
    } else {
        0
    }
}

/// The grid columns and rows that the lines of `t` enclose: with the
/// labels inside, the label column and row take a grid cell each.
pub open spec fn grid_dims(t: TableGrid) -> (nat, nat) {
    if t.labels_inside {
        (column_count(t.rows@) + present(t.row_labels), t.rows@.len() + present(t.col_labels))
    } else {
        (column_count(t.rows@), t.rows@.len())
    }
}

/// The text and grid options of a table; its sizes, colours and write
/// progress are kept by the renderer.
pub struct TableGrid {
    pub rows: Vec<Vec<String>>,
    pub row_labels: Option<Vec<String>>,
    pub col_labels: Option<Vec<String>>,
    pub title: Option<String>,
    pub title_position: TableTitlePosition,
    pub include_outer_lines: bool,
    pub labels_inside: bool,
}

impl TableGrid {
    pub fn new(data: Vec<Vec<String>>) -> (t: Self)
        ensures
            t.rows == data,
            t.row_labels is None,
            t.col_labels is None,
            t.title is None,
            t.title_position == TableTitlePosition::Bottom,
            t.include_outer_lines,
            !t.labels_inside,
    {
        TableGrid {
            rows: data,
            row_labels: None,
            col_labels: None,
            title: None,
            title_position: TableTitlePosition::Bottom,
            include_outer_lines: true,
            labels_inside: false,
        }
    }

    pub fn with_row_labels(self, labels: Vec<String>) -> (t: Self)
        ensures
            t == (TableGrid { row_labels: Some(labels), ..self }),
    {
        TableGrid { row_labels: Some(labels), ..self }
    }

    pub fn with_col_labels(self, labels: Vec<String>) -> (t: Self)
        ensures
            t == (TableGrid { col_labels: Some(labels), ..self }),
    {
        TableGrid { col_labels: Some(labels), ..self }
    }

    pub fn with_title(self, title: String) -> (t: Self)
        ensures
            t == (TableGrid { title: Some(title), ..self }),
    {
        TableGrid { title: Some(title), ..self }
    }

    pub fn with_title_position(self, position: TableTitlePosition) -> (t: Self)
        ensures
            t == (TableGrid { title_position: position, ..self }),
    {
        TableGrid { title_position: position, ..self }
    }

    pub fn with_outer_lines(self, outer: bool) -> (t: Self)
        ensures
            t == (TableGrid { include_outer_lines: outer, ..self }),
    {
        TableGrid { include_outer_lines: outer, ..self }
    }

    pub fn with_labels_inside(self, inside: bool) -> (t: Self)
        ensures
            t == (TableGrid { labels_inside: inside, ..self }),
    {
        TableGrid { labels_inside: inside, ..self }
    }

    pub fn num_rows(&self) -> (n: usize)
        ensures
            n == self.rows@.len(),
    {
        self.rows.len()
    }

    /// The number of columns, read from the first row.
    pub fn num_cols(&self) -> (n: usize)
        ensures
            n == column_count(self.rows@),
    {
        if self.rows.len() == 0 {
            0
        } else {
            self.rows[0].len()
        }
    }

    /// The cell at grid position (`row`, `col`), counted from 1: row 0 and
    /// column 0 are the label band and hold no data cell.
    pub fn get_cell(&self, row: usize, col: usize) -> (r: Option<&String>)
        ensures
            r is Some <==> (row > 0 && col > 0 && row - 1 < self.rows@.len() && col - 1 < self.rows@[row
                - 1]@.len()),
            r is Some ==> r->0@ == self.rows@[row - 1]@[col - 1]@,
    {
        if row > 0 && col > 0 && row - 1 < self.rows.len() && col - 1 < self.rows[row - 1].len() {
            Some(&self.rows[row - 1][col - 1])
        } else {
            None
        }
    }

    /// The number of grid columns and rows that the lines enclose: with the
    /// labels inside, the label column and row take a grid cell each.
    pub fn grid_size(&self) -> (r: (usize, usize))
        requires
            self.rows@.len() < usize::MAX,
            column_count(self.rows@) < usize::MAX,
        ensures
            r.0 == grid_dims(*self).0,
            r.1 == grid_dims(*self).1,
    {
        let cols = self.num_cols();
        let rows = self.num_rows();
        if self.labels_inside {
            let extra_col: usize = if self.row_labels.is_some() {
                1
            } else {
                0
            };
            let extra_row: usize = if self.col_labels.is_some() {
                1
            } else {
                0
            };
            (cols + extra_col, rows + extra_row)
        } else {
            (cols, rows)
        }
    }

    /// The horizontal line indices, then the vertical ones, in drawing
    /// order: horizontal lines are drawn first.
    pub fn line_order(&self) -> (r: (Vec<usize>, Vec<usize>))
        requires
            self.rows@.len() + 1 < usize::MAX,
            column_count(self.rows@) + 1 < usize::MAX,
        ensures
            r.0@ == line_indices(grid_dims(*self).1, self.include_outer_lines),
            r.1@ == line_indices(grid_dims(*self).0, self.include_outer_lines),
    {
        let (cols, rows) = self.grid_size();
        let h = visible_line_indices(rows, self.include_outer_lines);
        let v = visible_line_indices(cols, self.include_outer_lines);
        (h, v)
    }

    /// Offsets of the data cells in the grid when the labels stand inside
    /// it: one row down under column labels, one column right beside row
    /// labels. Outside labels take no grid cell.
    pub fn label_offsets(&self) -> (r: (usize, usize))
        ensures
            self.labels_inside ==> r == (present(self.col_labels) as usize, present(self.row_labels) as usize),
            !self.labels_inside ==> r == (0usize, 0usize),
    {
        if !self.labels_inside {
            return (0, 0);
        }
        let row_offset: usize = if self.col_labels.is_some() {
            1
        } else {
            0
        };
        let col_offset: usize = if self.row_labels.is_some() {
            1
        } else {
            0
        };
        (row_offset, col_offset)
    }

    /// The table's text in writing order: column labels, then row labels,
    /// then the cells row by row.
    pub fn text_entries(&self) -> (r: Vec<TextEntry>)
        ensures
            entries_view(r@) == text_order(
                labels_view(self.col_labels),
                labels_view(self.row_labels),
                rows_view(self.rows@),
            ),
    {
        let mut out: Vec<TextEntry> = Vec::new();
        let ghost col_part = column_label_entries(labels_view(self.col_labels));
        let ghost row_part = row_label_entries(labels_view(self.row_labels));
        if let Some(labels) = &self.col_labels {
            push_labels(&mut out, labels, true);
        }
        assert(entries_view(out@) == col_part);
        if let Some(labels) = &self.row_labels {
            push_labels(&mut out, labels, false);
        }
        assert(entries_view(out@) =~= col_part + row_part);
        let mut r: usize = 0;
        while r < self.rows.len()
            invariant
                r <= self.rows@.len(),
                entries_view(out@) == col_part + row_part + cell_entries(
                    rows_view(self.rows@.subrange(0, r as int)),
                ),
            decreases self.rows@.len() - r,
        {
            let row = &self.rows[r];
            let ghost before = entries_view(out@);
            let mut c: usize = 0;
            while c < row.len()
                invariant
                    c <= row@.len(),
                    entries_view(out@) == before + row_entries(string_views(row@).subrange(0, c as int), r as int),
                decreases row@.len() - c,
            {
                let entry = TextEntry { content: row[c].clone(), slot: TextSlot::Cell(r, c) };
                let ghost prev = out@;
                out.push(entry);
                proof {
                    assert(entries_view(out@) =~= entries_view(prev).push(entry_view(entry)));
                    assert(row_entries(string_views(row@).subrange(0, (c + 1) as int), r as int) =~= row_entries(
                        string_views(row@).subrange(0, c as int),
                        r as int,
                    ).push(entry_view(entry)));
                    assert(entries_view(out@) =~= before + row_entries(
                        string_views(row@).subrange(0, (c + 1) as int),
                        r as int,
                    ));
                }
                c += 1;
            }
            proof {
                let done = rows_view(self.rows@.subrange(0, r as int));
                let next = rows_view(self.rows@.subrange(0, (r + 1) as int));
                assert(next.drop_last() =~= done);
                assert(next.last() =~= string_views(row@));
                assert(string_views(row@).subrange(0, c as int) =~= string_views(row@));
                assert(col_part + row_part + cell_entries(next) =~= col_part + row_part + cell_entries(done)
                    + row_entries(string_views(row@), r as int));
            }
            r += 1;
        }
        proof {
            assert(self.rows@.subrange(0, r as int) =~= self.rows@);
        }
        out
    }
}

/// Appends one entry per label, in order: column labels when `columns`,
/// else row labels.
fn push_labels(out: &mut Vec<TextEntry>, labels: &Vec<String>, columns: bool)
    ensures
        entries_view(final(out)@) == entries_view(old(out)@) + (if columns {
            column_label_entries(Some(string_views(labels@)))
        } else {
            row_label_entries(Some(string_views(labels@)))
        }),
{
    let ghost start = entries_view(out@);
    let ghost want = if columns {
        column_label_entries(Some(string_views(labels@)))
    } else {
        row_label_entries(Some(string_views(labels@)))
    };
    let mut i: usize = 0;
    while i < labels.len()
        invariant
            i <= labels@.len(),
            want.len() == labels@.len(),
            want == (if columns {
                column_label_entries(Some(string_views(labels@)))
            } else {
                row_label_entries(Some(string_views(labels@)))
            }),
            entries_view(out@) == start + want.subrange(0, i as int),
        decreases labels@.len() - i,
    {
        let slot = if columns {
            TextSlot::ColumnLabel(i)
        } else {
            TextSlot::RowLabel(i)
        };
        let entry = TextEntry { content: labels[i].clone(), slot };
        let ghost prev = out@;
        out.push(entry);
        proof {
            assert(entries_view(out@) =~= entries_view(prev).push(entry_view(entry)));
            assert(want[i as int] == entry_view(entry));
            assert(want.subrange(0, (i + 1) as int) =~= want.subrange(0, i as int).push(want[i as int]));
            assert(entries_view(out@) =~= start + want.subrange(0, (i + 1) as int));
        }
        i += 1;
    }
    proof {
        assert(want.subrange(0, i as int) =~= want);
    }
}

/// Law: labels take grid cells only when they stand inside the grid, and
/// each kind on its own axis. With no labels the grid is the data cells
/// (the first row's length in columns, the row count in rows). Inside the
/// grid, row labels add exactly one column and no row, and column labels
/// add exactly one row and no column; outside it, labels change nothing.
pub proof fn lemma_labels_take_their_own_axis(t: TableGrid, labels: Vec<String>)
    ensures
        grid_dims(TableGrid { row_labels: None, col_labels: None, ..t }) == (
            column_count(t.rows@),
            t.rows@.len(),
        ),
        t.labels_inside ==> grid_dims(TableGrid { row_labels: Some(labels), ..t }) == (
            grid_dims(TableGrid { row_labels: None, ..t }).0 + 1,
            grid_dims(TableGrid { row_labels: None, ..t }).1,
        ),
        t.labels_inside ==> grid_dims(TableGrid { col_labels: Some(labels), ..t }) == (
            grid_dims(TableGrid { col_labels: None, ..t }).0,
            grid_dims(TableGrid { col_labels: None, ..t }).1 + 1,
        ),
        !t.labels_inside ==> grid_dims(t) == (column_count(t.rows@), t.rows@.len()),
{
}

} // verus!
