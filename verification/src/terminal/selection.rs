use vstd::prelude::*;
use crate::terminal::grid::{Cell, GridModel, GridPerformer};
use crate::text::{string_of, trim_end_chars, trimmed_end};

verus! {

/// A selection: ((start_col, start_row), (end_col, end_row)) in visual coordinates.
pub type Selection = ((usize, usize), (usize, usize));

/// The selection with its ends in reading order (row-major).
pub open spec fn ordered(sel: Selection) -> Selection {
    let ((sc, sr), (ec, er)) = sel;
    if sr < er || (sr == er && sc <= ec) {
        sel
    } else {
        ((ec, er), (sc, sr))
    }
}

/// Normalises a selection so start <= end in reading order (row-major).
pub fn normalize_selection(sel: Selection) -> (r: Selection)
    ensures
        r == ordered(sel),
{
    let ((sc, sr), (ec, er)) = sel;
    if sr < er || (sr == er && sc <= ec) {
        sel
    } else {
        ((ec, er), (sc, sr))
    }
}

/// Whether the cell at `col`, `row` lies in the selection, reading order
/// from its start to its end, both included.
pub open spec fn selected_at(sel: Selection, col: int, row: int) -> bool {
    let ((sc, sr), (ec, er)) = ordered(sel);
    &&& (row > sr || (row == sr && col >= sc))
    &&& (row < er || (row == er && col <= ec))
}

/// Whether the cell at `col`, `row` lies in the selection (for highlighting it).
pub fn cell_selected(sel: Selection, col: usize, row: usize) -> (b: bool)
    ensures
        b == selected_at(sel, col as int, row as int),
{
    let ((sc, sr), (ec, er)) = normalize_selection(sel);
    (row > sr || (row == sr && col >= sc)) && (row < er || (row == er && col <= ec))
}

/// The characters of the cells at columns `lo ..= hi` of `row`, wide-character
/// continuation cells (`'\0'`) left out.
pub open spec fn selected_chars(row: Seq<Cell>, lo: int, hi: int) -> Seq<char>
    decreases row.len(),
{
    if row.len() == 0 {
        Seq::empty()
    } else {
        let i = row.len() - 1;
        let rest = selected_chars(row.drop_last(), lo, hi);
        if lo <= i <= hi && row[i].ch != '\0' {
            rest.push(row[i].ch)
        } else {
            rest
        }
    }
}

/// The selected text of visual row `row`: from the start column on the first
/// row, to the end column on the last, the whole row between; trailing white
/// space removed.
pub open spec fn line_text(g: GridModel, sel: Selection, row: int) -> Seq<char> {
    let ((sc, sr), (ec, er)) = ordered(sel);
    let lo: int = if row == sr {
        sc as int
    } else {
        0
    };
    let hi: int = if row == er {
        ec as int
    } else if g.cols >= 1 {
        g.cols - 1
    } else {
        0
    };
    trimmed_end(selected_chars(g.shown_row(row), lo, hi))
}

/// Lines joined with `'\n'` between them.
pub open spec fn joined(lines: Seq<Seq<char>>) -> Seq<char>
    decreases lines.len(),
{
    if lines.len() == 0 {
        Seq::empty()
    } else if lines.len() == 1 {
        lines[0]
    } else {
        joined(lines.drop_last()).push('\n') + lines.last()
    }
}

/// The text of a selection: its rows' selected text joined by line breaks.
pub open spec fn selection_text(g: GridModel, sel: Selection) -> Seq<char> {
    let ((sc, sr), (ec, er)) = ordered(sel);
    joined(Seq::new((er - sr + 1) as nat, |k: int| line_text(g, sel, sr + k)))
}

fn chars_in_row(row: &[Cell], lo: usize, hi: usize) -> (v: Vec<char>)
    ensures
        v@ == selected_chars(row@, lo as int, hi as int),
{
    let mut v: Vec<char> = Vec::new();
    let mut i: usize = 0;
    while i < row.len()
        invariant
            i <= row@.len(),
            v@ == selected_chars(row@.take(i as int), lo as int, hi as int),
        decreases row@.len() - i,
    {
        proof {
            assert(row@.take(i + 1).drop_last() =~= row@.take(i as int));
        }
        if lo <= i && i <= hi && row[i].ch != '\0' {
            v.push(row[i].ch);
        }
        i = i + 1;
    }
    assert(row@.take(row@.len() as int) =~= row@);
    v
}

/// Extracts the selected text from the grid, as displayed (scrollback
/// included): one line per selected row, joined with `'\n'`.
pub fn extract_selection_text(grid: &GridPerformer, sel: Selection) -> (s: String)
    requires
        grid.wf(),
        grid@.scroll_offset > 0 ==> grid@.scrollback.len() - grid@.scroll_offset + ordered(
            sel,
        ).1.1 <= usize::MAX,
    ensures
        s@ == selection_text(grid@, sel),
{
    let ((sc, sr), (ec, er)) = normalize_selection(sel);
    let ghost lines = Seq::new((er - sr + 1) as nat, |k: int| line_text(grid@, sel, sr + k));
    let mut out: Vec<char> = Vec::new();
    let mut row = sr;
    let cols = grid.cols();
    loop
        invariant
            sr <= row <= er,
            ordered(sel) == ((sc, sr), (ec, er)),
            grid.wf(),
            grid@.scroll_offset > 0 ==> grid@.scrollback.len() - grid@.scroll_offset + er
                <= usize::MAX,
            cols == grid@.cols,
            lines == Seq::new((er - sr + 1) as nat, |k: int| line_text(grid@, sel, sr + k)),
            out@ == joined(lines.take(row - sr)),
        decreases er - row,
    {
        let start_col = if row == sr {
            sc
        } else {
            0
        };
        let end_col = if row == er {
            ec
        } else if cols >= 1 {
            cols - 1
        } else {
            0
        };
        let cells = grid.visible_row(row);
        let picked = chars_in_row(cells, start_col, end_col);
        let line = trim_end_chars(&picked);
        assert(line@ == lines[row - sr]);
        let ghost before = out@;
        if row > sr {
            out.push('\n');
        }
        let mut j: usize = 0;
        let ghost base = out@;
        while j < line.len()
            invariant
                j <= line@.len(),
                out@ == base + line@.take(j as int),
            decreases line@.len() - j,
        {
            out.push(line[j]);
            j = j + 1;
            assert(out@ =~= base + line@.take(j as int));
        }
        proof {
            assert(line@.take(line@.len() as int) =~= line@);
            let t = lines.take(row - sr + 1);
            assert(t.drop_last() =~= lines.take(row - sr));
            if row == sr {
                assert(lines.take(0) =~= Seq::<Seq<char>>::empty());
                assert(t =~= seq![line@]);
                assert(out@ =~= line@);
            } else {
                assert(out@ =~= before.push('\n') + line@);
            }
        }
        if row == er {
            assert(lines.take(row - sr + 1) =~= lines);
            return string_of(&out);
        }
        row = row + 1;
    }
}

/// A selection read in order starts no later than it ends (row first, then
/// column), has the same two ends, and does not depend on which end the
/// drag started from; the cells it covers are the same either way.
pub proof fn law_selection_order(sel: Selection, col: int, row: int)
    ensures
        ({
            let ((sc, sr), (ec, er)) = ordered(sel);
            sr < er || (sr == er && sc <= ec)
        }),
        ordered(sel) == sel || ordered(sel) == (sel.1, sel.0),
        ordered(sel) == ordered((sel.1, sel.0)) || sel.0 == sel.1,
        selected_at(sel, col, row) == selected_at((sel.1, sel.0), col, row),
{
}

} // verus!
