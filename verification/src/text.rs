//! The display convention: a vector prints one bracketed component per line,
//! a matrix one bracketed row per line, its entries separated by a comma and
//! a space.
//!
//! How a scalar prints is the scalar's own business. The functions here lay
//! out vectors and matrices whose items are already in their display form.

use vstd::prelude::*;
use crate::matrix::Matrix;
use crate::vector::Vector;

verus! {

/// `String::push` of the standard library: the character is appended, the
/// text before it stays as it was.
pub assume_specification[ String::push ](s: &mut String, ch: char)
    ensures
        final(s)@ == old(s)@.push(ch),
;

/// `String::push_str` of the standard library: the slice is appended, the
/// text before it stays as it was.
pub assume_specification[ String::push_str ](s: &mut String, string: &str)
    ensures
        final(s)@ == old(s)@ + string@,
;

/// The characters of each of the given texts.
pub open spec fn texts_of(cells: Seq<String>) -> Seq<Seq<char>> {
    Seq::new(cells.len(), |i: int| cells[i]@)
}

/// The characters of the entries of row `r` of `m`.
pub open spec fn row_texts(m: Matrix<String>, r: int) -> Seq<Seq<char>> {
    texts_of(m.row(r))
}

/// The characters of the entries of `m`, row by row.
pub open spec fn grid_texts(m: Matrix<String>) -> Seq<Seq<Seq<char>>> {
    Seq::new(m.rows as nat, |r: int| row_texts(m, r))
}

/// Each of the given texts between square brackets, on a line of its own.
pub open spec fn bracketed_lines(cells: Seq<Seq<char>>) -> Seq<char>
    decreases cells.len(),
{
    if cells.len() == 0 {
        Seq::empty()
    } else {
        bracketed_lines(cells.drop_last()) + seq!['['] + cells.last() + seq![']', '\n']
    }
}

/// The given texts in a row, a comma and a space between each two.
pub open spec fn joined(cells: Seq<Seq<char>>) -> Seq<char>
    decreases cells.len(),
{
    if cells.len() == 0 {
        Seq::empty()
    } else if cells.len() == 1 {
        cells[0]
    } else {
        joined(cells.drop_last()) + seq![',', ' '] + cells.last()
    }
}

/// Each of the given rows joined and between square brackets, on a line of
/// its own.
pub open spec fn bracketed_rows(rows: Seq<Seq<Seq<char>>>) -> Seq<char>
    decreases rows.len(),
{
    if rows.len() == 0 {
        Seq::empty()
    } else {
        bracketed_rows(rows.drop_last()) + seq!['['] + joined(rows.last()) + seq![']', '\n']
    }
}

impl Vector<String> {
    /// The text of this vector of display forms: one bracketed component per
    /// line, from the first to the last.
    pub fn to_text(&self) -> (s: String)
        ensures
            s@ == bracketed_lines(texts_of(self@)),
    {
        let n: usize = self.data.len();
        let ghost cells = texts_of(self@);
        let mut out = String::new();
        for i in 0..n
            invariant
                n == self@.len(),
                cells == texts_of(self@),
                out@ == bracketed_lines(cells.take(i as int)),
        {
            let ghost before = out@;
            out.push('[');
            out.push_str(self.data[i].as_str());
            out.push(']');
            out.push('\n');
            proof {
                assert(cells.take(i + 1).drop_last() =~= cells.take(i as int));
                assert(cells.take(i + 1).last() == cells[i as int]);
                assert(out@ =~= before + seq!['['] + cells[i as int] + seq![']', '\n']);
            }
        }
        assert(cells.take(n as int) =~= cells);
        out
    }
}

impl Matrix<String> {
    /// The text of this matrix of display forms: one bracketed row per line,
    /// from the first to the last, the entries of a row from the first
    /// column to the last.
    pub fn to_text(&self) -> (s: String)
        requires
            self.wf(),
        ensures
            s@ == bracketed_rows(grid_texts(*self)),
    {
        let ghost grid = grid_texts(*self);
        let mut out = String::new();
        for r in 0..self.rows
            invariant
                self.wf(),
                grid == grid_texts(*self),
                out@ == bracketed_rows(grid.take(r as int)),
        {
            let ghost before = out@;
            let ghost cells = row_texts(*self, r as int);
            out.push('[');
            for c in 0..self.cols
                invariant
                    self.wf(),
                    0 <= r < self.rows,
                    cells == row_texts(*self, r as int),
                    out@ == before + seq!['['] + joined(cells.take(c as int)),
            {
                let ghost so_far = out@;
                if c > 0 {
                    out.push(',');
                    out.push(' ');
                }
                out.push_str(self.cell(r, c).as_str());
                proof {
                    assert(cells.take(c + 1).drop_last() =~= cells.take(c as int));
                    assert(cells.take(c + 1).last() == cells[c as int]);
                    if c == 0 {
                        assert(joined(cells.take(0)) =~= Seq::<char>::empty());
                        assert(cells.take(1)[0] == cells[0]);
                        assert(out@ =~= before + seq!['['] + joined(cells.take(1)));
                    } else {
                        assert(out@ =~= before + seq!['['] + (joined(cells.take(c as int)) + seq![
                            ',',
                            ' ',
                        ] + cells[c as int]));
                    }
                }
            }
            out.push(']');
            out.push('\n');
            proof {
                assert(cells.take(self.cols as int) =~= cells);
                assert(grid.take(r + 1).drop_last() =~= grid.take(r as int));
                assert(grid.take(r + 1).last() == cells);
                assert(out@ =~= before + seq!['['] + joined(cells) + seq![']', '\n']);
            }
        }
        assert(grid.take(self.rows as int) =~= grid);
        out
    }
}

} // verus!
