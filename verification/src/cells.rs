//! A two-by-two matrix of wrapped cells, stored both by rows and by
//! columns so either traversal is a plain walk.

use vstd::prelude::*;
use vstd::string::StrSliceExecFns;
use vstd::string::StringExecFns;
use crate::color::dec_rep;
use crate::color::push_decimal;

verus! {

/// One matrix element.
#[derive(Debug, Clone, PartialEq)]
pub struct Cell<T>(pub T);

/// `s` repeated `n` times.
pub open spec fn repeat_text(s: Seq<char>, n: int) -> Seq<char>
    decreases n,
{
    if n <= 0 {
        Seq::empty()
    } else {
        repeat_text(s, n - 1) + s
    }
}

/// The sum of a number cell and a text cell: the number, a space, the
/// text; for a negative number, the text reversed, a space, the
/// magnitude.
pub open spec fn cell_sum_text(a: int, s: Seq<char>) -> Seq<char> {
    if a >= 0 {
        dec_rep(a) + seq![' '] + s
    } else {
        s.reverse() + seq![' '] + dec_rep(-a)
    }
}

/// The product of a number cell and a text cell: the text repeated that
/// many times; for a negative number, the reversed text repeated the
/// magnitude of times.
pub open spec fn cell_product_text(a: int, s: Seq<char>) -> Seq<char> {
    if a >= 0 {
        repeat_text(s, a)
    } else {
        repeat_text(s.reverse(), -a)
    }
}

/// `s` with every trailing spacing character removed.
pub open spec fn trim_end_text(s: Seq<char>) -> Seq<char>
    decreases s.len(),
{
    if s.len() > 0 && is_trim_space(s.last()) {
        trim_end_text(s.drop_last())
    } else {
        s
    }
}

pub open spec fn is_trim_space(c: char) -> bool {
    c == ' ' || c == '\t' || c == '\n' || c == '\r'
}

/// `s` reversed, character by character.
fn reversed_string(s: &str) -> (r: String)
    ensures
        r@ == s@.reverse(),
{
    let n = s.unicode_len();
    let mut out = String::new();
    let mut i: usize = n;
    while i > 0
        invariant
            n == s@.len(),
            i <= n,
            out@.len() == n - i,
            forall|k: int| 0 <= k < out@.len() ==> out@[k] == s@[n - 1 - k],
        decreases i,
    {
        out.append(s.substring_char(i - 1, i));
        i = i - 1;
    }
    proof {
        assert(out@ =~= s@.reverse());
    }
    out
}

/// `s` repeated `n` times.
fn repeated_string(s: &str, n: usize) -> (r: String)
    ensures
        r@ == repeat_text(s@, n as int),
{
    let mut out = String::new();
    let mut i: usize = 0;
    while i < n
        invariant
            i <= n,
            out@ == repeat_text(s@, i as int),
        decreases n - i,
    {
        out.append(s);
        i = i + 1;
    }
    out
}

impl Cell<i32> {
    /// Adds a text cell on the right: `cell_sum_text` of the number and
    /// the text.
    pub fn add(self, rhs: Cell<String>) -> (r: Cell<String>)
        requires
            self.0 > i32::MIN,
        ensures
            r.0@ == cell_sum_text(self.0 as int, rhs.0@),
    {
        proof {
            reveal_strlit(" ");
            assert(" "@ =~= seq![' ']);
        }
        if self.0 >= 0 {
            let mut out = String::new();
            push_decimal(&mut out, self.0 as u32);
            out.append(" ");
            out.append(rhs.0.as_str());
            proof {
                assert(Seq::<char>::empty() + dec_rep(self.0 as int) =~= dec_rep(self.0 as int));
            }
            Cell(out)
        } else {
            let mut out = reversed_string(rhs.0.as_str());
            out.append(" ");
            let magnitude = -self.0;
            push_decimal(&mut out, magnitude as u32);
            Cell(out)
        }
    }

    /// Multiplies by a text cell on the right: `cell_product_text` of the
    /// number and the text.
    pub fn mul(self, rhs: Cell<String>) -> (r: Cell<String>)
        requires
            self.0 > i32::MIN,
        ensures
            r.0@ == cell_product_text(self.0 as int, rhs.0@),
    {
        if self.0 >= 0 {
            Cell(repeated_string(rhs.0.as_str(), self.0 as usize))
        } else {
            let reversed = reversed_string(rhs.0.as_str());
            let magnitude = -self.0;
            Cell(repeated_string(reversed.as_str(), magnitude as usize))
        }
    }
}

/// Four cells, kept in row-major and column-major copies.
pub struct Matrix<T: Clone> {
    rows: Vec<Vec<Cell<T>>>,
    cols: Vec<Vec<Cell<T>>>,
}

impl<T: Clone> Matrix<T> {
    /// The two rows, top first.
    pub closed spec fn spec_rows(&self) -> Seq<Seq<Cell<T>>> {
        Seq::new(self.rows@.len(), |i: int| self.rows@[i]@)
    }

    /// The two columns, left first.
    pub closed spec fn spec_cols(&self) -> Seq<Seq<Cell<T>>> {
        Seq::new(self.cols@.len(), |i: int| self.cols@[i]@)
    }

    /// Two rows and two columns of two cells each.
    pub open spec fn wf(&self) -> bool {
        &&& self.spec_rows().len() == 2
        &&& self.spec_rows()[0].len() == 2
        &&& self.spec_rows()[1].len() == 2
        &&& self.spec_cols().len() == 2
        &&& self.spec_cols()[0].len() == 2
        &&& self.spec_cols()[1].len() == 2
    }

    /// The four cells in row-major order, each a clone of the matching
    /// element of `data`; the column copy holds the same clones
    /// transposed.
    pub open spec fn built_from(&self, data: Seq<T>) -> bool {
        &&& cloned::<T>(data[0], self.spec_rows()[0][0].0)
        &&& cloned::<T>(data[1], self.spec_rows()[0][1].0)
        &&& cloned::<T>(data[2], self.spec_rows()[1][0].0)
        &&& cloned::<T>(data[3], self.spec_rows()[1][1].0)
        &&& cloned::<T>(data[0], self.spec_cols()[0][0].0)
        &&& cloned::<T>(data[2], self.spec_cols()[0][1].0)
        &&& cloned::<T>(data[1], self.spec_cols()[1][0].0)
        &&& cloned::<T>(data[3], self.spec_cols()[1][1].0)
    }

    /// Builds the matrix from four elements given row by row, cloning
    /// them into both orders.
    pub fn new(data: &[T; 4]) -> (m: Matrix<T>)
        ensures
            m.wf(),
            m.built_from(data@),
    {
        let mut row0: Vec<Cell<T>> = Vec::new();
        row0.push(Cell(data[0].clone()));
        row0.push(Cell(data[1].clone()));
        let mut row1: Vec<Cell<T>> = Vec::new();
        row1.push(Cell(data[2].clone()));
        row1.push(Cell(data[3].clone()));
        let mut col0: Vec<Cell<T>> = Vec::new();
        col0.push(Cell(data[0].clone()));
        col0.push(Cell(data[2].clone()));
        let mut col1: Vec<Cell<T>> = Vec::new();
        col1.push(Cell(data[1].clone()));
        col1.push(Cell(data[3].clone()));
        let mut rows: Vec<Vec<Cell<T>>> = Vec::new();
        rows.push(row0);
        rows.push(row1);
        let mut cols: Vec<Vec<Cell<T>>> = Vec::new();
        cols.push(col0);
        cols.push(col1);
        Matrix { rows, cols }
    }

    /// The four cells by rows, left to right then top to bottom, each a
    /// clone of the stored cell.
    pub fn by_row(&self) -> (r: Vec<Cell<T>>)
        requires
            self.wf(),
        ensures
            r@.len() == 4,
            cloned::<Cell<T>>(self.spec_rows()[0][0], r@[0]),
            cloned::<Cell<T>>(self.spec_rows()[0][1], r@[1]),
            cloned::<Cell<T>>(self.spec_rows()[1][0], r@[2]),
            cloned::<Cell<T>>(self.spec_rows()[1][1], r@[3]),
    {
        let mut out: Vec<Cell<T>> = Vec::new();
        out.push(self.rows[0][0].clone());
        out.push(self.rows[0][1].clone());
        out.push(self.rows[1][0].clone());
        out.push(self.rows[1][1].clone());
        out
    }

    /// The four cells by columns, top to bottom then left to right, each
    /// a clone of the stored cell.
    pub fn by_col(&self) -> (r: Vec<Cell<T>>)
        requires
            self.wf(),
        ensures
            r@.len() == 4,
            cloned::<Cell<T>>(self.spec_cols()[0][0], r@[0]),
            cloned::<Cell<T>>(self.spec_cols()[0][1], r@[1]),
            cloned::<Cell<T>>(self.spec_cols()[1][0], r@[2]),
            cloned::<Cell<T>>(self.spec_cols()[1][1], r@[3]),
    {
        let mut out: Vec<Cell<T>> = Vec::new();
        out.push(self.cols[0][0].clone());
        out.push(self.cols[0][1].clone());
        out.push(self.cols[1][0].clone());
        out.push(self.cols[1][1].clone());
        out
    }
}

impl Matrix<i32> {
    /// Adds a text matrix cell by cell, each pair combined by
    /// `cell_sum_text`, in both the row and the column copies.
    pub fn add(self, rhs: Matrix<String>) -> (m: Matrix<String>)
        requires
            self.wf(),
            rhs.wf(),
            forall|i: int, j: int|
                0 <= i < 2 && 0 <= j < 2 ==> (#[trigger] self.spec_rows()[i][j]).0 > i32::MIN
                    && self.spec_cols()[i][j].0 > i32::MIN,
        ensures
            m.wf(),
            forall|i: int, j: int|
                0 <= i < 2 && 0 <= j < 2 ==> (#[trigger] m.spec_rows()[i][j]).0@ == cell_sum_text(
                    self.spec_rows()[i][j].0 as int,
                    rhs.spec_rows()[i][j].0@,
                ) && m.spec_cols()[i][j].0@ == cell_sum_text(
                    self.spec_cols()[i][j].0 as int,
                    rhs.spec_cols()[i][j].0@,
                ),
    {
        let mut row0: Vec<Cell<String>> = Vec::new();
        row0.push(Cell(self.rows[0][0].0).add(Cell(rhs.rows[0][0].0.clone())));
        row0.push(Cell(self.rows[0][1].0).add(Cell(rhs.rows[0][1].0.clone())));
        let mut row1: Vec<Cell<String>> = Vec::new();
        row1.push(Cell(self.rows[1][0].0).add(Cell(rhs.rows[1][0].0.clone())));
        row1.push(Cell(self.rows[1][1].0).add(Cell(rhs.rows[1][1].0.clone())));
        let mut col0: Vec<Cell<String>> = Vec::new();
        col0.push(Cell(self.cols[0][0].0).add(Cell(rhs.cols[0][0].0.clone())));
        col0.push(Cell(self.cols[0][1].0).add(Cell(rhs.cols[0][1].0.clone())));
        let mut col1: Vec<Cell<String>> = Vec::new();
        col1.push(Cell(self.cols[1][0].0).add(Cell(rhs.cols[1][0].0.clone())));
        col1.push(Cell(self.cols[1][1].0).add(Cell(rhs.cols[1][1].0.clone())));
        let mut rows: Vec<Vec<Cell<String>>> = Vec::new();
        rows.push(row0);
        rows.push(row1);
        let mut cols: Vec<Vec<Cell<String>>> = Vec::new();
        cols.push(col0);
        cols.push(col1);
        Matrix { rows, cols }
    }

    /// Multiplies against a text matrix: each row of numbers is paired
    /// with the same-numbered column of texts, the four products joined
    /// by single spaces, trailing spacing trimmed.
    pub fn mul(self, rhs: Matrix<String>) -> (r: String)
        requires
            self.wf(),
            rhs.wf(),
            forall|i: int, j: int|
                0 <= i < 2 && 0 <= j < 2 ==> (#[trigger] self.spec_rows()[i][j]).0 > i32::MIN,
        ensures
            r@ == trim_end_text(
                cell_product_text(self.spec_rows()[0][0].0 as int, rhs.spec_cols()[0][0].0@)
                    + seq![' '] + cell_product_text(
                    self.spec_rows()[0][1].0 as int,
                    rhs.spec_cols()[0][1].0@,
                ) + seq![' '] + cell_product_text(
                    self.spec_rows()[1][0].0 as int,
                    rhs.spec_cols()[1][0].0@,
                ) + seq![' '] + cell_product_text(
                    self.spec_rows()[1][1].0 as int,
                    rhs.spec_cols()[1][1].0@,
                ) + seq![' '],
            ),
    {
        proof {
            reveal_strlit(" ");
            assert(" "@ =~= seq![' ']);
        }
        let mut out = String::new();
        let p = Cell(self.rows[0][0].0).mul(Cell(rhs.cols[0][0].0.clone()));
        out.append(p.0.as_str());
        out.append(" ");
        proof {
            assert(Seq::<char>::empty() + p.0@ =~= p.0@);
        }
        let p = Cell(self.rows[0][1].0).mul(Cell(rhs.cols[0][1].0.clone()));
        out.append(p.0.as_str());
        out.append(" ");
        let p = Cell(self.rows[1][0].0).mul(Cell(rhs.cols[1][0].0.clone()));
        out.append(p.0.as_str());
        out.append(" ");
        let p = Cell(self.rows[1][1].0).mul(Cell(rhs.cols[1][1].0.clone()));
        out.append(p.0.as_str());
        out.append(" ");
        let ghost full = out@;
        let mut end = out.unicode_len();
        let mut done = false;
        proof {
            assert(full.subrange(0, end as int) =~= full);
        }
        while !done && end > 0
            invariant
                full == out@,
                end <= full.len(),
                trim_end_text(full) == trim_end_text(full.subrange(0, end as int)),
                done ==> end > 0 && !is_trim_space(full[end as int - 1]),
            decreases end, (if done { 0int } else { 1int }),
        {
            let c = out.as_str().get_char(end - 1);
            if c == ' ' || c == '\t' || c == '\n' || c == '\r' {
                proof {
                    assert(full.subrange(0, end as int).drop_last() =~= full.subrange(
                        0,
                        end as int - 1,
                    ));
                }
                end = end - 1;
            } else {
                done = true;
            }
        }
        let trimmed = out.as_str().substring_char(0, end).to_owned();
        proof {
            assert(trim_end_text(full.subrange(0, end as int)) == full.subrange(0, end as int));
        }
        trimmed
    }
}

} // verus!
