//! The supported input representations of a letter image, and their
//! normalization into the one canonical text form: each cell one
//! character (`'#'` for "on"), each row closed by one line break.

use vstd::prelude::*;

use crate::canon::push_char;

verus! {

/// The canonical character of one cell: the fill marker for "on", a dot
/// for "off".
pub open spec fn bool_char(b: bool) -> char {
    if b {
        '#'
    } else {
        '.'
    }
}

/// A row of cells rendered as canonical characters.
pub open spec fn bool_chars(row: Seq<bool>) -> Seq<char> {
    row.map_values(|b: bool| bool_char(b))
}

/// The canonical text of the rows of a flat row-major cell sequence from
/// row `y` on: each row is `width` consecutive cells followed by one
/// line break. Trailing cells that do not fill a row are dropped.
pub open spec fn flat_canon_from(cells: Seq<char>, width: int, y: int, height: int) -> Seq<char>
    decreases height - y,
{
    if y < 0 || y >= height {
        Seq::empty()
    } else {
        cells.subrange(y * width, (y + 1) * width) + seq!['\n'] + flat_canon_from(
            cells,
            width,
            y + 1,
            height,
        )
    }
}

/// The canonical text of a flat row-major cell sequence with the given
/// row width; empty when the width is zero (no shape can be laid out).
pub open spec fn flat_canon(cells: Seq<char>, width: int) -> Seq<char> {
    if width <= 0 {
        Seq::empty()
    } else {
        flat_canon_from(cells, width, 0, cells.len() as int / width)
    }
}

/// The canonical text of a sequence of rows from row `i` on: each row's
/// characters followed by one line break.
pub open spec fn rows_canon_from(rows: Seq<Seq<char>>, i: int) -> Seq<char>
    decreases rows.len() - i,
{
    if i < 0 || i >= rows.len() {
        Seq::empty()
    } else {
        rows[i] + seq!['\n'] + rows_canon_from(rows, i + 1)
    }
}

/// The canonical text of a sequence of rows.
pub open spec fn rows_canon(rows: Seq<Seq<char>>) -> Seq<char> {
    rows_canon_from(rows, 0)
}

/// A letter image in one of the five supported representations. Each
/// carries the same capability: it normalizes to one canonical grid
/// text. In the character-based forms the fill marker `'#'` is an "on"
/// cell and every other character an "off" cell; in the boolean forms
/// `true` is "on".
pub enum Scannable {
    /// Text already in canonical form.
    Text(String),
    /// A flat row-major cell sequence and the width of one row.
    FlatBools(Vec<bool>, usize),
    /// A flat row-major character sequence and the width of one row.
    FlatChars(Vec<char>, usize),
    /// A sequence of rows of cells.
    RowBools(Vec<Vec<bool>>),
    /// A sequence of rows of characters.
    RowChars(Vec<Vec<char>>),
}

impl Scannable {
    /// The canonical grid text this image normalizes to.
    pub open spec fn canon(&self) -> Seq<char> {
        match self {
            Scannable::Text(s) => s@,
            Scannable::FlatBools(d, w) => flat_canon(bool_chars(d@), *w as int),
            Scannable::FlatChars(d, w) => flat_canon(d@, *w as int),
            Scannable::RowBools(rows) => rows_canon(
                rows@.map_values(|r: Vec<bool>| bool_chars(r@)),
            ),
            Scannable::RowChars(rows) => rows_canon(rows@.map_values(|r: Vec<char>| r@)),
        }
    }

    /// Renders the image as canonical grid text: one character per cell,
    /// one line break after each row. Nothing is trimmed here.
    pub fn normalize(&self) -> (r: String)
        ensures
            r@ == self.canon(),
    {
        match self {
            Scannable::Text(s) => s.clone(),
            Scannable::FlatBools(d, w) => {
                let cells = bools_to_chars(d);
                flat_to_text(&cells, *w)
            },
            Scannable::FlatChars(d, w) => flat_to_text(d, *w),
            Scannable::RowBools(rows) => {
                let mut out = String::new();
                let ghost crows = rows@.map_values(|r: Vec<bool>| bool_chars(r@));
                let mut i: usize = 0;
                while i < rows.len()
                    invariant
                        0 <= i <= rows.len(),
                        crows == rows@.map_values(|r: Vec<bool>| bool_chars(r@)),
                        rows_canon(crows) =~= out@ + rows_canon_from(crows, i as int),
                    decreases rows.len() - i,
                {
                    let crow = bools_to_chars(&rows[i]);
                    push_row(&mut out, &crow);
                    i = i + 1;
                }
                proof {
                    assert(out@ =~= rows_canon(crows));
                }
                out
            },
            Scannable::RowChars(rows) => {
                let mut out = String::new();
                let ghost crows = rows@.map_values(|r: Vec<char>| r@);
                let mut i: usize = 0;
                while i < rows.len()
                    invariant
                        0 <= i <= rows.len(),
                        crows == rows@.map_values(|r: Vec<char>| r@),
                        rows_canon(crows) =~= out@ + rows_canon_from(crows, i as int),
                    decreases rows.len() - i,
                {
                    push_row(&mut out, &rows[i]);
                    i = i + 1;
                }
                proof {
                    assert(out@ =~= rows_canon(crows));
                }
                out
            },
        }
    }
}

/// The cells of `row` rendered as canonical characters.
fn bools_to_chars(row: &Vec<bool>) -> (r: Vec<char>)
    ensures
        r@ == bool_chars(row@),
{
    let mut r: Vec<char> = Vec::new();
    let mut i: usize = 0;
    while i < row.len()
        invariant
            0 <= i <= row.len(),
            r@ == bool_chars(row@).subrange(0, i as int),
        decreases row.len() - i,
    {
        let c = if row[i] {
            '#'
        } else {
            '.'
        };
        r.push(c);
        proof {
            assert(r@ =~= bool_chars(row@).subrange(0, i + 1));
        }
        i = i + 1;
    }
    proof {
        assert(r@ =~= bool_chars(row@));
    }
    r
}

/// Appends one row of characters and a closing line break.
fn push_row(out: &mut String, row: &Vec<char>)
    ensures
        final(out)@ == old(out)@ + row@ + seq!['\n'],
{
    let mut x: usize = 0;
    while x < row.len()
        invariant
            0 <= x <= row.len(),
            out@ == old(out)@ + row@.subrange(0, x as int),
        decreases row.len() - x,
    {
        push_char(out, row[x]);
        proof {
            assert(out@ =~= old(out)@ + row@.subrange(0, x + 1));
        }
        x = x + 1;
    }
    push_char(out, '\n');
    proof {
        assert(out@ =~= old(out)@ + row@ + seq!['\n']);
    }
}

/// Every full row of a flat cell sequence lies inside it.
proof fn lemma_flat_row_in_cells(len: int, width: int, h: int, y: int)
    requires
        width >= 1,
        h == len / width,
        0 <= y < h,
    ensures
        0 <= y * width,
        y * width + width <= len,
{
    assert(0 <= y * width && y * width + width <= h * width) by (nonlinear_arith)
        requires
            0 <= y < h,
            width >= 1,
    ;
    vstd::arithmetic::div_mod::lemma_fundamental_div_mod(len, width);
    assert(h * width <= len) by (nonlinear_arith)
        requires
            len == width * (len / width) + len % width,
            h == len / width,
            width >= 1,
            len % width >= 0,
    ;
}

/// Lays a flat row-major cell sequence out as canonical grid text:
/// `width` cells per row, one line break after each row, trailing cells
/// that do not fill a row dropped. Empty when `width` is zero.
fn flat_to_text(cells: &Vec<char>, width: usize) -> (r: String)
    ensures
        r@ == flat_canon(cells@, width as int),
{
    let mut out = String::new();
    if width == 0 {
        proof {
            assert(out@ =~= flat_canon(cells@, 0));
        }
        return out;
    }
    let n = cells.len();
    let h = n / width;
    proof {
        assert(flat_canon(cells@, width as int) =~= out@ + flat_canon_from(
            cells@,
            width as int,
            0,
            h as int,
        ));
    }
    let mut y: usize = 0;
    while y < h
        invariant
            0 <= y <= h,
            width >= 1,
            n == cells@.len(),
            h == n as int / width as int,
            flat_canon(cells@, width as int) =~= out@ + flat_canon_from(
                cells@,
                width as int,
                y as int,
                h as int,
            ),
        decreases h - y,
    {
        proof {
            lemma_flat_row_in_cells(n as int, width as int, h as int, y as int);
        }
        let ghost row_start = out@;
        let base = y * width;
        let mut x: usize = 0;
        while x < width
            invariant
                0 <= x <= width,
                width >= 1,
                n == cells@.len(),
                base == y * width,
                base + width <= n,
                out@ == row_start + cells@.subrange(base as int, base + x),
            decreases width - x,
        {
            push_char(&mut out, cells[base + x]);
            proof {
                assert(out@ =~= row_start + cells@.subrange(base as int, base + x + 1));
            }
            x = x + 1;
        }
        push_char(&mut out, '\n');
        proof {
            assert((y + 1) * (width as int) == base + width) by (nonlinear_arith)
                requires
                    base == y * width,
            ;
            assert(out@ =~= row_start + cells@.subrange(base as int, base + width as int)
                + seq!['\n']);
            assert(flat_canon_from(cells@, width as int, y as int, h as int)
                == cells@.subrange(base as int, base + width as int) + seq!['\n']
                + flat_canon_from(cells@, width as int, y + 1, h as int));
        }
        y = y + 1;
    }
    proof {
        assert(out@ =~= flat_canon(cells@, width as int));
    }
    out
}

} // verus!
