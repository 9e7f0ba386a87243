//! The glyph segmenter and encoder: scans a canonical grid column by
//! column, groups columns into letter-sized segments, and packs each
//! segment's fill pattern into one unsigned integer identifier.

use vstd::prelude::*;

use crate::canon::{is_fill, str_to_chars};

verus! {

/// The first index at or after `i` holding a line break, or `s.len()`
/// if there is none.
pub open spec fn find_newline(s: Seq<char>, i: int) -> int
    decreases s.len() - i,
{
    if i < 0 || i >= s.len() {
        s.len() as int
    } else if s[i] == '\n' {
        i
    } else {
        find_newline(s, i + 1)
    }
}

/// The width and height of a canonical grid: the width is the index of
/// the first line break, the height the number of rows. `None` when no
/// width can be determined (no line break, or a leading one) or when the
/// text is not `height` full rows of `width` cells separated by single
/// line breaks.
pub open spec fn grid_shape(s: Seq<char>) -> Option<(int, int)> {
    let w = find_newline(s, 0);
    if w == s.len() || w == 0 {
        None
    } else if (s.len() - w) % (w + 1) != 0 {
        None
    } else {
        Some((w, (s.len() - w) / (w + 1) + 1))
    }
}

/// The cell of column `x`, row `y` in a grid of the given width (each
/// row is `width` cells followed by one line break).
pub open spec fn cell(s: Seq<char>, width: int, x: int, y: int) -> char {
    s[y * (width + 1) + x]
}

/// Whether column `x` holds no fill marker at all: a letter separator.
pub open spec fn col_blank(s: Seq<char>, width: int, height: int, x: int) -> bool {
    forall|y: int| 0 <= y < height ==> !is_fill(cell(s, width, x, y))
}

/// One cell folded into an accumulating identifier: the accumulator is
/// shifted left one bit and the cell's bit ("on" = 1) is set.
pub open spec fn shift_in(id: u64, on: bool) -> u64 {
    (id << 1) | (if on { 1u64 } else { 0u64 })
}

/// Column `x` folded into `id` from row `y` downward.
pub open spec fn fold_col_from(s: Seq<char>, width: int, height: int, x: int, y: int, id: u64) -> u64
    decreases height - y,
{
    if y < 0 || y >= height {
        id
    } else {
        fold_col_from(s, width, height, x, y + 1, shift_in(id, is_fill(cell(s, width, x, y))))
    }
}

/// Column `x` folded into `id` top to bottom: the topmost cell lands in
/// the most significant of the column's bits.
pub open spec fn col_id(s: Seq<char>, width: int, height: int, x: int, id: u64) -> u64 {
    fold_col_from(s, width, height, x, 0, id)
}

/// The identifiers emitted from column `x` onward, given the identifier
/// `id` accumulated so far and the number `lw` of columns folded into it.
/// A blank column closes the accumulating identifier (if any); a 6-row
/// grid also closes it after its fifth column, since 6-row glyphs have a
/// fixed width of five and may abut the next letter with no separator;
/// whatever is still accumulating at the right edge is closed there.
pub open spec fn scan_from(
    s: Seq<char>,
    width: int,
    height: int,
    x: int,
    id: u64,
    lw: int,
) -> Seq<u64>
    decreases width - x,
{
    if x < 0 || x >= width {
        if id != 0 {
            seq![id]
        } else {
            Seq::empty()
        }
    } else if col_blank(s, width, height, x) {
        if id != 0 {
            seq![id] + scan_from(s, width, height, x + 1, 0u64, 0)
        } else {
            scan_from(s, width, height, x + 1, 0u64, 0)
        }
    } else if height == 6 && lw == 5 {
        seq![id] + scan_from(s, width, height, x + 1, col_id(s, width, height, x, 0u64), 1)
    } else {
        scan_from(s, width, height, x + 1, col_id(s, width, height, x, id), lw + 1)
    }
}

/// The ordered glyph identifiers of a canonical grid, or `None` when the
/// grid has no determinable shape.
pub open spec fn glyph_seq(s: Seq<char>) -> Option<Seq<u64>> {
    match grid_shape(s) {
        None => None,
        Some((w, h)) => Some(scan_from(s, w, h, 0, 0u64, 0)),
    }
}

/// Every cell index of a well-shaped grid lies inside the text.
pub proof fn lemma_cell_in_grid(len: int, w: int, h: int, x: int, y: int)
    requires
        w >= 1,
        h >= 1,
        len + 1 == h * (w + 1),
        0 <= x < w,
        0 <= y < h,
    ensures
        0 <= y * (w + 1) + x,
        y * (w + 1) + x < len,
{
    assert(y * (w + 1) + x >= 0 && y * (w + 1) + x <= (h - 1) * (w + 1) + x) by (nonlinear_arith)
        requires
            0 <= y < h,
            w >= 1,
            0 <= x,
    ;
    assert((h - 1) * (w + 1) + x == h * (w + 1) - (w + 1) + x) by (nonlinear_arith);
}

/// Whether column `x` of the grid is entirely blank.
fn col_is_blank(g: &Vec<char>, w: usize, h: usize, x: usize) -> (r: bool)
    requires
        w >= 1,
        h >= 1,
        w < g@.len(),
        g@.len() + 1 == h * (w + 1),
        x < w,
    ensures
        r == col_blank(g@, w as int, h as int, x as int),
{
    let n = g.len();
    let mut y: usize = 0;
    while y < h
        invariant
            0 <= y <= h,
            w >= 1,
            h >= 1,
            x < w,
            w < n,
            n == g@.len(),
            g@.len() + 1 == h * (w + 1),
            forall|k: int| 0 <= k < y ==> !is_fill(cell(g@, w as int, x as int, k)),
        decreases h - y,
    {
        proof {
            lemma_cell_in_grid(g@.len() as int, w as int, h as int, x as int, y as int);
        }
        let idx = y * (w + 1) + x;
        if g[idx] == '#' {
            proof {
                assert(is_fill(cell(g@, w as int, x as int, y as int)));
            }
            return false;
        }
        y = y + 1;
    }
    true
}

/// Folds column `x` into `id`, top to bottom.
fn fold_col(g: &Vec<char>, w: usize, h: usize, x: usize, id: u64) -> (r: u64)
    requires
        w >= 1,
        h >= 1,
        w < g@.len(),
        g@.len() + 1 == h * (w + 1),
        x < w,
    ensures
        r == col_id(g@, w as int, h as int, x as int, id),
{
    let n = g.len();
    let mut y: usize = 0;
    let mut acc: u64 = id;
    while y < h
        invariant
            0 <= y <= h,
            w >= 1,
            h >= 1,
            x < w,
            w < n,
            n == g@.len(),
            g@.len() + 1 == h * (w + 1),
            col_id(g@, w as int, h as int, x as int, id) == fold_col_from(
                g@,
                w as int,
                h as int,
                x as int,
                y as int,
                acc,
            ),
        decreases h - y,
    {
        proof {
            lemma_cell_in_grid(g@.len() as int, w as int, h as int, x as int, y as int);
        }
        let idx = y * (w + 1) + x;
        let on = g[idx] == '#';
        acc = (acc << 1u64) | (if on { 1u64 } else { 0u64 });
        y = y + 1;
    }
    acc
}

/// The glyph identifiers of the canonical grid `g`, or `None` when `g`
/// is not a well-shaped grid (see [`grid_shape`]).
pub fn ids_of(g: &Vec<char>) -> (r: Option<Vec<u64>>)
    ensures
        match r {
            Some(ids) => glyph_seq(g@) == Some(ids@),
            None => glyph_seq(g@) is None,
        },
{
    let n = g.len();
    let mut w: usize = 0;
    while w < n && g[w] != '\n'
        invariant
            0 <= w <= n,
            n == g@.len(),
            find_newline(g@, 0) == find_newline(g@, w as int),
        decreases n - w,
    {
        w = w + 1;
    }
    proof {
        assert(find_newline(g@, 0) == w as int);
    }
    if w == n || w == 0 {
        return None;
    }
    if (n - w) % (w + 1) != 0 {
        return None;
    }
    let h = (n - w) / (w + 1) + 1;
    proof {
        vstd::arithmetic::div_mod::lemma_fundamental_div_mod((n - w) as int, (w + 1) as int);
        assert(n + 1 == h * (w + 1)) by (nonlinear_arith)
            requires
                (n - w) as int == (w + 1) as int * ((h - 1) as int),
                w >= 1,
                h >= 1,
        ;
    }
    let mut ids: Vec<u64> = Vec::new();
    let mut id: u64 = 0;
    let mut lw: usize = 0;
    let mut x: usize = 0;
    while x < w
        invariant
            0 <= x <= w,
            1 <= w < n,
            n == g@.len(),
            h >= 1,
            n + 1 == h * (w + 1),
            lw <= x,
            scan_from(g@, w as int, h as int, 0, 0u64, 0) == ids@ + scan_from(
                g@,
                w as int,
                h as int,
                x as int,
                id,
                lw as int,
            ),
        decreases w - x,
    {
        let ghost pre = scan_from(g@, w as int, h as int, x as int, id, lw as int);
        if col_is_blank(g, w, h, x) {
            if id != 0 {
                ids.push(id);
            }
            id = 0;
            lw = 0;
        } else {
            if h == 6 && lw == 5 {
                ids.push(id);
                id = 0;
                lw = 0;
            }
            id = fold_col(g, w, h, x, id);
            lw = lw + 1;
        }
        proof {
            assert(ids@ + scan_from(g@, w as int, h as int, x + 1, id, lw as int)
                =~= scan_from(g@, w as int, h as int, 0, 0u64, 0));
        }
        x = x + 1;
    }
    if id != 0 {
        ids.push(id);
    }
    proof {
        assert(ids@ =~= scan_from(g@, w as int, h as int, 0, 0u64, 0));
    }
    Some(ids)
}

/// The glyph identifiers of the canonical grid text `image`: the grid
/// width is the index of the first line break, and each maximal run of
/// columns holding a fill marker (closed early after five columns in a
/// 6-row grid) yields one identifier. `None` when `image` is not a
/// well-shaped grid.
pub fn map_to_id(image: &str) -> (r: Option<Vec<u64>>)
    ensures
        match r {
            Some(ids) => glyph_seq(image@) == Some(ids@),
            None => glyph_seq(image@) is None,
        },
{
    let g = str_to_chars(image);
    ids_of(&g)
}

} // verus!
