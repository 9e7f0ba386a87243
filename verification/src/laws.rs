//! The laws of the decoder, stated and proved once for all inputs:
//! representation equivalence, the catalogue round trip, the blank-grid
//! and missing-line-break outcomes, the sentinel substitution, and the
//! 6-row fixed-width closing rule.

use vstd::prelude::*;

use crate::canon::{is_blank, is_fill, trimmed};
use crate::scannable::{bool_chars, flat_canon, flat_canon_from, rows_canon, rows_canon_from, Scannable};
use crate::catalogue::{asset_entries, cat_lookup, insert_from, sheet_split};
use crate::decode_spec;
use crate::segment::{cell, col_blank, col_id, find_newline, fold_col_from, glyph_seq, grid_shape, scan_from, shift_in};

verus! {

/// Trimming removes characters, so a character absent from a text is
/// absent from its trimmed form.
proof fn lemma_trimmed_keeps_absence(s: Seq<char>, c: char)
    requires
        forall|k: int| 0 <= k < s.len() ==> s[k] != c,
    ensures
        forall|k: int| 0 <= k < trimmed(s).len() ==> trimmed(s)[k] != c,
    decreases s.len(),
{
    if s.len() == 0 {
    } else if is_blank(s[0]) {
        let t = s.subrange(1, s.len() as int);
        lemma_trimmed_keeps_absence(t, c);
        assert(trimmed(s) == trimmed(t));
    } else if is_blank(s[s.len() - 1]) {
        let t = s.subrange(0, s.len() - 1);
        lemma_trimmed_keeps_absence(t, c);
        assert(trimmed(s) == trimmed(t));
    }
}

/// A text without a line break has no first line break short of its end.
proof fn lemma_find_newline_absent(s: Seq<char>, i: int)
    requires
        forall|k: int| 0 <= k < s.len() ==> s[k] != '\n',
        0 <= i,
    ensures
        find_newline(s, i) == s.len(),
    decreases s.len() - i,
{
    if i < s.len() {
        lemma_find_newline_absent(s, i + 1);
    }
}

/// The first line break lies between `i` and the end.
proof fn lemma_find_newline_bounds(s: Seq<char>, i: int)
    requires
        0 <= i <= s.len(),
    ensures
        i <= find_newline(s, i) <= s.len(),
    decreases s.len() - i,
{
    if i < s.len() && s[i] != '\n' {
        lemma_find_newline_bounds(s, i + 1);
    }
}

/// What a determinable grid shape guarantees: a positive width shorter
/// than the text, at least one row, and a text length of exactly
/// `height` rows of `width` cells separated by single line breaks.
pub proof fn lemma_grid_shape_props(s: Seq<char>)
    ensures
        match grid_shape(s) {
            Some((w, h)) => 1 <= w && w < s.len() && 1 <= h && s.len() + 1 == h * (w + 1),
            None => true,
        },
{
    lemma_find_newline_bounds(s, 0);
    if grid_shape(s) is Some {
        let w = find_newline(s, 0);
        let q = (s.len() - w) as int / (w + 1);
        vstd::arithmetic::div_mod::lemma_fundamental_div_mod((s.len() - w) as int, w + 1);
        vstd::arithmetic::div_mod::lemma_div_pos_is_pos((s.len() - w) as int, w + 1);
        assert(s.len() + 1 == (q + 1) * (w + 1)) by (nonlinear_arith)
            requires
                (s.len() - w) as int == (w + 1) * q + 0,
        ;
    }
}

/// `decode` returns the failure signal on text with no line break.
pub proof fn lemma_no_line_break(text: Seq<char>, m: Map<u64, char>)
    requires
        forall|k: int| 0 <= k < text.len() ==> text[k] != '\n',
    ensures
        decode_spec(text, m) is None,
{
    let t = trimmed(text);
    lemma_trimmed_keeps_absence(text, '\n');
    lemma_find_newline_absent(t, 0);
}

/// Scanning from a column with nothing accumulated emits no identifier
/// while every remaining column is blank.
proof fn lemma_scan_blank(s: Seq<char>, w: int, h: int, x: int)
    requires
        forall|c: int| x <= c < w ==> col_blank(s, w, h, c),
    ensures
        scan_from(s, w, h, x, 0u64, 0) == Seq::<u64>::empty(),
    decreases w - x,
{
    if 0 <= x && x < w {
        lemma_scan_blank(s, w, h, x + 1);
    }
}

/// `decode` on an all-blank grid returns the empty string, not a
/// failure: a grid of determinable shape without a single fill marker
/// decodes to no letters at all.
pub proof fn lemma_blank_grid(text: Seq<char>, m: Map<u64, char>)
    requires
        forall|k: int| 0 <= k < text.len() ==> !is_fill(text[k]),
        decode_spec(text, m) is Some,
    ensures
        decode_spec(text, m) == Some(Seq::<char>::empty()),
{
    let t = trimmed(text);
    lemma_trimmed_keeps_absence(text, '#');
    lemma_grid_shape_props(t);
    let (w, h) = grid_shape(t).unwrap();
    assert forall|c: int| 0 <= c < w implies col_blank(t, w, h, c) by {
        assert forall|y: int| 0 <= y < h implies !is_fill(cell(t, w, c, y)) by {
            crate::segment::lemma_cell_in_grid(t.len() as int, w, h, c, y);
        }
    }
    lemma_scan_blank(t, w, h, 0);
    assert(decode_spec(text, m).unwrap() =~= Seq::<char>::empty());
}

/// An identifier with no catalogue entry decodes to the sentinel `'?'`
/// in its own position, and decoding still succeeds with one character
/// for every identifier.
pub proof fn lemma_unmatched_sentinel(text: Seq<char>, m: Map<u64, char>, k: int)
    requires
        glyph_seq(trimmed(text)) is Some,
        0 <= k < glyph_seq(trimmed(text)).unwrap().len(),
        !m.contains_key(glyph_seq(trimmed(text)).unwrap()[k]),
    ensures
        decode_spec(text, m) is Some,
        decode_spec(text, m).unwrap().len() == glyph_seq(trimmed(text)).unwrap().len(),
        decode_spec(text, m).unwrap()[k] == '?',
{
}

/// Keys that occur in none of the remaining pairs keep their mapping.
proof fn lemma_insert_from_absent(m: Map<u64, char>, pairs: Seq<(u64, char)>, i: int, key: u64)
    requires
        forall|j: int| i <= j < pairs.len() ==> (#[trigger] pairs[j]).0 != key,
    ensures
        insert_from(m, pairs, i).contains_key(key) == m.contains_key(key),
        m.contains_key(key) ==> insert_from(m, pairs, i)[key] == m[key],
    decreases pairs.len() - i,
{
    if 0 <= i && i < pairs.len() {
        lemma_insert_from_absent(m.insert(pairs[i].0, pairs[i].1), pairs, i + 1, key);
    }
}

/// Inserting pairs with pairwise distinct keys maps each key to its own
/// pair's value.
proof fn lemma_insert_from_hits(m: Map<u64, char>, pairs: Seq<(u64, char)>, i: int, k: int)
    requires
        0 <= i <= k < pairs.len(),
        forall|a: int, b: int|
            i <= a < b < pairs.len() ==> (#[trigger] pairs[a]).0 != (#[trigger] pairs[b]).0,
    ensures
        insert_from(m, pairs, i).contains_key(pairs[k].0),
        insert_from(m, pairs, i)[pairs[k].0] == pairs[k].1,
    decreases pairs.len() - i,
{
    let m1 = m.insert(pairs[i].0, pairs[i].1);
    if i == k {
        lemma_insert_from_absent(m1, pairs, i + 1, pairs[k].0);
    } else {
        lemma_insert_from_hits(m1, pairs, i + 1, k);
    }
}

/// The round trip through a reference sheet: decoding the sheet's own
/// rendering with a catalogue that took the sheet's entries (over any
/// prior entries) reproduces the sheet's ground-truth letters exactly —
/// provided the sheet's identifiers are pairwise distinct, since a
/// repeated identifier keeps only its last letter.
pub proof fn lemma_round_trip(asset: Seq<char>, m0: Map<u64, char>)
    requires
        asset_entries(asset) is Some,
        forall|a: int, b: int|
            0 <= a < b < asset_entries(asset).unwrap().len() ==> (#[trigger] asset_entries(
                asset,
            ).unwrap()[a]).0 != (#[trigger] asset_entries(asset).unwrap()[b]).0,
    ensures
        ({
            let (letters, forms) = sheet_split(asset).unwrap();
            decode_spec(forms, insert_from(m0, asset_entries(asset).unwrap(), 0)) == Some(letters)
        }),
{
    let (letters, forms) = sheet_split(asset).unwrap();
    let pairs = asset_entries(asset).unwrap();
    let ids = glyph_seq(trimmed(forms)).unwrap();
    let m = insert_from(m0, pairs, 0);
    assert forall|k: int| 0 <= k < ids.len() implies cat_lookup(m, ids[k]) == letters[k] by {
        assert(pairs[k] == (ids[k], letters[k]));
        lemma_insert_from_hits(m0, pairs, 0, k);
    }
    assert(ids.map_values(|id: u64| cat_lookup(m, id)) =~= letters);
}

/// The rows of a grid of cells laid end to end, row-major, from row `i`.
pub open spec fn flatten_bools_from(rows: Seq<Seq<bool>>, i: int) -> Seq<bool>
    decreases rows.len() - i,
{
    if i < 0 || i >= rows.len() {
        Seq::empty()
    } else {
        rows[i] + flatten_bools_from(rows, i + 1)
    }
}

/// A grid of cells laid end to end, row-major.
pub open spec fn flatten_bools(rows: Seq<Seq<bool>>) -> Seq<bool> {
    flatten_bools_from(rows, 0)
}

/// The rows of a character grid laid end to end, row-major, from row `i`.
pub open spec fn flatten_chars_from(crows: Seq<Seq<char>>, i: int) -> Seq<char>
    decreases crows.len() - i,
{
    if i < 0 || i >= crows.len() {
        Seq::empty()
    } else {
        crows[i] + flatten_chars_from(crows, i + 1)
    }
}

/// A character grid laid end to end, row-major.
pub open spec fn flatten_chars(crows: Seq<Seq<char>>) -> Seq<char> {
    flatten_chars_from(crows, 0)
}

/// A grid of cells rendered row by row as canonical characters.
pub open spec fn render_rows(rows: Seq<Seq<bool>>) -> Seq<Seq<char>> {
    rows.map_values(|r: Seq<bool>| bool_chars(r))
}

/// What it means for an image to carry the logical grid `rows` (of equal
/// row length `width`): each representation holds exactly that grid's
/// cells, in its own form, with `'#'` for "on" and `'.'` for "off".
pub open spec fn carries_grid(img: Scannable, rows: Seq<Seq<bool>>, width: int) -> bool {
    match img {
        Scannable::Text(s) => s@ == rows_canon(render_rows(rows)),
        Scannable::FlatBools(d, w) => w as int == width && d@ == flatten_bools(rows),
        Scannable::FlatChars(d, w) => w as int == width && d@ == bool_chars(flatten_bools(rows)),
        Scannable::RowBools(rs) => rs@.map_values(|r: Vec<bool>| r@) == rows,
        Scannable::RowChars(rs) => rs@.map_values(|r: Vec<char>| r@) == render_rows(rows),
    }
}

/// Rendering distributes over flattening: the canonical characters of
/// the flattened cells are the flattened rendered rows.
proof fn lemma_render_flatten(rows: Seq<Seq<bool>>, i: int)
    ensures
        bool_chars(flatten_bools_from(rows, i)) =~= flatten_chars_from(render_rows(rows), i),
    decreases rows.len() - i,
{
    if 0 <= i && i < rows.len() {
        lemma_render_flatten(rows, i + 1);
    }
}

/// The flattened tail from row `i` holds one full row per remaining row.
proof fn lemma_flatten_chars_len(crows: Seq<Seq<char>>, width: int, i: int)
    requires
        forall|j: int| 0 <= j < crows.len() ==> (#[trigger] crows[j]).len() == width,
        0 <= i <= crows.len(),
    ensures
        flatten_chars_from(crows, i).len() == (crows.len() - i) * width,
    decreases crows.len() - i,
{
    if i < crows.len() {
        lemma_flatten_chars_len(crows, width, i + 1);
        assert((crows.len() - i) * width == width + (crows.len() - (i + 1)) * width)
            by (nonlinear_arith);
    } else {
        assert((crows.len() - i) * width == 0) by (nonlinear_arith)
            requires
                i == crows.len(),
        ;
    }
}

/// Cell `k` of row `i` sits at flat position `i * width + k`.
proof fn lemma_flatten_chars_index(crows: Seq<Seq<char>>, width: int, j: int, i: int, k: int)
    requires
        forall|l: int| 0 <= l < crows.len() ==> (#[trigger] crows[l]).len() == width,
        0 <= j <= i < crows.len(),
        0 <= k < width,
    ensures
        flatten_chars_from(crows, j)[(i - j) * width + k] == crows[i][k],
    decreases i - j,
{
    lemma_flatten_chars_len(crows, width, j);
    let tail = flatten_chars_from(crows, j + 1);
    assert(flatten_chars_from(crows, j) == crows[j] + tail);
    assert(crows[j].len() == width);
    if j == i {
        assert((i - j) * width == 0) by (nonlinear_arith)
            requires
                i == j,
        ;
        assert((crows[j] + tail)[k] == crows[j][k]);
    } else {
        lemma_flatten_chars_index(crows, width, j + 1, i, k);
        assert((i - j) * width + k == width + ((i - (j + 1)) * width + k)) by (nonlinear_arith);
        assert((i - (j + 1)) * width + k >= 0) by (nonlinear_arith)
            requires
                i - (j + 1) >= 0,
                width >= 1,
                k >= 0,
        ;
        lemma_flatten_chars_len(crows, width, j + 1);
        assert((i - (j + 1)) * width + k < (crows.len() - (j + 1)) * width) by (nonlinear_arith)
            requires
                j + 1 <= i < crows.len(),
                0 <= k < width,
        ;
        assert((crows[j] + tail)[(i - j) * width + k] == tail[(i - (j + 1)) * width + k]);
    }
}

/// Laying a flattened rectangular character grid back out row by row
/// reproduces the rows: the flat form and the row form have the same
/// canonical text.
proof fn lemma_flat_rows_from(crows: Seq<Seq<char>>, width: int, i: int)
    requires
        width >= 1,
        forall|j: int| 0 <= j < crows.len() ==> (#[trigger] crows[j]).len() == width,
        0 <= i <= crows.len(),
    ensures
        flat_canon_from(flatten_chars(crows), width, i, crows.len() as int) == rows_canon_from(
            crows,
            i,
        ),
    decreases crows.len() - i,
{
    if i < crows.len() {
        lemma_flat_rows_from(crows, width, i + 1);
        lemma_flatten_chars_len(crows, width, 0);
        let cells = flatten_chars(crows);
        assert(0 <= i * width && (i + 1) * width == i * width + width && (i + 1) * width
            <= crows.len() * width) by (nonlinear_arith)
            requires
                0 <= i < crows.len(),
                width >= 1,
        ;
        assert forall|k: int| 0 <= k < width implies cells[i * width + k] == crows[i][k] by {
            lemma_flatten_chars_index(crows, width, 0, i, k);
        }
        assert(cells.subrange(i * width, (i + 1) * width) =~= crows[i]);
    }
}

/// The canonical text of any representation that carries a rectangular
/// logical grid is the grid's own canonical text.
proof fn lemma_canon_of_carrier(img: Scannable, rows: Seq<Seq<bool>>, width: int)
    requires
        width >= 1,
        forall|i: int| 0 <= i < rows.len() ==> (#[trigger] rows[i]).len() == width,
        carries_grid(img, rows, width),
    ensures
        img.canon() == rows_canon(render_rows(rows)),
{
    let crows = render_rows(rows);
    assert(forall|j: int| 0 <= j < crows.len() ==> (#[trigger] crows[j]).len() == width);
    match img {
        Scannable::Text(s) => {},
        Scannable::FlatBools(d, w) => {
            lemma_render_flatten(rows, 0);
            lemma_flat_of_rect(crows, width);
        },
        Scannable::FlatChars(d, w) => {
            lemma_render_flatten(rows, 0);
            lemma_flat_of_rect(crows, width);
        },
        Scannable::RowBools(rs) => {
            assert(rs@.map_values(|r: Vec<bool>| bool_chars(r@)) =~~= crows);
        },
        Scannable::RowChars(rs) => {},
    }
}

/// The flat canonical text of a flattened rectangular character grid is
/// the grid's row-by-row canonical text.
proof fn lemma_flat_of_rect(crows: Seq<Seq<char>>, width: int)
    requires
        width >= 1,
        forall|j: int| 0 <= j < crows.len() ==> (#[trigger] crows[j]).len() == width,
    ensures
        flat_canon(flatten_chars(crows), width) == rows_canon(crows),
{
    lemma_flatten_chars_len(crows, width, 0);
    vstd::arithmetic::div_mod::lemma_div_by_multiple(crows.len() as int, width);
    assert(flatten_chars(crows).len() as int / width == crows.len());
    lemma_flat_rows_from(crows, width, 0);
}

/// Representation equivalence: two images carrying the same rectangular
/// logical grid, in whichever of the five representations each, have the
/// same canonical text, and decode identically with any catalogue.
pub proof fn lemma_representation_equivalence(
    a: Scannable,
    b: Scannable,
    rows: Seq<Seq<bool>>,
    width: int,
    m: Map<u64, char>,
)
    requires
        width >= 1,
        forall|i: int| 0 <= i < rows.len() ==> (#[trigger] rows[i]).len() == width,
        carries_grid(a, rows, width),
        carries_grid(b, rows, width),
    ensures
        a.canon() == b.canon(),
        decode_spec(a.canon(), m) == decode_spec(b.canon(), m),
{
    lemma_canon_of_carrier(a, rows, width);
    lemma_canon_of_carrier(b, rows, width);
}

/// The bit a cell contributes to its glyph identifier.
pub open spec fn cell_bit(s: Seq<char>, w: int, x: int, y: int) -> u64 {
    if is_fill(cell(s, w, x, y)) {
        1u64
    } else {
        0u64
    }
}

/// The identifier formed by folding columns `x` up to `b` into `id`.
pub open spec fn cols_id_from(s: Seq<char>, w: int, h: int, x: int, b: int, id: u64) -> u64
    decreases b - x,
{
    if x < 0 || x >= b {
        id
    } else {
        cols_id_from(s, w, h, x + 1, b, col_id(s, w, h, x, id))
    }
}

/// Folding one 6-row column is arithmetic: the accumulator moves up six
/// bits and the column's six cell bits fill them, top to bottom.
proof fn lemma_col_arith(s: Seq<char>, w: int, x: int, id: u64)
    requires
        id < 0x200000000000000u64,
    ensures
        col_id(s, w, 6, x, id) == 64 * id + 32 * cell_bit(s, w, x, 0) + 16 * cell_bit(s, w, x, 1)
            + 8 * cell_bit(s, w, x, 2) + 4 * cell_bit(s, w, x, 3) + 2 * cell_bit(s, w, x, 4)
            + cell_bit(s, w, x, 5),
{
    let c0 = cell_bit(s, w, x, 0);
    let c1 = cell_bit(s, w, x, 1);
    let c2 = cell_bit(s, w, x, 2);
    let c3 = cell_bit(s, w, x, 3);
    let c4 = cell_bit(s, w, x, 4);
    let c5 = cell_bit(s, w, x, 5);
    let a1 = shift_in(id, is_fill(cell(s, w, x, 0)));
    let a2 = shift_in(a1, is_fill(cell(s, w, x, 1)));
    let a3 = shift_in(a2, is_fill(cell(s, w, x, 2)));
    let a4 = shift_in(a3, is_fill(cell(s, w, x, 3)));
    let a5 = shift_in(a4, is_fill(cell(s, w, x, 4)));
    let a6 = shift_in(a5, is_fill(cell(s, w, x, 5)));
    assert(fold_col_from(s, w, 6, x, 0, id) == fold_col_from(s, w, 6, x, 1, a1));
    assert(fold_col_from(s, w, 6, x, 1, a1) == fold_col_from(s, w, 6, x, 2, a2));
    assert(fold_col_from(s, w, 6, x, 2, a2) == fold_col_from(s, w, 6, x, 3, a3));
    assert(fold_col_from(s, w, 6, x, 3, a3) == fold_col_from(s, w, 6, x, 4, a4));
    assert(fold_col_from(s, w, 6, x, 4, a4) == fold_col_from(s, w, 6, x, 5, a5));
    assert(fold_col_from(s, w, 6, x, 5, a5) == fold_col_from(s, w, 6, x, 6, a6));
    assert(fold_col_from(s, w, 6, x, 6, a6) == a6);
    assert(a6 == (((((((((((id << 1u64) | c0) << 1u64) | c1) << 1u64) | c2) << 1u64) | c3)
        << 1u64) | c4) << 1u64) | c5);
    assert((((((((((((id << 1u64) | c0) << 1u64) | c1) << 1u64) | c2) << 1u64) | c3) << 1u64)
        | c4) << 1u64) | c5 == 64 * id + 32 * c0 + 16 * c1 + 8 * c2 + 4 * c3 + 2 * c4 + c5)
        by (bit_vector)
        requires
            id < 0x200000000000000u64,
            c0 <= 1,
            c1 <= 1,
            c2 <= 1,
            c3 <= 1,
            c4 <= 1,
            c5 <= 1,
    ;
}

/// Folding one more 6-row column keeps the identifier under the next
/// 64-fold bound, and the result is zero exactly when nothing was
/// accumulated and the column is blank.
proof fn lemma_col_fold_props(s: Seq<char>, w: int, x: int, id: u64, lw: int)
    requires
        0 <= lw <= 4,
        id < vstd::arithmetic::power2::pow2((6 * lw) as nat),
    ensures
        col_id(s, w, 6, x, id) < vstd::arithmetic::power2::pow2((6 * lw + 6) as nat),
        (col_id(s, w, 6, x, id) != 0) <==> (id != 0 || !col_blank(s, w, 6, x)),
{
    vstd::arithmetic::power2::lemma2_to64();
    vstd::arithmetic::power2::lemma_pow2_adds((6 * lw) as nat, 6);
    if 6 * lw < 24 {
        vstd::arithmetic::power2::lemma_pow2_strictly_increases((6 * lw) as nat, 24);
    }
    lemma_col_arith(s, w, x, id);
    let bits = 32 * cell_bit(s, w, x, 0) + 16 * cell_bit(s, w, x, 1) + 8 * cell_bit(s, w, x, 2)
        + 4 * cell_bit(s, w, x, 3) + 2 * cell_bit(s, w, x, 4) + cell_bit(s, w, x, 5);
    assert(col_blank(s, w, 6, x) ==> bits == 0);
    if bits == 0 {
        assert forall|y: int| 0 <= y < 6 implies !is_fill(cell(s, w, x, y)) by {
            assert(cell_bit(s, w, x, y) == 0);
        }
    }
}

/// Once a letter segment is too short to reach the five-column close,
/// an unbroken run of filled columns folds into the one identifier that
/// is emitted at the right edge.
proof fn lemma_scan_tail(s: Seq<char>, w: int, x: int, id: u64, lw: int)
    requires
        1 <= lw <= 5,
        0 <= x <= w,
        w - x <= 5 - lw,
        id != 0,
        id < vstd::arithmetic::power2::pow2((6 * lw) as nat),
        forall|c: int| x <= c < w ==> !col_blank(s, w, 6, c),
    ensures
        scan_from(s, w, 6, x, id, lw) == seq![cols_id_from(s, w, 6, x, w, id)],
    decreases w - x,
{
    if x < w {
        let id2 = col_id(s, w, 6, x, id);
        lemma_col_fold_props(s, w, x, id, lw);
        lemma_scan_tail(s, w, x + 1, id2, lw + 1);
    }
}

/// The 6-row fixed-width closing rule: in a 6-row grid whose columns
/// are all filled (two letters abutting with no blank separator), the
/// scan still closes the first identifier after its fifth column, so a
/// run of more than five and at most ten columns yields exactly two
/// identifiers, one over columns zero to four and one over the rest.
pub proof fn lemma_fixed_width_close(text: Seq<char>, w: int)
    requires
        grid_shape(text) == Some((w, 6int)),
        5 < w <= 10,
        forall|x: int| 0 <= x < w ==> !col_blank(text, w, 6, x),
    ensures
        glyph_seq(text) == Some(
            seq![
                cols_id_from(text, w, 6, 0, 5, 0u64),
                cols_id_from(text, w, 6, 5, w, 0u64),
            ],
        ),
{
    let a1 = col_id(text, w, 6, 0, 0u64);
    let a2 = col_id(text, w, 6, 1, a1);
    let a3 = col_id(text, w, 6, 2, a2);
    let a4 = col_id(text, w, 6, 3, a3);
    let a5 = col_id(text, w, 6, 4, a4);
    assert(scan_from(text, w, 6, 0, 0u64, 0) == scan_from(text, w, 6, 1, a1, 1));
    assert(scan_from(text, w, 6, 1, a1, 1) == scan_from(text, w, 6, 2, a2, 2));
    assert(scan_from(text, w, 6, 2, a2, 2) == scan_from(text, w, 6, 3, a3, 3));
    assert(scan_from(text, w, 6, 3, a3, 3) == scan_from(text, w, 6, 4, a4, 4));
    assert(scan_from(text, w, 6, 4, a4, 4) == scan_from(text, w, 6, 5, a5, 5));
    assert(cols_id_from(text, w, 6, 0, 5, 0u64) == cols_id_from(text, w, 6, 1, 5, a1));
    assert(cols_id_from(text, w, 6, 1, 5, a1) == cols_id_from(text, w, 6, 2, 5, a2));
    assert(cols_id_from(text, w, 6, 2, 5, a2) == cols_id_from(text, w, 6, 3, 5, a3));
    assert(cols_id_from(text, w, 6, 3, 5, a3) == cols_id_from(text, w, 6, 4, 5, a4));
    assert(cols_id_from(text, w, 6, 4, 5, a4) == cols_id_from(text, w, 6, 5, 5, a5));
    // Column five is filled while the segment already has five columns:
    // the scan force-closes the first identifier and restarts.
    let b1 = col_id(text, w, 6, 5, 0u64);
    assert(scan_from(text, w, 6, 5, a5, 5) == seq![a5] + scan_from(text, w, 6, 6, b1, 1));
    vstd::arithmetic::power2::lemma2_to64();
    lemma_col_fold_props(text, w, 5, 0u64, 0);
    lemma_scan_tail(text, w, 6, b1, 1);
    assert(cols_id_from(text, w, 6, 5, w, 0u64) == cols_id_from(text, w, 6, 6, w, b1));
    assert(seq![a5] + seq![cols_id_from(text, w, 6, 6, w, b1)] =~= seq![
        cols_id_from(text, w, 6, 0, 5, 0u64),
        cols_id_from(text, w, 6, 5, w, 0u64),
    ]);
}

} // verus!


