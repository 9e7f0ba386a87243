//! The font catalogue: an immutable mapping from glyph identifier to
//! character, built from two reference glyph sheets (one per supported
//! grid height) by segmenting each sheet's rendering and pairing the
//! identifiers positionally with the sheet's ground-truth letters.

use std::collections::HashMap;
use vstd::prelude::*;

use crate::canon::{str_to_chars, sub_vec, trim_chars, trimmed};
use crate::segment::{glyph_seq, ids_of};

verus! {

broadcast use vstd::std_specs::hash::group_hash_axioms;

/// What looking an identifier up in a catalogue yields: its entry, or
/// the sentinel `'?'` when the catalogue has none.
pub open spec fn cat_lookup(m: Map<u64, char>, id: u64) -> char {
    if m.contains_key(id) {
        m[id]
    } else {
        '?'
    }
}

/// The identifiers of `ids` paired positionally with the letters.
/// Meaningful only when the two are equally long.
pub open spec fn zip_ids(ids: Seq<u64>, letters: Seq<char>) -> Seq<(u64, char)> {
    Seq::new(ids.len(), |i: int| (ids[i], letters[i]))
}

/// `m` with the pairs from index `i` on inserted in order; a later pair
/// with the same identifier wins.
pub open spec fn insert_from(m: Map<u64, char>, pairs: Seq<(u64, char)>, i: int) -> Map<u64, char>
    decreases pairs.len() - i,
{
    if i < 0 || i >= pairs.len() {
        m
    } else {
        insert_from(m.insert(pairs[i].0, pairs[i].1), pairs, i + 1)
    }
}

/// The (identifier, letter) pairs a reference rendering and its
/// ground-truth letters contribute: the rendering is trimmed and
/// segmented, and the identifiers are paired positionally with the
/// letters. `None` when the rendering is not a well-shaped grid or the
/// identifier count differs from the letter count (a corrupt sheet).
pub open spec fn sheet_entries(forms: Seq<char>, letters: Seq<char>) -> Option<Seq<(u64, char)>> {
    match glyph_seq(trimmed(forms)) {
        None => None,
        Some(ids) => if ids.len() == letters.len() {
            Some(zip_ids(ids, letters))
        } else {
            None
        },
    }
}

/// The first index `i` at or after `start` where a blank line begins
/// (`s[i]` and `s[i + 1]` are both line breaks), or `s.len()` if none.
pub open spec fn find_blank_line(s: Seq<char>, start: int) -> int
    decreases s.len() - start,
{
    if start < 0 || start + 1 >= s.len() {
        s.len() as int
    } else if s[start] == '\n' && s[start + 1] == '\n' {
        start
    } else {
        find_blank_line(s, start + 1)
    }
}

/// A reference sheet split at its first blank line into the ground-truth
/// letters (before) and the rendering (after); `None` when the sheet has
/// no blank line.
pub open spec fn sheet_split(s: Seq<char>) -> Option<(Seq<char>, Seq<char>)> {
    let i = find_blank_line(s, 0);
    if i == s.len() {
        None
    } else {
        Some((s.subrange(0, i), s.subrange(i + 2, s.len() as int)))
    }
}

/// The (identifier, letter) pairs of a whole reference sheet, or `None`
/// when the sheet is malformed (see [`sheet_split`] and
/// [`sheet_entries`]).
pub open spec fn asset_entries(s: Seq<char>) -> Option<Seq<(u64, char)>> {
    match sheet_split(s) {
        None => None,
        Some((letters, forms)) => sheet_entries(forms, letters),
    }
}

/// A mapping from glyph identifier to character. Identifiers of 6-row
/// and 10-row glyphs share the one mapping; looking up an identifier
/// with no entry yields the sentinel `'?'`.
pub struct Catalogue {
    map: HashMap<u64, char>,
}

impl View for Catalogue {
    type V = Map<u64, char>;

    closed spec fn view(&self) -> Map<u64, char> {
        self.map@
    }
}

impl Catalogue {
    /// A catalogue with no entries.
    pub fn new() -> (r: Self)
        ensures
            r@ == Map::<u64, char>::empty(),
    {
        Catalogue { map: HashMap::new() }
    }

    /// Adds one entry, replacing any earlier entry for the identifier.
    pub fn insert(&mut self, id: u64, letter: char)
        ensures
            final(self)@ == old(self)@.insert(id, letter),
    {
        self.map.insert(id, letter);
    }

    /// The letter of `id`, or the sentinel `'?'` when there is none.
    pub fn lookup(&self, id: u64) -> (c: char)
        ensures
            c == cat_lookup(self@, id),
    {
        match self.map.get(&id) {
            Some(c) => *c,
            None => '?',
        }
    }

    /// Builds a catalogue from two reference sheets, the 6-row one and
    /// the 10-row one. Each sheet is a ground-truth letter sequence, a
    /// blank line, and a canonical-grid rendering of those letters.
    /// Returns `None` when either sheet is malformed; entries of the
    /// second sheet win where identifiers collide.
    pub fn from_sheets(sheet6: &str, sheet10: &str) -> (r: Option<Self>)
        ensures
            match (asset_entries(sheet6@), asset_entries(sheet10@)) {
                (Some(p6), Some(p10)) => match r {
                    Some(c) => c@ == insert_from(
                        insert_from(Map::<u64, char>::empty(), p6, 0),
                        p10,
                        0,
                    ),
                    None => false,
                },
                _ => r is None,
            },
    {
        let mut cat = Catalogue::new();
        if !populate_asset(&mut cat, sheet6) {
            return None;
        }
        if !populate_asset(&mut cat, sheet10) {
            return None;
        }
        Some(cat)
    }
}

/// Splits one reference sheet at its first blank line and adds its
/// entries; `false` (with the catalogue unchanged) when the sheet is
/// malformed.
fn populate_asset(cat: &mut Catalogue, sheet: &str) -> (ok: bool)
    ensures
        match asset_entries(sheet@) {
            Some(pairs) => ok && final(cat)@ == insert_from(old(cat)@, pairs, 0),
            None => !ok && final(cat)@ == old(cat)@,
        },
{
    let s = str_to_chars(sheet);
    let n = s.len();
    if n < 2 {
        proof {
            assert(find_blank_line(s@, 0) == n as int);
        }
        return false;
    }
    let mut i: usize = 0;
    while i < n - 1 && !(s[i] == '\n' && s[i + 1] == '\n')
        invariant
            0 <= i <= n - 1,
            n >= 2,
            n == s@.len(),
            find_blank_line(s@, 0) == find_blank_line(s@, i as int),
        decreases n - i,
    {
        i = i + 1;
    }
    if i == n - 1 {
        proof {
            assert(find_blank_line(s@, 0) == n as int);
        }
        return false;
    }
    proof {
        assert(find_blank_line(s@, 0) == i as int);
    }
    let letters = sub_vec(&s, 0, i);
    let forms = sub_vec(&s, i + 2, n);
    populate_pairs(cat, &forms, &letters)
}

/// Trims and segments one reference rendering and adds one entry per
/// identifier, paired positionally with the ground-truth letters;
/// `false` (with the catalogue unchanged) when the rendering is not a
/// well-shaped grid or the identifier count differs from the letter
/// count.
fn populate_pairs(cat: &mut Catalogue, forms: &Vec<char>, letters: &Vec<char>) -> (ok: bool)
    ensures
        match sheet_entries(forms@, letters@) {
            Some(pairs) => ok && final(cat)@ == insert_from(old(cat)@, pairs, 0),
            None => !ok && final(cat)@ == old(cat)@,
        },
{
    let t = trim_chars(forms);
    let ids = match ids_of(&t) {
        None => {
            return false;
        },
        Some(ids) => ids,
    };
    if ids.len() != letters.len() {
        return false;
    }
    let ghost pairs = zip_ids(ids@, letters@);
    let mut k: usize = 0;
    while k < ids.len()
        invariant
            0 <= k <= ids.len(),
            ids.len() == letters.len(),
            pairs == zip_ids(ids@, letters@),
            insert_from(old(cat)@, pairs, 0) == insert_from(cat@, pairs, k as int),
        decreases ids.len() - k,
    {
        cat.insert(ids[k], letters[k]);
        k = k + 1;
    }
    proof {
        assert(insert_from(cat@, pairs, ids@.len() as int) == cat@);
    }
    true
}

/// Segments a reference rendering and adds one entry per identifier,
/// paired positionally with the ground-truth letters; `false` (with the
/// catalogue unchanged) when the rendering is not a well-shaped grid or
/// the identifier count differs from the letter count.
pub fn populate_letter_map(letter_map: &mut Catalogue, letter_forms: &str, letters: &str) -> (ok:
    bool)
    ensures
        match sheet_entries(letter_forms@, letters@) {
            Some(pairs) => ok && final(letter_map)@ == insert_from(old(letter_map)@, pairs, 0),
            None => !ok && final(letter_map)@ == old(letter_map)@,
        },
{
    let forms = str_to_chars(letter_forms);
    let letter_chars = str_to_chars(letters);
    populate_pairs(letter_map, &forms, &letter_chars)
}

} // verus!
