//! Decodes fixed-font ASCII-art renderings of capital letters into the
//! plain-text string those letters spell.
//!
//! A grid of "on"/"off" cells (in any of five supported representations,
//! see [`Scannable`]) is normalized to a canonical text form, scanned
//! column by column into one unsigned integer identifier per letter, and
//! each identifier is looked up in a [`Catalogue`] built from two
//! reference glyph sheets (one for 6-row glyphs, one for 10-row glyphs).

use vstd::prelude::*;

pub mod canon;
pub mod catalogue;
pub mod laws;
pub mod scannable;
pub mod segment;

pub use crate::catalogue::Catalogue;
pub use crate::scannable::Scannable;

use crate::canon::{str_to_chars, trim_chars, trimmed};
use crate::catalogue::cat_lookup;
use crate::segment::{glyph_seq, ids_of};

verus! {

/// What decoding a canonical grid `text` with catalogue `m` yields:
/// `None` when no row width can be determined, otherwise one character
/// per glyph identifier, the sentinel `'?'` standing in for identifiers
/// absent from the catalogue.
pub open spec fn decode_spec(text: Seq<char>, m: Map<u64, char>) -> Option<Seq<char>> {
    match glyph_seq(trimmed(text)) {
        None => None,
        Some(ids) => Some(ids.map_values(|id: u64| cat_lookup(m, id))),
    }
}

/// Decodes an ASCII-art letter image into the string it spells.
///
/// The image is normalized to canonical text, trimmed of leading and
/// trailing whitespace, segmented into glyph identifiers, and each
/// identifier is looked up in `catalogue`; unmatched identifiers decode
/// to `'?'`. Returns `None` exactly when the trimmed text is not a
/// well-shaped grid (no line break, or ragged rows).
pub fn ocr(image: &Scannable, catalogue: &Catalogue) -> (r: Option<String>)
    ensures
        match r {
            Some(s) => decode_spec(image.canon(), catalogue@) == Some(s@),
            None => decode_spec(image.canon(), catalogue@) is None,
        },
{
    let text = image.normalize();
    let chars = str_to_chars(text.as_str());
    let trimmed_chars = trim_chars(&chars);
    match ids_of(&trimmed_chars) {
        None => None,
        Some(ids) => {
            let mut out = String::new();
            let mut i: usize = 0;
            while i < ids.len()
                invariant
                    0 <= i <= ids.len(),
                    out@ == Seq::new(i as nat, |k: int| cat_lookup(catalogue@, ids@[k])),
                decreases ids.len() - i,
            {
                let c = catalogue.lookup(ids[i]);
                canon::push_char(&mut out, c);
                proof {
                    assert(out@ =~= Seq::new(
                        (i + 1) as nat,
                        |k: int| cat_lookup(catalogue@, ids@[k]),
                    ));
                }
                i = i + 1;
            }
            proof {
                assert(out@ =~= ids@.map_values(|id: u64| cat_lookup(catalogue@, id)));
            }
            Some(out)
        },
    }
}

} // verus!
