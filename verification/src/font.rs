//! Access to the 8x8 bitmap font of the `font8x8` crate.
use vstd::prelude::*;

verus! {

/// The eight rows of the `BASIC_LEGACY` glyph at `index` in the `font8x8`
/// crate (one byte per row, bit `c` set when column `c` is lit).
pub uninterp spec fn basic_legacy_glyph(index: usize) -> Seq<u8>;

/// Number of glyphs in the basic legacy font table.
pub const GLYPH_COUNT: usize = 128;

/// Looks up `font8x8::legacy::BASIC_LEGACY[index]`.
///
/// Trusted: the contract claims that the result is the table entry at
/// `index` (named by `basic_legacy_glyph`), and, as the table's source
/// shows, that the entries for code points up to and including the space
/// (`U+0000`..=`U+0020`) and for `U+007F` are all zero.
/// Indices of 128 and above would panic, so they are excluded.
#[verifier::external_body]
pub fn legacy_glyph(index: usize) -> (glyph: [u8; 8])
    requires
        index < GLYPH_COUNT,
    ensures
        glyph@ == basic_legacy_glyph(index),
        (index <= 32 || index == 127) ==> forall|r: int| 0 <= r < 8 ==> #[trigger] glyph@[r] == 0u8,
{
    font8x8::legacy::BASIC_LEGACY[index]
}

} // verus!
