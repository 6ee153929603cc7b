use vstd::prelude::*;

use crate::util::Color;

verus! {

/// Entry `i` of a palette, wrapping around its length.
pub open spec fn palette_color(palette: Seq<Color>, i: int) -> Color {
    palette[i % palette.len() as int]
}

/// Looks up palette entry `index`, wrapping around: never out of range.
pub fn lookup(palette: &[Color], index: usize) -> (c: Color)
    requires
        palette@.len() > 0,
    ensures
        c == palette_color(palette@, index as int),
{
    palette[index % palette.len()]
}

/// Palette lookup wraps around: `i` and `i mod N` name the same entry, for
/// every integer `i` and every palette of `N > 0` entries.
pub proof fn lemma_lookup_wraps(palette: Seq<Color>, i: int)
    requires
        palette.len() > 0,
    ensures
        palette_color(palette, i) == palette_color(palette, i % palette.len() as int),
        0 <= i % (palette.len() as int) < palette.len(),
{
    vstd::arithmetic::div_mod::lemma_mod_twice(i, palette.len() as int);
    vstd::arithmetic::div_mod::lemma_mod_bound(i, palette.len() as int);
}

} // verus!
