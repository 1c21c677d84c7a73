//! The palette entry nearest to a pixel.

use crate::color::{distance, get_pixel_comparison, Rgb};
use crate::error::SymbolizeError;
use crate::palette::PixelWithSymbol;
use vstd::prelude::*;

verus! {

/// Whether entry `i` of the palette is the one that a pixel of colour
/// `color` resolves to: no entry is nearer, and every entry before it is
/// farther away.
pub open spec fn is_nearest(palette: Seq<PixelWithSymbol>, color: Rgb, i: int) -> bool {
    &&& 0 <= i < palette.len()
    &&& forall|j: int|
        0 <= j < palette.len() ==> distance(color, palette[i].pixel) <= distance(
            color,
            #[trigger] palette[j].pixel,
        )
    &&& forall|j: int|
        0 <= j < i ==> distance(color, palette[i].pixel) < distance(
            color,
            #[trigger] palette[j].pixel,
        )
}

/// The place of the entry that a pixel of colour `color` resolves to, in a
/// palette that has entries.
pub open spec fn nearest(palette: Seq<PixelWithSymbol>, color: Rgb) -> int {
    choose|i: int| is_nearest(palette, color, i)
}

/// A pixel resolves to one entry only.
pub proof fn lemma_nearest_unique(palette: Seq<PixelWithSymbol>, color: Rgb, i: int, j: int)
    requires
        is_nearest(palette, color, i),
        is_nearest(palette, color, j),
    ensures
        i == j,
{
    if i < j {
        assert(distance(color, palette[j].pixel) < distance(color, palette[i].pixel));
    }
    if j < i {
        assert(distance(color, palette[i].pixel) < distance(color, palette[j].pixel));
    }
}

/// The first of the nearest among the first `n` entries of the palette.
proof fn lemma_first_nearest(palette: Seq<PixelWithSymbol>, color: Rgb, n: int) -> (i: int)
    requires
        1 <= n <= palette.len(),
    ensures
        0 <= i < n,
        forall|j: int|
            0 <= j < n ==> distance(color, palette[i].pixel) <= distance(
                color,
                #[trigger] palette[j].pixel,
            ),
        forall|j: int|
            0 <= j < i ==> distance(color, palette[i].pixel) < distance(
                color,
                #[trigger] palette[j].pixel,
            ),
    decreases n,
{
    if n == 1 {
        0
    } else {
        let i = lemma_first_nearest(palette, color, n - 1);
        if distance(color, palette[n - 1].pixel) < distance(color, palette[i].pixel) {
            n - 1
        } else {
            i
        }
    }
}

/// In a palette that has entries every pixel resolves to one of them.
pub proof fn lemma_nearest_exists(palette: Seq<PixelWithSymbol>, color: Rgb)
    requires
        palette.len() > 0,
    ensures
        is_nearest(palette, color, nearest(palette, color)),
{
    let i = lemma_first_nearest(palette, color, palette.len() as int);
    assert(is_nearest(palette, color, i));
}

/// The place of the palette entry nearest to the pixel; of several at the
/// same distance, the first. `None` if the palette has no entries.
pub fn nearest_index(pixels_with_symbols: &[PixelWithSymbol], pixel_to_compare: &Rgb) -> (found:
    Option<usize>)
    ensures
        pixels_with_symbols@.len() == 0 <==> found is None,
        found matches Some(i) ==> is_nearest(pixels_with_symbols@, *pixel_to_compare, i as int)
            && i == nearest(pixels_with_symbols@, *pixel_to_compare),
{
    let n = pixels_with_symbols.len();
    if n == 0 {
        return None;
    }
    let ghost palette = pixels_with_symbols@;
    let ghost color = *pixel_to_compare;
    let mut best: usize = 0;
    let mut least = get_pixel_comparison(pixel_to_compare, &pixels_with_symbols[0].pixel);
    let mut k: usize = 1;
    while k < n
        invariant
            0 <= best < k <= n,
            n == palette.len(),
            palette == pixels_with_symbols@,
            color == *pixel_to_compare,
            least == distance(color, palette[best as int].pixel),
            forall|j: int| 0 <= j < k ==> least <= distance(color, #[trigger] palette[j].pixel),
            forall|j: int| 0 <= j < best ==> least < distance(color, #[trigger] palette[j].pixel),
        decreases n - k,
    {
        let candidate = get_pixel_comparison(pixel_to_compare, &pixels_with_symbols[k].pixel);
        if candidate < least {
            best = k;
            least = candidate;
        }
        k += 1;
    }
    proof {
        assert(is_nearest(palette, color, best as int));
        lemma_nearest_unique(palette, color, best as int, nearest(palette, color));
    }
    Some(best)
}

/// The symbol and the colour of the palette entry nearest to the pixel; of
/// several at the same distance, the first. A palette without entries has no
/// match.
pub fn get_symbol_by_pixel(pixels_with_symbols: &[PixelWithSymbol], pixel_to_compare: &Rgb) -> (result:
    Result<(char, Rgb), SymbolizeError>)
    ensures
        pixels_with_symbols@.len() == 0 ==> result == Err::<(char, Rgb), SymbolizeError>(
            SymbolizeError::NoMatch,
        ),
        pixels_with_symbols@.len() > 0 ==> result == Ok::<(char, Rgb), SymbolizeError>(
            (
                pixels_with_symbols@[nearest(pixels_with_symbols@, *pixel_to_compare)].symbol,
                pixels_with_symbols@[nearest(pixels_with_symbols@, *pixel_to_compare)].pixel,
            ),
        ),
{
    match nearest_index(pixels_with_symbols, pixel_to_compare) {
        Some(i) => Ok((pixels_with_symbols[i].symbol, pixels_with_symbols[i].pixel)),
        None => Err(SymbolizeError::NoMatch),
    }
}

} // verus!
