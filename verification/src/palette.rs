//! The working palette: the most used colours of an image, each with a
//! symbol. What it is, and what holds of it.

use crate::color::Rgb;
use crate::frequency::occurrences;
use vstd::prelude::*;

verus! {

/// A colour of the working palette and the symbol that stands for it.
#[derive(Clone, Copy, Debug, PartialEq, Eq, Structural)]
pub struct PixelWithSymbol {
    pub pixel: Rgb,
    pub symbol: char,
}

impl PixelWithSymbol {
    pub fn new(pixel: Rgb, symbol: char) -> (entry: PixelWithSymbol)
        ensures
            entry == (PixelWithSymbol { pixel, symbol }),
    {
        PixelWithSymbol { pixel, symbol }
    }
}

/// Whether colour `a` counts as more used than colour `b` in `pixels`: it
/// occurs more often, or as often and its code is the lower one. Of two
/// different colours exactly one outranks the other.
pub open spec fn outranks(pixels: Seq<Rgb>, a: Rgb, b: Rgb) -> bool {
    occurrences(pixels, a) > occurrences(pixels, b) || (occurrences(pixels, a) == occurrences(
        pixels,
        b,
    ) && a.spec_code() < b.spec_code())
}

/// The number of entries of the working palette: one for each colour of the
/// image, but no more than there are symbols.
pub open spec fn palette_size(pixels: Seq<Rgb>, symbols: Seq<char>) -> nat {
    let distinct = pixels.to_set().len();
    if distinct <= symbols.len() {
        distinct
    } else {
        symbols.len()
    }
}

/// What makes `palette` the working palette of an image with the pixels
/// `pixels` under the symbols `symbols`.
///
/// Its colours are the most used colours of the image, in ascending order of
/// use. They take the symbols from the back: the most used colour has the
/// last symbol, the next one the symbol before it. Where the image has fewer
/// colours than there are symbols, the first symbols stay unused.
pub open spec fn is_working_palette(
    pixels: Seq<Rgb>,
    symbols: Seq<char>,
    palette: Seq<PixelWithSymbol>,
) -> bool {
    let n = palette.len();
    &&& n == palette_size(pixels, symbols)
    &&& forall|j: int|
        0 <= j < n ==> pixels.contains(#[trigger] palette[j].pixel) && palette[j].symbol
            == symbols[symbols.len() - n + j]
    &&& forall|i: int, j: int|
        0 <= i < j < n ==> outranks(pixels, #[trigger] palette[j].pixel, #[trigger] palette[i].pixel)
    &&& forall|color: Rgb| #[trigger]
        pixels.contains(color) ==> palette_holds(palette, color) || (n > 0 && outranks(
            pixels,
            palette[0].pixel,
            color,
        ))
}

/// Whether one of the palette's entries has the colour `color`.
pub open spec fn palette_holds(palette: Seq<PixelWithSymbol>, color: Rgb) -> bool {
    exists|j: int| 0 <= j < palette.len() && #[trigger] palette[j].pixel == color
}

/// The working palette of an image with the pixels `pixels` under the
/// symbols `symbols`.
pub open spec fn working_palette(pixels: Seq<Rgb>, symbols: Seq<char>) -> Seq<PixelWithSymbol> {
    choose|palette: Seq<PixelWithSymbol>| is_working_palette(pixels, symbols, palette)
}

/// Two working palettes of one image under the same symbols have the same
/// entries from place `from` on.
proof fn lemma_palettes_agree_from(
    pixels: Seq<Rgb>,
    symbols: Seq<char>,
    first: Seq<PixelWithSymbol>,
    second: Seq<PixelWithSymbol>,
    from: int,
)
    requires
        is_working_palette(pixels, symbols, first),
        is_working_palette(pixels, symbols, second),
        0 <= from <= first.len(),
    ensures
        forall|j: int| from <= j < first.len() ==> first[j] == second[j],
    decreases first.len() - from,
{
    let n = first.len() as int;
    if from < n {
        lemma_palettes_agree_from(pixels, symbols, first, second, from + 1);
        let a = first[from].pixel;
        let b = second[from].pixel;
        if a != b {
            Rgb::code_injective(a, b);
            lemma_lower_or_absent(pixels, symbols, first, second, from);
            lemma_lower_or_absent(pixels, symbols, second, first, from);
            assert(outranks(pixels, a, b) && outranks(pixels, b, a));
        }
    }
}

/// Where two working palettes agree above place `at`, the colour of the first
/// at that place is the second's there or is outranked by it.
proof fn lemma_lower_or_absent(
    pixels: Seq<Rgb>,
    symbols: Seq<char>,
    first: Seq<PixelWithSymbol>,
    second: Seq<PixelWithSymbol>,
    at: int,
)
    requires
        is_working_palette(pixels, symbols, first),
        is_working_palette(pixels, symbols, second),
        0 <= at < first.len(),
        forall|j: int| at < j < first.len() ==> first[j] == second[j],
    ensures
        first[at].pixel == second[at].pixel || outranks(
            pixels,
            second[at].pixel,
            first[at].pixel,
        ),
{
    let a = first[at].pixel;
    assert(pixels.contains(a));
    if palette_holds(second, a) {
        let j = choose|j: int| 0 <= j < second.len() && #[trigger] second[j].pixel == a;
        if j > at {
            assert(first[j] == second[j]);
            assert(outranks(pixels, first[j].pixel, first[at].pixel));
        } else if j < at {
            assert(outranks(pixels, second[at].pixel, second[j].pixel));
        }
    } else {
        assert(outranks(pixels, second[0].pixel, a));
        if at > 0 {
            assert(outranks(pixels, second[at].pixel, second[0].pixel));
        }
    }
}

/// An image and a list of symbols have one working palette only.
pub proof fn lemma_working_palette_unique(
    pixels: Seq<Rgb>,
    symbols: Seq<char>,
    first: Seq<PixelWithSymbol>,
    second: Seq<PixelWithSymbol>,
)
    requires
        is_working_palette(pixels, symbols, first),
        is_working_palette(pixels, symbols, second),
    ensures
        first == second,
{
    lemma_palettes_agree_from(pixels, symbols, first, second, 0);
    assert(first =~= second);
}

/// Among finitely many colours, at least one, there is one that outranks all
/// the others.
proof fn lemma_top_color(pixels: Seq<Rgb>, colors: Set<Rgb>) -> (top: Rgb)
    requires
        colors.finite(),
        colors.len() > 0,
    ensures
        colors.contains(top),
        forall|color: Rgb|
            colors.contains(color) && color != top ==> #[trigger] outranks(pixels, top, color),
    decreases colors.len(),
{
    broadcast use vstd::set::group_set_axioms;

    let one = colors.choose();
    let rest = colors.remove(one);
    if rest.len() == 0 {
        rest.lemma_len0_is_empty();
        assert forall|color: Rgb| colors.contains(color) && color != one implies #[trigger] outranks(
            pixels,
            one,
            color,
        ) by {
            assert(rest.contains(color));
        }
        one
    } else {
        let best = lemma_top_color(pixels, rest);
        Rgb::code_injective(one, best);
        let top = if outranks(pixels, one, best) {
            one
        } else {
            best
        };
        assert forall|color: Rgb| colors.contains(color) && color != top implies #[trigger] outranks(
            pixels,
            top,
            color,
        ) by {
            if color == one {
                assert(outranks(pixels, best, one));
            } else {
                assert(rest.contains(color));
                if color != best {
                    assert(outranks(pixels, best, color));
                }
            }
        }
        top
    }
}

/// Every image has its `k` most used colours, for each `k` up to the number
/// of its colours: `k` colours of the image in ascending order of use that
/// outrank every other colour of the image.
proof fn lemma_most_used(pixels: Seq<Rgb>, k: nat) -> (tops: Seq<Rgb>)
    requires
        k <= pixels.to_set().len(),
    ensures
        tops.len() == k,
        forall|j: int| 0 <= j < k ==> pixels.contains(#[trigger] tops[j]),
        forall|i: int, j: int|
            0 <= i < j < k ==> outranks(pixels, #[trigger] tops[j], #[trigger] tops[i]),
        k > 0 ==> forall|color: Rgb| #[trigger]
            pixels.contains(color) ==> tops.contains(color) || outranks(pixels, tops[0], color),
    decreases k,
{
    broadcast use vstd::set::group_set_axioms;

    if k == 0 {
        Seq::empty()
    } else {
        let rest = lemma_most_used(pixels, (k - 1) as nat);
        let all = pixels.to_set();
        let left = all.filter(|color: Rgb| !rest.contains(color));
        vstd::seq_lib::seq_to_set_is_finite(pixels);
        all.lemma_len_filter(|color: Rgb| !rest.contains(color));
        assert(left.len() > 0) by {
            if left.len() == 0 {
                left.lemma_len0_is_empty();
                assert forall|color: Rgb| all.contains(color) implies rest.to_set().contains(
                    color,
                ) by {
                    if !rest.contains(color) {
                        assert(left.contains(color));
                    }
                }
                assert(all.subset_of(rest.to_set()));
                vstd::seq_lib::seq_to_set_is_finite(rest);
                vstd::set_lib::lemma_len_subset(all, rest.to_set());
                assert forall|i: int, j: int| 0 <= i < j < rest.len() implies rest[i] != rest[j] by {
                    assert(outranks(pixels, rest[j], rest[i]));
                }
                rest.unique_seq_to_set();
            }
        }
        let top = lemma_top_color(pixels, left);
        let tops = seq![top] + rest;
        assert(left.contains(top));
        assert(forall|j: int| 1 <= j < k ==> tops[j] == rest[j - 1]);
        assert forall|i: int, j: int| 0 <= i < j < k implies outranks(
            pixels,
            #[trigger] tops[j],
            #[trigger] tops[i],
        ) by {
            if i == 0 {
                assert(pixels.contains(top));
                assert(!rest.contains(top));
                assert(outranks(pixels, rest[0], top));
                if j > 1 {
                    assert(outranks(pixels, rest[j - 1], rest[0]));
                }
            } else {
                assert(outranks(pixels, rest[j - 1], rest[i - 1]));
            }
        }
        assert forall|color: Rgb| #[trigger] pixels.contains(color) implies tops.contains(color)
            || outranks(pixels, tops[0], color) by {
            if rest.contains(color) {
                let j = choose|j: int| 0 <= j < rest.len() && rest[j] == color;
                assert(tops[j + 1] == color);
            } else if color != top {
                assert(left.contains(color));
            } else {
                assert(tops[0] == color);
            }
        }
        tops
    }
}

/// The symbol at place `i`.
spec fn symbol_at(symbols: Seq<char>, i: int) -> char {
    symbols[i]
}

/// The colours with the symbols that fall to them: the last colour with the
/// last symbol, the one before it with the symbol before that.
spec fn with_symbols(tops: Seq<Rgb>, symbols: Seq<char>) -> Seq<PixelWithSymbol> {
    Seq::new(
        tops.len(),
        |j: int|
            PixelWithSymbol {
                pixel: tops[j],
                symbol: symbol_at(symbols, symbols.len() - tops.len() + j),
            },
    )
}

/// Every image has a working palette under symbols of which there is at
/// least one.
pub proof fn lemma_working_palette_exists(pixels: Seq<Rgb>, symbols: Seq<char>)
    requires
        symbols.len() > 0,
    ensures
        is_working_palette(pixels, symbols, working_palette(pixels, symbols)),
{
    broadcast use vstd::set::group_set_axioms;

    let n = palette_size(pixels, symbols);
    let tops = lemma_most_used(pixels, n);
    let palette = with_symbols(tops, symbols);
    assert forall|j: int| 0 <= j < n implies (#[trigger] palette[j]).pixel == tops[j]
        && palette[j].symbol == symbols[symbols.len() - n + j] by {}
    assert forall|color: Rgb| #[trigger] pixels.contains(color) implies palette_holds(
        palette,
        color,
    ) || (n > 0 && outranks(pixels, palette[0].pixel, color)) by {
        if n == 0 {
            vstd::seq_lib::seq_to_set_is_finite(pixels);
            pixels.to_set().lemma_len0_is_empty();
            assert(pixels.to_set().contains(color));
        } else if tops.contains(color) {
            let j = choose|j: int| 0 <= j < tops.len() && tops[j] == color;
            assert(palette[j].pixel == color);
        }
    }
    assert forall|i: int, j: int| 0 <= i < j < n implies outranks(
        pixels,
        #[trigger] palette[j].pixel,
        #[trigger] palette[i].pixel,
    ) by {
        assert(outranks(pixels, tops[j], tops[i]));
    }
    assert(is_working_palette(pixels, symbols, palette));
}

/// No colour has two entries in a working palette.
pub proof fn lemma_palette_colors_distinct(
    pixels: Seq<Rgb>,
    symbols: Seq<char>,
    palette: Seq<PixelWithSymbol>,
)
    requires
        is_working_palette(pixels, symbols, palette),
    ensures
        forall|i: int, j: int|
            0 <= i < j < palette.len() ==> #[trigger] palette[i].pixel != #[trigger] palette[j].pixel,
{
    assert forall|i: int, j: int| 0 <= i < j < palette.len() implies #[trigger] palette[i].pixel
        != #[trigger] palette[j].pixel by {
        assert(outranks(pixels, palette[j].pixel, palette[i].pixel));
    }
}

/// Where no symbol is given twice, no symbol has two entries in a working
/// palette.
pub proof fn lemma_palette_symbols_distinct(
    pixels: Seq<Rgb>,
    symbols: Seq<char>,
    palette: Seq<PixelWithSymbol>,
)
    requires
        is_working_palette(pixels, symbols, palette),
        symbols.no_duplicates(),
    ensures
        forall|i: int, j: int|
            0 <= i < j < palette.len() ==> #[trigger] palette[i].symbol != #[trigger] palette[j].symbol,
{
    let unused = symbols.len() - palette.len();
    assert forall|i: int, j: int| 0 <= i < j < palette.len() implies #[trigger] palette[i].symbol
        != #[trigger] palette[j].symbol by {
        assert(pixels.contains(palette[i].pixel) && pixels.contains(palette[j].pixel));
        assert(palette[i].symbol == symbols[unused + i]);
        assert(palette[j].symbol == symbols[unused + j]);
    }
}

/// The last entry of a working palette is the most used colour of the image
/// with the last symbol.
pub proof fn lemma_most_used_has_last_symbol(
    pixels: Seq<Rgb>,
    symbols: Seq<char>,
    palette: Seq<PixelWithSymbol>,
)
    requires
        is_working_palette(pixels, symbols, palette),
        palette.len() > 0,
    ensures
        palette.last().symbol == symbols.last(),
        forall|color: Rgb|
            pixels.contains(color) && color != palette.last().pixel ==> #[trigger] outranks(
                pixels,
                palette.last().pixel,
                color,
            ),
{
    let top = palette.len() - 1;
    assert(pixels.contains(palette[top].pixel));
    assert(palette[top].symbol == symbols[symbols.len() - palette.len() + top]);
    assert forall|color: Rgb|
        pixels.contains(color) && color != palette.last().pixel implies #[trigger] outranks(
        pixels,
        palette.last().pixel,
        color,
    ) by {
        if palette_holds(palette, color) {
            let j = choose|j: int| 0 <= j < palette.len() && #[trigger] palette[j].pixel == color;
            assert(outranks(pixels, palette[top].pixel, palette[j].pixel));
        } else {
            assert(outranks(pixels, palette[0].pixel, color));
            if top > 0 {
                assert(outranks(pixels, palette[top].pixel, palette[0].pixel));
            }
        }
    }
}

/// An image in which exactly two colours occur has two distinct colours.
proof fn lemma_two_distinct(pixels: Seq<Rgb>, more: Rgb, less: Rgb)
    requires
        more != less,
        pixels.contains(more),
        pixels.contains(less),
        forall|color: Rgb| #[trigger] pixels.contains(color) ==> color == more || color == less,
    ensures
        pixels.to_set().len() == 2,
{
    broadcast use vstd::set::group_set_axioms;

    assert(pixels.to_set() =~= Set::<Rgb>::empty().insert(more).insert(less));
}

/// In an image of two colours the one that occurs more often has the last
/// symbol and the other one the symbol before it.
pub proof fn lemma_two_colors(pixels: Seq<Rgb>, symbols: Seq<char>, more: Rgb, less: Rgb)
    requires
        forall|color: Rgb| #[trigger] pixels.contains(color) <==> color == more || color == less,
        occurrences(pixels, more) > occurrences(pixels, less),
        symbols.len() >= 2,
    ensures
        working_palette(pixels, symbols).len() == 2,
        working_palette(pixels, symbols)[0] == (PixelWithSymbol {
            pixel: less,
            symbol: symbols[symbols.len() - 2],
        }),
        working_palette(pixels, symbols)[1] == (PixelWithSymbol {
            pixel: more,
            symbol: symbols[symbols.len() - 1],
        }),
{
    lemma_two_colors_with(
        pixels,
        symbols,
        more,
        less,
        symbols[symbols.len() - 2],
        symbols[symbols.len() - 1],
    );
}

/// The same, with the last two symbols named.
proof fn lemma_two_colors_with(
    pixels: Seq<Rgb>,
    symbols: Seq<char>,
    more: Rgb,
    less: Rgb,
    before_last: char,
    last: char,
)
    requires
        forall|color: Rgb| #[trigger] pixels.contains(color) <==> color == more || color == less,
        occurrences(pixels, more) > occurrences(pixels, less),
        symbols.len() >= 2,
        before_last == symbols[symbols.len() - 2],
        last == symbols[symbols.len() - 1],
    ensures
        working_palette(pixels, symbols).len() == 2,
        working_palette(pixels, symbols)[0] == (PixelWithSymbol {
            pixel: less,
            symbol: before_last,
        }),
        working_palette(pixels, symbols)[1] == (PixelWithSymbol { pixel: more, symbol: last }),
{
    let low = PixelWithSymbol { pixel: less, symbol: before_last };
    let high = PixelWithSymbol { pixel: more, symbol: last };
    let palette = seq![low, high];
    assert(palette.len() == 2 && palette[0] == low && palette[1] == high);
    assert(pixels.contains(more) && pixels.contains(less));
    lemma_two_distinct(pixels, more, less);
    assert forall|color: Rgb| #[trigger] pixels.contains(color) implies palette_holds(
        palette,
        color,
    ) by {
        if color == less {
            assert(palette[0].pixel == color);
        } else {
            assert(palette[1].pixel == color);
        }
    }
    assert(is_working_palette(pixels, symbols, palette));
    lemma_working_palette_unique(pixels, symbols, palette, working_palette(pixels, symbols));
}

} // verus!
