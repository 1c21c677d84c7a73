//! Finding the working palette of an image.

use crate::color::Rgb;
use crate::error::SymbolizeError;
use crate::frequency::{count_colors, frequencies, lemma_occurrences, occurrences};
use crate::grid::PixelGrid;
use crate::palette::{
    is_working_palette, lemma_working_palette_unique, outranks, palette_holds, working_palette,
    PixelWithSymbol,
};
use std::collections::HashMap;
use vstd::prelude::*;
use vstd::std_specs::iter::IteratorSpec;

verus! {

broadcast use vstd::std_specs::hash::group_hash_axioms;

/// The entries of a frequency table in some order: each code with its count,
/// no code twice, none left out.
spec fn lists_table(entries: Seq<(u32, usize)>, table: Map<u32, usize>) -> bool {
    &&& forall|i: int|
        0 <= i < entries.len() ==> table.contains_key(#[trigger] entries[i].0)
            && table[entries[i].0] == entries[i].1
    &&& forall|i: int, j: int|
        0 <= i < j < entries.len() ==> #[trigger] entries[i].0 != #[trigger] entries[j].0
    &&& forall|code: u32| #[trigger]
        table.contains_key(code) ==> exists|i: int|
            0 <= i < entries.len() && #[trigger] entries[i].0 == code
}

/// The entries of the table, in the order in which the table hands them
/// out.
fn table_entries(table: &HashMap<u32, usize>) -> (entries: Vec<(u32, usize)>)
    ensures
        lists_table(entries@, table@),
{
    let mut entries: Vec<(u32, usize)> = Vec::new();
    for pair in it: table.iter()
        invariant
            it.seq() == vstd::std_specs::hash::spec_hash_map_iter(table).remaining(),
            it.seq().no_duplicates(),
            entries@.len() == it.index(),
            forall|i: int|
                0 <= i < entries@.len() ==> (#[trigger] entries@[i]).0 == *it.seq()[i].0
                    && entries@[i].1 == *it.seq()[i].1,
    {
        let (code, count) = pair;
        entries.push((*code, *count));
    }
    proof {
        let listed = vstd::std_specs::hash::spec_hash_map_iter(table).remaining();
        assert(entries@.len() == listed.len());
        assert forall|i: int, j: int| 0 <= i < j < entries@.len() implies #[trigger] entries@[i].0
            != #[trigger] entries@[j].0 by {
            assert(table@.contains_key(*listed[i].0) && table@[*listed[i].0] == *listed[i].1);
            assert(table@.contains_key(*listed[j].0) && table@[*listed[j].0] == *listed[j].1);
            if entries@[i].0 == entries@[j].0 {
                assert(listed[i] == listed[j]);
            }
        }
        assert forall|code: u32| #[trigger] table@.contains_key(code) implies exists|i: int|
            0 <= i < entries@.len() && #[trigger] entries@[i].0 == code by {
            assert(listed.contains((&code, &table@[code])));
            let i = choose|i: int| 0 <= i < listed.len() && listed[i] == (&code, &table@[code]);
            assert(entries@[i].0 == code);
        }
        assert forall|i: int| 0 <= i < entries@.len() implies table@.contains_key(
            #[trigger] entries@[i].0,
        ) && table@[entries@[i].0] == entries@[i].1 by {
            assert(table@.contains_key(*listed[i].0) && table@[*listed[i].0] == *listed[i].1);
        }
    }
    entries
}


/// Whether the first entry counts as more used than the second: a higher
/// count, or the same count and a lower code.
spec fn entry_outranks(a: (u32, usize), b: (u32, usize)) -> bool {
    a.1 > b.1 || (a.1 == b.1 && a.0 < b.0)
}

fn entry_is_above(a: (u32, usize), b: (u32, usize)) -> (above: bool)
    ensures
        above == entry_outranks(a, b),
{
    a.1 > b.1 || (a.1 == b.1 && a.0 < b.0)
}

/// The first `n` entries are the `n` most used, the most used first.
spec fn top_first(entries: Seq<(u32, usize)>, n: int) -> bool {
    forall|i: int, j: int|
        0 <= i < n && i < j < entries.len() ==> entry_outranks(
            #[trigger] entries[i],
            #[trigger] entries[j],
        )
}

/// Where the entry at place `a` was before the entries at `i` and `j` changed
/// places.
spec fn swapped(i: int, j: int, a: int) -> int {
    if a == i {
        j
    } else if a == j {
        i
    } else {
        a
    }
}

/// Reorders the entries so that the `n` most used come first, the most used
/// of all at the front.
fn select_top(
    entries: Vec<(u32, usize)>,
    n: usize,
    Ghost(table): Ghost<Map<u32, usize>>,
) -> (sorted: Vec<(u32, usize)>)
    requires
        n <= entries@.len(),
        lists_table(entries@, table),
    ensures
        sorted@.len() == entries@.len(),
        lists_table(sorted@, table),
        top_first(sorted@, n as int),
{
    let mut sorted = entries;
    let len = sorted.len();
    let mut i: usize = 0;
    while i < n
        invariant
            i <= n <= len,
            len == sorted@.len(),
            lists_table(sorted@, table),
            top_first(sorted@, i as int),
        decreases n - i,
    {
        let mut best: usize = i;
        let mut k: usize = i + 1;
        while k < len
            invariant
                i <= best < k <= len,
                len == sorted@.len(),
                lists_table(sorted@, table),
                forall|j: int|
                    i <= j < k && j != best ==> entry_outranks(
                        sorted@[best as int],
                        #[trigger] sorted@[j],
                    ),
            decreases len - k,
        {
            if entry_is_above(sorted[k], sorted[best]) {
                best = k;
            }
            k += 1;
        }
        let ghost before = sorted@;
        let high = sorted[best];
        let low = sorted[i];
        sorted[i] = high;
        sorted[best] = low;
        proof {
            let after = sorted@;
            let at = |a: int| swapped(i as int, best as int, a);
            assert forall|a: int| 0 <= a < after.len() implies #[trigger] after[a] == before[at(
                a,
            )] by {}
            assert forall|code: u32| #[trigger] table.contains_key(code) implies exists|j: int|
                0 <= j < after.len() && #[trigger] after[j].0 == code by {
                let j0 = choose|j: int| 0 <= j < before.len() && #[trigger] before[j].0 == code;
                assert(after[at(j0)] == before[at(at(j0))]);
                assert(after[at(j0)].0 == code);
            }
            assert forall|a: int, b: int| 0 <= a < b < after.len() implies #[trigger] after[a].0
                != #[trigger] after[b].0 by {
                assert(after[a] == before[at(a)] && after[b] == before[at(b)]);
                if at(a) < at(b) {
                    assert(before[at(a)].0 != before[at(b)].0);
                } else {
                    assert(before[at(b)].0 != before[at(a)].0);
                }
            }
            assert forall|a: int| 0 <= a < after.len() implies table.contains_key(
                #[trigger] after[a].0,
            ) && table[after[a].0] == after[a].1 by {
                assert(after[a] == before[at(a)]);
                assert(table.contains_key(before[at(a)].0));
            }
            assert forall|a: int, b: int| 0 <= a < i + 1 && a < b < after.len() implies entry_outranks(
                #[trigger] after[a],
                #[trigger] after[b],
            ) by {
                assert(after[a] == before[at(a)] && after[b] == before[at(b)]);
                if a < i {
                    assert(entry_outranks(before[a], before[at(b)]));
                } else {
                    assert(at(b) != best);
                    assert(entry_outranks(before[best as int], before[at(b)]));
                }
            }
        }
        i += 1;
    }
    sorted
}


/// The colours that the entries of a frequency table stand for, in the
/// entries' order.
spec fn entry_colors(entries: Seq<(u32, usize)>) -> Seq<Rgb> {
    Seq::new(entries.len(), |i: int| Rgb::spec_from_code(entries[i].0 as nat))
}

/// A list of a frequency table has one entry for each colour of the image,
/// each with the colour's count.
proof fn lemma_entries_are_colors(pixels: Seq<Rgb>, entries: Seq<(u32, usize)>)
    requires
        forall|color: Rgb| #[trigger] occurrences(pixels, color) <= usize::MAX,
        lists_table(entries, frequencies(pixels)),
    ensures
        entries.len() == pixels.to_set().len(),
        forall|i: int|
            0 <= i < entries.len() ==> {
                let color = #[trigger] entry_colors(entries)[i];
                &&& color.spec_code() == entries[i].0
                &&& occurrences(pixels, color) == entries[i].1
                &&& pixels.contains(color)
            },
        forall|color: Rgb| #[trigger]
            pixels.contains(color) ==> exists|i: int|
                0 <= i < entries.len() && #[trigger] entry_colors(entries)[i] == color,
{
    let table = frequencies(pixels);
    let colors = entry_colors(entries);
    assert forall|i: int| 0 <= i < entries.len() implies {
        let color = #[trigger] colors[i];
        &&& color.spec_code() == entries[i].0
        &&& occurrences(pixels, color) == entries[i].1
        &&& pixels.contains(color)
    } by {
        assert(table.contains_key(entries[i].0));
        lemma_occurrences(pixels, colors[i]);
    }
    assert forall|color: Rgb| #[trigger] pixels.contains(color) implies exists|i: int|
        0 <= i < entries.len() && #[trigger] colors[i] == color by {
        lemma_occurrences(pixels, color);
        color.code_round_trip();
        let code = color.spec_code() as u32;
        assert(table.contains_key(code));
        let i = choose|i: int| 0 <= i < entries.len() && #[trigger] entries[i].0 == code;
        assert(colors[i] == color);
    }
    assert forall|i: int, j: int| 0 <= i < j < colors.len() implies colors[i] != colors[j] by {
        assert(entries[i].0 != entries[j].0);
        assert(colors[i].spec_code() == entries[i].0 && colors[j].spec_code() == entries[j].0);
    }
    assert(colors.no_duplicates());
    colors.unique_seq_to_set();
    assert(colors.to_set() =~= pixels.to_set()) by {
        assert forall|color: Rgb| colors.to_set().contains(color) == pixels.to_set().contains(
            color,
        ) by {
            if colors.contains(color) {
                let i = choose|i: int| 0 <= i < colors.len() && colors[i] == color;
                assert(pixels.contains(colors[i]));
            }
            if pixels.contains(color) {
                let i = choose|i: int| 0 <= i < entries.len() && #[trigger] colors[i] == color;
                assert(colors[i] == color);
            }
        }
    }
}

/// The most used entries of a frequency table, taken from the back and
/// paired with the last symbols, are the working palette.
proof fn lemma_selection_is_palette(
    pixels: Seq<Rgb>,
    symbols: Seq<char>,
    sorted: Seq<(u32, usize)>,
    palette: Seq<PixelWithSymbol>,
)
    requires
        forall|color: Rgb| #[trigger] occurrences(pixels, color) <= usize::MAX,
        lists_table(sorted, frequencies(pixels)),
        symbols.len() > 0,
        palette.len() <= sorted.len(),
        palette.len() <= symbols.len(),
        palette.len() == sorted.len() || palette.len() == symbols.len(),
        top_first(sorted, palette.len() as int),
        forall|j: int|
            0 <= j < palette.len() ==> #[trigger] palette[j] == (PixelWithSymbol {
                pixel: Rgb::spec_from_code(sorted[palette.len() - 1 - j].0 as nat),
                symbol: symbols[symbols.len() - palette.len() + j],
            }),
    ensures
        is_working_palette(pixels, symbols, palette),
{
    let n = palette.len() as int;
    let colors = entry_colors(sorted);
    lemma_entries_are_colors(pixels, sorted);
    assert forall|j: int| 0 <= j < n implies #[trigger] palette[j].pixel == colors[n - 1 - j] by {}
    assert forall|j: int| 0 <= j < n implies pixels.contains(#[trigger] palette[j].pixel)
        && palette[j].symbol == symbols[symbols.len() - n + j] by {
        assert(palette[j].pixel == colors[n - 1 - j]);
    }
    assert forall|i: int, j: int| 0 <= i < j < n implies outranks(
        pixels,
        #[trigger] palette[j].pixel,
        #[trigger] palette[i].pixel,
    ) by {
        assert(palette[j].pixel == colors[n - 1 - j] && palette[i].pixel == colors[n - 1 - i]);
        assert(entry_outranks(sorted[n - 1 - j], sorted[n - 1 - i]));
    }
    assert forall|color: Rgb| #[trigger] pixels.contains(color) implies palette_holds(
        palette,
        color,
    ) || (n > 0 && outranks(pixels, palette[0].pixel, color)) by {
        let i = choose|i: int| 0 <= i < sorted.len() && #[trigger] colors[i] == color;
        if i < n {
            assert(palette[n - 1 - i].pixel == color);
        } else {
            assert(palette[0].pixel == colors[n - 1]);
            assert(entry_outranks(sorted[n - 1], sorted[i]));
        }
    }
}

/// The working palette of an image: its most used colours, each with a
/// symbol.
///
/// The colours come in ascending order of use, as many as the image has, but
/// no more than there are symbols. They take the symbols from the back: the
/// most used colour has the last symbol. Of two colours that occur equally
/// often the one with the lower code counts as the more used. Without a
/// symbol there is no palette.
pub fn get_most_used_colours_with_symbols(image: &PixelGrid, symbols: &[char]) -> (result: Result<
    Vec<PixelWithSymbol>,
    SymbolizeError,
>)
    ensures
        symbols@.len() == 0 ==> result == Err::<Vec<PixelWithSymbol>, SymbolizeError>(
            SymbolizeError::EmptyPalette,
        ),
        symbols@.len() > 0 ==> (result matches Ok(palette) && palette@ == working_palette(
            image.pixels(),
            symbols@,
        ) && is_working_palette(image.pixels(), symbols@, palette@)),
{
    if symbols.len() == 0 {
        return Err(SymbolizeError::EmptyPalette);
    }
    let counts = count_colors(image);
    let entries = table_entries(&counts);
    let n = if entries.len() <= symbols.len() {
        entries.len()
    } else {
        symbols.len()
    };
    let sorted = select_top(entries, n, Ghost(counts@));
    let total = symbols.len();
    let unused = total - n;
    let mut palette: Vec<PixelWithSymbol> = Vec::new();
    let mut j: usize = 0;
    while j < n
        invariant
            j <= n,
            n <= sorted@.len(),
            unused + n == total,
            total == symbols@.len(),
            lists_table(sorted@, frequencies(image.pixels())),
            palette@.len() == j,
            forall|k: int|
                0 <= k < j ==> #[trigger] palette@[k] == (PixelWithSymbol {
                    pixel: Rgb::spec_from_code(sorted@[n - 1 - k].0 as nat),
                    symbol: symbols@[unused + k],
                }),
        decreases n - j,
    {
        let entry = sorted[n - 1 - j];
        assert(frequencies(image.pixels()).contains_key(entry.0));
        palette.push(PixelWithSymbol::new(Rgb::from_code(entry.0), symbols[unused + j]));
        j += 1;
    }
    proof {
        lemma_selection_is_palette(image.pixels(), symbols@, sorted@, palette@);
        lemma_working_palette_unique(
            image.pixels(),
            symbols@,
            palette@,
            working_palette(image.pixels(), symbols@),
        );
    }
    Ok(palette)
}

} // verus!
