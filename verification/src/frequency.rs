//! How often each colour occurs in an image.

use crate::color::Rgb;
use crate::grid::PixelGrid;
use std::collections::HashMap;
use vstd::prelude::*;

verus! {

broadcast use vstd::std_specs::hash::group_hash_axioms;

/// How many of `pixels` have the colour `color`.
pub open spec fn occurrences(pixels: Seq<Rgb>, color: Rgb) -> nat
    decreases pixels.len(),
{
    if pixels.len() == 0 {
        0
    } else {
        occurrences(pixels.drop_last(), color) + if pixels.last() == color {
            1nat
        } else {
            0nat
        }
    }
}

/// A colour occurs at most as often as there are pixels, and at least once
/// exactly if some pixel has it.
pub proof fn lemma_occurrences(pixels: Seq<Rgb>, color: Rgb)
    ensures
        occurrences(pixels, color) <= pixels.len(),
        occurrences(pixels, color) > 0 <==> pixels.contains(color),
    decreases pixels.len(),
{
    if pixels.len() > 0 {
        let front = pixels.drop_last();
        lemma_occurrences(front, color);
        if front.contains(color) {
            let i = choose|i: int| 0 <= i < front.len() && front[i] == color;
            assert(pixels[i] == color);
        }
        if pixels.contains(color) && pixels.last() != color {
            let i = choose|i: int| 0 <= i < pixels.len() && pixels[i] == color;
            assert(front[i] == color);
        }
    }
}

/// The count of every colour that occurs in `pixels`, under the colour's
/// number; a colour that does not occur has no entry.
pub open spec fn frequencies(pixels: Seq<Rgb>) -> Map<u32, usize> {
    Map::new(
        |code: u32| code < 0x100_0000 && occurrences(pixels, Rgb::spec_from_code(code as nat)) > 0,
        |code: u32| occurrences(pixels, Rgb::spec_from_code(code as nat)) as usize,
    )
}

/// Counts the pixels of each colour. Every count is exact: none is too
/// large for its type.
pub fn count_colors(image: &PixelGrid) -> (counts: HashMap<u32, usize>)
    ensures
        counts@ == frequencies(image.pixels()),
        forall|color: Rgb| #[trigger] occurrences(image.pixels(), color) <= usize::MAX,
{
    let n = image.len();
    let mut counts: HashMap<u32, usize> = HashMap::new();
    let mut i: usize = 0;
    assert(counts@ =~= frequencies(image.pixels().take(0)));
    while i < n
        invariant
            i <= n,
            n == image.pixels().len(),
            counts@ == frequencies(image.pixels().take(i as int)),
        decreases n - i,
    {
        let color = image.pixel_at(i);
        let code = color.code();
        let ghost seen = image.pixels().take(i as int);
        let ghost next = image.pixels().take(i + 1);
        proof {
            color.code_round_trip();
            lemma_occurrences(seen, color);
            assert(next.drop_last() =~= seen);
            assert(next.last() == color);
        }
        let so_far: usize = match counts.get(&code) {
            Some(count) => *count,
            None => 0,
        };
        assert(so_far == occurrences(seen, color));
        counts.insert(code, so_far + 1);
        proof {
            assert forall|k: u32| k < 0x100_0000 implies occurrences(
                next,
                #[trigger] Rgb::spec_from_code(k as nat),
            ) == occurrences(seen, Rgb::spec_from_code(k as nat)) + if k == code {
                1nat
            } else {
                0nat
            } by {
                Rgb::code_injective(Rgb::spec_from_code(k as nat), color);
                assert(Rgb::spec_from_code(k as nat).spec_code() == k);
            }
            assert(counts@ =~= frequencies(next));
        }
        i += 1;
    }
    assert(image.pixels().take(n as int) =~= image.pixels());
    assert forall|color: Rgb| #[trigger] occurrences(image.pixels(), color) <= usize::MAX by {
        lemma_occurrences(image.pixels(), color);
    }
    counts
}

} // verus!
