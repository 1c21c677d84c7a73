//! Drawing an image with the symbols of its working palette.

use crate::assign::get_most_used_colours_with_symbols;
use crate::color::Rgb;
use crate::drawing::{concat, texts_of, RenderCell, SymbolizeResult};
use crate::error::SymbolizeError;
use crate::grid::{pixels_of, PixelGrid};
use crate::palette::{lemma_working_palette_exists, working_palette, PixelWithSymbol};
use crate::resolve::{lemma_nearest_exists, nearest, nearest_index};
use crate::scale::{resize, resize_fits, resized_nearest, resizes_to, FilterType, Scale};
use crate::style::{shows_in_color, styled_text};
use vstd::prelude::*;

verus! {

/// The cell that entry `i` of the palette is drawn as. The first `styled`
/// entries are drawn in their colour, the others without colour.
pub open spec fn entry_cell(palette: Seq<PixelWithSymbol>, styled: nat, i: int) -> RenderCell {
    RenderCell {
        symbol: palette[i].symbol,
        color: if 0 <= i < styled {
            Some(palette[i].pixel)
        } else {
            None
        },
    }
}

/// The text that shows entry `i` of the palette: the one given for it, or,
/// where none is given, its symbol.
pub open spec fn entry_text(palette: Seq<PixelWithSymbol>, texts: Seq<Seq<char>>, i: int) -> Seq<
    char,
> {
    if 0 <= i < texts.len() {
        texts[i]
    } else {
        seq![palette[i].symbol]
    }
}

/// The palette entry that the cell at place `k` of row `y` is drawn with:
/// the one nearest to the pixel that the cell belongs to. Each pixel has two
/// cells, side by side.
pub open spec fn entry_at(
    pixels: Seq<Rgb>,
    width: nat,
    y: int,
    k: int,
    palette: Seq<PixelWithSymbol>,
) -> int {
    nearest(palette, pixels[y * width + k / 2])
}

/// The cells of the drawing of an image of `width` by `height` pixels, row
/// by row from the top, each row from the left.
pub open spec fn cell_grid(
    pixels: Seq<Rgb>,
    width: nat,
    height: nat,
    palette: Seq<PixelWithSymbol>,
    styled: nat,
) -> Seq<Seq<RenderCell>> {
    Seq::new(
        height,
        |y: int|
            Seq::new(
                2 * width,
                |k: int| entry_cell(palette, styled, entry_at(pixels, width, y, k, palette)),
            ),
    )
}

/// The texts that show the cells of the drawing, in the cells' order.
pub open spec fn text_grid(
    pixels: Seq<Rgb>,
    width: nat,
    height: nat,
    palette: Seq<PixelWithSymbol>,
    texts: Seq<Seq<char>>,
) -> Seq<Seq<Seq<char>>> {
    Seq::new(
        height,
        |y: int|
            Seq::new(
                2 * width,
                |k: int| entry_text(palette, texts, entry_at(pixels, width, y, k, palette)),
            ),
    )
}

/// `char::to_string`: the string that holds the one character.
#[verifier::external_body]
fn symbol_text(symbol: char) -> (text: String)
    ensures
        text@ == seq![symbol],
{
    symbol.to_string()
}

/// Draws the image with the palette: each pixel becomes two cells, both
/// of the palette entry nearest to it.
///
/// `texts` holds the styled texts of the entries that are drawn in colour:
/// they are the first entries of the palette, in its order. The other
/// entries are drawn without colour, and the text of such a cell is the
/// symbol. An image with pixels cannot be drawn with a palette without
/// entries.
pub fn render(image: &PixelGrid, palette: &[PixelWithSymbol], texts: &[String]) -> (result: Result<
    SymbolizeResult,
    SymbolizeError,
>)
    ensures
        image.pixels().len() > 0 && palette@.len() == 0 ==> (result matches Err(e) && e
            == SymbolizeError::NoMatch),
        image.pixels().len() == 0 || palette@.len() > 0 ==> (result matches Ok(drawing) && {
            &&& drawing.cells() == cell_grid(
                image.pixels(),
                image.spec_width(),
                image.spec_height(),
                palette@,
                texts@.len(),
            )
            &&& drawing.cell_texts() == text_grid(
                image.pixels(),
                image.spec_width(),
                image.spec_height(),
                palette@,
                texts_of(texts@),
            )
        }),
{
    let width = image.width();
    let height = image.height();
    let count = image.len();
    if count > 0 && palette.len() == 0 {
        return Err(SymbolizeError::NoMatch);
    }
    let ghost pixels = image.pixels();
    let ghost given = texts_of(texts@);
    let ghost styled = texts@.len();
    let mut cell_rows: Vec<Vec<RenderCell>> = Vec::new();
    let mut text_rows: Vec<Vec<String>> = Vec::new();
    let mut at: usize = 0;
    let mut y: u32 = 0;
    while y < height
        invariant
            y <= height,
            width == image.spec_width(),
            height == image.spec_height(),
            pixels == image.pixels(),
            given == texts_of(texts@),
            styled == texts@.len(),
            count == pixels.len(),
            count == width * height,
            count == 0 || palette@.len() > 0,
            at == y * width,
            cell_rows@.len() == y,
            text_rows@.len() == y,
            forall|i: int|
                0 <= i < y ==> (#[trigger] cell_rows@[i])@ == cell_grid(
                    pixels,
                    width as nat,
                    height as nat,
                    palette@,
                    styled,
                )[i],
            forall|i: int|
                0 <= i < y ==> texts_of((#[trigger] text_rows@[i])@) == text_grid(
                    pixels,
                    width as nat,
                    height as nat,
                    palette@,
                    given,
                )[i],
        decreases height - y,
    {
        assert((y + 1) * width <= height * width) by (nonlinear_arith)
            requires
                y < height,
        ;
        assert((y + 1) * width == y * width + width) by (nonlinear_arith);
        let ghost cells_wanted = cell_grid(pixels, width as nat, height as nat, palette@, styled)[y as int];
        let ghost texts_wanted = text_grid(pixels, width as nat, height as nat, palette@, given)[y as int];
        let mut cell_row: Vec<RenderCell> = Vec::new();
        let mut text_row: Vec<String> = Vec::new();
        let mut x: u32 = 0;
        while x < width
            invariant
                x <= width,
                y < height,
                width == image.spec_width(),
                pixels == image.pixels(),
                given == texts_of(texts@),
                styled == texts@.len(),
                count == pixels.len(),
                count == 0 || palette@.len() > 0,
                at == y * width + x,
                y * width + width <= count,
                cells_wanted == cell_grid(pixels, width as nat, height as nat, palette@, styled)[y as int],
                texts_wanted == text_grid(pixels, width as nat, height as nat, palette@, given)[y as int],
                cell_row@.len() == 2 * x,
                text_row@.len() == 2 * x,
                forall|k: int| 0 <= k < 2 * x ==> #[trigger] cell_row@[k] == cells_wanted[k],
                forall|k: int| 0 <= k < 2 * x ==> (#[trigger] text_row@[k])@ == texts_wanted[k],
            decreases width - x,
        {
            let pixel = image.pixel_at(at);
            let entry = nearest_index(palette, &pixel).unwrap();
            proof {
                assert((2 * x) / 2 == x && (2 * x + 1) / 2 == x);
                assert(entry_at(pixels, width as nat, y as int, 2 * x, palette@) == entry);
                assert(entry_at(pixels, width as nat, y as int, 2 * x + 1, palette@) == entry);
            }
            let symbol = palette[entry].symbol;
            let (cell, text) = if entry < texts.len() {
                (RenderCell { symbol, color: Some(palette[entry].pixel) }, texts[entry].clone())
            } else {
                (RenderCell { symbol, color: None }, symbol_text(symbol))
            };
            assert(cell == entry_cell(palette@, styled, entry as int));
            assert(text@ == entry_text(palette@, given, entry as int));
            cell_row.push(cell);
            cell_row.push(cell);
            text_row.push(text.clone());
            text_row.push(text);
            x += 1;
            at += 1;
        }
        assert(cell_row@ =~= cells_wanted);
        assert(texts_of(text_row@) =~= texts_wanted);
        cell_rows.push(cell_row);
        text_rows.push(text_row);
        y += 1;
    }
    let drawing = SymbolizeResult::from_parts(cell_rows, text_rows);
    assert(drawing.cells() =~= cell_grid(pixels, width as nat, height as nat, palette@, styled));
    assert(drawing.cell_texts() =~= text_grid(
        pixels,
        width as nat,
        height as nat,
        palette@,
        given,
    ));
    Ok(drawing)
}

/// Whether each of the texts can be the text of the palette entry at its
/// place, in the entry's colour.
pub open spec fn styles(styled: Seq<Seq<char>>, palette: Seq<PixelWithSymbol>) -> bool {
    forall|i: int|
        0 <= i < styled.len() && i < palette.len() ==> shows_in_color(
            #[trigger] styled[i],
            palette[i].symbol,
            palette[i].pixel,
        )
}

/// Whether `cells`, shown by `texts`, is the drawing of the image with the
/// pixels `pixels`, of `width` by `height`, under the symbols `symbols`.
///
/// The image is drawn with its working palette: each pixel as two cells of
/// the entry nearest to it. In colour each cell has its entry's colour, and
/// each entry has one text, which is the text of all its cells: the symbol
/// between the escape sequences for the colour, or, where the terminal
/// library writes nothing, nothing. Without colour no cell has a colour,
/// and the text of a cell is its symbol.
pub open spec fn draws(
    cells: Seq<Seq<RenderCell>>,
    texts: Seq<Seq<Seq<char>>>,
    pixels: Seq<Rgb>,
    width: nat,
    height: nat,
    symbols: Seq<char>,
    colorize: bool,
) -> bool {
    let palette = working_palette(pixels, symbols);
    if colorize {
        &&& cells == cell_grid(pixels, width, height, palette, palette.len())
        &&& exists|styled: Seq<Seq<char>>|
            {
                &&& styled.len() == palette.len()
                &&& styles(styled, palette)
                &&& texts == #[trigger] text_grid(pixels, width, height, palette, styled)
            }
    } else {
        &&& cells == cell_grid(pixels, width, height, palette, 0)
        &&& texts == text_grid(pixels, width, height, palette, Seq::empty())
    }
}

/// Texts of one character each are together as long as they are many.
pub proof fn lemma_concat_of_symbols(parts: Seq<Seq<char>>)
    requires
        forall|i: int| 0 <= i < parts.len() ==> (#[trigger] parts[i]).len() == 1,
    ensures
        concat(parts).len() == parts.len(),
    decreases parts.len(),
{
    if parts.len() > 0 {
        lemma_concat_of_symbols(parts.drop_last());
    }
}

/// A drawing keeps the shape of the image: it has a row for each row of the
/// image, and each row has two cells for each pixel, each with its text.
/// Without colour the text of a cell is one symbol, so a row of text is
/// twice as long as the image is wide.
pub proof fn lemma_drawing_keeps_shape(
    cells: Seq<Seq<RenderCell>>,
    texts: Seq<Seq<Seq<char>>>,
    pixels: Seq<Rgb>,
    width: nat,
    height: nat,
    symbols: Seq<char>,
    colorize: bool,
)
    requires
        draws(cells, texts, pixels, width, height, symbols, colorize),
    ensures
        cells.len() == height,
        texts.len() == height,
        forall|y: int| 0 <= y < height ==> (#[trigger] cells[y]).len() == 2 * width,
        forall|y: int| 0 <= y < height ==> (#[trigger] texts[y]).len() == 2 * width,
        !colorize ==> forall|y: int| 0 <= y < height ==> concat(#[trigger] texts[y]).len() == 2 * width,
{
    if !colorize {
        assert forall|y: int| 0 <= y < height implies concat(#[trigger] texts[y]).len() == 2
            * width by {
            let palette = working_palette(pixels, symbols);
            let row = text_grid(pixels, width, height, palette, Seq::empty())[y];
            assert(texts[y] == row);
            assert forall|k: int| 0 <= k < row.len() implies (#[trigger] row[k]).len() == 1 by {
                let entry = entry_at(pixels, width, y, k, palette);
                assert(row[k] == seq![palette[entry].symbol]);
                assert(seq![palette[entry].symbol].len() == 1);
            }
            lemma_concat_of_symbols(row);
        }
    }
}

/// The same image under the same symbols has one drawing only: the cells
/// are the same, with or without colour, and without colour the texts are
/// the same too.
pub proof fn lemma_drawing_unique(
    first_cells: Seq<Seq<RenderCell>>,
    first_texts: Seq<Seq<Seq<char>>>,
    second_cells: Seq<Seq<RenderCell>>,
    second_texts: Seq<Seq<Seq<char>>>,
    pixels: Seq<Rgb>,
    width: nat,
    height: nat,
    symbols: Seq<char>,
    colorize: bool,
)
    requires
        draws(first_cells, first_texts, pixels, width, height, symbols, colorize),
        draws(second_cells, second_texts, pixels, width, height, symbols, colorize),
    ensures
        first_cells == second_cells,
        !colorize ==> first_texts == second_texts,
{
}

/// Whether the drawing has the shape of an image of `width` by `height`
/// pixels: a row for each row of pixels and two cells for each pixel.
/// Without colour a row of text is twice as long as the image is wide. In
/// colour each cell has a colour, and its text is its symbol between the
/// escape sequences for that colour, or nothing.
pub open spec fn has_shape(drawing: SymbolizeResult, width: nat, height: nat, colorize: bool) -> bool {
    &&& drawing.cells().len() == height
    &&& drawing.rows().len() == height
    &&& forall|y: int| 0 <= y < height ==> (#[trigger] drawing.cells()[y]).len() == 2 * width
    &&& !colorize ==> forall|y: int| 0 <= y < height ==> (#[trigger] drawing.rows()[y]).len() == 2 * width
    &&& colorize ==> shown_in_color(drawing.cells(), drawing.cell_texts(), width, height)
}

/// Whether each cell has a colour and a text that shows its symbol in that
/// colour, or no text.
pub open spec fn shown_in_color(
    cells: Seq<Seq<RenderCell>>,
    texts: Seq<Seq<Seq<char>>>,
    width: nat,
    height: nat,
) -> bool {
    forall|y: int, k: int|
        0 <= y < height && 0 <= k < 2 * width ==> {
            let cell = #[trigger] cells[y][k];
            cell.color matches Some(color) && shows_in_color(texts[y][k], cell.symbol, color)
        }
}

/// In a drawing in colour each cell has the colour of its palette entry, and
/// its text is its symbol between the escape sequences for that colour, or
/// nothing.
pub proof fn lemma_drawing_in_color(
    cells: Seq<Seq<RenderCell>>,
    texts: Seq<Seq<Seq<char>>>,
    pixels: Seq<Rgb>,
    width: nat,
    height: nat,
    symbols: Seq<char>,
)
    requires
        draws(cells, texts, pixels, width, height, symbols, true),
        pixels.len() == width * height,
        symbols.len() > 0,
    ensures
        shown_in_color(cells, texts, width, height),
{
    let palette = working_palette(pixels, symbols);
    let styled = choose|styled: Seq<Seq<char>>|
        {
            &&& styled.len() == palette.len()
            &&& styles(styled, palette)
            &&& texts == #[trigger] text_grid(pixels, width, height, palette, styled)
        };
    assert forall|y: int, k: int| 0 <= y < height && 0 <= k < 2 * width implies {
        let cell = #[trigger] cells[y][k];
        cell.color matches Some(color) && shows_in_color(texts[y][k], cell.symbol, color)
    } by {
        assert(0 <= y * width + k / 2 < width * height) by (nonlinear_arith)
            requires
                0 <= y < height,
                0 <= k < 2 * width,
        ;
        let pixel = pixels[y * width + k / 2];
        assert(pixels.contains(pixel));
        lemma_working_palette_exists(pixels, symbols);
        lemma_nearest_exists(palette, pixel);
        let entry = entry_at(pixels, width, y, k, palette);
        assert(0 <= entry < palette.len());
        assert(cells[y][k] == entry_cell(palette, palette.len(), entry));
        assert(texts[y][k] == entry_text(palette, styled, entry));
        assert(shows_in_color(styled[entry], palette[entry].symbol, palette[entry].pixel));
    }
}

/// Draws an image that has the size of the drawing: finds its working
/// palette and draws each pixel with the nearest entry, with or without
/// colour.
pub fn symbolize_scaled(scaled_image: &PixelGrid, palette: &[char], colorize: bool) -> (result:
    Result<SymbolizeResult, SymbolizeError>)
    ensures
        palette@.len() == 0 ==> (result matches Err(e) && e == SymbolizeError::EmptyPalette),
        palette@.len() > 0 ==> (result matches Ok(drawing) && {
            &&& draws(
                drawing.cells(),
                drawing.cell_texts(),
                scaled_image.pixels(),
                scaled_image.spec_width(),
                scaled_image.spec_height(),
                palette@,
                colorize,
            )
            &&& has_shape(drawing, scaled_image.spec_width(), scaled_image.spec_height(), colorize)
        }),
{
    let colors_to_use = match get_most_used_colours_with_symbols(scaled_image, palette) {
        Ok(colors) => colors,
        Err(e) => {
            return Err(e);
        },
    };
    let mut texts: Vec<String> = Vec::new();
    if colorize {
        let mut i: usize = 0;
        while i < colors_to_use.len()
            invariant
                i <= colors_to_use@.len(),
                texts@.len() == i,
                styles(texts_of(texts@), colors_to_use@),
            decreases colors_to_use@.len() - i,
        {
            let ghost before = texts_of(texts@);
            let text = styled_text(colors_to_use[i].symbol, colors_to_use[i].pixel);
            texts.push(text);
            proof {
                let after = texts_of(texts@);
                assert forall|j: int| 0 <= j < after.len() && j < colors_to_use@.len() implies shows_in_color(
                    #[trigger] after[j],
                    colors_to_use@[j].symbol,
                    colors_to_use@[j].pixel,
                ) by {
                    if j < i {
                        assert(after[j] == before[j]);
                    }
                }
            }
            i += 1;
        }
    }
    proof {
        let n = scaled_image.pixels().len();
        if n > 0 {
            assert(scaled_image.pixels().contains(scaled_image.pixels()[0]));
        }
        assert(texts_of(texts@).len() == texts@.len());
        if !colorize {
            assert(texts_of(texts@) =~= Seq::<Seq<char>>::empty());
        }
    }
    let count = scaled_image.len();
    let result = render(scaled_image, colors_to_use.as_slice(), texts.as_slice());
    proof {
        if result is Ok {
            let drawing = result->Ok_0;
            lemma_drawing_keeps_shape(
                drawing.cells(),
                drawing.cell_texts(),
                scaled_image.pixels(),
                scaled_image.spec_width(),
                scaled_image.spec_height(),
                palette@,
                colorize,
            );
            if colorize {
                lemma_drawing_in_color(
                    drawing.cells(),
                    drawing.cell_texts(),
                    scaled_image.pixels(),
                    scaled_image.spec_width(),
                    scaled_image.spec_height(),
                    palette@,
                );
            }
        }
    }
    result
}

/// Turns a bitmap image into text art.
///
/// The image is brought to the size that the scale asks for, reduced to its
/// most used colours, one for each symbol of the palette at most, and drawn
/// pixel by pixel with the symbol of the nearest of them, each symbol twice.
/// An empty palette is refused, then a negative scale, both before anything
/// is done to the image.
///
/// The drawing is the drawing of the scaled image. That is the image itself
/// where it keeps its size, and what the filter makes of it where the filter
/// is `Nearest`; with another filter the size is all that is known of it.
/// The size asked for must be one that the image can be brought to with the
/// filter, see [`resize_fits`]; [`crate::scale::can_resize`] tells.
pub fn symbolize(
    original_image: &PixelGrid,
    scale: Scale,
    palette: &[char],
    filter_type: FilterType,
    colorize: bool,
) -> (result: Result<SymbolizeResult, SymbolizeError>)
    requires
        palette@.len() > 0 ==> (scale matches Scale::To { width, height } ==> resize_fits(
            original_image.spec_width(),
            original_image.spec_height(),
            width as nat,
            height as nat,
            filter_type,
        )),
    ensures
        palette@.len() == 0 ==> (result matches Err(e) && e == SymbolizeError::EmptyPalette),
        palette@.len() > 0 && scale is Negative ==> (result matches Err(e) && e
            == SymbolizeError::NegativeScale),
        palette@.len() > 0 ==> (scale matches Scale::To { width, height } ==> (result matches Ok(
            drawing,
        ) && {
            &&& has_shape(drawing, width as nat, height as nat, colorize)
            &&& exists|scaled: Seq<u8>|
                {
                    &&& #[trigger] resizes_to(
                        original_image.raw(),
                        original_image.spec_width(),
                        original_image.spec_height(),
                        filter_type,
                        scaled,
                        width as nat,
                        height as nat,
                    )
                    &&& draws(
                        drawing.cells(),
                        drawing.cell_texts(),
                        pixels_of(scaled),
                        width as nat,
                        height as nat,
                        palette@,
                        colorize,
                    )
                }
            &&& width == original_image.spec_width() && height == original_image.spec_height()
                ==> draws(
                drawing.cells(),
                drawing.cell_texts(),
                original_image.pixels(),
                width as nat,
                height as nat,
                palette@,
                colorize,
            )
            &&& filter_type is Nearest ==> draws(
                drawing.cells(),
                drawing.cell_texts(),
                pixels_of(
                    resized_nearest(
                        original_image.raw(),
                        original_image.spec_width(),
                        original_image.spec_height(),
                        width as nat,
                        height as nat,
                    ),
                ),
                width as nat,
                height as nat,
                palette@,
                colorize,
            )
        })),
{
    if palette.len() == 0 {
        return Err(SymbolizeError::EmptyPalette);
    }
    match scale {
        Scale::Negative => Err(SymbolizeError::NegativeScale),
        Scale::To { width, height } => {
            let scaled_image = resize(original_image, width, height, filter_type);
            symbolize_scaled(&scaled_image, palette, colorize)
        },
    }
}

} // verus!
