use symbolize::frequency::count_colors;
use symbolize::resolve::nearest_index;
use symbolize::{
    get_most_used_colours_with_symbols, get_pixel_comparison, get_symbol_by_pixel, PixelGrid,
    PixelWithSymbol, Rgb, SymbolizeError,
};

const BLACK: Rgb = Rgb { r: 0, g: 0, b: 0 };
const WHITE: Rgb = Rgb { r: 255, g: 255, b: 255 };
const A: Rgb = Rgb { r: 10, g: 200, b: 30 };
const B: Rgb = Rgb { r: 1, g: 2, b: 3 };
const C: Rgb = Rgb { r: 90, g: 90, b: 90 };

fn image_of(width: u32, height: u32, pixels: &[Rgb]) -> PixelGrid {
    let mut data = Vec::new();
    for p in pixels {
        data.push(p.r);
        data.push(p.g);
        data.push(p.b);
    }
    PixelGrid::from_raw(width, height, data).unwrap()
}

fn entry(pixel: Rgb, symbol: char) -> PixelWithSymbol {
    PixelWithSymbol::new(pixel, symbol)
}

#[test]
fn colour_codes() {
    assert_eq!(BLACK.code(), 0);
    assert_eq!(WHITE.code(), 0xFF_FFFF);
    assert_eq!(Rgb::new(1, 2, 3).code(), 0x01_0203);
    assert_eq!(Rgb::from_code(0x01_0203), B);
    assert_eq!(Rgb::from_code(A.code()), A);
    assert_eq!(Rgb::from_code(0xAB01_0203), B);
    assert_eq!(Rgb::from_code(u32::MAX), WHITE);
}

#[test]
fn distance_is_the_sum_of_channel_differences() {
    assert_eq!(get_pixel_comparison(&Rgb::new(10, 10, 10), &BLACK), 30);
    assert_eq!(get_pixel_comparison(&Rgb::new(10, 10, 10), &WHITE), 735);
    assert_eq!(get_pixel_comparison(&BLACK, &WHITE), 765);
    assert_eq!(get_pixel_comparison(&WHITE, &BLACK), 765);
    assert_eq!(get_pixel_comparison(&A, &A), 0);
    assert_eq!(get_pixel_comparison(&Rgb::new(0, 255, 7), &Rgb::new(255, 0, 9)), 512);
}

#[test]
fn grid_needs_three_values_for_each_pixel() {
    assert!(PixelGrid::from_raw(2, 1, vec![0; 6]).is_some());
    assert!(PixelGrid::from_raw(2, 1, vec![0; 5]).is_none());
    assert!(PixelGrid::from_raw(2, 1, vec![0; 7]).is_none());
    assert!(PixelGrid::from_raw(0, 5, vec![]).is_some());
    assert!(PixelGrid::from_raw(u32::MAX, u32::MAX, vec![]).is_none());
    let image = PixelGrid::from_raw(2, 1, vec![1, 2, 3, 4, 5, 6]).unwrap();
    assert_eq!((image.width(), image.height(), image.len()), (2, 1, 2));
    assert_eq!(image.pixel_at(0), Rgb::new(1, 2, 3));
    assert_eq!(image.pixel_at(1), Rgb::new(4, 5, 6));
}

#[test]
fn counts_every_pixel_once() {
    let image = image_of(3, 2, &[A, B, A, A, C, B]);
    let counts = count_colors(&image);
    assert_eq!(counts.len(), 3);
    assert_eq!(counts.get(&A.code()), Some(&3));
    assert_eq!(counts.get(&B.code()), Some(&2));
    assert_eq!(counts.get(&C.code()), Some(&1));
    assert!(count_colors(&image_of(0, 0, &[])).is_empty());
}

#[test]
fn more_used_colour_takes_the_later_symbol() {
    let image = image_of(5, 1, &[B, A, A, B, A]);
    let palette = get_most_used_colours_with_symbols(&image, &['0', '1']).unwrap();
    assert_eq!(palette, vec![entry(B, '0'), entry(A, '1')]);
}

#[test]
fn palette_is_in_ascending_order_of_use() {
    let image = image_of(6, 1, &[A, B, A, A, C, B]);
    let palette = get_most_used_colours_with_symbols(&image, &['x', 'y', 'z']).unwrap();
    assert_eq!(palette, vec![entry(C, 'x'), entry(B, 'y'), entry(A, 'z')]);
}

#[test]
fn palette_keeps_the_most_used_colours() {
    let image = image_of(6, 1, &[A, B, A, A, C, B]);
    let palette = get_most_used_colours_with_symbols(&image, &['x', 'y']).unwrap();
    assert_eq!(palette, vec![entry(B, 'x'), entry(A, 'y')]);
    let palette = get_most_used_colours_with_symbols(&image, &['x']).unwrap();
    assert_eq!(palette, vec![entry(A, 'x')]);
}

#[test]
fn palette_leaves_the_first_symbols_unused() {
    let image = image_of(3, 1, &[A, B, A]);
    let palette = get_most_used_colours_with_symbols(&image, &['1', '2', '3', '4', '5']).unwrap();
    assert_eq!(palette, vec![entry(B, '4'), entry(A, '5')]);
}

#[test]
fn equally_used_colours_rank_by_code() {
    // of colours used equally often, the one with the lower code counts as
    // the more used and comes later
    let image = image_of(4, 1, &[WHITE, BLACK, C, B]);
    let palette = get_most_used_colours_with_symbols(&image, &['a', 'b', 'c', 'd']).unwrap();
    assert_eq!(
        palette,
        vec![entry(WHITE, 'a'), entry(C, 'b'), entry(B, 'c'), entry(BLACK, 'd')]
    );
    let reversed = image_of(4, 1, &[B, C, BLACK, WHITE]);
    assert_eq!(
        get_most_used_colours_with_symbols(&reversed, &['a', 'b', 'c', 'd']).unwrap(),
        palette
    );
}

#[test]
fn repeated_symbols_repeat_in_the_palette() {
    let image = image_of(3, 1, &[A, B, A]);
    let palette = get_most_used_colours_with_symbols(&image, &['#', '#']).unwrap();
    assert_eq!(palette, vec![entry(B, '#'), entry(A, '#')]);
}

#[test]
fn palette_of_an_image_without_pixels_is_empty() {
    let image = image_of(0, 0, &[]);
    let palette = get_most_used_colours_with_symbols(&image, &['x']).unwrap();
    assert!(palette.is_empty());
}

#[test]
fn palette_needs_a_symbol() {
    let image = image_of(1, 1, &[A]);
    assert_eq!(
        get_most_used_colours_with_symbols(&image, &[]),
        Err(SymbolizeError::EmptyPalette)
    );
}

#[test]
fn many_colours_few_symbols() {
    let mut pixels = Vec::new();
    for i in 0..200u32 {
        let shade = Rgb::new((i % 50) as u8, 0, 0);
        pixels.push(shade);
        if i % 50 >= 47 {
            pixels.push(shade);
        }
    }
    let image = image_of(pixels.len() as u32, 1, &pixels);
    let palette = get_most_used_colours_with_symbols(&image, &['a', 'b', 'c']).unwrap();
    assert_eq!(
        palette,
        vec![
            entry(Rgb::new(49, 0, 0), 'a'),
            entry(Rgb::new(48, 0, 0), 'b'),
            entry(Rgb::new(47, 0, 0), 'c'),
        ]
    );
}

#[test]
fn nearest_match() {
    let palette = [entry(BLACK, '@'), entry(WHITE, ' ')];
    assert_eq!(
        get_symbol_by_pixel(&palette, &Rgb::new(10, 10, 10)),
        Ok(('@', BLACK))
    );
    assert_eq!(
        get_symbol_by_pixel(&palette, &Rgb::new(200, 200, 200)),
        Ok((' ', WHITE))
    );
    assert_eq!(nearest_index(&palette, &Rgb::new(10, 10, 10)), Some(0));
    assert_eq!(nearest_index(&palette, &Rgb::new(128, 128, 128)), Some(1));
}

#[test]
fn first_of_equally_near_entries_wins() {
    let palette = [
        entry(Rgb::new(100, 0, 0), 'a'),
        entry(Rgb::new(0, 100, 0), 'b'),
        entry(Rgb::new(0, 0, 100), 'c'),
    ];
    assert_eq!(get_symbol_by_pixel(&palette, &BLACK), Ok(('a', Rgb::new(100, 0, 0))));
    assert_eq!(
        get_symbol_by_pixel(&palette, &Rgb::new(0, 50, 50)),
        Ok(('b', Rgb::new(0, 100, 0)))
    );
    // 127 is nearer to black by one, 128 to white by one
    let ends = [entry(WHITE, 'w'), entry(BLACK, 'b')];
    assert_eq!(nearest_index(&ends, &Rgb::new(127, 127, 127)), Some(1));
    assert_eq!(nearest_index(&ends, &Rgb::new(128, 128, 128)), Some(0));
    let twins = [entry(C, '1'), entry(C, '2')];
    assert_eq!(get_symbol_by_pixel(&twins, &A), Ok(('1', C)));
}

#[test]
fn empty_palette_has_no_match() {
    assert_eq!(get_symbol_by_pixel(&[], &BLACK), Err(SymbolizeError::NoMatch));
    assert_eq!(nearest_index(&[], &BLACK), None);
}
