use symbolize::render::render;
use symbolize::scale::{can_resize, resize, MAX_SAMPLED_SIDE};
use symbolize::{
    symbolize, symbolize_scaled, FilterType, PixelGrid, PixelWithSymbol, RenderCell, Rgb, Scale,
    SymbolizeError, SymbolizeResult,
};

const BLACK: Rgb = Rgb { r: 0, g: 0, b: 0 };
const WHITE: Rgb = Rgb { r: 255, g: 255, b: 255 };
const RED: Rgb = Rgb { r: 200, g: 10, b: 10 };

fn grid(width: u32, height: u32, pixels: &[Rgb]) -> PixelGrid {
    let mut data = Vec::new();
    for p in pixels {
        data.push(p.r);
        data.push(p.g);
        data.push(p.b);
    }
    PixelGrid::from_raw(width, height, data).unwrap()
}

/// What a scale factor asks of an image, computed as a caller would.
fn scale_of(image: &PixelGrid, factor: f32) -> Scale {
    if factor < 0.0 {
        Scale::Negative
    } else {
        Scale::To {
            width: (image.width() as f32 * factor) as u32,
            height: (image.height() as f32 * factor) as u32,
        }
    }
}

fn stand_in_image() -> PixelGrid {
    let mut pixels = Vec::new();
    for i in 0..100u32 {
        pixels.push(if i % 3 == 0 { BLACK } else { WHITE });
    }
    grid(100, 1, &pixels)
}

fn rows_of(result: SymbolizeResult) -> Vec<String> {
    result.into()
}

#[test]
fn returns_error_if_no_palette_passed() {
    let image = stand_in_image();
    let scale = scale_of(&image, 0.03);
    let result = symbolize(&image, scale, &vec![], FilterType::Nearest, false);

    assert!(result.is_err());
    assert_eq!(
        result.err().unwrap().message(),
        "pallete should contain at leasst one symbol, aborting"
    );
}

#[test]
fn returns_error_if_scale_less_than_zero() {
    let image = stand_in_image();
    let scale = scale_of(&image, -0.03);
    let result = symbolize(&image, scale, &vec![' '], FilterType::Nearest, false);

    assert!(result.is_err());
    assert_eq!(
        result.err().unwrap().message(),
        "scale should be > 0, aborting"
    );
}

#[test]
fn empty_palette_is_refused_before_the_scale() {
    let image = stand_in_image();
    let result = symbolize(&image, Scale::Negative, &[], FilterType::Nearest, false);
    assert_eq!(result.err(), Some(SymbolizeError::EmptyPalette));
}

#[test]
fn negative_scale_is_refused() {
    let image = stand_in_image();
    let result = symbolize(&image, Scale::Negative, &['a', 'b'], FilterType::Lanczos3, true);
    assert_eq!(result.err(), Some(SymbolizeError::NegativeScale));
}

#[test]
fn two_pixels_end_to_end() {
    let image = grid(2, 1, &[BLACK, WHITE]);
    let scale = scale_of(&image, 1.0);
    assert_eq!(scale, Scale::To { width: 2, height: 1 });
    let result = symbolize(&image, scale, &[' ', '@'], FilterType::Nearest, false).unwrap();
    assert_eq!(rows_of(result), vec!["@@  ".to_string()]);
}

#[test]
fn skewed_frequencies_end_to_end() {
    let image = grid(3, 2, &[WHITE, WHITE, BLACK, WHITE, BLACK, WHITE]);
    let result = symbolize(
        &image,
        Scale::To { width: 3, height: 2 },
        &['.', '#'],
        FilterType::Nearest,
        false,
    )
    .unwrap();
    assert_eq!(rows_of(result), vec!["####..".to_string(), "##..##".to_string()]);
}

#[test]
fn same_input_gives_same_output() {
    let image = grid(3, 2, &[WHITE, RED, BLACK, WHITE, BLACK, WHITE]);
    let scale = Scale::To { width: 3, height: 2 };
    for colorize in [false, true] {
        let first: Vec<u8> = symbolize(&image, scale, &['.', 'o', '#'], FilterType::Nearest, colorize)
            .unwrap()
            .into();
        let second: Vec<u8> = symbolize(&image, scale, &['.', 'o', '#'], FilterType::Nearest, colorize)
            .unwrap()
            .into();
        assert_eq!(first, second);
    }
}

#[test]
fn drawing_keeps_the_shape_of_the_image() {
    let image = grid(3, 2, &[WHITE, RED, BLACK, WHITE, BLACK, WHITE]);
    let rows = rows_of(symbolize_scaled(&image, &['.', 'o', '#'], false).unwrap());
    assert_eq!(rows.len(), 2);
    for row in &rows {
        assert_eq!(row.chars().count(), 6);
    }
    assert_eq!(rows, vec!["##..oo".to_string(), "##oo##".to_string()]);
}

#[test]
fn more_colours_than_symbols() {
    // black three times, white twice, red once: red has no entry and is
    // drawn as the nearest of the other two
    let image = grid(6, 1, &[BLACK, WHITE, BLACK, RED, WHITE, BLACK]);
    let rows = rows_of(symbolize_scaled(&image, &['w', 'b'], false).unwrap());
    assert_eq!(rows, vec!["bbwwbbbbwwbb".to_string()]);
}

#[test]
fn fewer_colours_than_symbols_leave_the_first_symbols_unused() {
    let image = grid(3, 1, &[BLACK, WHITE, WHITE]);
    let rows = rows_of(symbolize_scaled(&image, &['1', '2', '3', '4'], false).unwrap());
    assert_eq!(rows, vec!["334444".to_string()]);
}

#[test]
fn image_without_pixels_gives_empty_drawing() {
    let none = grid(0, 0, &[]);
    let result = symbolize(&none, Scale::To { width: 0, height: 0 }, &['x'], FilterType::Nearest, false);
    let text: String = result.unwrap().into();
    assert_eq!(text, "");

    let flat = grid(0, 3, &[]);
    let rows = rows_of(symbolize_scaled(&flat, &['x'], false).unwrap());
    assert_eq!(rows, vec![String::new(), String::new(), String::new()]);
    let text: String = symbolize_scaled(&flat, &['x'], true).unwrap().into();
    assert_eq!(text, "\n\n");
}

#[test]
fn scaled_to_nothing_gives_empty_drawing() {
    let image = stand_in_image();
    let scale = scale_of(&image, 0.0);
    assert_eq!(scale, Scale::To { width: 0, height: 0 });
    assert!(can_resize(&image, 0, 0, FilterType::Triangle));
    let bytes: Vec<u8> = symbolize(&image, scale, &['x'], FilterType::Triangle, false)
        .unwrap()
        .into();
    assert!(bytes.is_empty());
}

#[test]
fn three_views_show_the_same() {
    let image = grid(2, 2, &[BLACK, WHITE, WHITE, WHITE]);
    let symbols = ['é', '@'];
    let rows: Vec<String> = symbolize_scaled(&image, &symbols, false).unwrap().into();
    let text: String = symbolize_scaled(&image, &symbols, false).unwrap().into();
    let bytes: Vec<u8> = symbolize_scaled(&image, &symbols, false).unwrap().into();
    assert_eq!(rows, vec!["éé@@".to_string(), "@@@@".to_string()]);
    assert_eq!(text, rows.join("\n"));
    assert_eq!(bytes, text.clone().into_bytes());

    let drawing = symbolize_scaled(&image, &symbols, false).unwrap();
    assert_eq!(drawing.to_rows(), rows);
    assert_eq!(drawing.to_text(), text);
    assert_eq!(drawing.to_bytes(), bytes);
}

#[test]
fn colour_wraps_each_cell() {
    let image = grid(2, 1, &[BLACK, Rgb { r: 247, g: 76, b: 0 }]);
    let text: String = symbolize_scaled(&image, &['$', '@'], true).unwrap().into();
    assert_eq!(
        text,
        "\u{1b}[38;2;0;0;0m@\u{1b}[39m\u{1b}[38;2;0;0;0m@\u{1b}[39m\
         \u{1b}[38;2;247;76;0m$\u{1b}[39m\u{1b}[38;2;247;76;0m$\u{1b}[39m"
    );
}

#[test]
fn render_uses_the_texts_it_is_given() {
    let image = grid(2, 1, &[BLACK, WHITE]);
    let palette = [
        PixelWithSymbol { pixel: WHITE, symbol: ' ' },
        PixelWithSymbol { pixel: BLACK, symbol: '@' },
    ];
    let texts = ["<w>".to_string(), "<b>".to_string()];
    assert_eq!(rows_of(render(&image, &palette, &texts).unwrap()), vec!["<b><b><w><w>".to_string()]);
    assert_eq!(rows_of(render(&image, &palette, &texts[..1]).unwrap()), vec!["@@<w><w>".to_string()]);
    assert_eq!(rows_of(render(&image, &palette, &[]).unwrap()), vec!["@@  ".to_string()]);
}

#[test]
fn render_without_palette_finds_no_match() {
    let image = grid(1, 1, &[BLACK]);
    let result = render(&image, &[], &[]);
    assert_eq!(result.err(), Some(SymbolizeError::NoMatch));
    let nothing = grid(0, 0, &[]);
    assert!(render(&nothing, &[], &[]).is_ok());
}

#[test]
fn resize_to_same_size_keeps_the_pixels() {
    let image = grid(2, 2, &[BLACK, WHITE, RED, WHITE]);
    for filter in [
        FilterType::Nearest,
        FilterType::Triangle,
        FilterType::CatmullRom,
        FilterType::Gaussian,
        FilterType::Lanczos3,
    ] {
        let same = resize(&image, 2, 2, filter);
        assert_eq!(same.as_raw(), image.as_raw());
    }
}

#[test]
fn resize_gives_the_size_asked_for() {
    let image = grid(2, 2, &[RED, RED, RED, RED]);
    assert!(can_resize(&image, 4, 6, FilterType::Nearest));
    let larger = resize(&image, 4, 6, FilterType::Nearest);
    assert_eq!((larger.width(), larger.height()), (4, 6));
    assert_eq!(larger.len(), 24);
    assert_eq!(larger.as_raw().len(), 72);
    for i in 0..24 {
        assert_eq!(larger.pixel_at(i), RED);
    }
    let smaller = resize(&image, 1, 1, FilterType::Triangle);
    assert_eq!(smaller.as_raw(), &vec![200u8, 10, 10]);
    let none = grid(0, 0, &[]);
    let grown = resize(&none, 2, 1, FilterType::Gaussian);
    assert_eq!(grown.as_raw().len(), 6);
}

#[test]
fn scaling_up_doubles_the_drawing() {
    let image = grid(2, 1, &[BLACK, WHITE]);
    let scale = scale_of(&image, 2.0);
    let rows = rows_of(symbolize(&image, scale, &[' ', '@'], FilterType::Nearest, false).unwrap());
    assert_eq!(rows, vec!["@@@@    ".to_string(), "@@@@    ".to_string()]);
}

#[test]
fn too_large_a_size_does_not_fit() {
    let image = grid(1, 1, &[BLACK]);
    assert!(!can_resize(&image, u32::MAX, u32::MAX, FilterType::Nearest));
    assert!(can_resize(&image, 1, 1, FilterType::Lanczos3));
}

#[test]
fn filter_names() {
    assert_eq!(FilterType::from_name("nearest"), Ok(FilterType::Nearest));
    assert_eq!(FilterType::from_name("triangle"), Ok(FilterType::Triangle));
    assert_eq!(FilterType::from_name("catmull_rom"), Ok(FilterType::CatmullRom));
    assert_eq!(FilterType::from_name("gaussian"), Ok(FilterType::Gaussian));
    assert_eq!(FilterType::from_name("lanczos3"), Ok(FilterType::Lanczos3));
    assert_eq!(FilterType::from_name("Nearest"), Err(SymbolizeError::UnknownFilter));
    assert_eq!(FilterType::from_name(""), Err(SymbolizeError::UnknownFilter));
}

#[test]
fn error_messages() {
    assert_eq!(
        SymbolizeError::EmptyPalette.message(),
        "pallete should contain at leasst one symbol, aborting"
    );
    assert_eq!(SymbolizeError::NegativeScale.message(), "scale should be > 0, aborting");
    assert_eq!(
        SymbolizeError::NoMatch.message(),
        "unexpected error, can't find matching char for a pixel. aborting"
    );
    assert_eq!(SymbolizeError::UnknownFilter.message(), "unknown filter type, aborting");
}

#[test]
fn cells_hold_symbol_and_colour() {
    let orange = Rgb { r: 247, g: 76, b: 0 };
    let image = grid(2, 1, &[BLACK, orange]);
    let plain = symbolize_scaled(&image, &['$', '@'], false).unwrap();
    assert_eq!(plain.cell(0, 0), Some(RenderCell { symbol: '@', color: None }));
    assert_eq!(plain.cell(0, 1), Some(RenderCell { symbol: '@', color: None }));
    assert_eq!(plain.cell(0, 2), Some(RenderCell { symbol: '$', color: None }));
    assert_eq!(plain.cell(0, 3), Some(RenderCell { symbol: '$', color: None }));
    assert_eq!(plain.cell(0, 4), None);
    assert_eq!(plain.cell(1, 0), None);

    let coloured = symbolize_scaled(&image, &['$', '@'], true).unwrap();
    assert_eq!(coloured.cell(0, 1), Some(RenderCell { symbol: '@', color: Some(BLACK) }));
    assert_eq!(coloured.cell(0, 2), Some(RenderCell { symbol: '$', color: Some(orange) }));
    assert_eq!(coloured.cell(0, 4), None);
}

#[test]
fn colour_of_a_cell_is_that_of_its_entry() {
    // red has no entry of its own: its cells show the entry nearest to it
    let image = grid(6, 1, &[BLACK, WHITE, BLACK, RED, WHITE, BLACK]);
    let drawing = symbolize_scaled(&image, &['w', 'b'], true).unwrap();
    assert_eq!(drawing.cell(0, 6), Some(RenderCell { symbol: 'b', color: Some(BLACK) }));
    assert_eq!(drawing.cell(0, 7), Some(RenderCell { symbol: 'b', color: Some(BLACK) }));
    assert_eq!(drawing.cell(0, 2), Some(RenderCell { symbol: 'w', color: Some(WHITE) }));
    let rows: Vec<String> = drawing.into();
    assert_eq!(rows.len(), 1);
}

#[test]
fn render_colours_the_entries_that_have_a_text() {
    let image = grid(2, 1, &[BLACK, WHITE]);
    let palette = [
        PixelWithSymbol { pixel: WHITE, symbol: ' ' },
        PixelWithSymbol { pixel: BLACK, symbol: '@' },
    ];
    let texts = ["<w>".to_string()];
    let drawing = render(&image, &palette, &texts).unwrap();
    assert_eq!(drawing.cell(0, 0), Some(RenderCell { symbol: '@', color: None }));
    assert_eq!(drawing.cell(0, 2), Some(RenderCell { symbol: ' ', color: Some(WHITE) }));
    assert_eq!(drawing.to_text(), "@@<w><w>");
}

#[test]
fn same_input_gives_same_output_at_another_size() {
    let image = grid(3, 2, &[WHITE, RED, BLACK, WHITE, BLACK, WHITE]);
    let scale = scale_of(&image, 2.5);
    assert_eq!(scale, Scale::To { width: 7, height: 5 });
    for filter in [
        FilterType::Nearest,
        FilterType::Triangle,
        FilterType::CatmullRom,
        FilterType::Gaussian,
        FilterType::Lanczos3,
    ] {
        let first: String = symbolize(&image, scale, &['.', 'o', '#'], filter, true).unwrap().into();
        let second: String = symbolize(&image, scale, &['.', 'o', '#'], filter, true).unwrap().into();
        assert_eq!(first, second);
        let rows = rows_of(symbolize(&image, scale, &['.', 'o', '#'], filter, false).unwrap());
        assert_eq!(rows.len(), 5);
        for row in &rows {
            assert_eq!(row.chars().count(), 14);
        }
    }
}

#[test]
fn coloured_drawing_has_two_cells_for_each_pixel() {
    let image = grid(3, 2, &[WHITE, RED, BLACK, WHITE, BLACK, WHITE]);
    let drawing = symbolize_scaled(&image, &['.', '#'], true).unwrap();
    for y in 0..2 {
        for k in 0..6 {
            assert!(drawing.cell(y, k).is_some());
        }
        assert_eq!(drawing.cell(y, 6), None);
    }
    assert_eq!(drawing.cell(2, 0), None);
    assert_eq!(drawing.to_rows().len(), 2);
}

const SAMPLING: [FilterType; 4] = [
    FilterType::Triangle,
    FilterType::CatmullRom,
    FilterType::Gaussian,
    FilterType::Lanczos3,
];

#[test]
fn sampling_filters_are_kept_to_short_sides() {
    assert_eq!(MAX_SAMPLED_SIDE, 65535);
    let small = grid(2, 1, &[BLACK, WHITE]);
    let long = PixelGrid::from_raw(65536, 1, vec![0; 3 * 65536]).unwrap();
    let longest = PixelGrid::from_raw(65535, 1, vec![0; 3 * 65535]).unwrap();
    for filter in SAMPLING {
        assert!(can_resize(&small, 65535, 65535, filter));
        assert!(!can_resize(&small, 65536, 1, filter));
        assert!(!can_resize(&small, 1, 65536, filter));
        assert!(!can_resize(&long, 10, 1, filter));
        assert!(can_resize(&long, 65536, 1, filter));
        assert!(can_resize(&longest, 10, 1, filter));
    }
    assert!(can_resize(&small, 65536, 1, FilterType::Nearest));
    assert!(can_resize(&small, 1, 70000, FilterType::Nearest));
    assert!(can_resize(&long, 10, 1, FilterType::Nearest));
    assert!(can_resize(&small, 16777221, 1, FilterType::Nearest));
    assert!(!can_resize(&small, 16777221, 1, FilterType::Triangle));
}

#[test]
fn resize_on_the_longest_sampled_sides() {
    let mut pixels = Vec::new();
    for i in 0..65535u32 {
        pixels.push(if i % 2 == 0 { BLACK } else { WHITE });
    }
    let longest = grid(65535, 1, &pixels);
    let upright = grid(1, 65535, &pixels);
    let small = grid(2, 1, &[BLACK, WHITE]);
    for filter in SAMPLING {
        for (width, height) in [(1, 1), (2, 1), (65534, 1), (40000, 1), (3, 2)] {
            assert!(can_resize(&longest, width, height, filter));
            let scaled = resize(&longest, width, height, filter);
            assert_eq!(scaled.len(), (width * height) as usize);
            assert!(can_resize(&upright, height, width, filter));
            let scaled = resize(&upright, height, width, filter);
            assert_eq!(scaled.len(), (width * height) as usize);
        }
        let stretched = resize(&small, 65535, 1, filter);
        assert_eq!(stretched.len(), 65535);
        let raised = resize(&small, 2, 65535, filter);
        assert_eq!(raised.len(), 2 * 65535);
    }
}

#[test]
fn nearest_resamples_long_sides() {
    let small = grid(2, 1, &[BLACK, WHITE]);
    let long = resize(&small, 70000, 1, FilterType::Nearest);
    assert_eq!(long.len(), 70000);
    for i in 0..70000 {
        assert_eq!(long.pixel_at(i), if i < 35000 { BLACK } else { WHITE });
    }
    let back = resize(&long, 2, 1, FilterType::Nearest);
    assert_eq!(back.len(), 2);
}

#[test]
fn nearest_picks_pixels_of_the_source() {
    let image = grid(3, 2, &[BLACK, RED, WHITE, WHITE, BLACK, RED]);
    let wide = resize(&image, 6, 2, FilterType::Nearest);
    let expected = [
        BLACK, BLACK, RED, RED, WHITE, WHITE, WHITE, WHITE, BLACK, BLACK, RED, RED,
    ];
    for (i, color) in expected.iter().enumerate() {
        assert_eq!(wide.pixel_at(i), *color);
    }
    let rows = rows_of(
        symbolize(&image, Scale::To { width: 6, height: 2 }, &['w', 'r', 'b'], FilterType::Nearest, false)
            .unwrap(),
    );
    assert_eq!(rows, vec!["bbbbrrrrwwww".to_string(), "wwwwbbbbrrrr".to_string()]);
}

#[test]
fn colour_is_written_in_decimal() {
    for (r, g, b) in [(0u8, 7u8, 9u8), (10, 42, 99), (100, 101, 255), (200, 0, 10), (255, 255, 255)] {
        let image = grid(1, 1, &[Rgb { r, g, b }]);
        let text: String = symbolize_scaled(&image, &['#'], true).unwrap().into();
        let cell = format!("\u{1b}[38;2;{};{};{}m#\u{1b}[39m", r, g, b);
        assert_eq!(text, format!("{}{}", cell, cell));
    }
}
