use gba_assets::gbagfx::blobs::{encode_outputs, palette_source, PaletteSource};
use gba_assets::gbagfx::color::Color;
use gba_assets::gbagfx::convert::{convert_raster, guess_fixed_palette, palette_from_rgb, Raster};
use gba_assets::gbagfx::decode::{
    convert_image, load_png_palette, rasterize, read_colors_from_image,
};
use gba_assets::gbagfx::error::Error;
use gba_assets::gbagfx::indexed::GBAImage;
use gba_assets::gbagfx::palette::Palette;
use gba_assets::gbagfx::tiles::encode_tiles;
use gba_assets::lz77::compress::compress;
use gba_assets::lz77::matcher::CompressionStrategy;

const A: Color = Color { r: 10, g: 0, b: 0 };
const B: Color = Color { r: 0, g: 20, b: 0 };
const C: Color = Color { r: 0, g: 0, b: 30 };
const D: Color = Color { r: 40, g: 40, b: 40 };

fn shade(i: usize) -> Color {
    Color::rgb(i as u8, (i * 2) as u8, (255 - i) as u8)
}

fn raster(width: usize, height: usize, pixels: Vec<Color>) -> Raster {
    Raster { width, height, pixels }
}

fn colors(p: &Palette) -> Vec<Color> {
    p.colors().clone()
}

fn rgb_png(width: u32, height: u32, pixels: &[Color]) -> Vec<u8> {
    let mut raw = Vec::new();
    for p in pixels {
        raw.extend_from_slice(&[p.r, p.g, p.b]);
    }
    let img = image::RgbImage::from_raw(width, height, raw).unwrap();
    let mut out = std::io::Cursor::new(Vec::new());
    image::DynamicImage::ImageRgb8(img).write_to(&mut out, image::ImageFormat::Png).unwrap();
    out.into_inner()
}

fn indexed_png(width: u32, height: u32, palette: &[Color], indices: &[u8]) -> Vec<u8> {
    let mut plte = Vec::new();
    for p in palette {
        plte.extend_from_slice(&[p.r, p.g, p.b]);
    }
    let mut out = Vec::new();
    {
        let mut encoder = png::Encoder::new(&mut out, width, height);
        encoder.set_color(png::ColorType::Indexed);
        encoder.set_depth(png::BitDepth::Eight);
        encoder.set_palette(plte);
        let mut writer = encoder.write_header().unwrap();
        writer.write_image_data(indices).unwrap();
    }
    out
}

#[test]
fn without_a_palette_colours_are_numbered_as_they_first_occur() {
    let img = GBAImage::from_raster(&raster(2, 2, vec![B, A, B, C]), None).unwrap();
    assert_eq!(colors(&img.palette), vec![B, A, C]);
    assert_eq!(img.data, vec![0, 1, 0, 2]);
    assert_eq!((img.width, img.height), (2, 2));
}

#[test]
fn a_given_palette_is_used_as_it_stands() {
    let given = Palette::from(vec![D, C, B, A]);
    let img = GBAImage::from_raster(&raster(3, 1, vec![A, B, A]), Some(given)).unwrap();
    assert_eq!(colors(&img.palette), vec![D, C, B, A]);
    assert_eq!(img.data, vec![3, 2, 3]);
    assert_eq!((img.width, img.height), (3, 1));
}

#[test]
fn a_colour_that_a_given_palette_holds_twice_takes_its_last_position() {
    let given = Palette::from(vec![A, B, A, C]);
    let img = GBAImage::from_raster(&raster(4, 1, vec![A, B, C, A]), Some(given)).unwrap();
    assert_eq!(colors(&img.palette), vec![A, B, A, C]);
    assert_eq!(img.data, vec![2, 1, 3, 2]);
}

#[test]
fn a_colour_outside_the_given_palette_is_unknown() {
    let given = Palette::from(vec![A, B]);
    let r = GBAImage::from_raster(&raster(3, 1, vec![A, B, C]), Some(given));
    assert!(matches!(r, Err(Error::UnknownColor)));
    let r = GBAImage::from_raster(&raster(1, 1, vec![A]), Some(Palette::from(vec![])));
    assert!(matches!(r, Err(Error::UnknownColor)));
}

#[test]
fn only_the_first_sixteen_colours_of_a_given_palette_count() {
    let given: Vec<Color> = (0..20).map(shade).collect();
    let ok = GBAImage::from_raster(
        &raster(2, 1, vec![shade(15), shade(0)]),
        Some(Palette::from(given.clone())),
    )
    .unwrap();
    assert_eq!(colors(&ok.palette), given[..16].to_vec());
    assert_eq!(ok.data, vec![15, 0]);
    let r = GBAImage::from_raster(&raster(1, 1, vec![shade(16)]), Some(Palette::from(given)));
    assert!(matches!(r, Err(Error::UnknownColor)));
}

#[test]
fn an_image_without_pixels_converts_to_an_empty_image() {
    let img = GBAImage::from_raster(&raster(0, 0, vec![]), None).unwrap();
    assert_eq!(img.palette.len(), 0);
    assert_eq!(img.data, Vec::<usize>::new());
    assert!(img.validate().is_ok());
}

#[test]
fn more_than_sixteen_colours_fail_validation_not_conversion() {
    let pixels: Vec<Color> = (0..64).map(|i| shade(i % 17)).collect();
    let img = GBAImage::from_raster(&raster(8, 8, pixels), None).unwrap();
    assert_eq!(img.palette.len(), 17);
    assert_eq!(img.data[16], 16);
    assert!(matches!(img.validate(), Err(Error::TooManyColors)));
    let pixels: Vec<Color> = (0..64).map(|i| shade(i % 16)).collect();
    let img = GBAImage::from_raster(&raster(8, 8, pixels), None).unwrap();
    assert!(img.validate().is_ok());
}

#[test]
fn a_raster_of_the_wrong_size_fails_validation() {
    let img = GBAImage::from_raster(&raster(8, 8, vec![A; 63]), None).unwrap();
    assert!(matches!(img.validate(), Err(Error::DimensionMismatch)));
}

#[test]
fn sixteen_different_first_pixels_are_taken_for_the_palette() {
    let mut pixels: Vec<Color> = (0..16).rev().map(shade).collect();
    pixels.extend(vec![shade(3); 16]);
    let r = raster(32, 1, pixels.clone());
    assert_eq!(colors(&guess_fixed_palette(&r).unwrap()), pixels[..16].to_vec());
    // The first sixteen pixels run on into the second row of a narrow image.
    let r = raster(4, 8, pixels.clone());
    assert_eq!(colors(&guess_fixed_palette(&r).unwrap()), pixels[..16].to_vec());
}

#[test]
fn else_the_two_rows_of_eight_at_the_top_left_are_taken() {
    let width = 10;
    let mut pixels = vec![shade(0); width * 2];
    for x in 0..8 {
        pixels[x] = shade(x);
        pixels[width + x] = shade(8 + x);
    }
    let r = raster(width, 2, pixels);
    let expected: Vec<Color> = (0..16).map(shade).collect();
    assert_eq!(colors(&guess_fixed_palette(&r).unwrap()), expected);
}

#[test]
fn no_palette_is_guessed_from_fewer_than_sixteen_colours() {
    assert!(guess_fixed_palette(&raster(8, 8, vec![A; 64])).is_none());
    assert!(guess_fixed_palette(&raster(4, 2, (0..8).map(shade).collect())).is_none());
    assert!(guess_fixed_palette(&raster(0, 0, vec![])).is_none());
    let mut pixels: Vec<Color> = (0..16).map(shade).collect();
    pixels[15] = shade(0);
    assert!(guess_fixed_palette(&raster(16, 1, pixels.clone())).is_none());
    assert!(guess_fixed_palette(&raster(8, 2, pixels)).is_none());
}

#[test]
fn a_given_palette_goes_before_a_carried_one_and_that_before_a_guessed_one() {
    let mut pixels: Vec<Color> = (0..16).map(shade).collect();
    pixels.extend((0..48).map(|i| shade(i % 16)));
    let r = raster(8, 8, pixels);
    let reversed: Vec<Color> = (0..16).rev().map(shade).collect();
    let mut rotated: Vec<Color> = (0..16).map(shade).collect();
    rotated.rotate_left(1);

    let img = convert_raster(
        &r,
        Some(Palette::from(rotated.clone())),
        Some(Palette::from(reversed.clone())),
    )
    .unwrap();
    assert_eq!(colors(&img.palette), reversed);
    assert_eq!(img.data[0], 15);

    let img = convert_raster(&r, Some(Palette::from(rotated.clone())), None).unwrap();
    assert_eq!(colors(&img.palette), rotated);
    assert_eq!(img.data[0], 15);
    assert_eq!(img.data[1], 0);

    let img = convert_raster(&r, None, None).unwrap();
    assert_eq!(colors(&img.palette), (0..16).map(shade).collect::<Vec<_>>());
    assert_eq!(img.data[5], 5);
}

#[test]
fn without_any_palette_the_colours_found_make_one() {
    let img = convert_raster(&raster(2, 1, vec![C, A]), None, None).unwrap();
    assert_eq!(colors(&img.palette), vec![C, A]);
    assert_eq!(img.data, vec![0, 1]);
}

#[test]
fn a_png_palette_is_read_as_triples_of_red_green_and_blue() {
    assert_eq!(colors(&palette_from_rgb(&[10, 0, 0, 0, 20, 0])), vec![A, B]);
    assert_eq!(colors(&palette_from_rgb(&[10, 0, 0, 0, 20])), vec![A]);
    assert_eq!(colors(&palette_from_rgb(&[])), vec![]);
}

#[test]
fn the_palette_of_an_indexed_png_is_found_in_its_header() {
    let file = indexed_png(2, 1, &[A, B, C], &[2, 0]);
    let found = load_png_palette(&file).unwrap().unwrap();
    assert_eq!(colors(&found), vec![A, B, C]);
    let file = rgb_png(2, 1, &[A, B]);
    assert!(load_png_palette(&file).unwrap().is_none());
    assert!(matches!(load_png_palette(b"not a png"), Err(Error::PngError(_))));
}

#[test]
fn an_indexed_png_keeps_the_order_of_its_palette() {
    let file = indexed_png(8, 1, &[A, B, C], &[2, 0, 1, 1, 2, 2, 0, 0]);
    for format in [None, Some(image::ImageFormat::Png)] {
        let img = convert_image(&file, format, None).unwrap();
        assert_eq!(colors(&img.palette), vec![A, B, C]);
        assert_eq!(img.data, vec![2, 0, 1, 1, 2, 2, 0, 0]);
        assert_eq!((img.width, img.height), (8, 1));
        assert!(img.validate().is_ok());
    }
}

#[test]
fn a_palette_given_for_a_file_goes_before_the_one_in_the_file() {
    let file = indexed_png(2, 1, &[A, B, C], &[2, 0]);
    let img = convert_image(&file, None, Some(Palette::from(vec![C, D, A]))).unwrap();
    assert_eq!(colors(&img.palette), vec![C, D, A]);
    assert_eq!(img.data, vec![0, 2]);
    let r = convert_image(&file, None, Some(Palette::from(vec![D])));
    assert!(matches!(r, Err(Error::UnknownColor)));
}

#[test]
fn a_true_colour_png_is_indexed_by_the_colours_found() {
    let mut pixels = vec![B; 64];
    pixels[1] = A;
    pixels[63] = C;
    let file = rgb_png(8, 8, &pixels);
    let img = convert_image(&file, None, None).unwrap();
    assert_eq!(colors(&img.palette), vec![B, A, C]);
    assert_eq!(img.data[0], 0);
    assert_eq!(img.data[1], 1);
    assert_eq!(img.data[63], 2);
    assert_eq!((img.width, img.height), (8, 8));
    let tiles = encode_tiles(img.tiles());
    assert_eq!(tiles.len(), 32);
    assert_eq!(tiles[0], 0x10);
    assert_eq!(tiles[31], 0x20);
}

#[test]
fn a_true_colour_png_with_a_palette_in_its_corner_uses_it() {
    let mut pixels: Vec<Color> = (0..16).rev().map(|i| shade(i * 8)).collect();
    pixels.extend(vec![shade(0); 48]);
    let file = rgb_png(16, 4, &pixels);
    let img = convert_image(&file, Some(image::ImageFormat::Png), None).unwrap();
    assert_eq!(colors(&img.palette), pixels[..16].to_vec());
    assert_eq!(img.data[0], 0);
    assert_eq!(img.data[16], 15);
}

#[test]
fn bytes_that_are_no_image_are_an_image_error() {
    assert!(matches!(convert_image(b"nothing like an image", None, None), Err(Error::ImageError(_))));
    assert!(matches!(convert_image(&[], None, None), Err(Error::ImageError(_))));
    let garbage = b"nothing like an image";
    let r = convert_image(garbage, Some(image::ImageFormat::Png), Some(Palette::from(vec![A])));
    assert!(matches!(r, Err(Error::ImageError(_))));
    let r = convert_image(garbage, Some(image::ImageFormat::Bmp), None);
    assert!(matches!(r, Err(Error::ImageError(_))));
}

#[test]
fn a_broken_png_without_a_given_palette_is_a_png_error() {
    let r = convert_image(b"nothing like an image", Some(image::ImageFormat::Png), None);
    assert!(matches!(r, Err(Error::PngError(_))));
}

#[test]
fn a_png_declared_as_another_format_does_not_decode() {
    let file = rgb_png(8, 8, &vec![A; 64]);
    let r = convert_image(&file, Some(image::ImageFormat::Bmp), None);
    assert!(matches!(r, Err(Error::ImageError(_))));
}

#[test]
fn a_decoded_image_is_copied_row_by_row_without_alpha() {
    let mut img = image::RgbaImage::new(3, 2);
    for y in 0..2 {
        for x in 0..3 {
            img.put_pixel(x, y, image::Rgba([x as u8, y as u8, 7, 99]));
        }
    }
    let decoded = image::DynamicImage::ImageRgba8(img);
    let r = rasterize(&decoded);
    assert_eq!((r.width, r.height), (3, 2));
    assert_eq!(
        r.pixels,
        vec![
            Color::rgb(0, 0, 7),
            Color::rgb(1, 0, 7),
            Color::rgb(2, 0, 7),
            Color::rgb(0, 1, 7),
            Color::rgb(1, 1, 7),
            Color::rgb(2, 1, 7),
        ]
    );
    let indexed = GBAImage::from_generic_image(&decoded, None).unwrap();
    assert_eq!(indexed.data, vec![0, 1, 2, 3, 4, 5]);
    assert_eq!((indexed.width, indexed.height), (3, 2));
    let again = GBAImage::from_image_view(&decoded, None).unwrap();
    assert_eq!(again.data, indexed.data);
    let inferred = GBAImage::with_inferred_palette(&decoded).unwrap();
    assert_eq!(colors(&inferred.palette), r.pixels);
    let known =
        GBAImage::with_known_palette(&decoded, Palette::from(r.pixels.iter().rev().cloned().collect::<Vec<_>>()))
            .unwrap();
    assert_eq!(known.data, vec![5, 4, 3, 2, 1, 0]);
    let unknown = GBAImage::with_known_palette(&decoded, Palette::from(vec![A]));
    assert!(matches!(unknown, Err(Error::UnknownColor)));
}

#[test]
fn a_grey_image_has_equal_channels() {
    let img = image::GrayImage::from_raw(2, 1, vec![5, 200]).unwrap();
    let r = rasterize(&image::DynamicImage::ImageLuma8(img));
    assert_eq!(r.pixels, vec![Color::rgb(5, 5, 5), Color::rgb(200, 200, 200)]);
}

#[test]
fn an_image_without_pixels_is_copied_to_nothing() {
    for (w, h) in [(0, 0), (0, 3), (3, 0)] {
        let decoded = image::DynamicImage::ImageRgb8(image::RgbImage::new(w, h));
        let r = rasterize(&decoded);
        assert_eq!((r.width, r.height), (w as usize, h as usize));
        assert!(r.pixels.is_empty());
        assert_eq!(read_colors_from_image(&decoded).len(), 0);
    }
}

#[test]
fn the_first_sixteen_pixels_of_an_image_can_serve_as_a_palette() {
    let mut img = image::RgbImage::new(5, 4);
    for y in 0..4 {
        for x in 0..5 {
            img.put_pixel(x, y, image::Rgb([(y * 5 + x) as u8, 0, 0]));
        }
    }
    let palette = read_colors_from_image(&image::DynamicImage::ImageRgb8(img));
    let expected: Vec<Color> = (0..16).map(|i| Color::rgb(i as u8, 0, 0)).collect();
    assert_eq!(colors(&palette), expected);

    let mut img = image::RgbImage::new(3, 2);
    for y in 0..2 {
        for x in 0..3 {
            img.put_pixel(x, y, image::Rgb([(y * 3 + x) as u8, 1, 2]));
        }
    }
    let palette = read_colors_from_image(&image::DynamicImage::ImageRgb8(img));
    let expected: Vec<Color> = (0..6).map(|i| Color::rgb(i as u8, 1, 2)).collect();
    assert_eq!(colors(&palette), expected);
}

#[test]
fn the_first_pixels_of_a_raster_can_serve_as_a_palette() {
    let r = raster(20, 1, (0..20).map(shade).collect());
    assert_eq!(colors(&r.leading_colors()), (0..16).map(shade).collect::<Vec<_>>());
    let r = raster(2, 1, vec![A, B]);
    assert_eq!(colors(&r.leading_colors()), vec![A, B]);
}

#[test]
fn the_tiles_are_compressed_on_request_and_the_palette_only_when_alone() {
    let pixels: Vec<Color> = (0..64).map(|i| if i % 9 == 0 { A } else { B }).collect();
    let img = GBAImage::from_raster(&raster(8, 8, pixels), None).unwrap();
    let tiles = encode_tiles(img.tiles());
    let palette = img.palette.encode();
    let thorough = CompressionStrategy::CheckAllCandidates;

    let both = encode_outputs(&img, true, true, false);
    assert_eq!(both.tiles, Some(tiles.clone()));
    assert_eq!(both.palette, Some(palette.clone()));

    let both = encode_outputs(&img, true, true, true);
    assert_eq!(both.tiles, Some(compress(&tiles, thorough)));
    assert_eq!(both.palette, Some(palette.clone()));

    let alone = encode_outputs(&img, false, true, true);
    assert_eq!(alone.tiles, None);
    assert_eq!(alone.palette, Some(compress(&palette, thorough)));

    let alone = encode_outputs(&img, true, false, true);
    assert_eq!(alone.tiles, Some(compress(&tiles, thorough)));
    assert_eq!(alone.palette, None);

    let none = encode_outputs(&img, false, false, true);
    assert_eq!((none.tiles, none.palette), (None, None));
}

#[test]
fn a_palette_argument_is_text_or_names_a_palette_file_or_an_image() {
    let text = "1F7C".repeat(16);
    match palette_source(&text) {
        PaletteSource::Text(p) => assert_eq!(p.lookup(15), Some(Color::rgb(0xF8, 0, 0xF8))),
        _ => panic!("not taken as text"),
    }
    for name in ["a.dmp", "dir/b.BIN", "c.Pal", ".pal", "x.y.bin"] {
        assert!(matches!(palette_source(name), PaletteSource::Binary), "{name}");
    }
    for name in ["a.png", "dmp", "bin", "a.dmpx", "a.pa", "", "a,pal", "a.p\u{e4}l"] {
        assert!(matches!(palette_source(name), PaletteSource::Image), "{name}");
    }
}
