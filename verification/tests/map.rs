use heightmap::color::{to_linear_gamma, to_linear_rgb};
use heightmap::files::ImageFile;
use heightmap::load::{maps_from_files, LoadedHeightmap};
use heightmap::map::{Colormap, ColormapPNG, Heightmap, HeightmapFlat, HeightmapPNG, RgbaImage};
use heightmap::sculpt::packed::{
    height_layout, heightmap_file, load_heights, pack_height, pack_heights, unpack_heights,
    HeightLayout, HEIGHTMAP_PNG_SCALE,
};
use heightmap::sculpt::snapshot::CellField;
use heightmap::util::{options_from_flags, CliFlags, GenOptions};
use std::io::Cursor;

/// A PNG file that holds the picture.
fn png(name: &str, img: &image::RgbaImage) -> ImageFile {
    let mut bytes = Cursor::new(Vec::new());
    img.write_to(&mut bytes, image::ImageFormat::Png).expect("test PNG must encode");
    ImageFile {
        name: format!("{name}.png"),
        ext: Some("png".to_string()),
        bytes: Some(bytes.into_inner()),
    }
}

#[test]
fn heightmap_png_decodes_rgba_encoded_pixel_as_big_endian_u32() {
    let mut img = image::RgbaImage::new(2, 1);
    img.put_pixel(0, 0, image::Rgba([0x00, 0x01, 0x02, 0x03]));
    img.put_pixel(1, 0, image::Rgba([0x0A, 0x14, 0x1E, 0x28]));
    let file = png("rgba_encoded", &img);

    let map = HeightmapPNG::new(&vec![file], true).expect("heightmap must load");
    // hand-computed: [0x00,0x01,0x02,0x03] big-endian -> 0x00010203 = 66051
    assert_eq!(map.at(0, 0), 66051);
    // [0x0A,0x14,0x1E,0x28] -> 0x0A141E28 = 169_090_600
    assert_eq!(map.at(1, 0), 169_090_600);
    assert_eq!(map.size(), (2, 1));
}

#[test]
fn heightmap_png_grayscale_mode_reads_red_channel_and_sums_maps() {
    let mut a = image::RgbaImage::new(1, 2);
    a.put_pixel(0, 0, image::Rgba([200, 5, 9, 255]));
    a.put_pixel(0, 1, image::Rgba([7, 90, 90, 255]));
    let mut b = image::RgbaImage::new(1, 2);
    b.put_pixel(0, 0, image::Rgba([40, 1, 2, 255]));
    b.put_pixel(0, 1, image::Rgba([3, 80, 80, 255]));

    let single =
        HeightmapPNG::new(&vec![png("gray_a", &a)], false).expect("heightmap must load");
    assert_eq!(single.at(0, 0), 200, "red channel only, not G/B/A");
    assert_eq!(single.at(0, 1), 7);

    let stacked = HeightmapPNG::new(&vec![png("gray_a", &a), png("gray_b", &b)], false)
        .expect("heightmaps must load");
    assert_eq!(stacked.at(0, 0), 240, "multiple maps sum their red channels");
    assert_eq!(stacked.at(0, 1), 10);
    assert_eq!(stacked.size(), (1, 2));
}

#[test]
fn heightmap_png_rejects_empty_input_and_mismatched_sizes() {
    assert!(HeightmapPNG::new(&vec![], false).is_err());

    let small = png("mismatch_small", &image::RgbaImage::new(1, 1));
    let large = png("mismatch_large", &image::RgbaImage::new(2, 1));
    let result = HeightmapPNG::new(&vec![small, large], false);
    assert_eq!(result.err().as_deref(), Some("Mismatched heightmap sizes"));
}

#[test]
fn heightmap_flat_reports_size_and_unit_height_everywhere() {
    let flat = HeightmapFlat::new((7, 9)).expect("flat heightmap is infallible");
    assert_eq!(flat.size(), (7, 9));
    assert_eq!(flat.at(0, 0), 1);
    assert_eq!(flat.at(6, 8), 1);
}

/// The sum of stacked heights wraps around at 32 bits.
#[test]
fn stacked_heights_wrap() {
    let mut img = RgbaImage::new(1, 1);
    img.put_pixel(0, 0, [0xFF; 4]);
    let mut one = RgbaImage::new(1, 1);
    one.put_pixel(0, 0, [0, 0, 0, 3]);
    let map = HeightmapPNG::from_images(vec![img, one], true).expect("same sizes");
    assert_eq!(map.at(0, 0), 2);
}

#[test]
fn gamma_matches_the_transfer_function() {
    for c in 0..=255u8 {
        let cf = (c as f64) / 255.0;
        let linear = if cf > 0.04045 {
            (cf / 1.055 + 0.0521327).powf(2.4) * 255.0
        } else {
            cf / 12.192 * 255.0
        };
        assert_eq!(to_linear_gamma(c), linear as u8, "channel value {c}");
    }
    assert_eq!(to_linear_rgb([255, 128, 10, 77]), [254, 55, 0, 77], "alpha stays");
}

/// The curve rises from 0 and never exceeds its input.
#[test]
fn linear_values_rise_with_the_channel() {
    assert_eq!(to_linear_gamma(0), 0);
    for c in 0..=254u8 {
        assert!(to_linear_gamma(c) <= to_linear_gamma(c + 1));
        assert!(to_linear_gamma(c) <= c);
    }
    assert_eq!((to_linear_gamma(100), to_linear_gamma(255)), (32, 254));
}

#[test]
fn colormaps_convert_unless_linear() {
    let mut img = image::RgbaImage::new(1, 1);
    img.put_pixel(0, 0, image::Rgba([128, 255, 10, 9]));
    let file = png("color", &img);
    let linear = ColormapPNG::new(&file, true).expect("colormap must load");
    assert_eq!(linear.at(0, 0), [128, 255, 10, 9]);
    let converted = ColormapPNG::new(&file, false).expect("colormap must load");
    assert_eq!(converted.at(0, 0), to_linear_rgb([128, 255, 10, 9]));
    assert_eq!(converted.size(), (1, 1));
}

fn flags() -> CliFlags {
    CliFlags {
        size: 1,
        vertical: 1,
        cull: false,
        tile: false,
        smooth: false,
        micro: false,
        stud: false,
        snap: false,
        lrgb: false,
        img: false,
        glow: false,
        hdmap: false,
        nocollide: false,
        greedy: false,
    }
}

fn options() -> GenOptions {
    options_from_flags(flags())
}

#[test]
fn the_heightmap_is_its_own_colormap_by_default() {
    let mut img = image::RgbaImage::new(2, 1);
    img.put_pixel(1, 0, image::Rgba([9, 255, 0, 255]));
    let maps = maps_from_files(&options(), &vec![png("only", &img)], None).expect("maps must load");
    assert!(matches!(&maps.0, LoadedHeightmap::Png(_)));
    assert_eq!(maps.0.at(1, 0), 9);
    assert_eq!(maps.1.at(1, 0), [to_linear_gamma(9), 254, 0, 255]);
}

#[test]
fn image_mode_is_flat_and_as_large_as_the_colormap() {
    let options = options_from_flags(CliFlags { img: true, ..flags() });
    let color = png("color", &image::RgbaImage::new(3, 2));
    let height = ImageFile { name: "h.JPG".to_string(), ext: Some("JPG".to_string()), bytes: None };
    let maps = maps_from_files(&options, &vec![height], Some(&color)).expect("maps must load");
    assert!(matches!(&maps.0, LoadedHeightmap::Flat(_)));
    assert_eq!(maps.0.size(), (3, 2));
}

fn refusal(files: Vec<ImageFile>, color: Option<ImageFile>) -> String {
    maps_from_files(&options(), &files, color.as_ref()).err().expect("must be refused")
}

fn named(name: &str, ext: Option<&str>) -> ImageFile {
    ImageFile { name: name.to_string(), ext: ext.map(str::to_string), bytes: None }
}

#[test]
fn files_are_refused_by_format() {
    let good = || png("good", &image::RgbaImage::new(1, 1));
    assert_eq!(
        refusal(vec![good()], Some(named("c.TIFF", Some("TIFF")))),
        "Unsupported colormap format 'tiff'"
    );
    assert_eq!(refusal(vec![named("noext", None)], None), "Missing colormap format for 'noext'");
    assert_eq!(refusal(vec![], None), "Missing colormap format for ''");
    assert_eq!(
        refusal(vec![good(), named("h.bmp", Some("bmp"))], Some(good())),
        "Unsupported heightmap format"
    );
}

#[test]
fn unreadable_files_are_reported_with_quotes() {
    let good = || png("good", &image::RgbaImage::new(1, 1));
    let missing = refusal(vec![good()], Some(named("gone.png", Some("png"))));
    assert!(missing.starts_with("Error reading colormap: \""), "{missing}");
    assert!(missing.contains("gone.png"), "{missing}");
    let junk = ImageFile { bytes: Some(vec![1, 2, 3]), ..named("junk.png", Some("png")) };
    let bad = refusal(vec![junk], Some(good()));
    assert!(bad.starts_with("Error reading heightmap: \""), "{bad}");
    let small = png("small", &image::RgbaImage::new(1, 1));
    let large = png("large", &image::RgbaImage::new(2, 1));
    assert_eq!(
        refusal(vec![small, large], Some(good())),
        "Error reading heightmap: \"Mismatched heightmap sizes\""
    );
}

#[test]
fn flags_choose_the_brick() {
    let asset = |f: CliFlags| options_from_flags(f).asset;
    assert_eq!(asset(flags()), "PB_DefaultBrick");
    assert_eq!(asset(CliFlags { stud: true, ..flags() }), "PB_DefaultStudded");
    assert_eq!(asset(CliFlags { stud: true, smooth: true, ..flags() }), "PB_DefaultSmoothTile");
    assert_eq!(asset(CliFlags { tile: true, smooth: true, ..flags() }), "PB_DefaultTile");
    assert_eq!(asset(CliFlags { micro: true, tile: true, ..flags() }), "PB_DefaultMicroBrick");
    assert_eq!(options_from_flags(CliFlags { size: 3, ..flags() }).size, 15);
    assert_eq!(options_from_flags(CliFlags { size: 3, micro: true, ..flags() }).size, 3);
}

/// Floor-relative heights are packed as big-endian numbers.
#[test]
fn packed_heights_are_big_endian() {
    assert_eq!(pack_height(66051), [0, 1, 2, 3]);
    assert_eq!(pack_height(u32::MAX), [0xFF; 4]);
    let heights = vec![0, 1, 256, 123_456_789, 70_000, 9];
    let image = pack_heights(3, 2, &heights);
    assert_eq!(unpack_heights(&image), heights);
}

/// Heights that are packed into a picture read back without loss; its luminance would crush them.
#[test]
fn heightmap_png_round_trip_is_lossless() {
    // Heights spanning the usual range, incl 132 m and 192 m.
    let vals = [0.0f32, 7.25, 132.0, 192.0, 50.5, 1.0, 337.0, 15.0, 0.0, 99.9, 200.0, 4.0];
    let scale = HEIGHTMAP_PNG_SCALE as f32;
    let packed = pack_heights(4, 3, &vals.iter().map(|m| (m * scale).round() as u32).collect());
    let img = image::RgbaImage::from_fn(4, 3, |x, y| image::Rgba(packed.get_pixel(x, y)));
    let file = png("round_trip", &img);

    let picture = file.open().expect("exported PNG must open");
    assert_eq!((picture.width, picture.height), (4, 3), "dims preserved");
    let heights = unpack_heights(&picture);
    let map = HeightmapPNG::new(&vec![file], true).expect("heightmap must load");
    for y in 0..3u32 {
        for x in 0..4u32 {
            let i = (y * 4 + x) as usize;
            assert!(
                (heights[i] as f32 / scale - vals[i]).abs() < 0.01,
                "({x},{y}) round-trip lost height"
            );
            assert_eq!(map.at(x, y), heights[i]);
        }
    }

    // Read as 8-bit luminance, 192 m comes out as a single-digit value.
    let luma = image::DynamicImage::ImageRgba8(img).to_luma8();
    assert!(f32::from(luma.get_pixel(3, 0).0[0]) < 50.0, "luminance must crush 192 m");
}

#[test]
fn four_channels_mean_packed_heights() {
    assert_eq!(height_layout(true), HeightLayout::Packed);
    assert_eq!(height_layout(false), HeightLayout::Luminance);
}

#[test]
fn to_heightmap_png_encodes_floor_relative_meters_as_big_endian_u32() {
    // 1.0 m and 2.55 m at 100 units per meter.
    let scaled = |m: f32| (m * HEIGHTMAP_PNG_SCALE as f32).round() as u32;
    let packed = pack_heights(2, 1, &vec![scaled(1.0), scaled(2.55)]);
    assert_eq!((packed.width, packed.height), (2, 1), "image dims must match the field grid");
    assert_eq!(packed.get_pixel(0, 0), [0, 0, 0, 100], "1.0 m * 100 = 100, big-endian");
    assert_eq!(packed.get_pixel(1, 0), [0, 0, 0, 255], "2.55 m * 100 = 255, big-endian");

    // Through a PNG file and the decoder of heightmaps.
    let img = image::RgbaImage::from_fn(2, 1, |x, y| image::Rgba(packed.get_pixel(x, y)));
    let decoded =
        HeightmapPNG::new(&vec![png("export", &img)], true).expect("exported PNG must load");
    assert_eq!(decoded.at(0, 0), 100, "decoder must recover 1.0 m * 100");
    assert_eq!(decoded.at(1, 0), 255, "decoder must recover 2.55 m * 100");
}

#[test]
fn sample_cell_meters_reads_nearest_cell() {
    let meters = [0.0_f32, 10.0, 20.0, 30.0, 40.0, 50.0];
    let f = CellField { width: 3, height: 2, cells: meters.iter().map(|m| m.to_bits()).collect() };
    let sample = |fx: f32, fy: f32| {
        f32::from_bits(f.sample_cell(fx.floor() as i64, fy.floor() as i64))
    };

    // Integer-cell hits read that cell's meters exactly.
    assert_eq!(sample(0.0, 0.0), 0.0);
    assert_eq!(sample(2.0, 1.0), 50.0);
    // Fractional pointer inside a cell floors to that cell (nearest-cell).
    assert_eq!(sample(1.7, 0.2), 10.0, "x=1.7 floors to cell 1");
    assert_eq!(sample(1.9, 1.9), 40.0, "1.9,1.9 floors to cell (1,1)");
    // Off-grid (negative / beyond the last cell) clamps to the nearest cell.
    assert_eq!(sample(-5.0, -5.0), 0.0, "negative clamps to (0,0)");
    assert_eq!(sample(99.0, 99.0), 50.0, "beyond-edge clamps to (2,1)");
}

/// A file with the bytes of a picture in a format.
fn encoded(name: &str, ext: &str, img: image::DynamicImage, format: image::ImageFormat) -> ImageFile {
    let mut bytes = Cursor::new(Vec::new());
    img.write_to(&mut bytes, format).expect("test picture must encode");
    ImageFile {
        name: name.to_string(),
        ext: Some(ext.to_string()),
        bytes: Some(bytes.into_inner()),
    }
}

fn gray(width: u32, height: u32, levels: &[u8]) -> image::DynamicImage {
    let img = image::GrayImage::from_raw(width, height, levels.to_vec());
    image::DynamicImage::ImageLuma8(img.expect("a level per pixel"))
}

/// An animated PNG shows its first picture.
#[test]
fn apng_files_are_png_files() {
    let file = encoded("moving", "Apng", gray(2, 1, &[10, 20]), image::ImageFormat::Png);
    let picture = file.open().expect("an APNG must open");
    assert_eq!(picture.pixels, vec![[10, 10, 10, 255], [20, 20, 20, 255]]);
}

#[test]
fn jpeg_files_open_with_their_size() {
    let file = || {
        encoded("photo", "JPG", gray(5, 3, &[77; 15]), image::ImageFormat::Jpeg)
    };
    let picture = file().open().expect("a JPEG must open");
    assert_eq!((picture.width, picture.height), (5, 3));
    assert_eq!(picture.pixels.len(), 15);
    let map = HeightmapPNG::new(&vec![file()], false).expect("a JPEG heightmap must load");
    assert_eq!(map.size(), (5, 3));

    let mut cut = file();
    cut.bytes = Some(vec![0xFF, 0xD8, 0xFF]);
    assert!(cut.open().is_none(), "a signature alone is no picture");
    assert!(cut.read().is_err());
    let mut missing = file();
    missing.bytes = None;
    assert_eq!(missing.read().err().as_deref(), Some("The file could not be read"));
    let mut unknown = file();
    unknown.ext = Some("xyz".to_string());
    let text = unknown.read().err();
    assert_eq!(text.as_deref(), Some("The image format could not be determined"));
}

/// Four channels hold packed heights; anything else is read by its luminance.
#[test]
fn heights_load_by_their_channels() {
    let mut img = image::RgbaImage::new(2, 1);
    img.put_pixel(0, 0, image::Rgba([0, 0, 75, 0]));
    img.put_pixel(1, 0, image::Rgba([0, 1, 2, 3]));
    let packed = load_heights(&png("packed", &img)).expect("packed heights must load");
    assert_eq!(packed.layout, HeightLayout::Packed);
    assert_eq!((packed.width, packed.height), (2, 1));
    assert_eq!(packed.heights, vec![19_200, 66_051]);

    let levels = encoded("levels", "png", gray(3, 1, &[0, 132, 255]), image::ImageFormat::Png);
    let shaded = load_heights(&levels).expect("luminance must load");
    assert_eq!(shaded.layout, HeightLayout::Luminance);
    assert_eq!((shaded.width, shaded.height), (3, 1));
    assert_eq!(shaded.heights, vec![0, 132, 255]);

    let photo = encoded("photo", "jpeg", gray(4, 2, &[50; 8]), image::ImageFormat::Jpeg);
    let photo = load_heights(&photo).expect("a JPEG must load");
    assert_eq!(photo.layout, HeightLayout::Luminance);
    assert_eq!((photo.width, photo.height), (4, 2));
    assert_eq!(photo.heights.len(), 8);
    assert!(photo.heights.iter().all(|&h| h <= 255));
}

#[test]
fn heights_of_unreadable_files_are_refused() {
    let refused = |file: ImageFile| load_heights(&file).err().expect("must be refused");
    assert_eq!(
        refused(named("gone", Some("png"))),
        "could not read image: The file could not be read"
    );
    let mut odd = named("odd", Some("xyz"));
    odd.bytes = Some(vec![1, 2, 3]);
    assert_eq!(refused(odd), "could not read image: The image format could not be determined");
    let mut broken = named("broken", Some("png"));
    broken.bytes = Some(vec![1, 2, 3]);
    let text = refused(broken);
    assert!(text.starts_with("could not read image: ") && text.len() > 22, "got {text}");
}

/// Heights that are written to a file load back as they were.
#[test]
fn written_heights_load_back() {
    let heights = vec![0, 725, 19_200, u32::MAX, 100, 33_700];
    let bytes = heightmap_file(3, 2, &heights).expect("heights must be written");
    assert_eq!(bytes[..4], [0x89, b'P', b'N', b'G']);
    let file = ImageFile {
        name: "written".to_string(),
        ext: Some("PNG".to_string()),
        bytes: Some(bytes),
    };
    let loaded = load_heights(&file).expect("written heights must load");
    assert_eq!(loaded.layout, HeightLayout::Packed);
    assert_eq!((loaded.width, loaded.height), (3, 2));
    assert_eq!(loaded.heights, heights);
}
