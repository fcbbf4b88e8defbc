//! Heights in the channels of a picture, for exchange as a heightmap image.
use super::snapshot::CellField;
use crate::files::{luma_of, png_of, ImageFile, LumaImage};
use crate::map::{pixel_height, Heightmap, HeightmapPNG, RgbaImage};
use vstd::prelude::*;
use vstd::string::StringExecFns;

verus! {

/// Units that a packed heightmap counts a meter as.
pub const HEIGHTMAP_PNG_SCALE: u32 = 100;

/// How the heights of a loaded picture are stored.
#[derive(Clone, Copy, Debug, PartialEq, Eq, Structural)]
pub enum HeightLayout {
    /// Packed into the four channels.
    Packed,
    /// As luminance, in meters.
    Luminance,
}

/// Tell how the heights of a picture are stored by its channels: a picture with all four channels is
/// a packed heightmap, any other is read by its luminance.
pub fn height_layout(is_rgba: bool) -> (layout: HeightLayout)
    ensures
        layout == if is_rgba {
            HeightLayout::Packed
        } else {
            HeightLayout::Luminance
        },
{
    if is_rgba {
        HeightLayout::Packed
    } else {
        HeightLayout::Luminance
    }
}

/// The channels of a number, most significant one first.
pub fn pack_height(h: u32) -> (p: [u8; 4])
    ensures
        crate::map::encoded_height(p) == h,
{
    [
        (h / 0x100_0000) as u8,
        (h / 0x1_0000 % 0x100) as u8,
        (h / 0x100 % 0x100) as u8,
        (h % 0x100) as u8,
    ]
}

/// The number in the channels of a pixel, most significant one first.
pub fn unpack_height(p: [u8; 4]) -> (h: u32)
    ensures
        h == crate::map::encoded_height(p),
{
    pixel_height(p, true)
}

/// The picture holds these heights, row by row.
pub open spec fn packs(image: RgbaImage, width: u32, height: u32, heights: Seq<u32>) -> bool {
    &&& image.wf()
    &&& image.width == width
    &&& image.height == height
    &&& forall|i: int|
        0 <= i < heights.len() ==> #[trigger] crate::map::encoded_height(image.pixels@[i])
            == heights[i]
}

/// Pack heights, given row by row, into a picture.
pub fn pack_heights(width: u32, height: u32, heights: &Vec<u32>) -> (image: RgbaImage)
    requires
        heights@.len() == width * height,
    ensures
        packs(image, width, height, heights@),
{
    let mut pixels: Vec<[u8; 4]> = Vec::new();
    let mut i: usize = 0;
    while i < heights.len()
        invariant
            i <= heights@.len(),
            pixels@.len() == i,
            forall|j: int|
                0 <= j < i ==> #[trigger] crate::map::encoded_height(pixels@[j]) == heights@[j],
        decreases heights@.len() - i,
    {
        pixels.push(pack_height(heights[i]));
        i = i + 1;
    }
    RgbaImage { width, height, pixels }
}

/// The heights that a picture holds, row by row.
pub fn unpack_heights(image: &RgbaImage) -> (heights: Vec<u32>)
    ensures
        heights@.len() == image.pixels@.len(),
        forall|i: int|
            0 <= i < heights@.len() ==> #[trigger] heights@[i] == crate::map::encoded_height(
                image.pixels@[i],
            ),
{
    let mut heights: Vec<u32> = Vec::new();
    let mut i: usize = 0;
    while i < image.pixels.len()
        invariant
            i <= image.pixels@.len(),
            heights@.len() == i,
            forall|j: int|
                0 <= j < i ==> #[trigger] heights@[j] == crate::map::encoded_height(
                    image.pixels@[j],
                ),
        decreases image.pixels@.len() - i,
    {
        heights.push(unpack_height(image.pixels[i]));
        i = i + 1;
    }
    heights
}

/// Heights that a picture file holds, row by row.
#[derive(Debug)]
pub struct LoadedHeights {
    /// What the heights count: packed ones count [`HEIGHTMAP_PNG_SCALE`] to the meter, those of a
    /// luminance picture count meters.
    pub layout: HeightLayout,
    pub width: u32,
    pub height: u32,
    pub heights: Vec<u32>,
}

impl LoadedHeights {
    /// These are the heights, in a grid of this size.
    pub open spec fn holds(
        &self,
        layout: HeightLayout,
        size: (u32, u32),
        heights: Seq<u32>,
    ) -> bool {
        self.layout == layout && (self.width, self.height) == size && self.heights@ == heights
    }
}

/// The message about a file that cannot be read.
pub open spec fn unreadable_text(reason: Seq<char>) -> Seq<char> {
    "could not read image: "@ + reason
}

/// The heights that pixels are packed with.
pub open spec fn unpacked(pixels: Seq<[u8; 4]>) -> Seq<u32> {
    Seq::new(pixels.len(), |i: int| crate::map::encoded_height(pixels[i]) as u32)
}

/// The heights that luminance stands for.
pub open spec fn shaded(luma: Seq<u8>) -> Seq<u32> {
    Seq::new(luma.len(), |i: int| luma[i] as u32)
}

/// What loading heights from a picture of this size, or from one that fails to decode, comes to:
/// the decoder's error, a refusal where a side is 0, or heights of which `right` is asked.
pub open spec fn sized_outcome(
    size: Result<(u32, u32), Seq<char>>,
    loaded: Result<LoadedHeights, String>,
    right: spec_fn(LoadedHeights) -> bool,
) -> bool {
    match size {
        Err(e) => loaded matches Err(text) && text@ == unreadable_text(e),
        Ok((width, height)) => if width == 0 || height == 0 {
            loaded matches Err(text) && text@ == "image has zero dimensions"@
        } else {
            loaded matches Ok(h) && right(h)
        },
    }
}

/// What loading heights from PNG bytes comes to: heights that are packed into the four channels
/// where the picture has all of them, and its luminance where it has not.
pub open spec fn is_png_outcome(bytes: Seq<u8>, loaded: Result<LoadedHeights, String>) -> bool {
    sized_outcome(
        crate::files::png_size(bytes),
        loaded,
        |h: LoadedHeights| match (crate::files::decoded_png(bytes), crate::files::luma_of_png(bytes)) {
            (Ok((width, height, pixels)), Ok((kind, _, luma))) => if crate::files::is_rgba(
                kind.0,
                kind.1,
            ) {
                h.holds(HeightLayout::Packed, (width, height), unpacked(pixels))
            } else {
                h.holds(HeightLayout::Luminance, (width, height), shaded(luma))
            },
            _ => false,
        },
    )
}

/// What loading heights from JPEG bytes comes to: the luminance that the decoder gave.
pub open spec fn is_jpeg_outcome(bytes: Seq<u8>, loaded: Result<LoadedHeights, String>) -> bool {
    sized_outcome(
        crate::files::jpeg_size(bytes),
        loaded,
        |h: LoadedHeights|
            {
                &&& h.layout == HeightLayout::Luminance
                &&& Ok::<(u32, u32), Seq<char>>((h.width, h.height)) == crate::files::jpeg_size(
                    bytes,
                )
                &&& h.heights@.len() == h.width * h.height
                &&& exists|luma: LumaImage|
                    crate::files::is_decoded_luma(
                        bytes,
                        crate::files::PictureFormat::Jpeg,
                        Ok(luma),
                    ) && h.heights@ == #[trigger] shaded(luma.pixels@)
            },
    )
}

/// What loading heights from a file comes to.
pub open spec fn is_heights_outcome(file: ImageFile, loaded: Result<LoadedHeights, String>) -> bool {
    match (file.bytes, file.format()) {
        (None, _) => loaded matches Err(text) && text@ == unreadable_text(
            crate::files::NO_BYTES_MSG@,
        ),
        (_, None) => loaded matches Err(text) && text@ == unreadable_text(
            crate::files::NO_FORMAT_MSG@,
        ),
        (Some(bytes), Some(crate::files::PictureFormat::Png)) => is_png_outcome(bytes@, loaded),
        (Some(bytes), Some(crate::files::PictureFormat::Jpeg)) => is_jpeg_outcome(bytes@, loaded),
    }
}

fn unreadable(reason: &str) -> (text: String)
    ensures
        text@ == unreadable_text(reason@),
{
    let mut text: String = "could not read image: ".to_owned();
    text.append(reason);
    text
}

fn widen(luma: &Vec<u8>) -> (heights: Vec<u32>)
    ensures
        heights@ == shaded(luma@),
{
    let mut heights: Vec<u32> = Vec::new();
    let mut i: usize = 0;
    while i < luma.len()
        invariant
            i <= luma@.len(),
            heights@ == shaded(luma@.take(i as int)),
        decreases luma@.len() - i,
    {
        heights.push(luma[i] as u32);
        i = i + 1;
        assert(heights@ =~= shaded(luma@.take(i as int)));
    }
    assert(luma@.take(i as int) =~= luma@);
    heights
}

/// Load the heights that a picture file holds: packed ones where the picture has all four channels,
/// its luminance otherwise.
pub fn load_heights(file: &ImageFile) -> (loaded: Result<LoadedHeights, String>)
    ensures
        is_heights_outcome(*file, loaded),
{
    let (bytes, format) = match file.contents() {
        Ok(found) => found,
        Err(e) => {
            return Err(unreadable(e.as_str()));
        },
    };
    let luma: LumaImage = match luma_of(bytes, format) {
        Ok(p) => p,
        Err(e) => {
            return Err(unreadable(e.as_str()));
        },
    };
    if luma.width == 0 || luma.height == 0 {
        return Err("image has zero dimensions".to_owned());
    }
    let layout: HeightLayout = height_layout(luma.channels == 4 && luma.pixel_bytes <= 8);
    let heights: Vec<u32> = match layout {
        HeightLayout::Luminance => widen(&luma.pixels),
        HeightLayout::Packed => match file.read() {
            Ok(picture) => {
                let heights: Vec<u32> = unpack_heights(&picture);
                assert(heights@ =~= unpacked(picture.pixels@));
                heights
            },
            Err(e) => {
                return Err(unreadable(e.as_str()));
            },
        },
    };
    Ok(LoadedHeights { layout, width: luma.width, height: luma.height, heights })
}

/// The file of a heightmap picture with these heights, as bytes in the PNG format.
pub open spec fn is_heightmap_file(
    width: u32,
    height: u32,
    heights: Seq<u32>,
    bytes: Result<Vec<u8>, String>,
) -> bool {
    exists|image: RgbaImage| #[trigger]
        packs(image, width, height, heights) && crate::files::reads_back(image, bytes)
}

/// The bytes, or the error, that writing a heightmap picture with these heights gave.
pub open spec fn is_written_heightmap(
    width: u32,
    height: u32,
    heights: Seq<u32>,
    bytes: Result<Vec<u8>, String>,
) -> bool {
    exists|image: RgbaImage| #[trigger]
        packs(image, width, height, heights) && crate::files::is_encoded_png(&image, bytes)
}

/// Write heights, given row by row, as a heightmap picture in the PNG format.
pub fn heightmap_file(width: u32, height: u32, heights: &Vec<u32>) -> (bytes: Result<
    Vec<u8>,
    String,
>)
    requires
        heights@.len() == width * height,
        heights@.len() * 4 <= isize::MAX,
    ensures
        is_written_heightmap(width, height, heights@, bytes),
        heights@.len() > 0 ==> bytes is Ok,
        0 < heights@.len() <= crate::files::SURE_PIXELS ==> is_heightmap_file(
            width,
            height,
            heights@,
            bytes,
        ),
{
    let image: RgbaImage = pack_heights(width, height, heights);
    let bytes: Result<Vec<u8>, String> = png_of(&image);
    assert(packs(image, width, height, heights@));
    bytes
}

/// Heights that are written to a file load from it as they were, whatever the file is called, as
/// long as its extension stands for the PNG format.
pub proof fn written_heights_load_back(
    width: u32,
    height: u32,
    heights: Seq<u32>,
    file: ImageFile,
    loaded: Result<LoadedHeights, String>,
)
    requires
        heights.len() == width * height > 0,
        file.bytes is Some,
        is_heightmap_file(width, height, heights, Ok(file.bytes->0)),
        file.format() == Some(crate::files::PictureFormat::Png),
        is_heights_outcome(file, loaded),
    ensures
        loaded matches Ok(h) && h.holds(HeightLayout::Packed, (width, height), heights),
{
    let bytes: Result<Vec<u8>, String> = Ok(file.bytes->0);
    let image = choose|image: RgbaImage| #[trigger]
        packs(image, width, height, heights) && crate::files::reads_back(image, bytes);
    assert(unpacked(image.pixels@) =~= heights);
    assert(width > 0 && height > 0) by (nonlinear_arith)
        requires
            width * height > 0,
            width >= 0,
            height >= 0,
    ;
}

/// Packing is lossless: a heightmap made of the packed picture has every height that went in.
pub proof fn packed_heights_read_back(
    image: RgbaImage,
    width: u32,
    height: u32,
    heights: Seq<u32>,
    map: HeightmapPNG,
    x: int,
    y: int,
)
    requires
        heights.len() == width * height,
        packs(image, width, height, heights),
        map.shows(seq![image], true),
        0 <= x < width,
        0 <= y < height,
    ensures
        map.dims() == (width, height),
        map.height_at(x, y) == heights[y * width + x],
{
    let pictures = seq![image];
    crate::map::lemma_cell_index(x, y, width as int, height as int);
    assert(pictures.drop_last() =~= Seq::<RgbaImage>::empty());
    reveal_with_fuel(crate::map::total_height, 2);
    assert(crate::map::encoded_height(image.pixels@[y * width + x]) == heights[y * width + x]);
    assert(map.height_at(x, y) == crate::map::wrapped_height(
        crate::map::total_height(pictures, true, x, y),
    ));
}

impl CellField {
    /// A blank canvas: every cell at the floor.
    pub fn flat(width: u32, height: u32) -> (field: Self)
        requires
            width * height <= usize::MAX,
        ensures
            field.wf(),
            field.width == width,
            field.height == height,
            forall|i: int| 0 <= i < field.cells@.len() ==> #[trigger] field.cells@[i] == 0,
    {
        assert(0 <= width * height) by (nonlinear_arith);
        let cells: Vec<u32> = vec![0u32; width as usize * height as usize];
        CellField { width, height, cells }
    }

    /// The cell of the field that is nearest to a cell of the plane, along one axis.
    pub open spec fn nearest_on_axis(at: int, extent: int) -> int {
        if at < 0 {
            0
        } else if at >= extent {
            extent - 1
        } else {
            at
        }
    }

    /// Height of the cell of the field that is nearest to a cell of the plane.
    pub open spec fn sample(&self, x: int, y: int) -> u32 {
        self.cells@[CellField::nearest_on_axis(y, self.height as int) * self.width
            + CellField::nearest_on_axis(x, self.width as int)]
    }

    /// The height at a cell; a cell outside the field reads the nearest one inside.
    pub fn sample_cell(&self, x: i64, y: i64) -> (h: u32)
        requires
            self.wf(),
            self.width > 0,
            self.height > 0,
        ensures
            h == self.sample(x as int, y as int),
    {
        let cx: u32 = if x < 0 {
            0
        } else if x >= self.width as i64 {
            self.width - 1
        } else {
            x as u32
        };
        let cy: u32 = if y < 0 {
            0
        } else if y >= self.height as i64 {
            self.height - 1
        } else {
            y as u32
        };
        proof {
            crate::map::lemma_cell_index(
                cx as int,
                cy as int,
                self.width as int,
                self.height as int,
            );
            assert(self.cells.len() <= usize::MAX);
        }
        self.cells[cy as usize * self.width as usize + cx as usize]
    }
}

/// A cell inside the field reads itself, and one outside reads the nearest cell inside, at the edge that it
/// lies beyond.
pub proof fn samples_read_the_nearest_cell(field: CellField, x: int, y: int)
    requires
        0 < field.width,
        0 < field.height,
    ensures
        ({
            let nx = CellField::nearest_on_axis(x, field.width as int);
            let ny = CellField::nearest_on_axis(y, field.height as int);
            &&& field.sample(x, y) == field.cells@[ny * field.width + nx]
            &&& 0 <= nx < field.width
            &&& 0 <= ny < field.height
            &&& 0 <= x < field.width ==> nx == x
            &&& 0 <= y < field.height ==> ny == y
            &&& x < 0 ==> nx == 0
            &&& y < 0 ==> ny == 0
            &&& x >= field.width ==> nx == field.width - 1
            &&& y >= field.height ==> ny == field.height - 1
        }),
{
}

/// Luminance counts as it is: each height is the brightness of its pixel.
pub proof fn luminance_counts_as_it_is(luma: Seq<u8>, i: int)
    requires
        0 <= i < luma.len(),
    ensures
        shaded(luma).len() == luma.len(),
        shaded(luma)[i] == luma[i],
{
}

} // verus!
