//! Height and color grids.
use crate::color::to_linear_rgb;
use crate::files::ImageFile;
use vstd::prelude::*;
use vstd::string::StringExecFns;

verus! {

/// A grid of heights, read by column `x` and row `y`.
pub trait Heightmap {
    /// Columns and rows of the grid.
    spec fn dims(&self) -> (u32, u32);

    /// Height of a cell.
    spec fn height_at(&self, x: int, y: int) -> u32;

    fn at(&self, x: u32, y: u32) -> (h: u32)
        requires
            x < self.dims().0,
            y < self.dims().1,
        ensures
            h == self.height_at(x as int, y as int),
    ;

    fn size(&self) -> (s: (u32, u32))
        ensures
            s == self.dims(),
    ;
}

/// A grid of RGBA colors, read by column `x` and row `y`.
pub trait Colormap {
    /// Columns and rows of the grid.
    spec fn dims(&self) -> (u32, u32);

    /// Color of a cell.
    spec fn color_at(&self, x: int, y: int) -> [u8; 4];

    fn at(&self, x: u32, y: u32) -> (c: [u8; 4])
        requires
            x < self.dims().0,
            y < self.dims().1,
        ensures
            c == self.color_at(x as int, y as int),
    ;

    fn size(&self) -> (s: (u32, u32))
        ensures
            s == self.dims(),
    ;
}

/// A picture as rows of RGBA pixels.
pub struct RgbaImage {
    pub width: u32,
    pub height: u32,
    /// Row-major pixels.
    pub pixels: Vec<[u8; 4]>,
}

impl View for RgbaImage {
    type V = (u32, u32, Seq<[u8; 4]>);

    open spec fn view(&self) -> (u32, u32, Seq<[u8; 4]>) {
        (self.width, self.height, self.pixels@)
    }
}

impl RgbaImage {
    /// Every pixel of the picture is there.
    pub open spec fn wf(&self) -> bool {
        self.pixels@.len() == self.width * self.height
    }

    /// The pixel in column `x` and row `y`.
    pub open spec fn pixel(&self, x: int, y: int) -> [u8; 4] {
        self.pixels@[y * self.width + x]
    }

    /// A picture whose channels are all zero.
    pub fn new(width: u32, height: u32) -> (image: Self)
        requires
            width * height <= usize::MAX,
        ensures
            image.wf(),
            image.width == width,
            image.height == height,
            image.pixels@ == Seq::new((width * height) as nat, |i: int| [0u8, 0u8, 0u8, 0u8]),
    {
        assert(0 <= width * height) by (nonlinear_arith);
        let count: usize = width as usize * height as usize;
        let mut pixels: Vec<[u8; 4]> = Vec::with_capacity(count);
        while pixels.len() < count
            invariant
                pixels@.len() <= count,
                pixels@ == Seq::new(pixels@.len(), |i: int| [0u8, 0u8, 0u8, 0u8]),
            decreases count - pixels@.len(),
        {
            pixels.push([0, 0, 0, 0]);
        }
        RgbaImage { width, height, pixels }
    }

    pub fn get_pixel(&self, x: u32, y: u32) -> (p: [u8; 4])
        requires
            self.wf(),
            x < self.width,
            y < self.height,
        ensures
            p == self.pixel(x as int, y as int),
    {
        proof {
            lemma_cell_index(x as int, y as int, self.width as int, self.height as int);
            assert(self.pixels.len() <= usize::MAX);
        }
        self.pixels[y as usize * self.width as usize + x as usize]
    }

    pub fn put_pixel(&mut self, x: u32, y: u32, p: [u8; 4])
        requires
            old(self).wf(),
            x < old(self).width,
            y < old(self).height,
        ensures
            final(self).wf(),
            final(self).width == old(self).width,
            final(self).height == old(self).height,
            final(self).pixels@ == old(self).pixels@.update(y * old(self).width + x, p),
    {
        proof {
            lemma_cell_index(x as int, y as int, self.width as int, self.height as int);
            assert(self.pixels.len() <= usize::MAX);
        }
        self.pixels[y as usize * self.width as usize + x as usize] = p;
    }
}

/// The row-major index of a cell lies in the grid.
pub proof fn lemma_cell_index(x: int, y: int, width: int, height: int)
    requires
        0 <= x < width,
        0 <= y < height,
    ensures
        0 <= y * width,
        0 <= y * width + x < width * height,
        y * width + width <= width * height,
{
    assert(0 <= y * width && y * width + width <= width * height) by (nonlinear_arith)
        requires
            0 <= x < width,
            0 <= y < height,
    ;
}

/// Distinct cells have distinct row-major indices.
pub proof fn lemma_cell_index_unique(x: int, y: int, a: int, b: int, width: int)
    requires
        0 <= x < width,
        0 <= a < width,
        y * width + x == b * width + a,
    ensures
        x == a,
        y == b,
{
    vstd::arithmetic::div_mod::lemma_fundamental_div_mod_converse(
        y * width + x,
        width,
        y,
        x,
    );
    vstd::arithmetic::div_mod::lemma_fundamental_div_mod_converse(
        b * width + a,
        width,
        b,
        a,
    );
}

/// Every row-major index is that of a cell.
pub proof fn lemma_cell_of_index(i: int, width: int, height: int)
    requires
        0 <= i < width * height,
        0 <= width,
    ensures
        0 <= i % width < width,
        0 <= i / width < height,
        i / width * width + i % width == i,
{
    assert(width > 0) by (nonlinear_arith)
        requires
            0 <= i < width * height,
            0 <= width,
    ;
    vstd::arithmetic::div_mod::lemma_fundamental_div_mod(i, width);
    vstd::arithmetic::mul::lemma_mul_is_commutative(width, i / width);
    vstd::arithmetic::mul::lemma_mul_is_commutative(width, height);
    vstd::arithmetic::div_mod::lemma_div_pos_is_pos(i, width);
    vstd::arithmetic::div_mod::lemma_mod_bound(i, width);
    vstd::arithmetic::div_mod::lemma_multiply_divide_lt(i, width, height);
}

/// A completely flat heightmap
pub struct HeightmapFlat {
    width: u32,
    height: u32,
}

impl Heightmap for HeightmapFlat {
    closed spec fn dims(&self) -> (u32, u32) {
        (self.width, self.height)
    }

    open spec fn height_at(&self, x: int, y: int) -> u32 {
        1
    }

    fn at(&self, _x: u32, _y: u32) -> (h: u32) {
        1
    }

    fn size(&self) -> (s: (u32, u32)) {
        (self.width, self.height)
    }
}

impl HeightmapFlat {
    pub fn new(size: (u32, u32)) -> (map: Result<Self, String>)
        ensures
            map matches Ok(m) && m.dims() == size,
    {
        Ok(HeightmapFlat { width: size.0, height: size.1 })
    }
}

/// A pixel read as a number, most significant channel first.
pub open spec fn encoded_height(p: [u8; 4]) -> int {
    p[0] * 0x100_0000 + p[1] * 0x1_0000 + p[2] * 0x100 + p[3]
}

/// Height that one picture gives to a cell: all four channels where heights are encoded in them,
/// otherwise the red channel.
pub open spec fn picture_height(picture: RgbaImage, rgba_encoded: bool, x: int, y: int) -> int {
    if rgba_encoded {
        encoded_height(picture.pixel(x, y))
    } else {
        picture.pixel(x, y)[0] as int
    }
}

/// Sum of the heights that the pictures give to a cell.
pub open spec fn total_height(
    pictures: Seq<RgbaImage>,
    rgba_encoded: bool,
    x: int,
    y: int,
) -> int
    decreases pictures.len(),
{
    if pictures.len() == 0 {
        0
    } else {
        total_height(pictures.drop_last(), rgba_encoded, x, y) + picture_height(
            pictures.last(),
            rgba_encoded,
            x,
            y,
        )
    }
}

/// A sum of heights as a 32-bit number; it wraps around.
pub open spec fn wrapped_height(total: int) -> u32 {
    (total % 0x1_0000_0000) as u32
}

/// The pictures have the size of the first one.
pub open spec fn same_sizes(pictures: Seq<RgbaImage>) -> bool {
    forall|i: int|
        0 <= i < pictures.len() ==> (#[trigger] pictures[i]).width == pictures[0].width
            && pictures[i].height == pictures[0].height
}

/// Every picture of the list is complete.
pub open spec fn all_wf(pictures: Seq<RgbaImage>) -> bool {
    forall|i: int| 0 <= i < pictures.len() ==> (#[trigger] pictures[i]).wf()
}

/// A heightmap whose heights are sums over equally sized pictures.
pub struct HeightmapPNG {
    maps: Vec<RgbaImage>,
    rgba_encoded: bool,
}

impl HeightmapPNG {
    #[verifier::type_invariant]
    spec fn inv(&self) -> bool {
        &&& self.maps@.len() > 0
        &&& all_wf(self.maps@)
        &&& same_sizes(self.maps@)
    }

    /// Build a heightmap from pictures: there has to be one, and all have to be equally large.
    pub fn from_images(maps: Vec<RgbaImage>, rgba_encoded: bool) -> (map: Result<Self, String>)
        requires
            all_wf(maps@),
        ensures
            maps@.len() == 0 ==> (map matches Err(e) && e@
                == "HeightmapPNG requires at least one image"@),
            maps@.len() > 0 && !same_sizes(maps@) ==> (map matches Err(e) && e@
                == "Mismatched heightmap sizes"@),
            maps@.len() > 0 && same_sizes(maps@) ==> (map matches Ok(m) && m.shows(
                maps@,
                rgba_encoded,
            )),
    {
        if maps.len() == 0 {
            return Err("HeightmapPNG requires at least one image".to_owned());
        }
        let height: u32 = maps[0].height;
        let width: u32 = maps[0].width;
        let mut i: usize = 0;
        while i < maps.len()
            invariant
                i <= maps@.len(),
                maps@.len() > 0,
                width == maps@[0].width,
                height == maps@[0].height,
                forall|j: int|
                    0 <= j < i ==> (#[trigger] maps@[j]).width == width && maps@[j].height
                        == height,
            decreases maps@.len() - i,
        {
            if maps[i].height != height || maps[i].width != width {
                assert(!same_sizes(maps@));
                return Err("Mismatched heightmap sizes".to_owned());
            }
            i = i + 1;
        }
        Ok(HeightmapPNG { maps, rgba_encoded })
    }

    /// The heightmap stands for these pictures.
    pub open spec fn shows(&self, pictures: Seq<RgbaImage>, rgba_encoded: bool) -> bool {
        &&& self.dims() == (pictures[0].width, pictures[0].height)
        &&& forall|x: int, y: int| #[trigger]
            self.height_at(x, y) == wrapped_height(total_height(pictures, rgba_encoded, x, y))
    }
}

pub(crate) fn pixel_height(p: [u8; 4], rgba_encoded: bool) -> (h: u32)
    ensures
        h == if rgba_encoded {
            encoded_height(p)
        } else {
            p[0] as int
        },
{
    if rgba_encoded {
        p[0] as u32 * 0x100_0000 + p[1] as u32 * 0x1_0000 + p[2] as u32 * 0x100 + p[3] as u32
    } else {
        p[0] as u32
    }
}

impl Heightmap for HeightmapPNG {
    closed spec fn dims(&self) -> (u32, u32) {
        (self.maps@[0].width, self.maps@[0].height)
    }

    closed spec fn height_at(&self, x: int, y: int) -> u32 {
        wrapped_height(total_height(self.maps@, self.rgba_encoded, x, y))
    }

    fn at(&self, x: u32, y: u32) -> (h: u32) {
        proof {
            use_type_invariant(self);
        }
        let mut sum: u32 = 0;
        let mut i: usize = 0;
        while i < self.maps.len()
            invariant
                i <= self.maps@.len(),
                self.inv(),
                x < self.maps@[0].width,
                y < self.maps@[0].height,
                sum == total_height(
                    self.maps@.take(i as int),
                    self.rgba_encoded,
                    x as int,
                    y as int,
                ) % 0x1_0000_0000,
            decreases self.maps@.len() - i,
        {
            let next: u32 = pixel_height(self.maps[i].get_pixel(x, y), self.rgba_encoded);
            proof {
                let so_far = total_height(
                    self.maps@.take(i as int),
                    self.rgba_encoded,
                    x as int,
                    y as int,
                );
                assert(self.maps@.take(i + 1).drop_last() =~= self.maps@.take(i as int));
                assert((so_far + next) % 0x1_0000_0000 == (sum + next) % 0x1_0000_0000);
            }
            sum = sum.wrapping_add(next);
            i = i + 1;
        }
        assert(self.maps@.take(i as int) =~= self.maps@);
        sum
    }

    fn size(&self) -> (s: (u32, u32)) {
        proof {
            use_type_invariant(self);
        }
        (self.maps[0].width, self.maps[0].height)
    }
}

/// A colormap that reads a picture.
pub struct ColormapPNG {
    source: RgbaImage,
    lrgb: bool,
}

impl ColormapPNG {
    #[verifier::type_invariant]
    spec fn inv(&self) -> bool {
        self.source.wf()
    }

    /// Build a colormap from a picture whose colors are linear (`lrgb`) or sRGB.
    pub fn from_image(source: RgbaImage, lrgb: bool) -> (map: Self)
        requires
            source.wf(),
        ensures
            map.shows(source, lrgb),
    {
        ColormapPNG { source, lrgb }
    }

    /// The colormap stands for this picture.
    pub open spec fn shows(&self, source: RgbaImage, lrgb: bool) -> bool {
        &&& self.dims() == (source.width, source.height)
        &&& forall|x: int, y: int| #[trigger]
            self.color_at(x, y) == if lrgb {
                source.pixel(x, y)
            } else {
                crate::color::linear_rgb(source.pixel(x, y))
            }
    }
}

impl Colormap for ColormapPNG {
    closed spec fn dims(&self) -> (u32, u32) {
        (self.source.width, self.source.height)
    }

    closed spec fn color_at(&self, x: int, y: int) -> [u8; 4] {
        if self.lrgb {
            self.source.pixel(x, y)
        } else {
            crate::color::linear_rgb(self.source.pixel(x, y))
        }
    }

    fn at(&self, x: u32, y: u32) -> (c: [u8; 4]) {
        proof {
            use_type_invariant(self);
        }
        if self.lrgb {
            self.source.get_pixel(x, y)
        } else {
            to_linear_rgb(self.source.get_pixel(x, y))
        }
    }

    fn size(&self) -> (s: (u32, u32)) {
        (self.source.width, self.source.height)
    }
}

/// The outcomes of opening files in order, up to the first that shows no picture.
pub open spec fn are_opened(files: Seq<ImageFile>, pictures: Seq<Option<RgbaImage>>) -> bool {
    &&& pictures.len() <= files.len()
    &&& forall|i: int|
        0 <= i < pictures.len() ==> (#[trigger] files[i]).may_open_as(pictures[i])
    &&& forall|i: int| 0 <= i < pictures.len() - 1 ==> #[trigger] pictures[i] is Some
    &&& pictures.len() < files.len() ==> pictures.len() > 0 && pictures.last() is None
}

/// The pictures of a list in which none is missing.
pub open spec fn present(pictures: Seq<Option<RgbaImage>>) -> Seq<RgbaImage> {
    pictures.map_values(|p: Option<RgbaImage>| p->0)
}

/// The message about a file that shows no picture.
pub open spec fn unopened_text(name: Seq<char>) -> Seq<char> {
    "Could not open image "@ + name
}

fn unopened(name: &str) -> (text: String)
    ensures
        text@ == unopened_text(name@),
{
    let mut text: String = "Could not open image ".to_owned();
    text.append(name);
    text
}

/// What building a heightmap from files comes to, given the pictures that the files show.
pub open spec fn is_loaded_heightmap(
    files: Seq<ImageFile>,
    pictures: Seq<Option<RgbaImage>>,
    rgba_encoded: bool,
    map: Result<HeightmapPNG, String>,
) -> bool {
    if files.len() == 0 {
        map matches Err(e) && e@ == "HeightmapPNG requires at least one image"@
    } else if pictures.last() is None {
        map matches Err(e) && e@ == unopened_text(files[pictures.len() - 1].name@)
    } else if !same_sizes(present(pictures)) {
        map matches Err(e) && e@ == "Mismatched heightmap sizes"@
    } else {
        map matches Ok(m) && m.shows(present(pictures), rgba_encoded)
    }
}

impl HeightmapPNG {
    /// Build a heightmap from image files.
    pub fn new(images: &Vec<ImageFile>, rgba_encoded: bool) -> (map: Result<Self, String>)
        ensures
            exists|pictures: Seq<Option<RgbaImage>>| #[trigger]
                are_opened(images@, pictures) && is_loaded_heightmap(
                    images@,
                    pictures,
                    rgba_encoded,
                    map,
                ),
    {
        if images.len() == 0 {
            assert(are_opened(images@, Seq::empty()));
            return Err("HeightmapPNG requires at least one image".to_owned());
        }
        let mut maps: Vec<RgbaImage> = Vec::new();
        let ghost mut pictures: Seq<Option<RgbaImage>> = Seq::empty();
        let mut i: usize = 0;
        while i < images.len()
            invariant
                i <= images@.len(),
                images@.len() > 0,
                pictures.len() == i,
                forall|j: int|
                    0 <= j < i ==> (#[trigger] images@[j]).may_open_as(pictures[j]),
                forall|j: int| 0 <= j < i ==> #[trigger] pictures[j] is Some,
                maps@ == present(pictures),
                all_wf(maps@),
            decreases images@.len() - i,
        {
            let picture: Option<RgbaImage> = images[i].open();
            proof {
                pictures = pictures.push(picture);
            }
            match picture {
                Some(p) => {
                    maps.push(p);
                    assert(maps@ =~= present(pictures));
                },
                None => {
                    assert(are_opened(images@, pictures));
                    return Err(unopened(images[i].name.as_str()));
                },
            }
            i = i + 1;
        }
        assert(are_opened(images@, pictures));
        HeightmapPNG::from_images(maps, rgba_encoded)
    }
}

/// What building a colormap from a file comes to, given the picture that the file shows.
pub open spec fn is_loaded_colormap(
    file: ImageFile,
    picture: Option<RgbaImage>,
    lrgb: bool,
    map: Result<ColormapPNG, String>,
) -> bool {
    match picture {
        Some(p) => map matches Ok(m) && m.shows(p, lrgb),
        None => map matches Err(e) && e@ == unopened_text(file.name@),
    }
}

impl ColormapPNG {
    /// Build a colormap from an image file.
    pub fn new(file: &ImageFile, lrgb: bool) -> (map: Result<Self, String>)
        ensures
            exists|picture: Option<RgbaImage>| #[trigger]
                file.may_open_as(picture) && is_loaded_colormap(*file, picture, lrgb, map),
    {
        match file.open() {
            Some(p) => Ok(ColormapPNG::from_image(p, lrgb)),
            None => Err(unopened(file.name.as_str())),
        }
    }
}

/// The number that a pixel holds: its four channels, the first one most significant, or its red one.
pub open spec fn pixel_number(p: [u8; 4], rgba_encoded: bool) -> int {
    if rgba_encoded {
        ((p[0] * 256 + p[1]) * 256 + p[2]) * 256 + p[3]
    } else {
        p[0] as int
    }
}

/// A heightmap of one picture has the numbers of its pixels as heights: pixels go row by row.
pub proof fn heightmap_reads_its_pixels(
    map: HeightmapPNG,
    picture: RgbaImage,
    rgba_encoded: bool,
    x: int,
    y: int,
)
    requires
        map.shows(seq![picture], rgba_encoded),
        picture.wf(),
        0 <= x < picture.width,
        0 <= y < picture.height,
    ensures
        map.dims() == (picture.width, picture.height),
        map.height_at(x, y) == pixel_number(picture.pixels@[y * picture.width + x], rgba_encoded),
{
    let one = seq![picture];
    assert(one.drop_last() =~= Seq::empty());
    assert(total_height(one.drop_last(), rgba_encoded, x, y) == 0);
    assert(total_height(one, rgba_encoded, x, y) == picture_height(picture, rgba_encoded, x, y));
    assert(map.height_at(x, y) == wrapped_height(total_height(one, rgba_encoded, x, y)));
}

/// Pictures are stacked: one more adds the numbers of its pixels to all heights, which wrap around.
pub proof fn one_more_picture_adds_its_heights(
    map: HeightmapPNG,
    more: HeightmapPNG,
    pictures: Seq<RgbaImage>,
    picture: RgbaImage,
    rgba_encoded: bool,
    x: int,
    y: int,
)
    requires
        pictures.len() > 0,
        map.shows(pictures, rgba_encoded),
        more.shows(pictures.push(picture), rgba_encoded),
        picture.wf(),
        0 <= x < picture.width,
        0 <= y < picture.height,
    ensures
        more.dims() == map.dims(),
        more.height_at(x, y) as int == (map.height_at(x, y) + pixel_number(
            picture.pixels@[y * picture.width + x],
            rgba_encoded,
        )) % 0x1_0000_0000,
{
    let all = pictures.push(picture);
    assert(all.drop_last() =~= pictures);
    let so_far = total_height(pictures, rgba_encoded, x, y);
    let next = picture_height(picture, rgba_encoded, x, y);
    assert(map.height_at(x, y) == wrapped_height(so_far));
    assert(more.height_at(x, y) == wrapped_height(so_far + next));
    assert((so_far + next) % 0x1_0000_0000 == (so_far % 0x1_0000_0000 + next) % 0x1_0000_0000);
}

/// A colormap has the colors of its picture, row by row: as they are where they are linear, and made
/// linear channel by channel otherwise. Alpha stays in either case.
pub proof fn colormap_reads_its_pixels(
    map: ColormapPNG,
    picture: RgbaImage,
    lrgb: bool,
    x: int,
    y: int,
)
    requires
        map.shows(picture, lrgb),
        picture.wf(),
        0 <= x < picture.width,
        0 <= y < picture.height,
    ensures
        map.dims() == (picture.width, picture.height),
        ({
            let p = picture.pixels@[y * picture.width + x];
            let c = map.color_at(x, y);
            &&& c[3] == p[3]
            &&& lrgb ==> c == p
            &&& !lrgb ==> crate::color::is_linear(p[0], c[0] as int)
            &&& !lrgb ==> crate::color::is_linear(p[1], c[1] as int)
            &&& !lrgb ==> crate::color::is_linear(p[2], c[2] as int)
        }),
{
    crate::color::lemma_linear_rgb(picture.pixel(x, y));
    assert(map.color_at(x, y) == if lrgb {
        picture.pixel(x, y)
    } else {
        crate::color::linear_rgb(picture.pixel(x, y))
    });
}

} // verus!
