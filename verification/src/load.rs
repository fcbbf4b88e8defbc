//! Heightmap and colormap from the files that were asked for.
use crate::files::{quote, to_lowercase, ImageFile};
use crate::map::{Colormap, ColormapPNG, Heightmap, HeightmapFlat, HeightmapPNG};
use crate::text::same_text;
use crate::util::GenOptions;
use vstd::prelude::*;
use vstd::string::StringExecFns;

verus! {

/// A heightmap that was read from files, or a flat one.
pub enum LoadedHeightmap {
    Flat(HeightmapFlat),
    Png(HeightmapPNG),
}

impl Heightmap for LoadedHeightmap {
    open spec fn dims(&self) -> (u32, u32) {
        match self {
            LoadedHeightmap::Flat(m) => m.dims(),
            LoadedHeightmap::Png(m) => m.dims(),
        }
    }

    open spec fn height_at(&self, x: int, y: int) -> u32 {
        match self {
            LoadedHeightmap::Flat(m) => m.height_at(x, y),
            LoadedHeightmap::Png(m) => m.height_at(x, y),
        }
    }

    fn at(&self, x: u32, y: u32) -> (h: u32) {
        match self {
            LoadedHeightmap::Flat(m) => m.at(x, y),
            LoadedHeightmap::Png(m) => m.at(x, y),
        }
    }

    fn size(&self) -> (s: (u32, u32)) {
        match self {
            LoadedHeightmap::Flat(m) => m.size(),
            LoadedHeightmap::Png(m) => m.size(),
        }
    }
}

pub type MapPair = (LoadedHeightmap, ColormapPNG);

/// The lowercase extensions of the picture files that are read.
pub open spec fn is_picture_text(ext: Seq<char>) -> bool {
    ext == "png"@ || ext == "jpg"@ || ext == "jpeg"@
}

/// Whether a lowercase extension is that of a picture file.
pub fn is_picture_ext(ext: &str) -> (b: bool)
    ensures
        b == is_picture_text(ext@),
{
    same_text(ext, "png") || same_text(ext, "jpg") || same_text(ext, "jpeg")
}

/// The file's extension is that of a picture file.
pub open spec fn is_picture_file(file: ImageFile) -> bool {
    match file.ext {
        Some(ext) => is_picture_text(crate::files::lowercase(ext@)),
        None => false,
    }
}

/// Why the file cannot be a colormap, going by its extension alone.
pub open spec fn colormap_refusal(file: ImageFile) -> Option<Seq<char>> {
    match file.ext {
        Some(ext) => if is_picture_text(crate::files::lowercase(ext@)) {
            None
        } else {
            Some("Unsupported colormap format '"@ + crate::files::lowercase(ext@) + "'"@)
        },
        None => Some("Missing colormap format for '"@ + file.name@ + "'"@),
    }
}

fn refuse_colormap(file: &ImageFile) -> (refusal: Option<String>)
    ensures
        refusal matches Some(r) ==> colormap_refusal(*file) == Some(r@),
        refusal is None ==> colormap_refusal(*file) is None,
{
    match &file.ext {
        Some(ext) => {
            let lower: String = to_lowercase(ext.as_str());
            if is_picture_ext(lower.as_str()) {
                None
            } else {
                let mut text: String = "Unsupported colormap format '".to_owned();
                text.append(lower.as_str());
                text.append("'");
                Some(text)
            }
        },
        None => {
            let mut text: String = "Missing colormap format for '".to_owned();
            text.append(file.name.as_str());
            text.append("'");
            Some(text)
        },
    }
}

/// Every file's extension is that of a picture file.
pub open spec fn all_picture_files(files: Seq<ImageFile>) -> bool {
    forall|i: int| 0 <= i < files.len() ==> is_picture_file(#[trigger] files[i])
}

fn are_picture_files(files: &Vec<ImageFile>) -> (all: bool)
    ensures
        all == all_picture_files(files@),
{
    let mut i: usize = 0;
    while i < files.len()
        invariant
            i <= files@.len(),
            forall|j: int| 0 <= j < i ==> is_picture_file(#[trigger] files@[j]),
        decreases files@.len() - i,
    {
        let accepted: bool = match &files[i].ext {
            Some(ext) => is_picture_ext(to_lowercase(ext.as_str()).as_str()),
            None => false,
        };
        if !accepted {
            assert(!is_picture_file(files@[i as int]));
            return false;
        }
        i = i + 1;
    }
    true
}

/// The file that the colors come from: without a colormap the first heightmap doubles as one.
pub open spec fn color_file(files: Seq<ImageFile>, colormap: Option<&ImageFile>) -> Option<
    ImageFile,
> {
    match colormap {
        Some(file) => Some(*file),
        None => if files.len() > 0 {
            Some(files[0])
        } else {
            None
        },
    }
}

/// The heightmap that comes with a colormap, or why there is none.
pub open spec fn is_height_outcome(
    options: GenOptions,
    files: Seq<ImageFile>,
    size: (u32, u32),
    map: Result<LoadedHeightmap, String>,
) -> bool {
    if !all_picture_files(files) {
        map matches Err(e) && e@ == "Unsupported heightmap format"@
    } else if options.img {
        map matches Ok(LoadedHeightmap::Flat(m)) && m.dims() == size
    } else {
        exists|pictures: Seq<Option<crate::map::RgbaImage>>, loaded: Result<HeightmapPNG, String>|
            crate::map::are_opened(files, pictures) && #[trigger] crate::map::is_loaded_heightmap(
                files,
                pictures,
                options.hdmap,
                loaded,
            ) && match loaded {
                Ok(m) => map == Ok::<LoadedHeightmap, String>(LoadedHeightmap::Png(m)),
                Err(e) => map matches Err(f) && f@ == "Error reading heightmap: "@
                    + crate::files::quoted(e@),
            }
    }
}

/// What reading the files comes to, given the picture that the colormap's file shows.
pub open spec fn is_load_outcome(
    options: GenOptions,
    files: Seq<ImageFile>,
    color: ImageFile,
    picture: Option<crate::map::RgbaImage>,
    maps: Result<MapPair, String>,
) -> bool {
    match picture {
        None => maps matches Err(e) && e@ == "Error reading colormap: "@ + crate::files::quoted(
            crate::map::unopened_text(color.name@),
        ),
        Some(p) => match maps {
            Ok((h, c)) => c.shows(p, options.lrgb) && is_height_outcome(
                options,
                files,
                (p.width, p.height),
                Ok(h),
            ),
            Err(e) => is_height_outcome(options, files, (p.width, p.height), Err(e)),
        },
    }
}

/// What reading the files comes to, where the colors come from the file `color`.
pub open spec fn is_maps_outcome(
    options: GenOptions,
    files: Seq<ImageFile>,
    color: Option<ImageFile>,
    maps: Result<MapPair, String>,
) -> bool {
    match color {
        None => maps matches Err(e) && e@ == "Missing colormap format for '"@ + "'"@,
        Some(file) => match colormap_refusal(file) {
            Some(refusal) => maps matches Err(e) && e@ == refusal,
            None => opens_to_outcome(options, files, file, maps),
        },
    }
}

/// The file shows some picture (or none) for which the outcome is right.
pub open spec fn opens_to_outcome(
    options: GenOptions,
    files: Seq<ImageFile>,
    file: ImageFile,
    maps: Result<MapPair, String>,
) -> bool {
    exists|picture: Option<crate::map::RgbaImage>| #[trigger]
        file.may_open_as(picture) && is_load_outcome(options, files, file, picture, maps)
}

fn load_heightmap(options: &GenOptions, files: &Vec<ImageFile>, size: (u32, u32)) -> (map: Result<
    LoadedHeightmap,
    String,
>)
    ensures
        is_height_outcome(*options, files@, size, map),
{
    if !are_picture_files(files) {
        return Err("Unsupported heightmap format".to_owned());
    }
    if options.img {
        return match HeightmapFlat::new(size) {
            Ok(m) => Ok(LoadedHeightmap::Flat(m)),
            Err(e) => Err(e),
        };
    }
    match HeightmapPNG::new(files, options.hdmap) {
        Ok(m) => Ok(LoadedHeightmap::Png(m)),
        Err(e) => {
            let mut text: String = "Error reading heightmap: ".to_owned();
            text.append(quote(e.as_str()).as_str());
            Err(text)
        },
    }
}

/// Turns the heightmap/colormap input files into map objects. When
/// `colormap_file` is `None` the first heightmap doubles as the colormap.
pub fn maps_from_files(
    options: &GenOptions,
    heightmap_files: &Vec<ImageFile>,
    colormap_file: Option<&ImageFile>,
) -> (maps: Result<MapPair, String>)
    ensures
        is_maps_outcome(
            *options,
            heightmap_files@,
            color_file(heightmap_files@, colormap_file),
            maps,
        ),
{
    let color: &ImageFile = match colormap_file {
        Some(f) => f,
        None => {
            if heightmap_files.len() == 0 {
                let mut text: String = "Missing colormap format for '".to_owned();
                text.append("'");
                return Err(text);
            }
            &heightmap_files[0]
        },
    };
    if let Some(refusal) = refuse_colormap(color) {
        return Err(refusal);
    }
    let loaded: Result<ColormapPNG, String> = ColormapPNG::new(color, options.lrgb);
    let ghost picture: Option<crate::map::RgbaImage> = choose|picture: Option<
        crate::map::RgbaImage,
    >| #[trigger]
        color.may_open_as(picture) && crate::map::is_loaded_colormap(
            *color,
            picture,
            options.lrgb,
            loaded,
        );
    let maps: Result<MapPair, String> = match loaded {
        Ok(colormap) => match load_heightmap(options, heightmap_files, colormap.size()) {
            Ok(h) => Ok((h, colormap)),
            Err(e) => Err(e),
        },
        Err(e) => {
            let mut text: String = "Error reading colormap: ".to_owned();
            text.append(quote(e.as_str()).as_str());
            Err(text)
        },
    };
    assert(color.may_open_as(picture));
    assert(is_load_outcome(*options, heightmap_files@, *color, picture, maps));
    maps
}

/// Maps come from their files: the colors from the picture of the colormap's file, made linear unless they
/// are; the heights from the pictures of all heightmap files, encoded as the options say; and for a picture
/// there is one height everywhere, as large as the colormap.
pub proof fn maps_come_from_their_files(
    options: GenOptions,
    files: Seq<ImageFile>,
    color: ImageFile,
    picture: crate::map::RgbaImage,
    maps: MapPair,
)
    requires
        is_load_outcome(options, files, color, Some(picture), Ok(maps)),
    ensures
        maps.1.shows(picture, options.lrgb),
        options.img ==> maps.0.dims() == (picture.width, picture.height),
        options.img ==> forall|x: int, y: int| #[trigger] maps.0.height_at(x, y) == 1,
        !options.img ==> exists|pictures: Seq<Option<crate::map::RgbaImage>>|
            #[trigger] crate::map::are_opened(files, pictures) && pictures.len() == files.len()
                && files.len() > 0 && maps.0 is Png && maps.0->Png_0.shows(
                crate::map::present(pictures),
                options.hdmap,
            ),
{
    let outcome: Result<LoadedHeightmap, String> = Ok(maps.0);
    assert(is_height_outcome(options, files, (picture.width, picture.height), outcome));
    if !options.img {
        let (pictures, loaded) = choose|
            pictures: Seq<Option<crate::map::RgbaImage>>,
            loaded: Result<HeightmapPNG, String>,
        |
            crate::map::are_opened(files, pictures) && #[trigger] crate::map::is_loaded_heightmap(
                files,
                pictures,
                options.hdmap,
                loaded,
            ) && match loaded {
                Ok(m) => outcome == Ok::<LoadedHeightmap, String>(LoadedHeightmap::Png(m)),
                Err(e) => outcome matches Err(f) && f@ == "Error reading heightmap: "@
                    + crate::files::quoted(e@),
            };
        assert(crate::map::are_opened(files, pictures));
    }
}

/// Without a colormap the first heightmap is the colormap too.
pub proof fn heightmaps_double_as_colormaps(files: Seq<ImageFile>, colormap: &ImageFile)
    ensures
        files.len() > 0 ==> color_file(files, None) == Some(files[0]),
        files.len() == 0 ==> color_file(files, None) is None,
        color_file(files, Some(colormap)) == Some(*colormap),
{
}

} // verus!
