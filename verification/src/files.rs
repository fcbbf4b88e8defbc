//! Image files: which format they are in, and their pictures.
use crate::calls::{ask, ask_both};
use crate::map::RgbaImage;
use crate::text::same_lowered;
use vstd::prelude::*;

verus! {

/// A file that was asked for, with what could be read of it.
pub struct ImageFile {
    /// The file's path as it is shown in messages.
    pub name: String,
    /// The extension of the file's name.
    pub ext: Option<String>,
    /// The contents, unless the file could not be read.
    pub bytes: Option<Vec<u8>>,
}

/// Error text for a file whose contents could not be read.
pub const NO_BYTES_MSG: &'static str = "The file could not be read";

/// Error text for a file whose extension stands for no picture format.
pub const NO_FORMAT_MSG: &'static str = "The image format could not be determined";

/// The picture formats that files come in.
#[derive(Debug, Clone, Copy, PartialEq, Eq, Structural)]
pub enum PictureFormat {
    Png,
    Jpeg,
}

/// What [`image::load_from_memory_with_format`] makes of bytes in the PNG format: width, height and
/// row-major RGBA pixels, or the text of its error.
pub uninterp spec fn decoded_png(bytes: Seq<u8>) -> Result<(u32, u32, Seq<[u8; 4]>), Seq<char>>;

/// The contents of a decoded picture, or the text of the error.
pub open spec fn picture_view(picture: Result<RgbaImage, String>) -> Result<
    (u32, u32, Seq<[u8; 4]>),
    Seq<char>,
> {
    match picture {
        Ok(p) => Ok(p@),
        Err(e) => Err(e@),
    }
}

/// What [`image::load_from_memory_with_format`] makes of bytes in the JPEG format, pixels aside:
/// width and height, or the text of its error.
pub uninterp spec fn jpeg_size(bytes: Seq<u8>) -> Result<(u32, u32), Seq<char>>;

/// The size of a decoded picture, or the text of the error.
pub open spec fn picture_size(picture: Result<RgbaImage, String>) -> Result<
    (u32, u32),
    Seq<char>,
> {
    match picture {
        Ok(p) => Ok((p.width, p.height)),
        Err(e) => Err(e@),
    }
}

/// Calls [`image::load_from_memory_with_format`] and then `to_rgba8`. Claimed of it: a picture that
/// comes back has all its pixels; for PNG bytes the outcome depends on nothing but the bytes; and
/// for JPEG bytes success, size and error text depend on nothing but the bytes. Which pixels the
/// decoder reads out of JPEG bytes is left unsaid, because it chooses its arithmetic by what the
/// processor offers.
#[verifier::external_body]
fn decode(bytes: &Vec<u8>, format: PictureFormat) -> (picture: Result<RgbaImage, String>)
    ensures
        picture matches Ok(p) ==> p.wf(),
        format is Png ==> decoded_png(bytes@) == picture_view(picture),
        format is Jpeg ==> jpeg_size(bytes@) == picture_size(picture),
{
    let format = match format {
        PictureFormat::Png => image::ImageFormat::Png,
        PictureFormat::Jpeg => image::ImageFormat::Jpeg,
    };
    let decoded = image::load_from_memory_with_format(bytes, format).map_err(|e| e.to_string());
    let decoded = decoded?.to_rgba8();
    let (width, height) = decoded.dimensions();
    let pixels = decoded.pixels().map(|p| p.0).collect();
    Ok(RgbaImage { width, height, pixels })
}

/// This is what [`image::load_from_memory_with_format`] and `to_rgba8` made of the bytes.
pub closed spec fn is_decoded(
    bytes: Seq<u8>,
    format: PictureFormat,
    picture: Result<RgbaImage, String>,
) -> bool {
    exists|v: &Vec<u8>| v@ == bytes && #[trigger] call_ensures(decode, (v, format), picture)
}

/// A picture's luminance, row by row, with the number of channels that the picture has and the bytes
/// that a pixel of it takes.
#[derive(Debug)]
pub struct LumaImage {
    pub channels: u8,
    pub pixel_bytes: u8,
    pub width: u32,
    pub height: u32,
    pub pixels: Vec<u8>,
}

/// What `color` and `to_luma8` tell of the picture that [`image::load_from_memory_with_format`] makes
/// of bytes in the PNG format: its number of channels and bytes per pixel, its width and height, and
/// its luminance row by row, or the text of the error.
pub uninterp spec fn luma_of_png(bytes: Seq<u8>) -> Result<
    ((u8, u8), (u32, u32), Seq<u8>),
    Seq<char>,
>;

/// A pixel has red, green, blue and alpha of 8 or 16 bits each.
pub open spec fn is_rgba(channels: u8, pixel_bytes: u8) -> bool {
    channels == 4 && pixel_bytes <= 8
}

/// The contents of a luminance picture, or the text of the error.
pub open spec fn luma_view(picture: Result<LumaImage, String>) -> Result<
    ((u8, u8), (u32, u32), Seq<u8>),
    Seq<char>,
> {
    match picture {
        Ok(p) => Ok(((p.channels, p.pixel_bytes), (p.width, p.height), p.pixels@)),
        Err(e) => Err(e@),
    }
}

/// The size of a luminance picture, or the text of the error.
pub open spec fn luma_size(picture: Result<LumaImage, String>) -> Result<(u32, u32), Seq<char>> {
    match picture {
        Ok(p) => Ok((p.width, p.height)),
        Err(e) => Err(e@),
    }
}

/// The size of the picture that PNG bytes hold, or the text of the error.
pub open spec fn png_size(bytes: Seq<u8>) -> Result<(u32, u32), Seq<char>> {
    match decoded_png(bytes) {
        Ok((width, height, _)) => Ok((width, height)),
        Err(e) => Err(e),
    }
}

/// Calls [`image::load_from_memory_with_format`], and then `color` and `to_luma8`. Claimed of it: a
/// picture that comes back has all its pixels; it succeeds and fails as decoding into colors does,
/// with the same size or error, since it decodes the same picture; for PNG bytes the channels and
/// the luminance depend on nothing but the bytes; and the JPEG decoder yields gray or red, green and
/// blue, never alpha. The luminance of JPEG bytes is left unsaid, as their pixels are.
#[verifier::external_body]
fn decode_luma(bytes: &Vec<u8>, format: PictureFormat) -> (picture: Result<
    LumaImage,
    String,
>)
    ensures
        picture matches Ok(p) ==> p.pixels@.len() == p.width * p.height,
        format is Png ==> luma_of_png(bytes@) == luma_view(picture),
        format is Png ==> png_size(bytes@) == luma_size(picture),
        format is Jpeg ==> jpeg_size(bytes@) == luma_size(picture),
        format is Jpeg ==> (picture matches Ok(p) ==> p.channels <= 3),
{
    let format = match format {
        PictureFormat::Png => image::ImageFormat::Png,
        PictureFormat::Jpeg => image::ImageFormat::Jpeg,
    };
    let decoded = image::load_from_memory_with_format(bytes, format).map_err(|e| e.to_string())?;
    let channels = decoded.color().channel_count();
    let pixel_bytes = decoded.color().bytes_per_pixel();
    let luma = decoded.to_luma8();
    let (width, height) = luma.dimensions();
    Ok(LumaImage { channels, pixel_bytes, width, height, pixels: luma.into_raw() })
}

/// This is the luminance that [`image::load_from_memory_with_format`] and `to_luma8` gave of the bytes,
/// or the error.
pub closed spec fn is_decoded_luma(
    bytes: Seq<u8>,
    format: PictureFormat,
    picture: Result<LumaImage, String>,
) -> bool {
    exists|v: &Vec<u8>| v@ == bytes && #[trigger] call_ensures(decode_luma, (v, format), picture)
}

/// Decode the luminance of a picture.
pub(crate) fn luma_of(bytes: &Vec<u8>, format: PictureFormat) -> (picture: Result<LumaImage, String>)
    ensures
        is_decoded_luma(bytes@, format, picture),
        picture matches Ok(p) ==> p.pixels@.len() == p.width * p.height,
        format is Png ==> luma_of_png(bytes@) == luma_view(picture),
        format is Png ==> png_size(bytes@) == luma_size(picture),
        format is Jpeg ==> jpeg_size(bytes@) == luma_size(picture),
        format is Jpeg ==> (picture matches Ok(p) ==> p.channels <= 3),
{
    ask_both(decode_luma, bytes, format)
}

/// Most pixels of a picture that is sure to be read back: they take 512 MiB.
pub const SURE_PIXELS: u32 = 0x800_0000;

/// The picture was written, and reads back as it is, with all four channels.
pub open spec fn reads_back(picture: RgbaImage, bytes: Result<Vec<u8>, String>) -> bool {
    bytes matches Ok(b) && decoded_png(b@) == Ok::<(u32, u32, Seq<[u8; 4]>), Seq<char>>(picture@)
        && (luma_of_png(b@) matches Ok((kind, _, _)) && is_rgba(kind.0, kind.1))
}

/// Calls [`image::ImageBuffer::write_to`] with the PNG format. Claimed of it: every picture that has
/// pixels is written, and what is written of up to [`SURE_PIXELS`] pixels reads back as the same
/// picture with all four channels. PNG keeps pixels as they are; larger pictures exceed the memory
/// that the reader allows itself. The bytes themselves are left unsaid, because PNG data can be
/// compressed in many ways.
#[verifier::external_body]
fn encode_png(picture: &RgbaImage) -> (bytes: Result<Vec<u8>, String>)
    requires
        picture.wf(),
        picture.pixels@.len() * 4 <= isize::MAX,
    ensures
        0 < picture.pixels@.len() ==> bytes is Ok,
        0 < picture.pixels@.len() <= SURE_PIXELS ==> reads_back(*picture, bytes),
{
    let mut bytes = std::io::Cursor::new(Vec::new());
    let raw = picture.pixels.concat();
    let image = image::RgbaImage::from_raw(picture.width, picture.height, raw).ok_or("short")?;
    image.write_to(&mut bytes, image::ImageFormat::Png).map_err(|e| e.to_string())?;
    Ok(bytes.into_inner())
}

/// This is what [`image::ImageBuffer::write_to`] wrote of the picture in the PNG format, or its error.
pub closed spec fn is_encoded_png(picture: &RgbaImage, bytes: Result<Vec<u8>, String>) -> bool {
    call_ensures(encode_png, (picture,), bytes)
}

/// Write a picture in the PNG format.
pub(crate) fn png_of(picture: &RgbaImage) -> (bytes: Result<Vec<u8>, String>)
    requires
        picture.wf(),
        picture.pixels@.len() * 4 <= isize::MAX,
    ensures
        is_encoded_png(picture, bytes),
        0 < picture.pixels@.len() ==> bytes is Ok,
        0 < picture.pixels@.len() <= SURE_PIXELS ==> reads_back(*picture, bytes),
{
    ask(encode_png, picture)
}

/// Calls [`image::load_from_memory`] and then `to_rgba8`. Claimed of it: a picture that comes back
/// has all its pixels. Which picture the bytes give is left unsaid, because formats are told apart
/// with the help of hooks that any part of the process may register.
#[verifier::external_body]
fn decode_other(bytes: &Vec<u8>) -> (picture: Result<RgbaImage, String>)
    ensures
        picture matches Ok(p) ==> p.wf(),
{
    let decoded = image::load_from_memory(bytes).map_err(|e| e.to_string())?.to_rgba8();
    let (width, height) = decoded.dimensions();
    let pixels = decoded.pixels().map(|p| p.0).collect();
    Ok(RgbaImage { width, height, pixels })
}

/// This is what [`image::load_from_memory`] and `to_rgba8` made of the bytes.
pub closed spec fn is_guessed(bytes: Seq<u8>, picture: Result<RgbaImage, String>) -> bool {
    exists|v: &Vec<u8>| v@ == bytes && #[trigger] call_ensures(decode_other, (v,), picture)
}

/// The bytes that every PNG file starts with.
pub open spec fn png_signature() -> Seq<u8> {
    seq![0x89u8, 0x50u8, 0x4Eu8, 0x47u8, 0x0Du8, 0x0Au8, 0x1Au8, 0x0Au8]
}

/// The bytes that every JPEG file starts with.
pub open spec fn jpeg_signature() -> Seq<u8> {
    seq![0xFFu8, 0xD8u8, 0xFFu8]
}

/// The format that the first bytes of a file tell.
pub open spec fn format_of_bytes(bytes: Seq<u8>) -> Option<PictureFormat> {
    if png_signature().is_prefix_of(bytes) {
        Some(PictureFormat::Png)
    } else if jpeg_signature().is_prefix_of(bytes) {
        Some(PictureFormat::Jpeg)
    } else {
        None
    }
}

/// Calls [`image::guess_format`]. Claimed of it: it tells PNG and JPEG bytes by their signatures.
#[verifier::external_body]
fn guess_format(bytes: &Vec<u8>) -> (format: Option<PictureFormat>)
    ensures
        format == format_of_bytes(bytes@),
{
    match image::guess_format(bytes) {
        Ok(image::ImageFormat::Png) => Some(PictureFormat::Png),
        Ok(image::ImageFormat::Jpeg) => Some(PictureFormat::Jpeg),
        _ => None,
    }
}

/// The outcome that decoding bytes of a known format may have: what the decoder made of them, a
/// complete picture or an error. For PNG bytes the outcome, and for JPEG bytes the picture's size or
/// the error's text, is the same each time.
pub open spec fn may_show(
    bytes: Seq<u8>,
    format: PictureFormat,
    picture: Result<RgbaImage, String>,
) -> bool {
    &&& picture matches Ok(p) ==> p.wf()
    &&& is_decoded(bytes, format, picture)
    &&& match format {
        PictureFormat::Png => picture_view(picture) == decoded_png(bytes),
        PictureFormat::Jpeg => picture_size(picture) == jpeg_size(bytes),
    }
}

/// The outcome that decoding bytes may have: where the first bytes tell a format, what its decoder
/// makes of them, and otherwise what the decoder of a guessed format does, a complete picture or an
/// error.
pub open spec fn may_decode_as(bytes: Seq<u8>, picture: Result<RgbaImage, String>) -> bool {
    &&& picture matches Ok(p) ==> p.wf()
    &&& match format_of_bytes(bytes) {
        Some(format) => may_show(bytes, format, picture),
        None => is_guessed(bytes, picture),
    }
}

/// Decode a picture whose format its first bytes tell.
pub fn decode_bytes(bytes: &Vec<u8>) -> (picture: Result<RgbaImage, String>)
    ensures
        may_decode_as(bytes@, picture),
{
    match guess_format(bytes) {
        Some(format) => ask_both(decode, bytes, format),
        None => ask(decode_other, bytes),
    }
}

/// The format that an extension stands for, letter case aside.
pub open spec fn format_of_ext(ext: Seq<char>) -> Option<PictureFormat> {
    let e = crate::text::lowered(ext);
    if e == "png"@ || e == "apng"@ {
        Some(PictureFormat::Png)
    } else if e == "jpg"@ || e == "jpeg"@ || e == "jfif"@ {
        Some(PictureFormat::Jpeg)
    } else {
        None
    }
}

impl ImageFile {
    /// The file's format, by its extension.
    pub open spec fn format(&self) -> Option<PictureFormat> {
        match self.ext {
            Some(ext) => format_of_ext(ext@),
            None => None,
        }
    }

    /// The outcome that reading the file's picture may have: an error where the file could not be
    /// read or its extension stands for no format, and what the format's decoder makes of its bytes
    /// otherwise.
    pub open spec fn may_read_as(&self, picture: Result<RgbaImage, String>) -> bool {
        match (self.bytes, self.format()) {
            (None, _) => picture matches Err(e) && e@ == NO_BYTES_MSG@,
            (_, None) => picture matches Err(e) && e@ == NO_FORMAT_MSG@,
            (Some(bytes), Some(format)) => may_show(bytes@, format, picture),
        }
    }

    /// The outcome that opening the file may have: the picture that reading it gives, or nothing
    /// where reading it fails.
    pub open spec fn may_open_as(&self, picture: Option<RgbaImage>) -> bool {
        match picture {
            Some(p) => self.may_read_as(Ok(p)),
            None => match (self.bytes, self.format()) {
                (Some(bytes), Some(PictureFormat::Png)) => decoded_png(bytes@) is Err,
                (Some(bytes), Some(PictureFormat::Jpeg)) => jpeg_size(bytes@) is Err,
                _ => true,
            },
        }
    }

    /// Read the file's picture.
    pub fn read(&self) -> (picture: Result<RgbaImage, String>)
        ensures
            self.may_read_as(picture),
    {
        match self.contents() {
            Ok((bytes, format)) => ask_both(decode, bytes, format),
            Err(e) => Err(e),
        }
    }

    /// The file's bytes and their format.
    pub(crate) fn contents(&self) -> (found: Result<(&Vec<u8>, PictureFormat), String>)
        ensures
            match (self.bytes, self.format()) {
                (None, _) => found matches Err(e) && e@ == NO_BYTES_MSG@,
                (_, None) => found matches Err(e) && e@ == NO_FORMAT_MSG@,
                (Some(bytes), Some(format)) => found matches Ok((b, f)) && *b == bytes && f
                    == format,
            },
    {
        match &self.bytes {
            None => Err(NO_BYTES_MSG.to_owned()),
            Some(bytes) => {
                let format: Option<PictureFormat> = match &self.ext {
                    Some(ext) => format_of(ext.as_str()),
                    None => None,
                };
                match format {
                    Some(f) => Ok((bytes, f)),
                    None => Err(NO_FORMAT_MSG.to_owned()),
                }
            },
        }
    }

    /// Open the file's picture.
    pub fn open(&self) -> (picture: Option<RgbaImage>)
        ensures
            self.may_open_as(picture),
    {
        match self.read() {
            Ok(picture) => Some(picture),
            Err(_) => None,
        }
    }
}

/// The format that an extension stands for, letter case aside.
pub fn format_of(ext: &str) -> (format: Option<PictureFormat>)
    ensures
        format == format_of_ext(ext@),
{
    if same_lowered(ext, "png") || same_lowered(ext, "apng") {
        Some(PictureFormat::Png)
    } else if same_lowered(ext, "jpg") || same_lowered(ext, "jpeg")
        || same_lowered(ext, "jfif") {
        Some(PictureFormat::Jpeg)
    } else {
        None
    }
}

/// What [`str::to_lowercase`] makes of a text.
pub uninterp spec fn lowercase(text: Seq<char>) -> Seq<char>;

/// Calls [`str::to_lowercase`]. Claimed of it: the outcome depends on nothing but the text, and in
/// a text of ASCII characters `A..=Z` become `a..=z` and the others stay.
#[verifier::external_body]
pub(crate) fn to_lowercase(text: &str) -> (lower: String)
    ensures
        lower@ == lowercase(text@),
        vstd::string::is_ascii(text) ==> lower@ == crate::text::lowered(text@),
{
    text.to_lowercase()
}

/// What the `Debug` format of a string writes: the text in quotes, with escapes.
pub uninterp spec fn quoted(text: Seq<char>) -> Seq<char>;

/// Writes a text through its [`std::fmt::Debug`] format. Claimed of it: the outcome depends on
/// nothing but the text.
#[verifier::external_body]
pub(crate) fn quote(text: &str) -> (out: String)
    ensures
        out@ == quoted(text@),
{
    format!("{:?}", text)
}

/// Extensions stand for formats whatever the case of their letters: `png` and `apng` for PNG, `jpg`, `jpeg`
/// and `jfif` for JPEG, and others for none.
pub proof fn extensions_stand_for_formats(ext: Seq<char>)
    ensures
        ({
            let e = crate::text::lowered(ext);
            &&& e == "png"@ || e == "apng"@ <==> format_of_ext(ext) == Some(PictureFormat::Png)
            &&& e == "jpg"@ || e == "jpeg"@ || e == "jfif"@ <==> format_of_ext(ext) == Some(
                PictureFormat::Jpeg,
            )
        }),
{
    reveal_strlit("png");
    reveal_strlit("apng");
    reveal_strlit("jpg");
    reveal_strlit("jpeg");
    reveal_strlit("jfif");
    assert("png"@[0] == 'p');
    assert("apng"@[0] == 'a');
    assert("jpg"@[0] == 'j');
    assert("jpeg"@[0] == 'j');
    assert("jfif"@[0] == 'j');
}

} // verus!
