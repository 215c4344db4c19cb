//! Decoding a picture for the window, with the `image` crate.
use vstd::prelude::*;

verus! {

/// A picture scaled to fit a box: its size, and its pixels as RGBA
/// bytes, row by row.
pub struct Thumbnail {
    pub width: u32,
    pub height: u32,
    pub rgba: Vec<u8>,
}

/// What the `image` crate makes of a picture file: the format that
/// `ImageFormat::from_path` reads from the path, the picture that
/// `load_from_memory_with_format` decodes from the bytes in that format, and
/// the `thumbnail` of it, scaled with its proportions kept to the largest
/// size that fits in `max_width` by `max_height` (at least one pixel each way), as
/// `(width, height, RGBA bytes)`; `None` where the format is unknown or the
/// bytes do not decode.
pub uninterp spec fn thumbnail_of(
    bytes: Seq<u8>,
    path: Seq<char>,
    max_width: u32,
    max_height: u32,
) -> Option<(u32, u32, Seq<u8>)>;

/// Calls `image::ImageFormat::from_path`, `image::load_from_memory_with_format`,
/// `DynamicImage::thumbnail` and `to_rgba8().into_raw()`. The result is named
/// by `thumbnail_of`; an RGBA buffer holds four bytes for each pixel.
#[verifier::external_body]
fn thumbnail_from(bytes: &[u8], path: &str, max_width: u32, max_height: u32) -> (r: Option<Thumbnail>)
    ensures
        r is None <==> thumbnail_of(bytes@, path@, max_width, max_height) is None,
        r matches Some(t) ==> thumbnail_of(bytes@, path@, max_width, max_height) == Some(
            (t.width, t.height, t.rgba@),
        ),
        r matches Some(t) ==> t.rgba@.len() == 4 * t.width * t.height,
{
    let format = image::ImageFormat::from_path(path).ok()?;
    let picture = image::load_from_memory_with_format(bytes, format).ok()?;
    let small = picture.thumbnail(max_width, max_height);
    Some(Thumbnail { width: small.width(), height: small.height(), rgba: small.to_rgba8().into_raw() })
}

/// Decodes the picture file at `path`, whose bytes are `bytes`, and scales it
/// to the largest size, proportions kept, that fits in `max_width` by
/// `max_height`; `None` where the format of the
/// path is unknown or the bytes do not decode in it.
pub fn decode_thumbnail(bytes: &[u8], path: &str, max_width: u32, max_height: u32) -> (r: Option<
    Thumbnail,
>)
    ensures
        r is None <==> thumbnail_of(bytes@, path@, max_width, max_height) is None,
        r matches Some(t) ==> thumbnail_of(bytes@, path@, max_width, max_height) == Some(
            (t.width, t.height, t.rgba@),
        ),
        r matches Some(t) ==> t.rgba@.len() == 4 * t.width * t.height,
{
    thumbnail_from(bytes, path, max_width, max_height)
}

impl Thumbnail {
    /// The size of the picture as `[width, height]`.
    pub fn size(&self) -> (r: [usize; 2])
        ensures
            r@ == seq![self.width as usize, self.height as usize],
            r[0] == self.width,
            r[1] == self.height,
    {
        [self.width as usize, self.height as usize]
    }
}

} // verus!
