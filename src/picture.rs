use vstd::prelude::*;

verus! {

/// An 8-bit RGB image kept by the `image` crate; its contents are seen through
/// `image_pixels` and `image_dims`.
#[verifier::external_body]
pub struct Picture {
    img: image::ImageBuffer<image::Rgb<u8>, Vec<u8>>,
}

/// The pixels of an image: each position `(x, y)` inside it mapped to its three channels.
pub uninterp spec fn image_pixels(pic: Picture) -> Map<(u32, u32), Seq<u8>>;

/// The width and height of an image.
pub uninterp spec fn image_dims(pic: Picture) -> (u32, u32);

/// The positions inside a `width` by `height` image.
pub open spec fn in_bounds(width: u32, height: u32, p: (u32, u32)) -> bool {
    p.0 < width && p.1 < height
}

/// The offset of the first channel of pixel `p` in a row-major RGB buffer.
pub open spec fn channel_offset(width: u32, p: (u32, u32)) -> int {
    3 * ((p.1 as int) * (width as int) + (p.0 as int))
}

/// Relies on `ImageBuffer::new`: an image of the given size whose every channel is zero.
/// It panics when `3 * width`, or that times `height`, overflows `usize`.
#[verifier::external_body]
pub(crate) fn new_picture(width: u32, height: u32) -> (r: Picture)
    requires
        3 * (width as int) <= usize::MAX,
        3 * (width as int) * (height as int) <= usize::MAX,
    ensures
        image_dims(r) == (width, height),
        image_pixels(r) == Map::new(
            |p: (u32, u32)| in_bounds(width, height, p),
            |p: (u32, u32)| seq![0u8, 0u8, 0u8],
        ),
{
    Picture { img: image::ImageBuffer::new(width, height) }
}

/// Relies on `ImageBuffer::put_pixel`: it overwrites the one pixel at `(x, y)`, and
/// panics when that position lies outside the image.
#[verifier::external_body]
pub(crate) fn put_pixel(pic: &mut Picture, x: u32, y: u32, rgb: [u8; 3])
    requires
        in_bounds(image_dims(*old(pic)).0, image_dims(*old(pic)).1, (x, y)),
    ensures
        image_dims(*final(pic)) == image_dims(*old(pic)),
        image_pixels(*final(pic)) == image_pixels(*old(pic)).insert((x, y), rgb@),
{
    pic.img.put_pixel(x, y, image::Rgb(rgb))
}

/// Relies on `ImageBuffer::into_raw`: the buffer holds the channels of all pixels,
/// row after row from the top, each row from the left.
#[verifier::external_body]
pub(crate) fn raw_channels(pic: Picture) -> (r: Vec<u8>)
    ensures
        r@.len() == 3 * (image_dims(pic).0 as int) * (image_dims(pic).1 as int),
        forall|x: u32, y: u32, c: int|
            in_bounds(image_dims(pic).0, image_dims(pic).1, (x, y)) && 0 <= c < 3
                ==> #[trigger] r@[channel_offset(image_dims(pic).0, (x, y)) + c]
                == image_pixels(pic)[(x, y)][c],
{
    pic.img.into_raw()
}

impl Picture {
    /// The channels of all pixels, row after row from the top, each row from the
    /// left: the layout in which the `image` crate stores and encodes them.
    pub fn into_bytes(self) -> (r: Vec<u8>)
        ensures
            r@.len() == 3 * (image_dims(self).0 as int) * (image_dims(self).1 as int),
            forall|x: u32, y: u32, c: int|
                in_bounds(image_dims(self).0, image_dims(self).1, (x, y)) && 0 <= c < 3
                    ==> #[trigger] r@[channel_offset(image_dims(self).0, (x, y)) + c]
                    == image_pixels(self)[(x, y)][c],
    {
        raw_channels(self)
    }
}

} // verus!
