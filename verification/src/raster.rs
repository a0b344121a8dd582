use vstd::prelude::*;

verus! {

/// A grid of RGB pixels, addressed by column `x` and row `y`. It is kept in
/// an `image::RgbImage`, which Verus does not look into: what a raster holds
/// is known only through `raster_width`, `raster_height` and `raster_pixels`.
#[verifier::external_body]
pub struct Raster {
    image: image::RgbImage,
}

/// The number of columns of a raster.
pub uninterp spec fn raster_width(raster: Raster) -> nat;

/// The number of rows of a raster.
pub uninterp spec fn raster_height(raster: Raster) -> nat;

/// The red, green and blue channels of the pixel at each `(x, y)` of a
/// raster.
pub uninterp spec fn raster_pixels(raster: Raster) -> Map<(int, int), (u8, u8, u8)>;

/// Whether the `image` crate can allocate a raster of these dimensions: both
/// fit its 32-bit coordinates, and the three bytes of every pixel together
/// fit a vector.
pub open spec fn raster_fits(width: int, height: int) -> bool {
    0 <= width <= u32::MAX && 0 <= height <= u32::MAX && 3 * width * height <= isize::MAX
}

/// Calls `image::ImageBuffer::new`, which panics where the buffer would be
/// larger than a vector can be. Trusted: the new raster has the dimensions
/// asked for.
#[verifier::external_body]
pub(crate) fn raster_new(width: u32, height: u32) -> (raster: Raster)
    requires
        raster_fits(width as int, height as int),
    ensures
        raster_width(raster) == width,
        raster_height(raster) == height,
{
    Raster { image: image::RgbImage::new(width, height) }
}

/// Assigns through `image::ImageBuffer::get_pixel_mut`, which panics out of
/// bounds. Trusted: the pixel at `(x, y)` becomes `rgb`, and nothing else
/// changes.
#[verifier::external_body]
pub(crate) fn raster_put(raster: &mut Raster, x: u32, y: u32, rgb: (u8, u8, u8))
    requires
        x < raster_width(*old(raster)),
        y < raster_height(*old(raster)),
    ensures
        raster_width(*final(raster)) == raster_width(*old(raster)),
        raster_height(*final(raster)) == raster_height(*old(raster)),
        raster_pixels(*final(raster)) == raster_pixels(*old(raster)).insert(
            (x as int, y as int),
            rgb,
        ),
{
    *raster.image.get_pixel_mut(x, y) = image::Rgb([rgb.0, rgb.1, rgb.2]);
}

/// Calls `image::imageops::flip_horizontal_in_place`. Trusted: the
/// dimensions stay, and in every row the pixel at column `x` becomes the one
/// that was at column `width - 1 - x`.
#[verifier::external_body]
pub(crate) fn raster_flip(raster: &mut Raster)
    ensures
        raster_width(*final(raster)) == raster_width(*old(raster)),
        raster_height(*final(raster)) == raster_height(*old(raster)),
        forall|x: int, y: int|
            0 <= x < raster_width(*old(raster)) && 0 <= y < raster_height(*old(raster))
                ==> #[trigger] raster_pixels(*final(raster))[(x, y)] == raster_pixels(
                *old(raster),
            )[(raster_width(*old(raster)) - 1 - x, y)],
{
    image::imageops::flip_horizontal_in_place(&mut raster.image);
}

/// Calls `image::imageops::crop` and copies the view with
/// `image::SubImage::to_image`. Trusted: the raster itself is left as it
/// was, and the copy has the dimensions asked for and holds, at each of its
/// coordinates, the raster's pixel that lies `(x, y)` further right and down.
/// The rectangle must lie inside the raster: `crop` would silently shrink
/// one that does not.
#[verifier::external_body]
pub(crate) fn raster_crop(raster: &mut Raster, x: u32, y: u32, width: u32, height: u32) -> (cropped:
    Raster)
    requires
        x + width <= raster_width(*old(raster)),
        y + height <= raster_height(*old(raster)),
    ensures
        *final(raster) == *old(raster),
        raster_width(cropped) == width,
        raster_height(cropped) == height,
        forall|i: int, j: int|
            0 <= i < width && 0 <= j < height ==> #[trigger] raster_pixels(cropped)[(i, j)]
                == raster_pixels(*old(raster))[(x + i, y + j)],
{
    Raster { image: image::imageops::crop(&mut raster.image, x, y, width, height).to_image() }
}

/// Calls `image::ImageBuffer::dimensions`. Trusted: it returns the width and
/// the height.
#[verifier::external_body]
pub(crate) fn raster_dimensions(raster: &Raster) -> (dimensions: (u32, u32))
    ensures
        dimensions.0 == raster_width(*raster),
        dimensions.1 == raster_height(*raster),
{
    raster.image.dimensions()
}

/// Calls `image::ImageBuffer::get_pixel`, which panics out of bounds.
/// Trusted: it returns the channels of the pixel at `(x, y)`.
#[verifier::external_body]
pub(crate) fn raster_get(raster: &Raster, x: u32, y: u32) -> (rgb: (u8, u8, u8))
    requires
        x < raster_width(*raster),
        y < raster_height(*raster),
    ensures
        rgb == raster_pixels(*raster)[(x as int, y as int)],
{
    let pixel = raster.image.get_pixel(x, y);
    (pixel.0[0], pixel.0[1], pixel.0[2])
}

impl Raster {
    /// The number of columns.
    pub fn width(&self) -> (width: u32)
        ensures
            width == raster_width(*self),
    {
        raster_dimensions(self).0
    }

    /// The number of rows.
    pub fn height(&self) -> (height: u32)
        ensures
            height == raster_height(*self),
    {
        raster_dimensions(self).1
    }

    /// The channels of the pixel at `(x, y)`, or `None` where the raster has
    /// no such pixel.
    pub fn pixel(&self, x: u32, y: u32) -> (rgb: Option<(u8, u8, u8)>)
        ensures
            rgb == if x < raster_width(*self) && y < raster_height(*self) {
                Some(raster_pixels(*self)[(x as int, y as int)])
            } else {
                None
            },
    {
        let (width, height) = raster_dimensions(self);
        if x < width && y < height {
            Some(raster_get(self, x, y))
        } else {
            None
        }
    }
}

} // verus!
