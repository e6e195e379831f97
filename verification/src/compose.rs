//! The image compositor: carves out the right panel of the wallpaper,
//! treats it (brightness shift and blur) so text stays legible, and draws
//! the wrapped annotation lines over it. The panel geometry, the minimum
//! size check, the colors, the brightness direction and the text positions
//! are verified, and the compositor's contract pins exactly when it
//! succeeds and that the image keeps its size; the pixel work itself is
//! the image crates', behind trusted wrappers whose contracts name the
//! image's dimensions.

use vstd::prelude::*;

use image::GenericImage;
use image::GenericImageView;

use crate::layout::wrap_text;
use crate::{Theme, WallError};

verus! {

/// The blur radius applied to the panel.
pub const BLUR_SIGMA: u8 = 15;

/// The magnitude of the panel's brightness shift.
pub const BRIGHTEN_MAGNITUDE: i32 = 30;

/// The minimum usable image dimension, in pixels.
pub const MIN_DIMENSION: u32 = 200;

/// The rectangular sub-region of the source image reserved for the text
/// panel: the right portion, full height.
#[derive(Clone, Copy, Debug, PartialEq, Eq, Structural)]
pub struct RenderPanel {
    /// Where the panel starts horizontally.
    pub x_offset: u32,
    /// The panel's width: the rest of the image.
    pub width: u32,
    /// The panel's height: the image's full height.
    pub height: u32,
}

/// The panel's horizontal offset: half the width for narrow images, two
/// thirds for images at least 500 pixels wide.
pub open spec fn spec_panel_x(w: int) -> int {
    if w < 500 {
        w / 2
    } else {
        2 * w / 3
    }
}

/// Computes the panel for an image of the given size, rejecting images
/// with either dimension under the minimum as too small, exactly.
pub fn panel_for(width: u32, height: u32) -> (r: Result<RenderPanel, WallError>)
    ensures
        r is Ok <==> width >= MIN_DIMENSION && height >= MIN_DIMENSION,
        match r {
            Ok(p) => p.x_offset == spec_panel_x(width as int) && p.x_offset <= width && p.width
                == width - p.x_offset && p.height == height,
            Err(e) => e == WallError::ImageTooSmall,
        },
{
    if width < MIN_DIMENSION || height < MIN_DIMENSION {
        return Err(WallError::ImageTooSmall);
    }
    let x: u32 = if width < 500 {
        width / 2
    } else {
        let x64: u64 = 2u64 * (width as u64) / 3;
        proof {
            assert(2 * (width as int) / 3 <= width as int);
            assert(x64 == spec_panel_x(width as int));
        }
        x64 as u32
    };
    Ok(RenderPanel { x_offset: x, width: width - x, height })
}

/// The text color for a theme: opaque white on dark, opaque black on
/// light, as red, green, blue and alpha bytes.
pub fn text_color(theme: Theme) -> (r: (u8, u8, u8, u8))
    ensures
        theme == Theme::Dark ==> r == (255u8, 255u8, 255u8, 255u8),
        theme == Theme::Light ==> r == (0u8, 0u8, 0u8, 255u8),
{
    match theme {
        Theme::Dark => (255, 255, 255, 255),
        Theme::Light => (0, 0, 0, 255),
    }
}

/// The signed brightness shift applied to the panel: brightened on the
/// dark theme, darkened on the light theme, by the fixed magnitude.
pub fn brighten_amount(theme: Theme) -> (r: i32)
    ensures
        theme == Theme::Dark ==> r == BRIGHTEN_MAGNITUDE,
        theme == Theme::Light ==> r == -BRIGHTEN_MAGNITUDE,
{
    match theme {
        Theme::Dark => BRIGHTEN_MAGNITUDE,
        Theme::Light => -BRIGHTEN_MAGNITUDE,
    }
}

/// Declares image's dynamic image type so wallpaper pixels can flow
/// through verified code; the library never looks inside one.
#[verifier::external_type_specification]
#[verifier::external_body]
pub struct ExDynamicImage(image::DynamicImage);

/// The width in pixels of an image value, as the image crate reports it.
pub uninterp spec fn image_width_of(img: image::DynamicImage) -> nat;

/// The height in pixels of an image value, as the image crate reports it.
pub uninterp spec fn image_height_of(img: image::DynamicImage) -> nat;

/// Relies on image's GenericImageView::width: the image's width in pixels.
#[verifier::external_body]
fn image_width(img: &image::DynamicImage) -> (r: u32)
    ensures
        r as nat == image_width_of(*img),
{
    img.width()
}

/// Relies on image's GenericImageView::height: the image's height in
/// pixels.
#[verifier::external_body]
fn image_height(img: &image::DynamicImage) -> (r: u32)
    ensures
        r as nat == image_height_of(*img),
{
    img.height()
}

/// Relies on image's DynamicImage::crop: copies out the sub-image at the
/// given rectangle. The crate clamps the rectangle to the image, so a
/// rectangle that fits comes back whole; the source is not modified (the
/// crate documents the method as non-modifying despite `&mut`).
#[verifier::external_body]
fn crop_region(img: &mut image::DynamicImage, x: u32, y: u32, w: u32, h: u32) -> (r:
    image::DynamicImage)
    requires
        x + w <= image_width_of(*old(img)),
        y + h <= image_height_of(*old(img)),
    ensures
        *final(img) == *old(img),
        image_width_of(r) == w,
        image_height_of(r) == h,
{
    img.crop(x, y, w, h)
}

/// Relies on image's DynamicImage::brighten: a same-sized copy with every
/// pixel shifted by `value`.
#[verifier::external_body]
fn brighten_region(img: &image::DynamicImage, value: i32) -> (r: image::DynamicImage)
    ensures
        image_width_of(r) == image_width_of(*img),
        image_height_of(r) == image_height_of(*img),
{
    img.brighten(value)
}

/// Relies on image's DynamicImage::blur: a same-sized Gaussian blur of the
/// given sigma.
#[verifier::external_body]
fn blur_region(img: &image::DynamicImage, sigma: u8) -> (r: image::DynamicImage)
    ensures
        image_width_of(r) == image_width_of(*img),
        image_height_of(r) == image_height_of(*img),
{
    img.blur(sigma.into())
}

/// Relies on image's GenericImage::copy_from: overlays `top` onto `img`
/// with its top-left corner at `(x, y)`. The precondition demands that the
/// overlay fit, which also keeps the crate's `width + x` bounds arithmetic
/// from overflowing; a fitting overlay always succeeds and rewrites pixels
/// only, never the size.
#[verifier::external_body]
fn copy_onto(img: &mut image::DynamicImage, top: &image::DynamicImage, x: u32, y: u32) -> (r:
    Result<(), WallError>)
    requires
        image_width_of(*top) + x <= image_width_of(*old(img)),
        image_height_of(*top) + y <= image_height_of(*old(img)),
    ensures
        r is Ok,
        image_width_of(*final(img)) == image_width_of(*old(img)),
        image_height_of(*final(img)) == image_height_of(*old(img)),
{
    match img.copy_from(top, x, y) {
        Ok(()) => Ok(()),
        Err(_) => Err(WallError::ImageDecodeOrEncodeFailed),
    }
}

/// Relies on imageproc's drawing::draw_text_mut: rasterizes one line of
/// text onto the image at the given position, color, font and scale. Every
/// drawn pixel is bounds-checked by the crate, so only pixels change,
/// never the size.
#[verifier::external_body]
fn draw_line<'a>(
    img: &mut image::DynamicImage,
    color: (u8, u8, u8, u8),
    x: i32,
    y: i32,
    scale: rusttype::Scale,
    font: &'a rusttype::Font<'a>,
    text: &str,
)
    ensures
        image_width_of(*final(img)) == image_width_of(*old(img)),
        image_height_of(*final(img)) == image_height_of(*old(img)),
{
    imageproc::drawing::draw_text_mut(
        img,
        image::Rgba([color.0, color.1, color.2, color.3]),
        x,
        y,
        scale,
        font,
        text,
    );
}

/// Relies on rusttype's Scale: its `y` field is the vertical glyph extent
/// in pixels, truncated here to whole pixels.
#[verifier::external_body]
fn line_height_px(scale: rusttype::Scale) -> u32 {
    scale.y as u32
}

/// Where every drawn line starts horizontally: the panel offset plus a
/// two-percent margin of the image width.
pub open spec fn spec_text_x(panel_x: int, width: int) -> int {
    panel_x + width / 50
}

/// The vertical position of line `i`: a tenth of the image height plus
/// `i` times 1.15 line heights (23/20 in whole pixels), so successive
/// lines are spaced beyond the raw glyph height.
pub open spec fn spec_text_y(height: int, line_h: int, i: int) -> int {
    height / 10 + 23 * i * line_h / 20
}

/// Computes the horizontal start of the text, exactly.
pub fn text_x(panel_x: u32, width: u32) -> (r: u64)
    ensures
        r == spec_text_x(panel_x as int, width as int),
{
    panel_x as u64 + (width / 50) as u64
}

/// Computes the vertical position of line `i`, exactly.
pub fn text_y(height: u32, line_h: u32, i: u64) -> (r: u128)
    ensures
        r == spec_text_y(height as int, line_h as int, i as int),
{
    proof {
        assert(23u128 * (i as u128) * (line_h as u128) <= 23u128 * (u64::MAX as u128) * (
        u32::MAX as u128)) by (nonlinear_arith)
            requires
                i as u128 <= u64::MAX as u128,
                line_h as u128 <= u32::MAX as u128,
        ;
    }
    (height / 10) as u128 + 23u128 * (i as u128) * (line_h as u128) / 20
}

/// Renders `text` onto the right panel of `img` in place: treats the panel
/// (brightness shift by theme, then blur), overlays it, then draws the
/// wrapped lines at the verified positions (`spec_text_x`, `spec_text_y`).
/// Succeeds exactly when both dimensions reach the minimum; a too-small
/// image is rejected untouched; the image's size never changes.
pub fn annotate_image<'a>(
    img: &mut image::DynamicImage,
    text: &str,
    theme: Theme,
    font: &'a rusttype::Font<'a>,
    scale: rusttype::Scale,
) -> (r: Result<(), WallError>)
    ensures
        r is Ok <==> image_width_of(*old(img)) >= MIN_DIMENSION && image_height_of(*old(img))
            >= MIN_DIMENSION,
        r matches Err(e) ==> e == WallError::ImageTooSmall && *final(img) == *old(img),
        image_width_of(*final(img)) == image_width_of(*old(img)),
        image_height_of(*final(img)) == image_height_of(*old(img)),
{
    let ghost img0: image::DynamicImage = *img;
    let w = image_width(img);
    let h = image_height(img);
    let panel = match panel_for(w, h) {
        Ok(p) => p,
        Err(e) => { return Err(e) },
    };
    let lines = wrap_text(text, panel.width, font, scale);
    let cropped = crop_region(img, panel.x_offset, 0, panel.width, panel.height);
    let brightened = brighten_region(&cropped, brighten_amount(theme));
    let treated = blur_region(&brightened, BLUR_SIGMA);
    match copy_onto(img, &treated, panel.x_offset, 0) {
        Ok(()) => {},
        Err(_) => {
            proof {
                assert(false);
            }
        },
    }
    let color = text_color(theme);
    let lh = line_height_px(scale);
    let x64: u64 = text_x(panel.x_offset, w);
    let mut i: usize = 0;
    while i < lines.len()
        invariant
            image_width_of(*img) == image_width_of(img0),
            image_height_of(*img) == image_height_of(img0),
        decreases lines@.len() - i,
    {
        let y128: u128 = text_y(h, lh, i as u64);
        if x64 <= i32::MAX as u64 && y128 <= i32::MAX as u128 {
            draw_line(img, color, x64 as i32, y128 as i32, scale, font, lines[i].as_str());
        }
        i = i + 1;
    }
    Ok(())
}

} // verus!
