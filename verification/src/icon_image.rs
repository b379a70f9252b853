//! Pixel operations on ship icons held in `image::RgbaImage` buffers: the
//! gold halo drawn around detected teammates and the solid tint applied to
//! stats-panel silhouettes.
//!
//! The buffer is the `image` crate's; its contents are named by
//! `icon_pixels` (pixel at column `x`, row `y`) and `icon_size`
//! (width, height), and every access goes through one of the trusted
//! wrappers below.

use vstd::prelude::*;
use image::RgbaImage;

verus! {

/// An RGBA icon held in the `image` crate's buffer. Verus sees it through
/// `icon_pixels` and `icon_size` only.
#[verifier::external_body]
pub struct IconImage {
    img: RgbaImage,
}

/// The pixels of an icon: `(x, y)` maps to its `(r, g, b, a)` channels.
pub uninterp spec fn icon_pixels(img: IconImage) -> Map<(u32, u32), (u8, u8, u8, u8)>;

/// The `(width, height)` an icon was made with.
pub uninterp spec fn icon_size(img: IconImage) -> (u32, u32);

/// Index of the first byte of pixel `(x, y)` in a row-major RGBA buffer.
pub open spec fn rgba_offset(width: int, x: int, y: int) -> int {
    (y * width + x) * 4
}

/// The four bytes of pixel `(x, y)` in a row-major RGBA buffer.
pub open spec fn rgba_bytes_at(data: Seq<u8>, width: int, x: int, y: int) -> (u8, u8, u8, u8) {
    let i = rgba_offset(width, x, y);
    (data[i], data[i + 1], data[i + 2], data[i + 3])
}

/// `ImageBuffer::width`: the width the image was made with.
#[verifier::external_body]
fn rgba_width(img: &IconImage) -> (w: u32)
    ensures
        w == icon_size(*img).0,
{
    img.img.width()
}

/// `ImageBuffer::height`: the height the image was made with.
#[verifier::external_body]
fn rgba_height(img: &IconImage) -> (h: u32)
    ensures
        h == icon_size(*img).1,
{
    img.img.height()
}

/// `ImageBuffer::get_pixel`: the channels of the pixel at `(x, y)`; the crate
/// panics outside the image, so the coordinates must lie inside it.
#[verifier::external_body]
fn rgba_get_pixel(img: &IconImage, x: u32, y: u32) -> (px: (u8, u8, u8, u8))
    requires
        x < icon_size(*img).0,
        y < icon_size(*img).1,
    ensures
        px == icon_pixels(*img)[(x, y)],
{
    let p = img.img.get_pixel(x, y);
    (p.0[0], p.0[1], p.0[2], p.0[3])
}

/// `ImageBuffer::put_pixel`: overwrites the pixel at `(x, y)` and nothing
/// else; the crate panics outside the image.
#[verifier::external_body]
fn rgba_put_pixel(img: &mut IconImage, x: u32, y: u32, px: (u8, u8, u8, u8))
    requires
        x < icon_size(*old(img)).0,
        y < icon_size(*old(img)).1,
    ensures
        icon_size(*final(img)) == icon_size(*old(img)),
        icon_pixels(*final(img)) == icon_pixels(*old(img)).insert((x, y), px),
{
    img.img.put_pixel(x, y, image::Rgba([px.0, px.1, px.2, px.3]));
}

/// `ImageBuffer::from_pixel`: a `width` x `height` image with every pixel set
/// to `px`. The crate panics when the byte buffer would not fit in memory
/// (`width * height * 4` above `isize::MAX`), so that is excluded.
#[verifier::external_body]
fn rgba_from_pixel(width: u32, height: u32, px: (u8, u8, u8, u8)) -> (img: IconImage)
    requires
        width * height * 4 <= isize::MAX,
    ensures
        icon_size(img) == (width, height),
        forall|x: u32, y: u32|
            x < width && y < height ==> #[trigger] icon_pixels(img)[(x, y)] == px,
{
    IconImage { img: RgbaImage::from_pixel(width, height, image::Rgba([px.0, px.1, px.2, px.3])) }
}

/// `ImageBuffer::clone`: an image of the same size holding the same pixels.
#[verifier::external_body]
fn rgba_clone(img: &IconImage) -> (copy: IconImage)
    ensures
        icon_size(copy) == icon_size(*img),
        icon_pixels(copy) == icon_pixels(*img),
{
    IconImage { img: img.img.clone() }
}

/// `ImageBuffer::from_raw`: wraps a row-major RGBA byte buffer. The crate
/// accepts the buffer exactly when it holds at least `width * height * 4`
/// bytes; pixel `(x, y)` is then read from bytes `(y * width + x) * 4 ..`.
#[verifier::external_body]
fn rgba_from_raw(width: u32, height: u32, data: Vec<u8>) -> (img: Option<IconImage>)
    ensures
        img is Some <==> width * height * 4 <= data@.len(),
        img matches Some(i) ==> {
            &&& icon_size(i) == (width, height)
            &&& forall|x: u32, y: u32|
                x < width && y < height ==> #[trigger] icon_pixels(i)[(x, y)] == rgba_bytes_at(
                    data@,
                    width as int,
                    x as int,
                    y as int,
                )
        },
{
    RgbaImage::from_raw(width, height, data).map(|img| IconImage { img })
}

/// `ImageBuffer::into_raw`: the row-major RGBA byte buffer behind the image,
/// which always holds at least `width * height * 4` bytes.
#[verifier::external_body]
fn rgba_into_raw(img: IconImage) -> (data: Vec<u8>)
    ensures
        icon_size(img).0 * icon_size(img).1 * 4 <= data@.len(),
        forall|x: u32, y: u32|
            x < icon_size(img).0 && y < icon_size(img).1 ==> rgba_bytes_at(
                data@,
                icon_size(img).0 as int,
                x as int,
                y as int,
            ) == #[trigger] icon_pixels(img)[(x, y)],
{
    img.img.into_raw()
}

impl IconImage {
    /// An icon from a row-major RGBA byte buffer; `None` when the buffer holds
    /// fewer than `width * height * 4` bytes.
    pub fn from_rgba_bytes(width: u32, height: u32, data: Vec<u8>) -> (img: Option<IconImage>)
        ensures
            img is Some <==> width * height * 4 <= data@.len(),
            img matches Some(i) ==> {
                &&& icon_size(i) == (width, height)
                &&& forall|x: u32, y: u32|
                    x < width && y < height ==> #[trigger] icon_pixels(i)[(x, y)]
                        == rgba_bytes_at(data@, width as int, x as int, y as int)
            },
    {
        rgba_from_raw(width, height, data)
    }

    /// The row-major RGBA bytes of the icon.
    pub fn into_rgba_bytes(self) -> (data: Vec<u8>)
        ensures
            icon_size(self).0 * icon_size(self).1 * 4 <= data@.len(),
            forall|x: u32, y: u32|
                x < icon_size(self).0 && y < icon_size(self).1 ==> rgba_bytes_at(
                    data@,
                    icon_size(self).0 as int,
                    x as int,
                    y as int,
                ) == #[trigger] icon_pixels(self)[(x, y)],
    {
        rgba_into_raw(self)
    }

    /// Width in pixels.
    pub fn width(&self) -> (w: u32)
        ensures
            w == icon_size(*self).0,
    {
        rgba_width(self)
    }

    /// Height in pixels.
    pub fn height(&self) -> (h: u32)
        ensures
            h == icon_size(*self).1,
    {
        rgba_height(self)
    }

    /// The `(r, g, b, a)` channels of the pixel at `(x, y)`.
    pub fn pixel(&self, x: u32, y: u32) -> (px: (u8, u8, u8, u8))
        requires
            x < icon_size(*self).0,
            y < icon_size(*self).1,
        ensures
            px == icon_pixels(*self)[(x, y)],
    {
        rgba_get_pixel(self, x, y)
    }
}

/// The alpha of the icon under outline-canvas position `(x, y)`: the icon is
/// placed `t` pixels in from the top-left corner; outside it the alpha is 0.
pub open spec fn icon_alpha_at(icon: IconImage, t: int, x: int, y: int) -> int {
    let ix = x - t;
    let iy = y - t;
    if ix < 0 || iy < 0 || ix >= icon_size(icon).0 || iy >= icon_size(icon).1 {
        0
    } else {
        icon_pixels(icon)[(ix as u32, iy as u32)].3 as int
    }
}

/// Offset `(dx, dy)` lies in the disc of radius `t` and lands on an opaque
/// (alpha above 128) icon pixel when added to `(x, y)`.
pub open spec fn disc_hits_opaque(icon: IconImage, t: int, x: int, y: int, dx: int, dy: int) -> bool {
    &&& -t <= dx <= t
    &&& -t <= dy <= t
    &&& dx * dx + dy * dy <= t * t
    &&& icon_alpha_at(icon, t, x + dx, y + dy) > 128
}

/// Some opaque icon pixel lies within distance `t` of `(x, y)`.
pub open spec fn near_opaque(icon: IconImage, t: int, x: int, y: int) -> bool {
    exists|dx: int, dy: int| #[trigger] disc_hits_opaque(icon, t, x, y, dx, dy)
}

/// The halo pixel at `(x, y)`: painted where the icon itself is not opaque
/// but an opaque icon pixel lies within the disc; transparent elsewhere.
pub open spec fn outline_pixel(
    icon: IconImage,
    t: int,
    color: [u8; 3],
    alpha: u8,
    x: int,
    y: int,
) -> (u8, u8, u8, u8) {
    if icon_alpha_at(icon, t, x, y) <= 128 && near_opaque(icon, t, x, y) {
        (color@[0], color@[1], color@[2], alpha)
    } else {
        (0, 0, 0, 0)
    }
}

/// Computes `icon_alpha_at`.
fn alpha_at(icon: &IconImage, w: u32, h: u32, t: i64, x: i64, y: i64) -> (a: u8)
    requires
        w == icon_size(*icon).0,
        h == icon_size(*icon).1,
        0 <= t <= 0x7fff_ffff,
        -0x2_0000_0000 <= x <= 0x2_0000_0000,
        -0x2_0000_0000 <= y <= 0x2_0000_0000,
    ensures
        a as int == icon_alpha_at(*icon, t as int, x as int, y as int),
{
    let ix = x - t;
    let iy = y - t;
    if ix < 0 || iy < 0 || ix >= w as i64 || iy >= h as i64 {
        0
    } else {
        let px = rgba_get_pixel(icon, ix as u32, iy as u32);
        px.3
    }
}

/// Decides `near_opaque` by scanning the disc row by row.
fn scan_disc(icon: &IconImage, w: u32, h: u32, t: i64, x: i64, y: i64) -> (hit: bool)
    requires
        w == icon_size(*icon).0,
        h == icon_size(*icon).1,
        0 <= t <= 46340,
        0 <= x <= 0xffff_ffff,
        0 <= y <= 0xffff_ffff,
    ensures
        hit == near_opaque(*icon, t as int, x as int, y as int),
{
    assert(0 <= t * t <= 46340 * 46340) by (nonlinear_arith)
        requires
            0 <= t <= 46340,
    ;
    let t_sq: i64 = t * t;
    let mut dy: i64 = 0 - t;
    while dy <= t
        invariant
            w == icon_size(*icon).0,
            h == icon_size(*icon).1,
            0 <= t <= 46340,
            0 <= x <= 0xffff_ffff,
            0 <= y <= 0xffff_ffff,
            t_sq == t * t,
            -t <= dy <= t + 1,
            forall|ddx: int, ddy: int|
                ddy < dy ==> !#[trigger] disc_hits_opaque(*icon, t as int, x as int, y as int, ddx, ddy),
        decreases t + 1 - dy,
    {
        let mut dx: i64 = 0 - t;
        while dx <= t
            invariant
                w == icon_size(*icon).0,
                h == icon_size(*icon).1,
                0 <= t <= 46340,
                0 <= x <= 0xffff_ffff,
                0 <= y <= 0xffff_ffff,
                t_sq == t * t,
                -t <= dy <= t,
                -t <= dx <= t + 1,
                forall|ddx: int, ddy: int|
                    ddy < dy ==> !#[trigger] disc_hits_opaque(*icon, t as int, x as int, y as int, ddx, ddy),
                forall|ddx: int|
                    ddx < dx ==> !#[trigger] disc_hits_opaque(*icon, t as int, x as int, y as int, ddx, dy as int),
            decreases t + 1 - dx,
        {
            assert(0 <= dx * dx <= t * t && 0 <= dy * dy <= t * t) by (nonlinear_arith)
                requires
                    -t <= dx <= t,
                    -t <= dy <= t,
            ;
            assert(t * t <= 46340 * 46340) by (nonlinear_arith)
                requires
                    0 <= t <= 46340,
            ;
            if dx * dx + dy * dy <= t_sq {
                let a = alpha_at(icon, w, h, t, x + dx, y + dy);
                if a > 128 {
                    assert(disc_hits_opaque(*icon, t as int, x as int, y as int, dx as int, dy as int));
                    return true;
                }
            }
            dx = dx + 1;
        }
        assert forall|ddx: int, ddy: int| ddy < dy + 1 implies !#[trigger] disc_hits_opaque(
            *icon,
            t as int,
            x as int,
            y as int,
            ddx,
            ddy,
        ) by {
            if ddy == dy as int && -t <= ddx <= t {
                assert(ddx < dx);
            }
        }
        dy = dy + 1;
    }
    false
}

/// Build a padded outline image for a ship icon: the icon's silhouette dilated
/// by `thickness` pixels, colored `color` with opacity `alpha`, on a canvas
/// `thickness` pixels larger on every side. Pixels where the icon itself is
/// opaque stay transparent, so the halo composites cleanly under the icon.
pub fn make_ship_icon_outline(icon: &IconImage, thickness: u32, color: [u8; 3], alpha: u8) -> (out: IconImage)
    requires
        thickness * thickness <= i32::MAX,
        icon_size(*icon).0 + 2 * thickness <= u32::MAX,
        icon_size(*icon).1 + 2 * thickness <= u32::MAX,
        (icon_size(*icon).0 + 2 * thickness) * (icon_size(*icon).1 + 2 * thickness) * 4 <= isize::MAX,
    ensures
        icon_size(out) == ((icon_size(*icon).0 + 2 * thickness) as u32, (icon_size(*icon).1 + 2
            * thickness) as u32),
        forall|x: u32, y: u32|
            x < icon_size(out).0 && y < icon_size(out).1 ==> #[trigger] icon_pixels(out)[(x, y)]
                == outline_pixel(*icon, thickness as int, color, alpha, x as int, y as int),
{
    let iw = rgba_width(icon);
    let ih = rgba_height(icon);
    let ow: u32 = iw + 2 * thickness;
    let oh: u32 = ih + 2 * thickness;
    let t: i64 = thickness as i64;
    assert(thickness <= 46340) by (nonlinear_arith)
        requires
            thickness * thickness <= i32::MAX,
    ;
    let mut out = rgba_from_pixel(ow, oh, (0, 0, 0, 0));
    let paint: (u8, u8, u8, u8) = (color[0], color[1], color[2], alpha);
    let ghost spec_icon = *icon;
    let mut y: u32 = 0;
    while y < oh
        invariant
            iw == icon_size(*icon).0,
            ih == icon_size(*icon).1,
            ow == iw + 2 * thickness,
            oh == ih + 2 * thickness,
            t == thickness,
            thickness <= 46340,
            paint == (color@[0], color@[1], color@[2], alpha),
            y <= oh,
            icon_size(out) == (ow, oh),
            forall|a: u32, b: u32|
                a < ow && b < oh ==> #[trigger] icon_pixels(out)[(a, b)] == (if b < y {
                    outline_pixel(*icon, thickness as int, color, alpha, a as int, b as int)
                } else {
                    (0u8, 0u8, 0u8, 0u8)
                }),
        decreases oh - y,
    {
        let mut x: u32 = 0;
        while x < ow
            invariant
                iw == icon_size(*icon).0,
                ih == icon_size(*icon).1,
                ow == iw + 2 * thickness,
                oh == ih + 2 * thickness,
                t == thickness,
                thickness <= 46340,
                paint == (color@[0], color@[1], color@[2], alpha),
                y < oh,
                x <= ow,
                icon_size(out) == (ow, oh),
                forall|a: u32, b: u32|
                    a < ow && b < oh ==> #[trigger] icon_pixels(out)[(a, b)] == (if b < y || (b == y
                        && a < x) {
                        outline_pixel(*icon, thickness as int, color, alpha, a as int, b as int)
                    } else {
                        (0u8, 0u8, 0u8, 0u8)
                    }),
            decreases ow - x,
        {
            let here = alpha_at(icon, iw, ih, t, x as i64, y as i64);
            if here <= 128 {
                let hit = scan_disc(icon, iw, ih, t, x as i64, y as i64);
                if hit {
                    rgba_put_pixel(&mut out, x, y, paint);
                }
            }
            proof {
                assert(icon_pixels(out)[(x, y)] == outline_pixel(
                    *icon,
                    thickness as int,
                    color,
                    alpha,
                    x as int,
                    y as int,
                ));
            }
            x = x + 1;
        }
        y = y + 1;
    }
    out
}

/// The silhouette tint of one pixel: any pixel with some opacity takes the
/// tint colour and keeps its alpha; fully transparent pixels are unchanged.
pub open spec fn tinted_pixel(px: (u8, u8, u8, u8), color: [u8; 3]) -> (u8, u8, u8, u8) {
    if px.3 > 0 {
        (color@[0], color@[1], color@[2], px.3)
    } else {
        px
    }
}

/// Tint a silhouette image (alpha-masked) with a solid color.
pub fn tint_silhouette(img: &IconImage, color: [u8; 3]) -> (out: IconImage)
    ensures
        icon_size(out) == icon_size(*img),
        forall|x: u32, y: u32|
            x < icon_size(out).0 && y < icon_size(out).1 ==> #[trigger] icon_pixels(out)[(x, y)]
                == tinted_pixel(icon_pixels(*img)[(x, y)], color),
        forall|x: u32, y: u32|
            x < icon_size(out).0 && y < icon_size(out).1 ==> (icon_pixels(*img)[(x, y)].3 > 0 ==> #[trigger] icon_pixels(out)[(x, y)] == (
                color@[0],
                color@[1],
                color@[2],
                icon_pixels(*img)[(x, y)].3,
            )) && (icon_pixels(*img)[(x, y)].3 == 0 ==> icon_pixels(out)[(x, y)] == icon_pixels(*img)[(x, y)]),
{
    let mut out = rgba_clone(img);
    let w = rgba_width(img);
    let h = rgba_height(img);
    let mut y: u32 = 0;
    while y < h
        invariant
            w == icon_size(*img).0,
            h == icon_size(*img).1,
            y <= h,
            icon_size(out) == icon_size(*img),
            forall|a: u32, b: u32|
                a < w && b < h ==> #[trigger] icon_pixels(out)[(a, b)] == (if b < y {
                    tinted_pixel(icon_pixels(*img)[(a, b)], color)
                } else {
                    icon_pixels(*img)[(a, b)]
                }),
        decreases h - y,
    {
        let mut x: u32 = 0;
        while x < w
            invariant
                w == icon_size(*img).0,
                h == icon_size(*img).1,
                y < h,
                x <= w,
                icon_size(out) == icon_size(*img),
                forall|a: u32, b: u32|
                    a < w && b < h ==> #[trigger] icon_pixels(out)[(a, b)] == (if b < y || (b == y
                        && a < x) {
                        tinted_pixel(icon_pixels(*img)[(a, b)], color)
                    } else {
                        icon_pixels(*img)[(a, b)]
                    }),
            decreases w - x,
        {
            let px = rgba_get_pixel(img, x, y);
            if px.3 > 0 {
                rgba_put_pixel(&mut out, x, y, (color[0], color[1], color[2], px.3));
            }
            x = x + 1;
        }
        y = y + 1;
    }
    out
}

/// The halo never paints over the icon: where the icon itself is opaque,
/// the halo pixel is transparent.
pub proof fn law_halo_leaves_icon_clear(icon: IconImage, t: int, color: [u8; 3], alpha: u8, x: int, y: int)
    requires
        icon_alpha_at(icon, t, x, y) > 128,
    ensures
        outline_pixel(icon, t, color, alpha, x, y) == (0u8, 0u8, 0u8, 0u8),
{
}

/// Every painted halo pixel lies on a transparent-enough icon pixel within
/// `t` pixels (in the disc) of an opaque icon pixel.
pub proof fn law_halo_hugs_icon(icon: IconImage, t: int, color: [u8; 3], alpha: u8, x: int, y: int)
    requires
        outline_pixel(icon, t, color, alpha, x, y) != (0u8, 0u8, 0u8, 0u8),
    ensures
        icon_alpha_at(icon, t, x, y) <= 128,
        near_opaque(icon, t, x, y),
{
}

/// A halo of thickness 0 is empty.
pub proof fn law_zero_thickness_halo_is_empty(icon: IconImage, color: [u8; 3], alpha: u8, x: int, y: int)
    ensures
        outline_pixel(icon, 0, color, alpha, x, y) == (0u8, 0u8, 0u8, 0u8),
{
    if near_opaque(icon, 0, x, y) {
        let (dx, dy) = choose|dx: int, dy: int| #[trigger] disc_hits_opaque(icon, 0, x, y, dx, dy);
        assert(dx == 0 && dy == 0);
    }
}

/// Every pixel with any opacity at all, however faint, takes the tint
/// colour and keeps its alpha; fully transparent pixels are left as they
/// are.
pub proof fn law_tint_paints_every_visible_pixel(px: (u8, u8, u8, u8), color: [u8; 3])
    ensures
        px.3 > 0 ==> tinted_pixel(px, color) == (color@[0], color@[1], color@[2], px.3),
        px.3 == 0 ==> tinted_pixel(px, color) == px,
{
}

/// Tinting keeps every pixel's alpha, and tinting again replaces the first
/// tint: only the last colour matters.
pub proof fn law_tint_keeps_alpha_last_colour_wins(px: (u8, u8, u8, u8), first: [u8; 3], second: [u8; 3])
    ensures
        tinted_pixel(px, first).3 == px.3,
        tinted_pixel(tinted_pixel(px, first), second) == tinted_pixel(px, second),
{
}

} // verus!