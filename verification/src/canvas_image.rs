//! The static background of every frame: the map picture copied onto a
//! dark canvas, and the conversion of that RGB canvas into the premultiplied
//! RGBA `tiny_skia::Pixmap` that the frame is drawn on.
//!
//! The RGB buffer is the `image` crate's, kept inside `MapImage` and seen
//! through `map_pixels` and `map_size`; the pixmap is seen through
//! `pixmap_bytes` and `pixmap_size`.

use vstd::prelude::*;
use image::RgbImage;
use tiny_skia::{IntSize, Pixmap};
use crate::layout::CanvasGeometry;
use crate::MINIMAP_SIZE;

verus! {

/// An RGB picture held in the `image` crate's buffer.
#[verifier::external_body]
pub struct MapImage {
    img: RgbImage,
}

/// The pixels of an RGB picture: `(x, y)` maps to its `(r, g, b)` channels.
pub uninterp spec fn map_pixels(img: MapImage) -> Map<(u32, u32), (u8, u8, u8)>;

/// The `(width, height)` an RGB picture was made with.
pub uninterp spec fn map_size(img: MapImage) -> (u32, u32);

#[verifier::external_type_specification]
#[verifier::external_body]
pub struct ExPixmap(Pixmap);

#[verifier::external_type_specification]
#[verifier::external_body]
pub struct ExIntSize(IntSize);

/// The bytes of a pixmap: premultiplied RGBA, row-major.
pub uninterp spec fn pixmap_bytes(p: Pixmap) -> Seq<u8>;

/// The `(width, height)` of a pixmap.
pub uninterp spec fn pixmap_size(p: Pixmap) -> (u32, u32);

/// The `(width, height)` an `IntSize` holds.
pub uninterp spec fn int_size_dims(s: IntSize) -> (u32, u32);

/// The three bytes of pixel `(x, y)` in a row-major RGB buffer.
pub open spec fn rgb_bytes_at(data: Seq<u8>, width: int, x: int, y: int) -> (u8, u8, u8) {
    let i = (y * width + x) * 3;
    (data[i], data[i + 1], data[i + 2])
}

/// `ImageBuffer::width` of an RGB picture.
#[verifier::external_body]
fn rgb_width(img: &MapImage) -> (w: u32)
    ensures
        w == map_size(*img).0,
{
    img.img.width()
}

/// `ImageBuffer::height` of an RGB picture.
#[verifier::external_body]
fn rgb_height(img: &MapImage) -> (h: u32)
    ensures
        h == map_size(*img).1,
{
    img.img.height()
}

/// `ImageBuffer::get_pixel` of an RGB picture; the crate panics outside it.
#[verifier::external_body]
fn rgb_get_pixel(img: &MapImage, x: u32, y: u32) -> (px: (u8, u8, u8))
    requires
        x < map_size(*img).0,
        y < map_size(*img).1,
    ensures
        px == map_pixels(*img)[(x, y)],
{
    let p = img.img.get_pixel(x, y);
    (p.0[0], p.0[1], p.0[2])
}

/// `ImageBuffer::put_pixel` of an RGB picture: overwrites pixel `(x, y)`
/// only; the crate panics outside the picture.
#[verifier::external_body]
fn rgb_put_pixel(img: &mut MapImage, x: u32, y: u32, px: (u8, u8, u8))
    requires
        x < map_size(*old(img)).0,
        y < map_size(*old(img)).1,
    ensures
        map_size(*final(img)) == map_size(*old(img)),
        map_pixels(*final(img)) == map_pixels(*old(img)).insert((x, y), px),
{
    img.img.put_pixel(x, y, image::Rgb([px.0, px.1, px.2]));
}

/// `ImageBuffer::from_pixel` of an RGB picture: every pixel set to `px`; the
/// crate panics when `width * height * 3` bytes do not fit in memory.
#[verifier::external_body]
fn rgb_from_pixel(width: u32, height: u32, px: (u8, u8, u8)) -> (img: MapImage)
    requires
        width * height * 3 <= isize::MAX,
    ensures
        map_size(img) == (width, height),
        forall|x: u32, y: u32| x < width && y < height ==> #[trigger] map_pixels(img)[(x, y)] == px,
{
    MapImage { img: RgbImage::from_pixel(width, height, image::Rgb([px.0, px.1, px.2])) }
}

/// `ImageBuffer::from_raw` of an RGB picture: accepted exactly when the
/// buffer holds at least `width * height * 3` bytes.
#[verifier::external_body]
fn rgb_from_raw(width: u32, height: u32, data: Vec<u8>) -> (img: Option<MapImage>)
    ensures
        img is Some <==> width * height * 3 <= data@.len(),
        img matches Some(i) ==> {
            &&& map_size(i) == (width, height)
            &&& forall|x: u32, y: u32|
                x < width && y < height ==> #[trigger] map_pixels(i)[(x, y)] == rgb_bytes_at(
                    data@,
                    width as int,
                    x as int,
                    y as int,
                )
        },
{
    RgbImage::from_raw(width, height, data).map(|img| MapImage { img })
}

/// `ImageBuffer::into_raw` of an RGB picture: its row-major bytes, at least
/// `width * height * 3` of them.
#[verifier::external_body]
fn rgb_into_raw(img: MapImage) -> (data: Vec<u8>)
    ensures
        map_size(img).0 * map_size(img).1 * 3 <= data@.len(),
        forall|x: u32, y: u32|
            x < map_size(img).0 && y < map_size(img).1 ==> rgb_bytes_at(
                data@,
                map_size(img).0 as int,
                x as int,
                y as int,
            ) == #[trigger] map_pixels(img)[(x, y)],
{
    img.img.into_raw()
}

/// `IntSize::from_wh`: a size, for non-zero width and height only.
#[verifier::external_body]
fn int_size_from_wh(width: u32, height: u32) -> (size: Option<IntSize>)
    ensures
        size is Some <==> (width > 0 && height > 0),
        size matches Some(v) ==> int_size_dims(v) == (width, height),
{
    IntSize::from_wh(width, height)
}

/// `Pixmap::from_vec`: takes ownership of premultiplied RGBA bytes. It
/// accepts them exactly when a row (`width * 4` bytes) fits in an `i32` and
/// the buffer holds exactly `width * height * 4` bytes.
#[verifier::external_body]
fn pixmap_from_vec(data: Vec<u8>, size: IntSize) -> (p: Option<Pixmap>)
    ensures
        p is Some <==> (int_size_dims(size).0 * 4 <= i32::MAX && data@.len() == int_size_dims(size).0
            * int_size_dims(size).1 * 4),
        p matches Some(pm) ==> pixmap_bytes(pm) == data@ && pixmap_size(pm) == int_size_dims(size),
{
    Pixmap::from_vec(data, size)
}

impl MapImage {
    /// A picture from row-major RGB bytes; `None` when the buffer holds
    /// fewer than `width * height * 3` bytes.
    pub fn from_rgb_bytes(width: u32, height: u32, data: Vec<u8>) -> (img: Option<MapImage>)
        ensures
            img is Some <==> width * height * 3 <= data@.len(),
            img matches Some(i) ==> {
                &&& map_size(i) == (width, height)
                &&& forall|x: u32, y: u32|
                    x < width && y < height ==> #[trigger] map_pixels(i)[(x, y)] == rgb_bytes_at(
                        data@,
                        width as int,
                        x as int,
                        y as int,
                    )
            },
    {
        rgb_from_raw(width, height, data)
    }

    /// The row-major RGB bytes of the picture.
    pub fn into_rgb_bytes(self) -> (data: Vec<u8>)
        ensures
            map_size(self).0 * map_size(self).1 * 3 <= data@.len(),
            forall|x: u32, y: u32|
                x < map_size(self).0 && y < map_size(self).1 ==> rgb_bytes_at(
                    data@,
                    map_size(self).0 as int,
                    x as int,
                    y as int,
                ) == #[trigger] map_pixels(self)[(x, y)],
    {
        rgb_into_raw(self)
    }

    /// Width in pixels.
    pub fn width(&self) -> (w: u32)
        ensures
            w == map_size(*self).0,
    {
        rgb_width(self)
    }

    /// Height in pixels.
    pub fn height(&self) -> (h: u32)
        ensures
            h == map_size(*self).1,
    {
        rgb_height(self)
    }

    /// The `(r, g, b)` channels of the pixel at `(x, y)`.
    pub fn pixel(&self, x: u32, y: u32) -> (px: (u8, u8, u8))
        requires
            x < map_size(*self).0,
            y < map_size(*self).1,
        ensures
            px == map_pixels(*self)[(x, y)],
    {
        rgb_get_pixel(self, x, y)
    }
}

/// Colour of the canvas outside the minimap.
pub open spec fn canvas_background() -> (u8, u8, u8) {
    (20, 25, 35)
}

/// Colour of the minimap when no map picture is available.
pub open spec fn missing_map_color() -> (u8, u8, u8) {
    (30, 40, 60)
}

/// The map picture's pixel shown at minimap position `(mx, my)`: only the
/// part of the picture inside the minimap square is shown.
pub open spec fn map_shows(map: Option<MapImage>, mx: int, my: int) -> Option<(u8, u8, u8)> {
    match map {
        Some(m) => if 0 <= mx < map_size(m).0 && mx < MINIMAP_SIZE && 0 <= my < map_size(m).1 && my
            < MINIMAP_SIZE {
            Some(map_pixels(m)[(mx as u32, my as u32)])
        } else {
            None
        },
        None => if 0 <= mx < MINIMAP_SIZE && 0 <= my < MINIMAP_SIZE {
            Some(missing_map_color())
        } else {
            None
        },
    }
}

/// The background pixel at canvas position `(x, y)`.
pub open spec fn base_pixel(map: Option<MapImage>, g: CanvasGeometry, x: int, y: int) -> (u8, u8, u8) {
    match map_shows(map, x - g.map_x_offset, y - g.map_y_offset) {
        Some(px) => px,
        None => canvas_background(),
    }
}

/// Pre-builds the frame background: a dark canvas of the geometry's size
/// with the map picture (a flat blue-grey square when there is none) copied
/// onto the minimap area, clipped to the minimap square.
pub fn compose_base_image(map_image: Option<MapImage>, g: &CanvasGeometry) -> (base: MapImage)
    requires
        g.map_x_offset + MINIMAP_SIZE <= g.canvas_width,
        g.map_y_offset + MINIMAP_SIZE <= g.canvas_height,
        g.canvas_width * g.canvas_height * 3 <= isize::MAX,
    ensures
        map_size(base) == (g.canvas_width, g.canvas_height),
        forall|x: u32, y: u32|
            x < g.canvas_width && y < g.canvas_height ==> #[trigger] map_pixels(base)[(x, y)]
                == base_pixel(map_image, *g, x as int, y as int),
        map_image matches Some(m) ==> forall|mx: u32, my: u32|
            mx < map_size(m).0 && mx < MINIMAP_SIZE && my < map_size(m).1 && my < MINIMAP_SIZE
                ==> #[trigger] map_pixels(base)[((g.map_x_offset + mx) as u32, (g.map_y_offset + my) as u32)]
                == map_pixels(m)[(mx, my)],
{
    let ghost spec_map = map_image;
    let map = match map_image {
        Some(m) => m,
        None => rgb_from_pixel(MINIMAP_SIZE, MINIMAP_SIZE, (30, 40, 60)),
    };
    let mw = rgb_width(&map);
    let mh = rgb_height(&map);
    let cw: u32 = if mw < MINIMAP_SIZE {
        mw
    } else {
        MINIMAP_SIZE
    };
    let ch: u32 = if mh < MINIMAP_SIZE {
        mh
    } else {
        MINIMAP_SIZE
    };
    let mut base = rgb_from_pixel(g.canvas_width, g.canvas_height, (20, 25, 35));
    let mut y: u32 = 0;
    while y < ch
        invariant
            g.map_x_offset + MINIMAP_SIZE <= g.canvas_width,
            g.map_y_offset + MINIMAP_SIZE <= g.canvas_height,
            mw == map_size(map).0,
            mh == map_size(map).1,
            cw <= mw && cw <= MINIMAP_SIZE && (cw == mw || cw == MINIMAP_SIZE),
            ch <= mh && ch <= MINIMAP_SIZE && (ch == mh || ch == MINIMAP_SIZE),
            y <= ch,
            map_size(base) == (g.canvas_width, g.canvas_height),
            forall|a: u32, b: u32|
                a < g.canvas_width && b < g.canvas_height ==> #[trigger] map_pixels(base)[(a, b)] == (
                if g.map_x_offset <= a < g.map_x_offset + cw && g.map_y_offset <= b < g.map_y_offset
                    + y {
                    map_pixels(map)[((a - g.map_x_offset) as u32, (b - g.map_y_offset) as u32)]
                } else {
                    canvas_background()
                }),
        decreases ch - y,
    {
        let mut x: u32 = 0;
        while x < cw
            invariant
                g.map_x_offset + MINIMAP_SIZE <= g.canvas_width,
                g.map_y_offset + MINIMAP_SIZE <= g.canvas_height,
                mw == map_size(map).0,
                mh == map_size(map).1,
                cw <= mw && cw <= MINIMAP_SIZE,
                ch <= mh && ch <= MINIMAP_SIZE,
                y < ch,
                x <= cw,
                map_size(base) == (g.canvas_width, g.canvas_height),
                forall|a: u32, b: u32|
                    a < g.canvas_width && b < g.canvas_height ==> #[trigger] map_pixels(base)[(a, b)]
                        == (if (g.map_x_offset <= a < g.map_x_offset + cw && g.map_y_offset <= b
                        < g.map_y_offset + y) || (g.map_x_offset <= a < g.map_x_offset + x && b
                        == g.map_y_offset + y) {
                        map_pixels(map)[((a - g.map_x_offset) as u32, (b - g.map_y_offset) as u32)]
                    } else {
                        canvas_background()
                    }),
            decreases cw - x,
        {
            let px = rgb_get_pixel(&map, x, y);
            rgb_put_pixel(&mut base, x + g.map_x_offset, y + g.map_y_offset, px);
            x = x + 1;
        }
        y = y + 1;
    }
    proof {
        assert forall|x: u32, y: u32| x < g.canvas_width && y < g.canvas_height implies #[trigger] map_pixels(
            base,
        )[(x, y)] == base_pixel(spec_map, *g, x as int, y as int) by {
            if spec_map is None {
                let mx = x - g.map_x_offset;
                let my = y - g.map_y_offset;
                if g.map_x_offset <= x < g.map_x_offset + cw && g.map_y_offset <= y < g.map_y_offset
                    + ch {
                    assert(map_pixels(map)[(mx as u32, my as u32)] == missing_map_color());
                }
            }
        }
        if let Some(m) = spec_map {
            assert forall|mx: u32, my: u32|
                mx < map_size(m).0 && mx < MINIMAP_SIZE && my < map_size(m).1 && my < MINIMAP_SIZE
                    implies #[trigger] map_pixels(base)[((g.map_x_offset + mx) as u32, (g.map_y_offset + my) as u32)]
                == map_pixels(m)[(mx, my)] by {
                let x = (g.map_x_offset + mx) as u32;
                let y = (g.map_y_offset + my) as u32;
                assert(map_pixels(base)[(x, y)] == base_pixel(spec_map, *g, x as int, y as int));
            }
        }
    }
    base
}

/// The map picture is copied onto the canvas by a translation: its pixel
/// `(mx, my)`, inside the picture and the minimap square, shows at
/// `(map_x_offset + mx, map_y_offset + my)`; every canvas pixel left of,
/// right of, above or below the minimap square keeps the dark background.
pub proof fn law_map_copied_in_place(m: MapImage, g: CanvasGeometry, mx: int, my: int, x: int, y: int)
    ensures
        0 <= mx < map_size(m).0 && mx < MINIMAP_SIZE && 0 <= my < map_size(m).1 && my < MINIMAP_SIZE
            ==> base_pixel(Some(m), g, g.map_x_offset + mx, g.map_y_offset + my) == map_pixels(m)[(
            mx as u32,
            my as u32,
        )],
        (x < g.map_x_offset || x >= g.map_x_offset + MINIMAP_SIZE || y < g.map_y_offset || y
            >= g.map_y_offset + MINIMAP_SIZE) ==> base_pixel(Some(m), g, x, y) == (20u8, 25u8, 35u8)
            && base_pixel(None, g, x, y) == (20u8, 25u8, 35u8),
        (g.map_x_offset <= x < g.map_x_offset + MINIMAP_SIZE && g.map_y_offset <= y < g.map_y_offset
            + MINIMAP_SIZE) ==> base_pixel(None, g, x, y) == (30u8, 40u8, 60u8),
{
}

/// The premultiplied RGBA bytes of an opaque RGB picture: each pixel's
/// colour followed by full alpha.
pub open spec fn opaque_rgba_bytes_ok(data: Seq<u8>, img: MapImage) -> bool {
    let (w, h) = map_size(img);
    &&& data.len() == w * h * 4
    &&& forall|x: u32, y: u32|
        x < w && y < h ==> {
            let i = (y * w + x) * 4;
            let px = #[trigger] map_pixels(img)[(x, y)];
            data[i] == px.0 && data[i + 1] == px.1 && data[i + 2] == px.2 && data[i + 3] == 255
        }
}

/// Convert an RGB image (no alpha) to a tiny-skia Pixmap (opaque RGBA,
/// premultiplied). Pixmaps cannot be empty and their rows must fit in
/// `i32::MAX` bytes.
pub fn rgb_to_pixmap(img: &MapImage) -> (pm: Pixmap)
    requires
        map_size(*img).0 > 0,
        map_size(*img).1 > 0,
        map_size(*img).0 * 4 <= i32::MAX,
        map_size(*img).0 * map_size(*img).1 * 4 <= isize::MAX,
    ensures
        pixmap_size(pm) == map_size(*img),
        opaque_rgba_bytes_ok(pixmap_bytes(pm), *img),
{
    let w = rgb_width(img);
    let h = rgb_height(img);
    let mut data: Vec<u8> = Vec::new();
    let mut y: u32 = 0;
    while y < h
        invariant
            w == map_size(*img).0,
            h == map_size(*img).1,
            w * h * 4 <= isize::MAX,
            y <= h,
            data@.len() == y * w * 4,
            forall|a: u32, b: u32|
                a < w && b < y ==> {
                    let i = (b * w + a) * 4;
                    let px = #[trigger] map_pixels(*img)[(a, b)];
                    data@[i] == px.0 && data@[i + 1] == px.1 && data@[i + 2] == px.2 && data@[i + 3]
                        == 255
                },
        decreases h - y,
    {
        let mut x: u32 = 0;
        while x < w
            invariant
                w == map_size(*img).0,
                h == map_size(*img).1,
                w * h * 4 <= isize::MAX,
                y < h,
                x <= w,
                data@.len() == (y * w + x) * 4,
                forall|a: u32, b: u32|
                    (a < w && b < y) || (a < x && b == y) ==> {
                        let i = (b * w + a) * 4;
                        let px = #[trigger] map_pixels(*img)[(a, b)];
                        data@[i] == px.0 && data@[i + 1] == px.1 && data@[i + 2] == px.2 && data@[i
                            + 3] == 255
                    },
            decreases w - x,
        {
            let px = rgb_get_pixel(img, x, y);
            proof {
                assert((y * w + x) * 4 + 4 <= w * h * 4) by (nonlinear_arith)
                    requires
                        x < w,
                        y < h,
                ;
            }
            let ghost before = data@;
            data.push(px.0);
            data.push(px.1);
            data.push(px.2);
            data.push(255);
            assert(data@ =~= before + seq![px.0, px.1, px.2, 255u8]);
            proof {
                assert forall|a: u32, b: u32| (a < w && b < y) || (a < x + 1 && b == y) implies {
                    let i = (b * w + a) * 4;
                    let p = #[trigger] map_pixels(*img)[(a, b)];
                    data@[i] == p.0 && data@[i + 1] == p.1 && data@[i + 2] == p.2 && data@[i + 3] == 255
                } by {
                    let i = (b * w + a) * 4;
                    if a == x && b == y {
                        assert(i == before.len());
                    } else {
                        assert((b * w + a) * 4 + 4 <= (y * w + x) * 4) by (nonlinear_arith)
                            requires
                                (a < w && b < y) || (a < x && b == y),
                        ;
                        assert(data@[i] == before[i] && data@[i + 1] == before[i + 1] && data@[i + 2]
                            == before[i + 2] && data@[i + 3] == before[i + 3]);
                    }
                }
            }
            x = x + 1;
        }
        assert((y * w + w) * 4 == (y + 1) * w * 4) by (nonlinear_arith);
        y = y + 1;
    }
    let size = int_size_from_wh(w, h).unwrap();
    assert(h * w * 4 == w * h * 4) by (nonlinear_arith);
    assert(data@.len() == w * h * 4);
    pixmap_from_vec(data, size).unwrap()
}

} // verus!
