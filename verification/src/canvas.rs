//! The computations of a window-backed framebuffer: the size a window takes
//! for a rotation, and the pixels of a region read back from the window as
//! RGB triples.
use vstd::prelude::*;
use crate::colour::{lemma_invert_involutive, Colour};
use crate::framebuffer::{
    lemma_painted_on_push, lemma_painted_on_refl, painted_on, repaint, Framebuffer,
};
use crate::geom::{u32_as_i32, Rectangle};

verus! {

/// The remainder of Rust's `%`: it takes the sign of the dividend.
pub open spec fn rem_trunc(a: int, b: int) -> int {
    if a >= 0 {
        a % b
    } else {
        -((-a) % b)
    }
}

/// The size of the window for the rotation `n`: the sides are swapped when
/// the window is in portrait and `n` is not even, or in landscape and `n`
/// is not odd (with Rust's remainder, a negative odd `n` is neither).
pub open spec fn spec_rotated_dims(width: u32, height: u32, n: i8) -> (u32, u32) {
    if (width < height && rem_trunc(n as int, 2) != 0) || (width > height && rem_trunc(
        n as int,
        2,
    ) != 1) {
        (height, width)
    } else {
        (width, height)
    }
}

pub fn rotated_dims(width: u32, height: u32, n: i8) -> (d: (u32, u32))
    ensures
        d == spec_rotated_dims(width, height, n),
{
    let r = n % 2;
    if (width < height && r != 0) || (width > height && r != 1) {
        (height, width)
    } else {
        (width, height)
    }
}

/// A non-negative even rotation gives a window in portrait (or square), a
/// non-negative odd one a window in landscape (or square), and the window
/// keeps its two sides.
pub proof fn lemma_rotated_dims(width: u32, height: u32, n: i8)
    ensures
        ({
            let d = spec_rotated_dims(width, height, n);
            &&& (d == (width, height) || d == (height, width))
            &&& n >= 0 && n % 2 == 0 ==> d.0 <= d.1
            &&& n >= 0 && n % 2 == 1 ==> d.0 >= d.1
        }),
{
}

/// The colour of the pixel `(u, v)` of an RGB24 image `width` pixels wide.
pub open spec fn spec_rgb24_colour(data: Seq<u8>, width: int, u: int, v: int) -> Colour {
    let addr = 3 * (v * width + u);
    Colour::Rgb(data[addr], data[addr + 1], data[addr + 2])
}

/// The image holds `height` rows of `width` RGB triples.
pub open spec fn rgb24_holds(data: Seq<u8>, width: int, height: int) -> bool {
    data.len() >= 3 * (width * height)
}

pub fn rgb24_colour(data: &Vec<u8>, width: u32, height: u32, u: u32, v: u32) -> (c: Colour)
    requires
        rgb24_holds(data@, width as int, height as int),
        u < width,
        v < height,
    ensures
        c == spec_rgb24_colour(data@, width as int, u as int, v as int),
{
    proof {
        assert(v * width + u + 1 <= width * height) by (nonlinear_arith)
            requires
                u < width,
                v < height,
        ;
        assert(data@.len() == data.len());
        assert(v * width <= v * width + u);
        assert(3 * (v * width + u) + 3 <= data.len());
    }
    let addr: usize = 3 * (v as usize * width as usize + u as usize);
    Colour::Rgb(data[addr], data[addr + 1], data[addr + 2])
}

/// The pixel `p`, whose coordinates are those of a signed position passed
/// as unsigned ones, lies in `rect`.
pub open spec fn in_rect_signed(rect: Rectangle, p: (u32, u32)) -> bool {
    &&& rect.min.x <= u32_as_i32(p.0 as int) < rect.max.x
    &&& rect.min.y <= u32_as_i32(p.1 as int) < rect.max.y
}

/// What a pass over a region does to the colour of each pixel.
#[derive(Debug, Clone, Copy, PartialEq, Eq, Structural)]
pub enum Recolour {
    /// Replaces the colour by its inverse.
    Invert,
    /// Lowers every component by the drift.
    Shift(u8),
}

/// The colour `c` recoloured by `op`.
pub open spec fn recoloured(c: Colour, op: Recolour) -> Colour {
    match op {
        Recolour::Invert => c.spec_inverted(),
        Recolour::Shift(drift) => c.spec_shifted(drift),
    }
}

/// The colours of `pixels` with every pixel of `rect` set to its colour in
/// `data`, the RGB24 image of `rect`, recoloured by `op`.
pub open spec fn recoloured_rgb24(
    pixels: Map<(u32, u32), Colour>,
    rect: Rectangle,
    data: Seq<u8>,
    op: Recolour,
) -> Map<(u32, u32), Colour> {
    repaint(
        pixels,
        |p: (u32, u32)| in_rect_signed(rect, p),
        |p: (u32, u32)|
            recoloured(
                spec_rgb24_colour(
                    data,
                    rect.spec_width(),
                    u32_as_i32(p.0 as int) - rect.min.x,
                    u32_as_i32(p.1 as int) - rect.min.y,
                ),
                op,
            ),
    )
}

/// The colours of `pixels` with every pixel of `rect` set to the inverse of
/// its colour in `data`, the RGB24 image of `rect`.
pub open spec fn inverted_rgb24(pixels: Map<(u32, u32), Colour>, rect: Rectangle, data: Seq<u8>) -> Map<
    (u32, u32),
    Colour,
> {
    recoloured_rgb24(pixels, rect, data, Recolour::Invert)
}

/// The colours of `pixels` with every pixel of `rect` set to its colour in
/// `data`, the RGB24 image of `rect`, lowered by `drift`.
pub open spec fn shifted_rgb24(
    pixels: Map<(u32, u32), Colour>,
    rect: Rectangle,
    data: Seq<u8>,
    drift: u8,
) -> Map<(u32, u32), Colour> {
    recoloured_rgb24(pixels, rect, data, Recolour::Shift(drift))
}

/// The position `a` passed as an unsigned coordinate (negative ones wrap).
fn signed_to_unsigned(a: i32) -> (u: u32)
    ensures
        u32_as_i32(u as int) == a,
{
    if a >= 0 {
        a as u32
    } else {
        (a as i64 + 0x1_0000_0000i64) as u32
    }
}

/// Sets every pixel of `rect` to its colour in `data`, the RGB24 image of
/// `rect` read back from the window, recoloured by `op`. A pixel is
/// addressed by its coordinates taken as unsigned ones.
pub fn recolour_rgb24_region<F: Framebuffer + ?Sized>(
    fb: &mut F,
    rect: &Rectangle,
    data: &Vec<u8>,
    op: Recolour,
)
    requires
        rect.is_wf(),
        rgb24_holds(data@, rect.spec_width(), rect.spec_height()),
    ensures
        final(fb).spec_pixels() == recoloured_rgb24(old(fb).spec_pixels(), *rect, data@, op),
        final(fb).spec_updates() == old(fb).spec_updates(),
        painted_on(old(fb).spec_steps(), final(fb).spec_steps()),
        final(fb).spec_rounder() == old(fb).spec_rounder(),
{
    proof {
        lemma_painted_on_refl(fb.spec_steps());
    }
    let ghost p0 = fb.spec_pixels();
    let width = rect.width();
    let height = rect.height();
    let mut y = rect.min.y;
    assert(fb.spec_pixels() =~= repaint(
        p0,
        |p: (u32, u32)| in_rect_signed(*rect, p) && u32_as_i32(p.1 as int) < y,
        |p: (u32, u32)|
            recoloured(
                spec_rgb24_colour(
                    data@,
                    rect.spec_width(),
                    u32_as_i32(p.0 as int) - rect.min.x,
                    u32_as_i32(p.1 as int) - rect.min.y,
                ),
                op,
            ),
    ));
    while y < rect.max.y
        invariant
            rect.is_wf(),
            rect.min.y <= y,
            width == rect.max.x - rect.min.x,
            width == rect.spec_width(),
            height == rect.max.y - rect.min.y,
            rgb24_holds(data@, width as int, height as int),
            fb.spec_updates() == old(fb).spec_updates(),
            painted_on(old(fb).spec_steps(), fb.spec_steps()),
            fb.spec_rounder() == old(fb).spec_rounder(),
            fb.spec_pixels() == repaint(
                p0,
                |p: (u32, u32)| in_rect_signed(*rect, p) && u32_as_i32(p.1 as int) < y,
                |p: (u32, u32)|
                recoloured(
                    spec_rgb24_colour(
                        data@,
                        rect.spec_width(),
                        u32_as_i32(p.0 as int) - rect.min.x,
                        u32_as_i32(p.1 as int) - rect.min.y,
                    ),
                    op,
                ),
            ),
        decreases rect.max.y - y,
    {
        let v = (y as i64 - rect.min.y as i64) as u32;
        let mut x = rect.min.x;
        assert(fb.spec_pixels() =~= repaint(
            p0,
            |p: (u32, u32)|
                in_rect_signed(*rect, p) && (u32_as_i32(p.1 as int) < y || (u32_as_i32(p.1 as int)
                    == y && u32_as_i32(p.0 as int) < x)),
            |p: (u32, u32)|
                recoloured(
                    spec_rgb24_colour(
                        data@,
                        rect.spec_width(),
                        u32_as_i32(p.0 as int) - rect.min.x,
                        u32_as_i32(p.1 as int) - rect.min.y,
                    ),
                    op,
                ),
        ));
        while x < rect.max.x
            invariant
                rect.is_wf(),
                rect.min.x <= x,
                rect.min.y <= y < rect.max.y,
                v == y - rect.min.y,
                width == rect.max.x - rect.min.x,
                width == rect.spec_width(),
                height == rect.max.y - rect.min.y,
                rgb24_holds(data@, width as int, height as int),
                fb.spec_updates() == old(fb).spec_updates(),
                painted_on(old(fb).spec_steps(), fb.spec_steps()),
                fb.spec_rounder() == old(fb).spec_rounder(),
                fb.spec_pixels() == repaint(
                    p0,
                    |p: (u32, u32)|
                        in_rect_signed(*rect, p) && (u32_as_i32(p.1 as int) < y || (u32_as_i32(
                            p.1 as int,
                        ) == y && u32_as_i32(p.0 as int) < x)),
                    |p: (u32, u32)|
                recoloured(
                    spec_rgb24_colour(
                        data@,
                        rect.spec_width(),
                        u32_as_i32(p.0 as int) - rect.min.x,
                        u32_as_i32(p.1 as int) - rect.min.y,
                    ),
                    op,
                ),
                ),
            decreases rect.max.x - x,
        {
            let u = (x as i64 - rect.min.x as i64) as u32;
            let mut colour = rgb24_colour(data, width, height, u, v);
            let ghost read = colour;
            match op {
                Recolour::Invert => colour.invert(),
                Recolour::Shift(drift) => colour.shift(drift),
            }
            let xu = signed_to_unsigned(x);
            let yu = signed_to_unsigned(y);
            assert(colour == recoloured(read, op));
            let ghost mid = fb.spec_steps();
            fb.set_pixel(xu, yu, colour);
            proof {
                lemma_painted_on_push(old(fb).spec_steps(), mid, xu, yu, colour);
            }
            assert(fb.spec_pixels() =~= repaint(
                p0,
                |p: (u32, u32)|
                    in_rect_signed(*rect, p) && (u32_as_i32(p.1 as int) < y || (u32_as_i32(
                        p.1 as int,
                    ) == y && u32_as_i32(p.0 as int) < x + 1)),
                |p: (u32, u32)|
                recoloured(
                    spec_rgb24_colour(
                        data@,
                        rect.spec_width(),
                        u32_as_i32(p.0 as int) - rect.min.x,
                        u32_as_i32(p.1 as int) - rect.min.y,
                    ),
                    op,
                ),
            ));
            x = x + 1;
        }
        assert(fb.spec_pixels() =~= repaint(
            p0,
            |p: (u32, u32)| in_rect_signed(*rect, p) && u32_as_i32(p.1 as int) < y + 1,
            |p: (u32, u32)|
                recoloured(
                    spec_rgb24_colour(
                        data@,
                        rect.spec_width(),
                        u32_as_i32(p.0 as int) - rect.min.x,
                        u32_as_i32(p.1 as int) - rect.min.y,
                    ),
                    op,
                ),
        ));
        y = y + 1;
    }
    assert(fb.spec_pixels() =~= recoloured_rgb24(p0, *rect, data@, op));
}

/// Sets every pixel of `rect` to the inverse of its colour in `data`, the
/// RGB24 image of `rect` read back from the window.
pub fn invert_rgb24_region<F: Framebuffer + ?Sized>(fb: &mut F, rect: &Rectangle, data: &Vec<u8>)
    requires
        rect.is_wf(),
        rgb24_holds(data@, rect.spec_width(), rect.spec_height()),
    ensures
        final(fb).spec_pixels() == inverted_rgb24(old(fb).spec_pixels(), *rect, data@),
        final(fb).spec_updates() == old(fb).spec_updates(),
        painted_on(old(fb).spec_steps(), final(fb).spec_steps()),
        final(fb).spec_rounder() == old(fb).spec_rounder(),
{
    recolour_rgb24_region(fb, rect, data, Recolour::Invert);
}

/// Sets every pixel of `rect` to its colour in `data`, the RGB24 image of
/// `rect` read back from the window, lowered by `drift`.
pub fn shift_rgb24_region<F: Framebuffer + ?Sized>(
    fb: &mut F,
    rect: &Rectangle,
    data: &Vec<u8>,
    drift: u8,
)
    requires
        rect.is_wf(),
        rgb24_holds(data@, rect.spec_width(), rect.spec_height()),
    ensures
        final(fb).spec_pixels() == shifted_rgb24(old(fb).spec_pixels(), *rect, data@, drift),
        final(fb).spec_updates() == old(fb).spec_updates(),
        painted_on(old(fb).spec_steps(), final(fb).spec_steps()),
        final(fb).spec_rounder() == old(fb).spec_rounder(),
{
    recolour_rgb24_region(fb, rect, data, Recolour::Shift(drift));
}

/// `data` is the RGB24 image of `rect` as `pixels` hold it.
pub open spec fn shows_rgb24(pixels: Map<(u32, u32), Colour>, rect: Rectangle, data: Seq<u8>) -> bool {
    forall|p: (u32, u32)|
        #[trigger] in_rect_signed(rect, p) ==> pixels.contains_key(p) && pixels[p]
            == spec_rgb24_colour(
            data,
            rect.spec_width(),
            u32_as_i32(p.0 as int) - rect.min.x,
            u32_as_i32(p.1 as int) - rect.min.y,
        )
}

/// Inverting a region twice gives it back: when `data` is the image of the
/// region as the display holds it, and `again` the image read back after
/// the first inversion, the second inversion restores every pixel.
pub proof fn lemma_invert_twice(
    pixels: Map<(u32, u32), Colour>,
    rect: Rectangle,
    data: Seq<u8>,
    again: Seq<u8>,
)
    requires
        shows_rgb24(pixels, rect, data),
        shows_rgb24(inverted_rgb24(pixels, rect, data), rect, again),
    ensures
        inverted_rgb24(inverted_rgb24(pixels, rect, data), rect, again) == pixels,
{
    let once = inverted_rgb24(pixels, rect, data);
    let twice = inverted_rgb24(once, rect, again);
    assert forall|p: (u32, u32)| #[trigger] twice.contains_key(p) == pixels.contains_key(p) by {}
    assert forall|p: (u32, u32)| twice.contains_key(p) implies #[trigger] twice[p] == pixels[p] by {
        if in_rect_signed(rect, p) {
            assert(once.contains_key(p));
            assert(pixels[p] == spec_rgb24_colour(
                data,
                rect.spec_width(),
                u32_as_i32(p.0 as int) - rect.min.x,
                u32_as_i32(p.1 as int) - rect.min.y,
            ));
            assert(once[p] == spec_rgb24_colour(
                again,
                rect.spec_width(),
                u32_as_i32(p.0 as int) - rect.min.x,
                u32_as_i32(p.1 as int) - rect.min.y,
            ));
            lemma_invert_involutive(pixels[p]);
        }
    }
    assert(twice =~= pixels);
}

} // verus!
