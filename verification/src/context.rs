//! What views draw with: the framebuffer, the font of their labels, and the
//! resolution of the screen.
use vstd::prelude::*;
use crate::colour::Colour;
use crate::framebuffer::{painted_on, Framebuffer, Rounder};
use crate::geom::{div_trunc, u32_as_i32, Point, Rectangle};

verus! {

/// How a font lays out a text: its width on one line, cut at the given
/// width when there is one.
pub type Planner = spec_fn(Seq<char>, Option<i32>) -> i32;

/// How a font draws a text: the colours of the pixels after the drawing,
/// from those before it, the colour, the text, the width it is cut at and
/// the start of its baseline.
pub type Renderer = spec_fn(Map<(u32, u32), Colour>, Colour, Seq<char>, Option<i32>, Point) -> Map<
    (u32, u32),
    Colour,
>;

/// The font that views lay their labels out with. Text shaping belongs to
/// the font engine of the device: the font is described by how it lays out
/// and draws texts and by its sizes, which its methods keep.
///
/// What is proved of the widths and pixels of labels holds of a font whose
/// description meets the contracts of its methods. The bodies of the spec
/// functions below are placeholders that an implementation outside
/// verified code cannot replace: such a font does not meet the contracts
/// in general, and nothing proved here about widths or pixels speaks of
/// it.
pub trait Font {
    /// How the font lays out texts; the placeholder gives every text no
    /// width.
    closed spec fn spec_planner(&self) -> Planner {
        |t: Seq<char>, m: Option<i32>| 0i32
    }

    /// The size of an em, in pixels; the placeholder is zero.
    closed spec fn spec_em(&self) -> u16 {
        0
    }

    /// The height of a lower-case letter, in pixels; the placeholder is
    /// zero.
    closed spec fn spec_x_height(&self) -> u32 {
        0
    }

    /// How the font draws texts; the placeholder changes no pixel.
    closed spec fn spec_renderer(&self) -> Renderer {
        |p: Map<(u32, u32), Colour>, c: Colour, t: Seq<char>, m: Option<i32>, o: Point| p
    }

    /// The width of `text` laid out on one line, cut at `max_width` when given.
    fn plan_width(&mut self, text: &str, max_width: Option<i32>) -> (w: i32)
        ensures
            w == (old(self).spec_planner())(text@, max_width),
            final(self).spec_planner() == old(self).spec_planner(),
            final(self).spec_em() == old(self).spec_em(),
            final(self).spec_x_height() == old(self).spec_x_height(),
            final(self).spec_renderer() == old(self).spec_renderer(),
    ;

    /// The size of an em, in pixels.
    fn em(&self) -> (e: u16)
        ensures
            e == self.spec_em(),
    ;

    /// The height of a lower-case letter, in pixels.
    fn x_height(&self) -> (h: u32)
        ensures
            h == self.spec_x_height(),
    ;

    /// Draws `text`, laid out as `plan_width` lays it out, with its baseline
    /// starting at `origin`.
    fn render(
        &mut self,
        fb: &mut Box<dyn Framebuffer>,
        colour: Colour,
        text: &str,
        max_width: Option<i32>,
        origin: Point,
    )
        ensures
            final(fb).spec_pixels() == (old(self).spec_renderer())(
                old(fb).spec_pixels(),
                colour,
                text@,
                max_width,
                origin,
            ),
            final(fb).spec_updates() == old(fb).spec_updates(),
            painted_on(old(fb).spec_steps(), final(fb).spec_steps()),
            final(fb).spec_rounder() == old(fb).spec_rounder(),
            final(self).spec_planner() == old(self).spec_planner(),
            final(self).spec_em() == old(self).spec_em(),
            final(self).spec_x_height() == old(self).spec_x_height(),
            final(self).spec_renderer() == old(self).spec_renderer(),
    ;
}

/// The drawing context of the views.
pub struct Context {
    pub fb: Box<dyn Framebuffer>,
    pub font: Box<dyn Font>,
    /// The resolution of the screen, in dots per inch.
    pub dpi: u16,
}

/// What views draw with, besides the pixels: how the display draws rounded
/// rectangles, how the font lays out and draws texts, its em and x-height,
/// and the resolution.
pub type Setting = (Rounder, Planner, u16, u32, Renderer, u16);

/// The setting of a context.
pub open spec fn setting(ctx: Context) -> Setting {
    (
        ctx.fb.spec_rounder(),
        ctx.font.spec_planner(),
        ctx.font.spec_em(),
        ctx.font.spec_x_height(),
        ctx.font.spec_renderer(),
        ctx.dpi,
    )
}

/// A length given in pixels at 300 DPI, scaled to `dpi` and truncated.
pub open spec fn spec_scale_by_dpi(length: int, dpi: int) -> int {
    length * dpi / 300
}

pub fn scale_by_dpi(length: u32, dpi: u16) -> (l: u64)
    ensures
        l == spec_scale_by_dpi(length as int, dpi as int),
{
    proof {
        assert(length * dpi <= 0xffff_ffff * 0xffff) by (nonlinear_arith)
            requires
                length <= 0xffff_ffff,
                dpi <= 0xffff,
        ;
    }
    length as u64 * dpi as u64 / 300
}

/// Where a label starts: `padding` plus half of what `span` leaves of
/// `plan_width` from the left of `rect`, and half of what its height leaves
/// of `x_height` above its bottom, in the 32-bit arithmetic of the sides.
pub open spec fn spec_text_origin(
    rect: Rectangle,
    padding: int,
    span: int,
    plan_width: int,
    x_height: int,
) -> (int, int) {
    (
        rect.min.x + padding + div_trunc(span - plan_width, 2),
        rect.max.y - div_trunc(u32_as_i32(rect.spec_height()) - x_height, 2),
    )
}

/// Where a label laid out `plan` pixels wide starts in `rect`, with no
/// padding and the whole width of `rect` to span, for a font of the given
/// x-height.
pub open spec fn label_origin(rect: Rectangle, plan: i32, x_height: u32) -> Point {
    let o = spec_text_origin(
        rect,
        0,
        u32_as_i32(rect.spec_width()),
        plan as int,
        u32_as_i32(x_height as int),
    );
    Point { x: clamp_i32(o.0) as i32, y: clamp_i32(o.1) as i32 }
}

/// A coordinate, cut to the 32-bit range.
pub open spec fn clamp_i32(v: int) -> int {
    if v < i32::MIN {
        i32::MIN as int
    } else if v > i32::MAX {
        i32::MAX as int
    } else {
        v
    }
}

/// Where a label starts, as `spec_text_origin` says, each coordinate cut to
/// the 32-bit range.
pub fn text_origin(rect: &Rectangle, padding: i32, span: i32, plan_width: i32, x_height: i32) -> (p: Point)
    ensures
        p.x == clamp_i32(spec_text_origin(*rect, padding as int, span as int, plan_width as int, x_height as int).0),
        p.y == clamp_i32(spec_text_origin(*rect, padding as int, span as int, plan_width as int, x_height as int).1),
{
    let h = rect.height();
    let hi: i64 = if h <= 0x7fff_ffff { h as i64 } else { h as i64 - 0x1_0000_0000i64 };
    let x: i64 = rect.min.x as i64 + padding as i64 + (span as i64 - plan_width as i64) / 2;
    let y: i64 = rect.max.y as i64 - (hi - x_height as i64) / 2;
    Point::new(clamp_to_i32(x), clamp_to_i32(y))
}

fn clamp_to_i32(v: i64) -> (r: i32)
    ensures
        r == clamp_i32(v as int),
{
    if v < i32::MIN as i64 {
        i32::MIN
    } else if v > i32::MAX as i64 {
        i32::MAX
    } else {
        v as i32
    }
}

} // verus!
