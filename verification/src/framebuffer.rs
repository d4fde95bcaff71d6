//! What the view layer asks of a display: pixels to set, regions to update
//! on the panel, and the tokens of updates under way to wait for.
use vstd::prelude::*;
use crate::colour::Colour;
use crate::geom::{Point, Rectangle};

verus! {

/// How the panel refreshes a region.
#[derive(Debug, Clone, Copy, PartialEq, Eq, Hash, Structural)]
pub enum UpdateMode {
    Gui,
    Partial,
    Full,
    Fast,
    FastMono,
}

/// A bitmap of `width` by `height` pixels of `samples` bytes each (one for a
/// gray level, three for RGB), row after row.
pub struct Pixmap {
    pub width: u32,
    pub height: u32,
    pub samples: usize,
    pub data: Vec<u8>,
}

impl Pixmap {
    /// The data holds every pixel, and a pixel has one or three samples.
    pub open spec fn is_wf(&self) -> bool {
        &&& self.samples == 1 || self.samples == 3
        &&& self.data@.len() == self.samples * self.width * self.height
    }

    /// The colour stored for the pixel `(x, y)`.
    pub open spec fn spec_pixel(&self, x: int, y: int) -> Colour {
        let addr = self.samples * (y * self.width + x);
        if self.samples == 1 {
            Colour::Gray(self.data@[addr])
        } else {
            Colour::Rgb(self.data@[addr], self.data@[addr + 1], self.data@[addr + 2])
        }
    }
}

impl Pixmap {
    /// Whether the data holds every pixel, with one or three samples each.
    pub fn check_wf(&self) -> (b: bool)
        ensures
            b == self.is_wf(),
    {
        if self.samples != 1 && self.samples != 3 {
            return false;
        }
        let w = self.width as u128;
        let h = self.height as u128;
        let s = self.samples as u128;
        proof {
            assert(w * h <= 0xffff_ffff * 0xffff_ffff) by (nonlinear_arith)
                requires
                    w <= 0xffff_ffff,
                    h <= 0xffff_ffff,
            ;
            assert(s * (w * h) <= 3 * (0xffff_ffff * 0xffff_ffff)) by (nonlinear_arith)
                requires
                    s <= 3,
                    w * h <= 0xffff_ffff * 0xffff_ffff,
            ;
            assert(s * (w * h) == s * w * h) by (nonlinear_arith);
        }
        self.data.len() as u128 == s * (w * h)
    }
}

/// The colour stored for a pixel of a pixmap.
pub fn pixmap_pixel(pixmap: &Pixmap, x: u32, y: u32) -> (c: Colour)
    requires
        pixmap.is_wf(),
        x < pixmap.width,
        y < pixmap.height,
    ensures
        c == pixmap.spec_pixel(x as int, y as int),
{
    let w = pixmap.width as usize;
    let h = pixmap.height as usize;
    let s = pixmap.samples;
    proof {
        assert(y * w + x + 1 <= w * h) by (nonlinear_arith)
            requires
                x < w,
                y < h,
        ;
        assert(s * (y * w + x) + s <= s * (w * h)) by (nonlinear_arith)
            requires
                y * w + x + 1 <= w * h,
                s >= 1,
        ;
        assert(s * (w * h) == s * w * h) by (nonlinear_arith);
        assert(y * w + x <= s * (y * w + x)) by (nonlinear_arith)
            requires
                s >= 1,
        ;
        assert(pixmap.data@.len() == pixmap.data.len());
        assert(s * (y * w + x) + s <= pixmap.data.len());
        assert(y * w <= y * w + x);
    }
    let addr = pixmap.samples * (y as usize * w + x as usize);
    if pixmap.samples == 1 {
        Colour::Gray(pixmap.data[addr])
    } else {
        Colour::Rgb(pixmap.data[addr], pixmap.data[addr + 1], pixmap.data[addr + 2])
    }
}

/// The colours of `pixels`, with those of the pixels where `inside` holds
/// replaced by `colour_of` them.
pub open spec fn repaint(
    pixels: Map<(u32, u32), Colour>,
    inside: spec_fn((u32, u32)) -> bool,
    colour_of: spec_fn((u32, u32)) -> Colour,
) -> Map<(u32, u32), Colour> {
    Map::new(
        |p: (u32, u32)| pixels.contains_key(p) || inside(p),
        |p: (u32, u32)|
            if inside(p) {
                colour_of(p)
            } else {
                pixels[p]
            },
    )
}

/// The pixel `p` lies in `rect`.
pub open spec fn in_rect(rect: Rectangle, p: (u32, u32)) -> bool {
    rect.min.x <= p.0 < rect.max.x && rect.min.y <= p.1 < rect.max.y
}

/// The colours of `pixels` with every pixel of `rect` set to `colour`.
pub open spec fn painted(pixels: Map<(u32, u32), Colour>, rect: Rectangle, colour: Colour) -> Map<
    (u32, u32),
    Colour,
> {
    repaint(pixels, |p: (u32, u32)| in_rect(rect, p), |p: (u32, u32)| colour)
}

/// The pixel of `frame` (in the coordinates of the pixmap) that `p` shows
/// when the frame is drawn with its top left corner at `pt`.
pub open spec fn frame_source(frame: Rectangle, pt: Point, p: (u32, u32)) -> (int, int) {
    (p.0 - pt.x + frame.min.x, p.1 - pt.y + frame.min.y)
}

/// `p` shows a pixel of the frame that lies in the pixmap.
pub open spec fn in_frame(pixmap: &Pixmap, frame: Rectangle, pt: Point, p: (u32, u32)) -> bool {
    let s = frame_source(frame, pt, p);
    &&& frame.min.x <= s.0 < frame.max.x
    &&& frame.min.y <= s.1 < frame.max.y
    &&& 0 <= s.0 < pixmap.width
    &&& 0 <= s.1 < pixmap.height
}

/// The colours of `pixels` with the part `frame` of `pixmap` drawn with its
/// top left corner at `pt`.
pub open spec fn framed(
    pixels: Map<(u32, u32), Colour>,
    pixmap: &Pixmap,
    frame: Rectangle,
    pt: Point,
) -> Map<(u32, u32), Colour> {
    repaint(
        pixels,
        |p: (u32, u32)| in_frame(pixmap, frame, pt, p),
        |p: (u32, u32)|
            pixmap.spec_pixel(frame_source(frame, pt, p).0, frame_source(frame, pt, p).1),
    )
}

/// How a display draws a rounded rectangle with a border: the colours of
/// the pixels after the drawing, from those before it, the rectangle, the
/// corner radius, the border thickness, the border colour and the fill.
pub type Rounder = spec_fn(Map<(u32, u32), Colour>, Rectangle, i32, u16, Colour, Colour) -> Map<
    (u32, u32),
    Colour,
>;

/// A refresh asked of a panel: the region, the mode, and the token the
/// panel gave back for it (none when it refused it).
pub type Refresh = (Rectangle, UpdateMode, Option<u32>);

/// The token of an answer to a refresh, if the panel took it.
pub open spec fn answer(r: Result<u32, String>) -> Option<u32> {
    match r {
        Ok(token) => Some(token),
        Err(_) => None,
    }
}

/// The colour of each pixel set so far.
pub type PixelMap = Map<(u32, u32), Colour>;

/// A step a display is asked to take: setting a pixel, or waiting for the
/// end of the refresh of a token, with the colours the pixels had then.
pub enum Step {
    Pixel(u32, u32, Colour),
    Wait(u32, PixelMap),
}

/// Every step of `steps` sets a pixel.
pub open spec fn all_pixels(steps: Seq<Step>) -> bool {
    forall|i: int| 0 <= i < steps.len() ==> (#[trigger] steps[i]) is Pixel
}

/// `after` is `before` followed by steps that only set pixels.
pub open spec fn painted_on(before: Seq<Step>, after: Seq<Step>) -> bool {
    &&& after.len() >= before.len()
    &&& after.take(before.len() as int) == before
    &&& all_pixels(after.skip(before.len() as int))
}

/// Waits for each token of `tokens`, in order, while the pixels hold
/// `pixels`.
pub open spec fn waits_of(tokens: Seq<u32>, pixels: PixelMap) -> Seq<Step> {
    tokens.map_values(|t: u32| Step::Wait(t, pixels))
}

/// Setting one more pixel keeps a run of pixel steps.
pub proof fn lemma_painted_on_push(before: Seq<Step>, mid: Seq<Step>, x: u32, y: u32, c: Colour)
    requires
        painted_on(before, mid),
    ensures
        painted_on(before, mid.push(Step::Pixel(x, y, c))),
{
    let after = mid.push(Step::Pixel(x, y, c));
    assert(after.take(before.len() as int) =~= mid.take(before.len() as int));
    assert(after.skip(before.len() as int) =~= mid.skip(before.len() as int).push(
        Step::Pixel(x, y, c),
    ));
    let t = after.skip(before.len() as int);
    assert forall|i: int| 0 <= i < t.len() implies (#[trigger] t[i]) is Pixel by {
        if i < t.len() - 1 {
            assert(t[i] == mid.skip(before.len() as int)[i]);
        }
    }
}

/// Two runs of pixel steps make one.
pub proof fn lemma_painted_on_trans(a: Seq<Step>, b: Seq<Step>, c: Seq<Step>)
    requires
        painted_on(a, b),
        painted_on(b, c),
    ensures
        painted_on(a, c),
{
    assert(c.take(a.len() as int) =~= b.take(a.len() as int)) by {
        assert forall|i: int| 0 <= i < a.len() implies c[i] == b[i] by {
            assert(c.take(b.len() as int)[i] == c[i]);
        }
    }
    let t = c.skip(a.len() as int);
    assert forall|i: int| 0 <= i < t.len() implies (#[trigger] t[i]) is Pixel by {
        if a.len() + i < b.len() {
            assert(t[i] == b.skip(a.len() as int)[i]) by {
                assert(c.take(b.len() as int)[a.len() + i] == c[a.len() + i]);
            }
        } else {
            assert(t[i] == c.skip(b.len() as int)[a.len() + i - b.len()]);
        }
    }
}

/// Taking no step keeps a run of pixel steps, empty.
pub proof fn lemma_painted_on_refl(a: Seq<Step>)
    ensures
        painted_on(a, a),
{
    assert(a.take(a.len() as int) =~= a);
    assert(a.skip(a.len() as int) =~= Seq::<Step>::empty());
}

/// A display. It holds a colour for each pixel set so far, the list of the
/// refreshes asked of its panel with their answers, and the steps it was
/// asked to take (pixels set and waits), in order; it draws rounded
/// rectangles its own way. `update` asks the panel to refresh a region and
/// gives back a token for the refresh, and `wait` blocks until the refresh
/// of a token ends; the token and the outcome depend on the device.
///
/// The contracts of the methods speak of that record, and what is proved
/// of the pixels and the steps holds of a display that keeps it. The
/// bodies of the record's spec functions below are placeholders that an
/// implementation outside verified code cannot replace: such a display
/// keeps no record, does not meet the contracts, and nothing proved here
/// about pixels or steps speaks of it.
pub trait Framebuffer {
    /// The colour held for each pixel set so far; the placeholder holds
    /// none.
    closed spec fn spec_pixels(&self) -> Map<(u32, u32), Colour> {
        Map::empty()
    }

    /// The refreshes asked of the panel so far, in order; the placeholder
    /// holds none.
    closed spec fn spec_updates(&self) -> Seq<Refresh> {
        Seq::empty()
    }

    /// The steps taken so far, in order: pixels set and waits; the
    /// placeholder holds none.
    closed spec fn spec_steps(&self) -> Seq<Step> {
        Seq::empty()
    }

    /// How the display draws rounded rectangles; the placeholder changes
    /// no pixel.
    closed spec fn spec_rounder(&self) -> Rounder {
        |p: Map<(u32, u32), Colour>, r: Rectangle, c: i32, t: u16, b: Colour, f: Colour| p
    }

    /// Sets the colour of the pixel `(x, y)`.
    fn set_pixel(&mut self, x: u32, y: u32, colour: Colour)
        ensures
            final(self).spec_pixels() == old(self).spec_pixels().insert((x, y), colour),
            final(self).spec_updates() == old(self).spec_updates(),
            final(self).spec_steps() == old(self).spec_steps().push(Step::Pixel(x, y, colour)),
            final(self).spec_rounder() == old(self).spec_rounder(),
    ;

    /// Asks the panel to refresh `rect` with `mode`.
    fn update(&mut self, rect: &Rectangle, mode: UpdateMode) -> (r: Result<u32, String>)
        ensures
            final(self).spec_pixels() == old(self).spec_pixels(),
            final(self).spec_updates() == old(self).spec_updates().push((*rect, mode, answer(r))),
            final(self).spec_steps() == old(self).spec_steps(),
            final(self).spec_rounder() == old(self).spec_rounder(),
    ;

    /// Waits for the end of the refresh of `token`.
    fn wait(&mut self, token: u32) -> (r: Result<i32, String>)
        ensures
            final(self).spec_pixels() == old(self).spec_pixels(),
            final(self).spec_updates() == old(self).spec_updates(),
            final(self).spec_steps() == old(self).spec_steps().push(
                Step::Wait(token, old(self).spec_pixels()),
            ),
            final(self).spec_rounder() == old(self).spec_rounder(),
    ;

    /// Draws a rounded rectangle with a border, as the display draws them.
    fn draw_rounded_rectangle_with_border(
        &mut self,
        rect: &Rectangle,
        corner_radius: i32,
        border_thickness: u16,
        border_colour: Colour,
        fill: Colour,
    )
        ensures
            final(self).spec_pixels() == (old(self).spec_rounder())(
                old(self).spec_pixels(),
                *rect,
                corner_radius,
                border_thickness,
                border_colour,
                fill,
            ),
            final(self).spec_updates() == old(self).spec_updates(),
            painted_on(old(self).spec_steps(), final(self).spec_steps()),
            final(self).spec_rounder() == old(self).spec_rounder(),
    ;

    /// Paints every pixel of `rect` that has non-negative coordinates.
    fn draw_rectangle(&mut self, rect: &Rectangle, colour: Colour)
        ensures
            final(self).spec_pixels() == painted(old(self).spec_pixels(), *rect, colour),
            final(self).spec_updates() == old(self).spec_updates(),
            painted_on(old(self).spec_steps(), final(self).spec_steps()),
            final(self).spec_rounder() == old(self).spec_rounder(),
    {
        let ghost p0 = self.spec_pixels();
        proof {
            lemma_painted_on_refl(self.spec_steps());
        }
        let mut y = if rect.min.y < 0 { 0 } else { rect.min.y };
        assert(self.spec_pixels() =~= repaint(
            p0,
            |p: (u32, u32)| in_rect(*rect, p) && p.1 < y,
            |p: (u32, u32)| colour,
        ));
        while y < rect.max.y
            invariant
                0 <= y,
                rect.min.y <= y,
                self.spec_updates() == old(self).spec_updates(),
                painted_on(old(self).spec_steps(), self.spec_steps()),
                self.spec_rounder() == old(self).spec_rounder(),
                self.spec_pixels() == repaint(
                    p0,
                    |p: (u32, u32)| in_rect(*rect, p) && p.1 < y,
                    |p: (u32, u32)| colour,
                ),
            decreases rect.max.y - y,
        {
            let mut x = if rect.min.x < 0 { 0 } else { rect.min.x };
            assert(self.spec_pixels() =~= repaint(
                p0,
                |p: (u32, u32)| in_rect(*rect, p) && (p.1 < y || (p.1 == y && p.0 < x)),
                |p: (u32, u32)| colour,
            ));
            while x < rect.max.x
                invariant
                    0 <= y < rect.max.y,
                    rect.min.y <= y,
                    0 <= x,
                    rect.min.x <= x,
                    self.spec_updates() == old(self).spec_updates(),
                painted_on(old(self).spec_steps(), self.spec_steps()),
                self.spec_rounder() == old(self).spec_rounder(),
                self.spec_pixels() == repaint(
                        p0,
                        |p: (u32, u32)| in_rect(*rect, p) && (p.1 < y || (p.1 == y && p.0 < x)),
                        |p: (u32, u32)| colour,
                    ),
                decreases rect.max.x - x,
            {
                let xu: u32 = x as u32;
                let yu: u32 = y as u32;
                assert(xu == x && yu == y);
                let ghost mid = self.spec_steps();
                self.set_pixel(xu, yu, colour);
                proof {
                    lemma_painted_on_push(old(self).spec_steps(), mid, xu, yu, colour);
                }
                assert(self.spec_pixels() =~= repaint(
                    p0,
                    |p: (u32, u32)| in_rect(*rect, p) && (p.1 < y || (p.1 == y && p.0 < x + 1)),
                    |p: (u32, u32)| colour,
                ));
                x = x + 1;
            }
            assert(self.spec_pixels() =~= repaint(
                p0,
                |p: (u32, u32)| in_rect(*rect, p) && p.1 < y + 1,
                |p: (u32, u32)| colour,
            ));
            y = y + 1;
        }
        assert(self.spec_pixels() =~= painted(p0, *rect, colour));
    }

    /// Paints the part `frame` of `pixmap` with its top left corner at `pt`:
    /// each pixel of the frame that lies in the pixmap goes to its place
    /// relative to `pt`, where that place has non-negative coordinates.
    fn draw_framed_pixmap(&mut self, pixmap: &Pixmap, frame: &Rectangle, pt: Point)
        requires
            pixmap.is_wf(),
        ensures
            final(self).spec_pixels() == framed(old(self).spec_pixels(), pixmap, *frame, pt),
            final(self).spec_updates() == old(self).spec_updates(),
            painted_on(old(self).spec_steps(), final(self).spec_steps()),
            final(self).spec_rounder() == old(self).spec_rounder(),
    {
        let ghost p0 = self.spec_pixels();
        proof {
            lemma_painted_on_refl(self.spec_steps());
        }
        let mut y = if frame.min.y < 0 { 0 } else { frame.min.y };
        assert(self.spec_pixels() =~= repaint(
            p0,
            |p: (u32, u32)| in_frame(pixmap, *frame, pt, p) && frame_source(*frame, pt, p).1 < y,
            |p: (u32, u32)|
                pixmap.spec_pixel(
                    frame_source(*frame, pt, p).0,
                    frame_source(*frame, pt, p).1,
                ),
        ));
        while y < frame.max.y && (y as i64) < pixmap.height as i64
            invariant
                pixmap.is_wf(),
                0 <= y,
                frame.min.y <= y,
                self.spec_updates() == old(self).spec_updates(),
                painted_on(old(self).spec_steps(), self.spec_steps()),
                self.spec_rounder() == old(self).spec_rounder(),
                self.spec_pixels() == repaint(
                    p0,
                    |p: (u32, u32)|
                        in_frame(pixmap, *frame, pt, p) && frame_source(*frame, pt, p).1 < y,
                    |p: (u32, u32)|
                        pixmap.spec_pixel(
                            frame_source(*frame, pt, p).0,
                            frame_source(*frame, pt, p).1,
                        ),
                ),
            decreases frame.max.y - y,
        {
            let mut x = if frame.min.x < 0 { 0 } else { frame.min.x };
            assert(self.spec_pixels() =~= repaint(
                p0,
                |p: (u32, u32)|
                    in_frame(pixmap, *frame, pt, p) && (frame_source(*frame, pt, p).1 < y || (
                    frame_source(*frame, pt, p).1 == y && frame_source(*frame, pt, p).0 < x)),
                |p: (u32, u32)|
                    pixmap.spec_pixel(
                        frame_source(*frame, pt, p).0,
                        frame_source(*frame, pt, p).1,
                    ),
            ));
            while x < frame.max.x && (x as i64) < pixmap.width as i64
                invariant
                    pixmap.is_wf(),
                    0 <= y < pixmap.height,
                    frame.min.y <= y < frame.max.y,
                    0 <= x,
                    frame.min.x <= x,
                    self.spec_updates() == old(self).spec_updates(),
                painted_on(old(self).spec_steps(), self.spec_steps()),
                self.spec_rounder() == old(self).spec_rounder(),
                self.spec_pixels() == repaint(
                        p0,
                        |p: (u32, u32)|
                            in_frame(pixmap, *frame, pt, p) && (frame_source(*frame, pt, p).1 < y
                                || (frame_source(*frame, pt, p).1 == y && frame_source(
                                *frame,
                                pt,
                                p,
                            ).0 < x)),
                        |p: (u32, u32)|
                            pixmap.spec_pixel(
                                frame_source(*frame, pt, p).0,
                                frame_source(*frame, pt, p).1,
                            ),
                    ),
                decreases frame.max.x - x,
            {
                let colour = pixmap_pixel(pixmap, x as u32, y as u32);
                let px: i64 = pt.x as i64 + (x as i64 - frame.min.x as i64);
                let py: i64 = pt.y as i64 + (y as i64 - frame.min.y as i64);
                if 0 <= px && px <= u32::MAX as i64 && 0 <= py && py <= u32::MAX as i64 {
                    let pxu: u32 = px as u32;
                    let pyu: u32 = py as u32;
                    assert(pxu == px && pyu == py);
                    let ghost mid = self.spec_steps();
                    self.set_pixel(pxu, pyu, colour);
                    proof {
                        lemma_painted_on_push(old(self).spec_steps(), mid, pxu, pyu, colour);
                    }
                }
                assert(self.spec_pixels() =~= repaint(
                    p0,
                    |p: (u32, u32)|
                        in_frame(pixmap, *frame, pt, p) && (frame_source(*frame, pt, p).1 < y || (
                        frame_source(*frame, pt, p).1 == y && frame_source(*frame, pt, p).0 < x
                            + 1)),
                    |p: (u32, u32)|
                        pixmap.spec_pixel(
                            frame_source(*frame, pt, p).0,
                            frame_source(*frame, pt, p).1,
                        ),
                ));
                x = x + 1;
            }
            assert(self.spec_pixels() =~= repaint(
                p0,
                |p: (u32, u32)|
                    in_frame(pixmap, *frame, pt, p) && frame_source(*frame, pt, p).1 < y + 1,
                |p: (u32, u32)|
                    pixmap.spec_pixel(
                        frame_source(*frame, pt, p).0,
                        frame_source(*frame, pt, p).1,
                    ),
            ));
            y = y + 1;
        }
        assert(self.spec_pixels() =~= framed(p0, pixmap, *frame, pt));
    }
}

} // verus!
